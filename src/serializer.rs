//! Writing a netlist back out in the structural subset it was read from.
use vstd::prelude::*;
use crate::text::{concat, concat3};
use crate::verilog::{
    GateView, Module, ModuleView, PortView, PortWire, RangeView, SignalRange, Verilog, Wire,
    WireView, Gate,
};

verus! {

/// The text of a bit range in a declaration: `[msb:lsb] `, or nothing for a scalar.
pub open spec fn range_text(r: RangeView) -> Seq<char> {
    match r {
        RangeView::Multiple(a, b) => "["@ + a + ":"@ + b + "] "@,
        RangeView::Single => Seq::empty(),
    }
}

/// The port names of a module header, separated by commas.
pub open spec fn names_text(ws: Seq<WireView>) -> Seq<char>
    decreases ws.len(),
{
    if ws.len() == 0 {
        Seq::empty()
    } else if ws.len() == 1 {
        ws[0].name
    } else {
        names_text(ws.drop_last()) + ", "@ + ws.last().name
    }
}

/// One declaration line per wire of `ws`, of kind `kind`.
pub open spec fn decls_text(kind: Seq<char>, ws: Seq<WireView>) -> Seq<char>
    decreases ws.len(),
{
    if ws.len() == 0 {
        Seq::empty()
    } else {
        decls_text(kind, ws.drop_last()) + "  "@ + kind + " "@ + range_text(ws.last().range)
            + ws.last().name + ";\n"@
    }
}

/// One line per continuous assign.
pub open spec fn assigns_text(assigns: Seq<Seq<char>>) -> Seq<char>
    decreases assigns.len(),
{
    if assigns.len() == 0 {
        Seq::empty()
    } else {
        assigns_text(assigns.drop_last()) + "  assign "@ + assigns.last() + ";\n"@
    }
}

/// The text of a binding: `.port(wire)`.
pub open spec fn port_text(p: PortView) -> Seq<char> {
    "."@ + p.port + "("@ + p.wire + ")"@
}

/// The bindings of a gate, separated by commas.
pub open spec fn ports_text(ps: Seq<PortView>) -> Seq<char>
    decreases ps.len(),
{
    if ps.len() == 0 {
        Seq::empty()
    } else if ps.len() == 1 {
        port_text(ps[0])
    } else {
        ports_text(ps.drop_last()) + ", "@ + port_text(ps.last())
    }
}

/// The text of a gate's bindings in parentheses.
pub open spec fn gate_text(g: GateView) -> Seq<char> {
    "( "@ + ports_text(g.ports) + " )"@
}

/// One line per gate instance.
pub open spec fn gates_text(gs: Seq<(Seq<char>, GateView)>) -> Seq<char>
    decreases gs.len(),
{
    if gs.len() == 0 {
        Seq::empty()
    } else {
        gates_text(gs.drop_last()) + "  "@ + gs.last().1.name + " "@ + gs.last().0 + " "@
            + gate_text(gs.last().1) + ";\n"@
    }
}

/// The text of a module.
pub open spec fn module_text(m: ModuleView) -> Seq<char> {
    "module "@ + m.name + " ( "@ + names_text(m.inputs + m.outputs) + " );\n"@
        + decls_text("input"@, m.inputs) + decls_text("output"@, m.outputs)
        + decls_text("wire"@, m.wires) + assigns_text(m.assigns) + "\n"@ + gates_text(m.gates)
        + "endmodule\n"@
}

/// The text of a netlist: its modules separated by empty lines.
pub open spec fn netlist_text(ms: Seq<ModuleView>) -> Seq<char>
    decreases ms.len(),
{
    if ms.len() == 0 {
        Seq::empty()
    } else if ms.len() == 1 {
        module_text(ms[0])
    } else {
        netlist_text(ms.drop_last()) + "\n"@ + module_text(ms.last())
    }
}

impl SignalRange {
    /// The range as it stands in a declaration.
    pub fn gen(&self) -> (r: String)
        ensures
            r@ == range_text(self@),
    {
        match self {
            SignalRange::Multiple(a, b) => {
                let s = concat3("[", a.as_str(), ":");
                concat3(s.as_str(), b.as_str(), "] ")
            },
            SignalRange::Single => String::new(),
        }
    }
}

impl PortWire {
    /// The binding as it stands in an instance: `.port(wire)`.
    pub fn gen(&self) -> (r: String)
        ensures
            r@ == port_text(self@),
    {
        let s = concat3(".", self.port(), "(");
        concat3(s.as_str(), self.wire(), ")")
    }
}

impl Gate {
    /// The bindings of the instance in parentheses.
    pub fn gen(&self) -> (r: String)
        ensures
            r@ == gate_text(self@),
    {
        let ghost ps = self@.ports;
        let mut body = String::new();
        let mut i: usize = 0;
        while i < self.ports.len()
            invariant
                ps == self@.ports,
                i <= self.ports.len(),
                body@ == ports_text(ps.subrange(0, i as int)),
            decreases self.ports.len() - i,
        {
            let p = self.ports[i].gen();
            assert(ps[i as int] == self.ports@[i as int]@);
            assert(ps.subrange(0, i + 1).drop_last() =~= ps.subrange(0, i as int));
            if i == 0 {
                body = p;
                assert(ports_text(ps.subrange(0, 1)) == port_text(ps[0]));
            } else {
                body = concat3(body.as_str(), ", ", p.as_str());
            }
            i = i + 1;
        }
        assert(ps.subrange(0, i as int) =~= ps);
        concat3("( ", body.as_str(), " )")
    }
}

/// One declaration line per wire of `ws`.
fn gen_decls(kind: &str, ws: &Vec<Wire>) -> (r: String)
    ensures
        r@ == decls_text(kind@, crate::verilog::wire_views(ws@)),
{
    let ghost wv = crate::verilog::wire_views(ws@);
    let mut out = String::new();
    let mut i: usize = 0;
    while i < ws.len()
        invariant
            wv == crate::verilog::wire_views(ws@),
            i <= ws.len(),
            out@ == decls_text(kind@, wv.subrange(0, i as int)),
        decreases ws.len() - i,
    {
        assert(wv[i as int] == ws@[i as int]@);
        assert(wv.subrange(0, i + 1).drop_last() =~= wv.subrange(0, i as int));
        let head = concat3(out.as_str(), "  ", kind);
        let range = ws[i].range.gen();
        let mid = concat3(head.as_str(), " ", range.as_str());
        out = concat3(mid.as_str(), ws[i].name.as_str(), ";\n");
        i = i + 1;
    }
    assert(wv.subrange(0, i as int) =~= wv);
    out
}

impl Module {
    /// The text of the module.
    pub fn gen(&self) -> (r: String)
        ensures
            r@ == module_text(self@),
    {
        let pins = self.pins();
        let ghost pv = crate::verilog::wire_views(pins@);
        let mut names = String::new();
        let mut i: usize = 0;
        while i < pins.len()
            invariant
                pv == crate::verilog::wire_views(pins@),
                i <= pins.len(),
                names@ == names_text(pv.subrange(0, i as int)),
            decreases pins.len() - i,
        {
            assert(pv[i as int] == pins@[i as int]@);
            assert(pv.subrange(0, i + 1).drop_last() =~= pv.subrange(0, i as int));
            if i == 0 {
                names = pins[i].name.clone();
                assert(names_text(pv.subrange(0, 1)) == pv[0].name);
            } else {
                names = concat3(names.as_str(), ", ", pins[i].name.as_str());
            }
            i = i + 1;
        }
        assert(pv.subrange(0, i as int) =~= pv);
        let head = concat3("module ", self.name.as_str(), " ( ");
        let mut out = concat3(head.as_str(), names.as_str(), " );\n");
        out = concat(out.as_str(), gen_decls("input", &self.inputs).as_str());
        out = concat(out.as_str(), gen_decls("output", &self.outputs).as_str());
        out = concat(out.as_str(), gen_decls("wire", &self.wires).as_str());
        let ghost before_assigns = out@;
        let ghost av = self@.assigns;
        let mut assigns = String::new();
        let mut i: usize = 0;
        while i < self.assigns.len()
            invariant
                av == self@.assigns,
                i <= self.assigns.len(),
                assigns@ == assigns_text(av.subrange(0, i as int)),
            decreases self.assigns.len() - i,
        {
            assert(av[i as int] == self.assigns@[i as int]@);
            assert(av.subrange(0, i + 1).drop_last() =~= av.subrange(0, i as int));
            assigns = concat3(assigns.as_str(), "  assign ", self.assigns[i].as_str());
            assigns = concat(assigns.as_str(), ";\n");
            i = i + 1;
        }
        assert(av.subrange(0, i as int) =~= av);
        out = concat3(out.as_str(), assigns.as_str(), "\n");
        let ghost gv = self@.gates;
        let mut gates = String::new();
        let mut i: usize = 0;
        while i < self.gates.len()
            invariant
                gv == self@.gates,
                i <= self.gates.len(),
                gates@ == gates_text(gv.subrange(0, i as int)),
            decreases self.gates.len() - i,
        {
            assert(gv[i as int] == (self.gates@[i as int].0@, self.gates@[i as int].1@));
            assert(gv.subrange(0, i + 1).drop_last() =~= gv.subrange(0, i as int));
            let g = &self.gates[i];
            let a = concat3(gates.as_str(), "  ", g.1.name.as_str());
            let b = concat3(a.as_str(), " ", g.0.as_str());
            let c = concat3(b.as_str(), " ", g.1.gen().as_str());
            gates = concat(c.as_str(), ";\n");
            i = i + 1;
        }
        assert(gv.subrange(0, i as int) =~= gv);
        out = concat3(out.as_str(), gates.as_str(), "endmodule\n");
        out
    }
}

impl Verilog {
    /// The text of the netlist.
    pub fn gen(&self) -> (r: String)
        ensures
            r@ == netlist_text(self@),
    {
        let ghost mv = self@;
        let mut out = String::new();
        let mut i: usize = 0;
        while i < self.modules.len()
            invariant
                mv == self@,
                i <= self.modules.len(),
                out@ == netlist_text(mv.subrange(0, i as int)),
            decreases self.modules.len() - i,
        {
            assert(mv[i as int] == self.modules@[i as int]@);
            assert(mv.subrange(0, i + 1).drop_last() =~= mv.subrange(0, i as int));
            let m = self.modules[i].gen();
            if i == 0 {
                out = m;
                assert(netlist_text(mv.subrange(0, 1)) == module_text(mv[0]));
            } else {
                out = concat3(out.as_str(), "\n", m.as_str());
            }
            i = i + 1;
        }
        assert(mv.subrange(0, i as int) =~= mv);
        out
    }
}

} // verus!
