//! Binding a netlist to its configuration, and extracting the combinational part of its top module.
use vstd::prelude::*;
use crate::config::{
    find_ff_definition, ff_def_of, is_ff_cell, library_view, ExpansionConfig, ExpansionConfigError,
    FFDefinition, FFView,
};
use crate::text::{concat, concat3, contains, contains_char, decimal, seq_contains, str_eq, to_decimal};
use crate::verilog::{
    assign_text, first_port_index, has_module, lemma_first_port_unique, module_named, single,
    string_views, wire_views, has_port, Gate, GateView, Module, ModuleView, RangeView,
    SignalRange, Verilog, Wire, WireView,
};

verus! {

/// The flip-flop instances of `gs`, in order.
pub open spec fn ff_instances(gs: Seq<(Seq<char>, GateView)>, lib: Seq<FFView>) -> Seq<
    (Seq<char>, GateView),
> {
    gs.filter_map(
        |e: (Seq<char>, GateView)|
            if is_ff_cell(lib, e.1.name) {
                Some(e)
            } else {
                None
            },
    )
}

/// A netlist together with the configuration it is expanded under.
#[derive(Debug, Clone)]
pub struct ConfiguredModel {
    pub cfg: ExpansionConfig,
    pub verilog: Verilog,
}

impl ConfiguredModel {
    /// The invariant: the netlist is well formed and holds the configured top module.
    pub open spec fn wf(&self) -> bool {
        self.verilog.wf() && has_module(self.verilog@, self.cfg.top_module@)
    }

    /// The view of the configured top module.
    pub open spec fn spec_top(&self) -> ModuleView {
        module_named(self.verilog@, self.cfg.top_module@)
    }

    /// Binds `verilog` to `cfg`; fails where the configured top module is not in it.
    pub fn new(cfg: ExpansionConfig, verilog: Verilog) -> (r: Result<Self, ExpansionConfigError>)
        requires
            verilog.wf(),
        ensures
            r is Ok <==> has_module(verilog@, cfg.top_module@),
            r matches Err(e) ==> e is TopModuleMissing,
            r matches Ok(m) ==> m.wf() && m.cfg == cfg && m.verilog@ == verilog@,
    {
        match verilog.module_by_name(cfg.top_module.as_str()) {
            Some(_) => Ok(ConfiguredModel { cfg, verilog }),
            None => Err(ExpansionConfigError::TopModuleMissing(cfg.top_module.clone())),
        }
    }

    pub fn cfg(&self) -> (r: &ExpansionConfig)
        ensures
            r == &self.cfg,
    {
        &self.cfg
    }

    pub fn verilog(&self) -> (r: &Verilog)
        ensures
            r@ == self.verilog@,
    {
        &self.verilog
    }

    /// The configured top module.
    pub fn top_module(&self) -> (r: &Module)
        requires
            self.wf(),
        ensures
            r@ == self.spec_top(),
            r.wf(),
    {
        match self.verilog.module_position(self.cfg.top_module.as_str()) {
            Some(i) => {
                assert(self.verilog@[i as int] == self.verilog.modules@[i as int]@);
                &self.verilog.modules[i]
            },
            None => {
                proof {
                    assert(false);
                }
                &self.verilog.modules[0]
            },
        }
    }

    /// The flip-flop instances of the top module in order, each with its library definition,
    /// its identifier as a scalar wire, and the instance itself.
    pub fn extract_ff_gates(&self) -> (r: Vec<(FFDefinition, Wire, Gate)>)
        requires
            self.wf(),
        ensures
            r@.len() == ff_instances(self.spec_top().gates, library_view(self.cfg.ff_definitions@)).len(),
            forall|k: int| 0 <= k < r@.len() ==> {
                let e = #[trigger] ff_instances(self.spec_top().gates, library_view(self.cfg.ff_definitions@))[k];
                &&& r@[k].0@ == ff_def_of(library_view(self.cfg.ff_definitions@), e.1.name)
                &&& r@[k].1@ == single(e.0)
                &&& r@[k].2@ == e.1
            },
            forall|j: int| 0 <= j < self.spec_top().gates.len() && is_ff_cell(
                library_view(self.cfg.ff_definitions@),
                #[trigger] self.spec_top().gates[j].1.name,
            ) ==> exists|k: int| 0 <= k < r@.len() && r@[k].1@ == single(self.spec_top().gates[j].0),
    {
        let top = self.top_module();
        let lib = &self.cfg.ff_definitions;
        let ghost lv = library_view(lib@);
        let ghost gs = top@.gates;
        let mut r: Vec<(FFDefinition, Wire, Gate)> = Vec::new();
        let mut i: usize = 0;
        while i < top.gates.len()
            invariant
                gs == top@.gates,
                lv == library_view(lib@),
                i <= top.gates.len(),
                r@.len() == ff_instances(gs.subrange(0, i as int), lv).len(),
                forall|k: int| 0 <= k < r@.len() ==> {
                    let e = #[trigger] ff_instances(gs.subrange(0, i as int), lv)[k];
                    &&& r@[k].0@ == ff_def_of(lv, e.1.name)
                    &&& r@[k].1@ == single(e.0)
                    &&& r@[k].2@ == e.1
                },
                forall|j: int| 0 <= j < i && is_ff_cell(lv, #[trigger] gs[j].1.name) ==> exists|k: int|
                    0 <= k < r@.len() && r@[k].1@ == single(gs[j].0),
            decreases top.gates.len() - i,
        {
            let ghost prefix = gs.subrange(0, i as int);
            let ghost next = gs.subrange(0, i + 1);
            assert(next.drop_last() =~= prefix);
            assert(next.last() == gs[i as int]);
            assert(gs[i as int] == (top.gates@[i as int].0@, top.gates@[i as int].1@));
            match find_ff_definition(lib, top.gates[i].1.name.as_str()) {
                Some(d) => {
                    let def = lib[d].duplicate();
                    let id = Wire::new_single(top.gates[i].0.clone());
                    let g = top.gates[i].1.duplicate();
                    let ghost before = r@;
                    r.push((def, id, g));
                    assert(ff_instances(next, lv) == ff_instances(prefix, lv) + seq![gs[i as int]]);
                    assert forall|j: int| 0 <= j < i + 1 && is_ff_cell(lv, #[trigger] gs[j].1.name)
                        implies exists|k: int| 0 <= k < r@.len() && r@[k].1@ == single(gs[j].0) by {
                        if j == i {
                            assert(r@[before.len() as int].1@ == single(gs[j].0));
                        } else {
                            let k = choose|k: int| 0 <= k < before.len() && before[k].1@ == single(gs[j].0);
                            assert(r@[k] == before[k]);
                        }
                    }
                },
                None => {
                    assert(ff_instances(next, lv) == ff_instances(prefix, lv));
                    assert(!is_ff_cell(lv, gs[i as int].1.name));
                },
            }
            i = i + 1;
        }
        assert(gs.subrange(0, i as int) =~= gs);
        r
    }
}

/// The pseudo-primary input introduced for the `k`-th flip-flop, instance `id`.
pub open spec fn ppi_name(k: nat, id: Seq<char>) -> Seq<char> {
    "ppi_"@ + decimal(k) + "_"@ + id
}

/// The pseudo-primary output introduced for the `k`-th flip-flop, instance `id`.
pub open spec fn ppo_name(k: nat, id: Seq<char>) -> Seq<char> {
    "ppo_"@ + decimal(k) + "_"@ + id
}

/// The inverter instance introduced for the `k`-th flip-flop.
pub open spec fn inverter_id(k: nat) -> Seq<char> {
    "UN"@ + decimal(k)
}

/// A port survives extraction: no scan pin, and for an input no clock pin.
pub open spec fn keeps_port(clocks: Seq<Seq<char>>, w: WireView, is_input: bool) -> bool {
    &&& !(is_input && w.range == RangeView::Single && clocks.contains(w.name))
    &&& !seq_contains(w.name, "test_s"@)
}

/// The ports of `ws` that survive extraction, in order.
pub open spec fn kept_ports(ws: Seq<WireView>, clocks: Seq<Seq<char>>, is_input: bool) -> Seq<WireView> {
    ws.filter_map(|w: WireView| if keeps_port(clocks, w, is_input) { Some(w) } else { None })
}

/// The wire bound to the first binding of port `p` of `g`.
pub open spec fn bound_wire(g: GateView, p: Seq<char>) -> Seq<char> {
    g.ports[first_port_index(g.ports, p)].wire
}

/// Each bound data input of the flip-flop `g` is observed through the output `ppo`.
pub open spec fn ppo_captured(m: ModuleView, def: FFView, g: GateView, ppo: Seq<char>) -> bool {
    forall|j: int| 0 <= j < def.data_in.len() && has_port(g.ports, #[trigger] def.data_in[j]) ==> {
        &&& m.assigns.contains(assign_text(ppo, bound_wire(g, def.data_in[j])))
        &&& m.outputs.contains(single(ppo))
    }
}

/// Each bound data output of the flip-flop `g` is driven from the input `ppi`: by an assign,
/// or for an inverted output through an inverter.
pub open spec fn ppi_driven(m: ModuleView, def: FFView, g: GateView, ppi: Seq<char>) -> bool {
    forall|j: int| 0 <= j < def.data_out.len() && has_port(g.ports, #[trigger] def.data_out[j]) ==> {
        &&& m.inputs.contains(single(ppi))
        &&& !def.data_out[j].contains('N') ==> m.assigns.contains(
            assign_text(bound_wire(g, def.data_out[j]), ppi),
        )
    }
}

/// Every gate of `gs` is no flip-flop, an inverter of the library, or still pending removal.
pub open spec fn gates_clean(
    gs: Seq<(Seq<char>, GateView)>,
    lib: Seq<FFView>,
    inv: Seq<char>,
    pending: Seq<Seq<char>>,
) -> bool {
    forall|j: int| 0 <= j < gs.len() ==> {
        ||| !is_ff_cell(lib, #[trigger] gs[j].1.name)
        ||| gs[j].1.name == inv
        ||| pending.contains(gs[j].0)
    }
}

/// `b` holds every assign, input and output that `a` holds.
pub open spec fn grows(a: ModuleView, b: ModuleView) -> bool {
    &&& forall|x: Seq<char>| a.assigns.contains(x) ==> b.assigns.contains(x)
    &&& forall|x: WireView| a.inputs.contains(x) ==> b.inputs.contains(x)
    &&& forall|x: WireView| a.outputs.contains(x) ==> b.outputs.contains(x)
}

proof fn lemma_grows_keeps(a: ModuleView, b: ModuleView, def: FFView, g: GateView, ppi: Seq<char>, ppo: Seq<char>)
    requires
        grows(a, b),
    ensures
        ppo_captured(a, def, g, ppo) ==> ppo_captured(b, def, g, ppo),
        ppi_driven(a, def, g, ppi) ==> ppi_driven(b, def, g, ppi),
{
}

proof fn lemma_wires_with_contains(ws: Seq<WireView>, w: WireView)
    ensures
        crate::verilog::wires_with(ws, w).contains(w),
        forall|x: WireView| ws.contains(x) ==> crate::verilog::wires_with(ws, w).contains(x),
        forall|x: WireView| crate::verilog::wires_with(ws, w).contains(x) ==> ws.contains(x) || x == w,
{
    crate::verilog::lemma_wires_with(ws, w);
}

proof fn lemma_grows_trans(a: ModuleView, b: ModuleView, c: ModuleView)
    requires
        grows(a, b),
        grows(b, c),
    ensures
        grows(a, c),
{
}

proof fn lemma_push_contains(xs: Seq<Seq<char>>, y: Seq<char>)
    ensures
        xs.push(y).contains(y),
        forall|x: Seq<char>| xs.contains(x) ==> xs.push(y).contains(x),
{
    assert(xs.push(y)[xs.len() as int] == y);
    assert forall|x: Seq<char>| xs.contains(x) implies xs.push(y).contains(x) by {
        let j = choose|j: int| 0 <= j < xs.len() && xs[j] == x;
        assert(xs.push(y)[j] == x);
    }
}

/// `id` names a gate of `gs` that is no flip-flop of the library.
pub open spec fn kept_gate(gs: Seq<(Seq<char>, GateView)>, lib: Seq<FFView>, id: Seq<char>) -> bool {
    crate::verilog::has_gate(gs, id) && !is_ff_cell(lib, crate::verilog::gate_of(gs, id).name)
}

/// `id` is none of the inverter identifiers `UN1` to `UN<n>`.
pub open spec fn no_inverter_id(id: Seq<char>, n: int) -> bool {
    forall|k: int| 1 <= k <= n ==> id != #[trigger] inverter_id(k as nat)
}

/// Removing one instance leaves every other instance in place.
proof fn lemma_gates_remove(gs: Seq<(Seq<char>, GateView)>, id0: Seq<char>, id: Seq<char>)
    requires
        crate::verilog::gate_ids(gs).no_duplicates(),
        crate::verilog::has_gate(gs, id0),
        crate::verilog::has_gate(gs, id),
        id != id0,
    ensures
        crate::verilog::has_gate(gs.remove(crate::verilog::gate_index(gs, id0)), id),
        crate::verilog::gate_of(gs.remove(crate::verilog::gate_index(gs, id0)), id)
            == crate::verilog::gate_of(gs, id),
{
    let p = crate::verilog::gate_index(gs, id0);
    let q = crate::verilog::gate_index(gs, id);
    let ns = gs.remove(p);
    assert(0 <= p < gs.len() && gs[p].0 == id0);
    assert(0 <= q < gs.len() && gs[q].0 == id);
    let nq = if q < p { q } else { q - 1 };
    assert(ns[nq] == gs[q]);
    let r = crate::verilog::gate_index(ns, id);
    assert(0 <= r < ns.len() && ns[r].0 == id);
    let orig_r = if r < p { r } else { r + 1 };
    assert(ns[r] == gs[orig_r]);
    assert(crate::verilog::gate_ids(gs)[orig_r] == crate::verilog::gate_ids(gs)[q]);
}

/// A flip-flop instance of `gs` is what its identifier names in `gs`.
proof fn lemma_ff_instance_in(gs: Seq<(Seq<char>, GateView)>, lib: Seq<FFView>, k: int)
    requires
        crate::verilog::gate_ids(gs).no_duplicates(),
        0 <= k < ff_instances(gs, lib).len(),
    ensures
        crate::verilog::has_gate(gs, ff_instances(gs, lib)[k].0),
        is_ff_cell(lib, crate::verilog::gate_of(gs, ff_instances(gs, lib)[k].0).name),
{
    let f = |e: (Seq<char>, GateView)| if is_ff_cell(lib, e.1.name) { Some(e) } else { None };
    let e = ff_instances(gs, lib)[k];
    assert(gs.filter_map(f).contains(e));
    gs.lemma_filter_map_contains(f, e);
    let t = choose|t: (Seq<char>, GateView)| #[trigger] gs.contains(t) && f(t) == Some(e);
    let j = choose|j: int| 0 <= j < gs.len() && gs[j] == t;
    let q = crate::verilog::gate_index(gs, e.0);
    assert(0 <= q < gs.len() && gs[q].0 == e.0);
    assert(crate::verilog::gate_ids(gs)[q] == crate::verilog::gate_ids(gs)[j]);
}

/// `x` is an output that extraction gives the module: a kept primary output, or the
/// pseudo-primary output of one of the flip-flops.
pub open spec fn output_form(pos: Seq<WireView>, fv: Seq<(Seq<char>, GateView)>, x: WireView) -> bool {
    ||| pos.contains(x)
    ||| exists|k: int| 0 <= k < fv.len() && x == single(ppo_name((k + 1) as nat, (#[trigger] fv[k]).0))
}

/// `a` is an assign that extraction leaves in the module: one of the top module's, or one that
/// feeds the pseudo-primary output, or is fed by the pseudo-primary input, of one of the
/// flip-flops.
pub open spec fn assign_form(top: Seq<Seq<char>>, lib: Seq<FFView>, fv: Seq<(Seq<char>, GateView)>, a: Seq<char>) -> bool {
    ||| top.contains(a)
    ||| exists|k: int| #![trigger fv[k]] 0 <= k < fv.len() && (ppo_assign(ff_def_of(lib, fv[k].1.name), fv[k].1,
        ppo_name((k + 1) as nat, fv[k].0), a) || ppi_assign(ff_def_of(lib, fv[k].1.name), fv[k].1,
        ppi_name((k + 1) as nat, fv[k].0), a))
}

/// `a` observes a bound data input of the flip-flop `g` through `ppo`.
pub open spec fn ppo_assign(def: FFView, g: GateView, ppo: Seq<char>, a: Seq<char>) -> bool {
    exists|j: int| 0 <= j < def.data_in.len() && has_port(g.ports, #[trigger] def.data_in[j])
        && a == assign_text(ppo, bound_wire(g, def.data_in[j]))
}

/// `a` drives a bound, not inverted, data output of the flip-flop `g` from `ppi`.
pub open spec fn ppi_assign(def: FFView, g: GateView, ppi: Seq<char>, a: Seq<char>) -> bool {
    exists|j: int| 0 <= j < def.data_out.len() && !def.data_out[j].contains('N') && has_port(g.ports, #[trigger] def.data_out[j])
        && a == assign_text(bound_wire(g, def.data_out[j]), ppi)
}

/// Some data output of the flip-flop `g` whose name holds `N` is bound.
pub open spec fn inverted_bound(def: FFView, g: GateView) -> bool {
    exists|j: int| 0 <= j < def.data_out.len() && def.data_out[j].contains('N') && has_port(g.ports, #[trigger] def.data_out[j])
}

/// The instance `id` of `gs` is an inverter of the library reading `ppi` and driving the wire
/// that an inverted data output of the flip-flop `g` (of definition `def`) drives.
pub open spec fn inverter_present(
    gs: Seq<(Seq<char>, GateView)>,
    inv: crate::config::InvView,
    ppi: Seq<char>,
    id: Seq<char>,
    def: FFView,
    g: GateView,
) -> bool {
    &&& crate::verilog::has_gate(gs, id)
    &&& crate::verilog::gate_of(gs, id).name == inv.name
    &&& crate::verilog::gate_of(gs, id).ports.len() == 2
    &&& crate::verilog::gate_of(gs, id).ports[0] == crate::verilog::wire_binding(inv.input, ppi)
    &&& exists|j: int| 0 <= j < def.data_out.len() && def.data_out[j].contains('N') && has_port(g.ports, #[trigger] def.data_out[j])
        && crate::verilog::gate_of(gs, id).ports[1] == crate::verilog::wire_binding(inv.output, bound_wire(g, def.data_out[j]))
}

/// No flip-flop instance is named like an inverter that extraction introduces.
pub open spec fn no_ff_named_inverter(fv: Seq<(Seq<char>, GateView)>) -> bool {
    forall|k: int| 0 <= k < fv.len() ==> no_inverter_id((#[trigger] fv[k]).0, fv.len() as int)
}

proof fn lemma_inverter_ids_distinct(a: nat, b: nat)
    requires
        a != b,
    ensures
        inverter_id(a) != inverter_id(b),
{
    reveal_strlit("UN");
    if inverter_id(a) == inverter_id(b) {
        assert(inverter_id(a).subrange(2, inverter_id(a).len() as int) =~= decimal(a));
        assert(inverter_id(b).subrange(2, inverter_id(b).len() as int) =~= decimal(b));
        crate::text::lemma_decimal_injective(a, b);
    }
}

/// The instance `e` of an extracted module comes from the top module unchanged, or is one of
/// the inverters `UN<k>` of the library, made for a flip-flop `k` with an inverted bound output.
pub open spec fn gate_origin(
    top: Seq<(Seq<char>, GateView)>,
    inv_name: Seq<char>,
    lib: Seq<FFView>,
    fv: Seq<(Seq<char>, GateView)>,
    e: (Seq<char>, GateView),
) -> bool {
    ||| top.contains(e)
    ||| e.1.name == inv_name && exists|k: nat| 1 <= k <= fv.len() && e.0 == #[trigger] inverter_id(k)
        && inverted_bound(ff_def_of(lib, fv[k - 1].1.name), fv[k - 1].1)
}

/// Whether `name` is one of `clocks`.
fn is_clock(clocks: &Vec<String>, name: &str) -> (r: bool)
    ensures
        r == string_views(clocks@).contains(name@),
{
    let mut i: usize = 0;
    while i < clocks.len()
        invariant
            forall|j: int| 0 <= j < i ==> string_views(clocks@)[j] != name@,
        decreases clocks.len() - i,
    {
        if str_eq(clocks[i].as_str(), name) {
            assert(string_views(clocks@)[i as int] == name@);
            return true;
        }
        i = i + 1;
    }
    false
}

/// The ports of `ws` that survive extraction, in order.
fn keep_ports(ws: &Vec<Wire>, clocks: &Vec<String>, is_input: bool) -> (r: Vec<Wire>)
    requires
        wire_views(ws@).no_duplicates(),
        crate::verilog::sorted_names(wire_views(ws@)),
    ensures
        wire_views(r@) == kept_ports(wire_views(ws@), string_views(clocks@), is_input),
        wire_views(r@).no_duplicates(),
        crate::verilog::sorted_names(wire_views(r@)),
{
    let ghost wv = wire_views(ws@);
    let ghost cv = string_views(clocks@);
    let mut r: Vec<Wire> = Vec::new();
    let mut i: usize = 0;
    while i < ws.len()
        invariant
            wv == wire_views(ws@),
            cv == string_views(clocks@),
            wv.no_duplicates(),
            crate::verilog::sorted_names(wv),
            i <= ws.len(),
            wire_views(r@) == kept_ports(wv.subrange(0, i as int), cv, is_input),
            wire_views(r@).no_duplicates(),
            crate::verilog::sorted_names(wire_views(r@)),
            forall|x: WireView| wire_views(r@).contains(x) ==> wv.subrange(0, i as int).contains(x),
        decreases ws.len() - i,
    {
        let w = &ws[i];
        let ghost next = wv.subrange(0, i + 1);
        let ghost prefix = wv.subrange(0, i as int);
        assert(next.drop_last() =~= prefix);
        assert(next.last() == w@);
        let keep = !(is_input && matches!(w.range, SignalRange::Single) && is_clock(clocks, w.name.as_str()))
            && !contains(w.name.as_str(), "test_s");
        let ghost before = wire_views(r@);
        if keep {
            r.push(w.duplicate());
            assert(wire_views(r@) =~= before.push(w@));
            assert(!prefix.contains(w@)) by {
                if prefix.contains(w@) {
                    let j = choose|j: int| 0 <= j < prefix.len() && prefix[j] == w@;
                    assert(wv[j] == wv[i as int]);
                }
            }
            assert forall|a: int, b: int| 0 <= a < b < wire_views(r@).len() implies
                wire_views(r@)[a] != wire_views(r@)[b] by {
                if b == before.len() {
                    assert(before.contains(before[a]));
                }
            }
            assert forall|a: int, b: int| 0 <= a < b < wire_views(r@).len() implies
                !crate::text::name_lt(wire_views(r@)[b].name, wire_views(r@)[a].name) by {
                if b == before.len() {
                    assert(before.contains(before[a]));
                    let l = choose|l: int| 0 <= l < prefix.len() && prefix[l] == before[a];
                    assert(wv[l] == before[a]);
                } else {
                    assert(wire_views(r@)[a] == before[a] && wire_views(r@)[b] == before[b]);
                }
            }
            assert forall|x: WireView| wire_views(r@).contains(x) implies next.contains(x) by {
                let j = choose|j: int| 0 <= j < wire_views(r@).len() && wire_views(r@)[j] == x;
                if j < before.len() {
                    assert(before.contains(x));
                    let l = choose|l: int| 0 <= l < prefix.len() && prefix[l] == x;
                    assert(next[l] == x);
                } else {
                    assert(next[i as int] == x);
                }
            }
        } else {
            assert forall|x: WireView| wire_views(r@).contains(x) implies next.contains(x) by {
                let l = choose|l: int| 0 <= l < prefix.len() && prefix[l] == x;
                assert(next[l] == x);
            }
        }
        i = i + 1;
    }
    assert(wv.subrange(0, i as int) =~= wv);
    r
}

/// The combinational part of a configured top module, with its primary and pseudo-primary ports.
#[derive(Debug, Clone)]
pub struct ExtractedCombinationalPartModel {
    pub configured_model: ConfiguredModel,
    pub extracted_module: Module,
    pub primary_inputs: Vec<Wire>,
    pub primary_outputs: Vec<Wire>,
    pub pseudo_primary_inputs: Vec<Wire>,
    pub pseudo_primary_outputs: Vec<Wire>,
    pub pseudo_primary_ios: Vec<(Wire, Wire)>,
}

impl ExtractedCombinationalPartModel {
    /// The invariant: the parts are well formed and the pseudo-primary ports pair up by index.
    pub open spec fn wf(&self) -> bool {
        &&& self.configured_model.wf()
        &&& self.extracted_module.wf()
        &&& self.pseudo_primary_inputs@.len() == self.pseudo_primary_outputs@.len()
        &&& self.pseudo_primary_ios@.len() == self.pseudo_primary_inputs@.len()
        &&& forall|k: int| 0 <= k < self.pseudo_primary_ios@.len() ==> {
            &&& (#[trigger] self.pseudo_primary_ios@[k]).0@ == self.pseudo_primary_inputs@[k]@
            &&& self.pseudo_primary_ios@[k].1@ == self.pseudo_primary_outputs@[k]@
        }
    }

    /// Extracts the combinational part of the configured top module: clock and scan pins are
    /// dropped, and each flip-flop is replaced by a pseudo-primary input that stands for its
    /// outputs and a pseudo-primary output that observes its data inputs.
    pub fn from_configured_model(configured_model: ConfiguredModel) -> (r: Self)
        requires
            configured_model.wf(),
        ensures
            r.wf(),
            r.configured_model == configured_model,
            ({
                let top = configured_model.spec_top();
                let cfg = configured_model.cfg;
                let lib = library_view(cfg.ff_definitions@);
                let ffs = ff_instances(top.gates, lib);
                let m = r.extracted_module@;
                let clocks = string_views(cfg.clock_pins@);
                &&& m.name == top.name
                &&& wire_views(r.primary_inputs@) == kept_ports(top.inputs, clocks, true)
                &&& wire_views(r.primary_outputs@) == kept_ports(top.outputs, clocks, false)
                &&& r.pseudo_primary_inputs@.len() == ffs.len()
                &&& forall|k: int| 0 <= k < ffs.len() ==> {
                    &&& (#[trigger] r.pseudo_primary_inputs@[k])@ == single(ppi_name((k + 1) as nat, ffs[k].0))
                    &&& r.pseudo_primary_outputs@[k]@ == single(ppo_name((k + 1) as nat, ffs[k].0))
                    &&& ppo_captured(m, ff_def_of(lib, ffs[k].1.name), ffs[k].1, ppo_name((k + 1) as nat, ffs[k].0))
                    &&& ppi_driven(m, ff_def_of(lib, ffs[k].1.name), ffs[k].1, ppi_name((k + 1) as nat, ffs[k].0))
                }
                &&& gates_clean(m.gates, lib, cfg.inv_definition@.name, Seq::empty())
                &&& forall|id: Seq<char>| kept_gate(top.gates, lib, id) && no_inverter_id(id, ffs.len() as int)
                    ==> crate::verilog::has_gate(m.gates, id) && crate::verilog::gate_of(m.gates, id)
                    == crate::verilog::gate_of(top.gates, id)
                &&& forall|x: WireView| m.inputs.contains(x) ==> wire_views(r.primary_inputs@).contains(x)
                    || exists|k: int| 0 <= k < ffs.len() && x == single(ppi_name((k + 1) as nat, ffs[k].0))
                &&& forall|x: WireView| wire_views(r.primary_inputs@).contains(x) ==> m.inputs.contains(x)
                &&& forall|x: WireView| wire_views(r.primary_outputs@).contains(x) ==> m.outputs.contains(x)
                &&& forall|x: WireView| m.outputs.contains(x) ==> output_form(wire_views(r.primary_outputs@), ffs, x)
                &&& forall|a: Seq<char>| m.assigns.contains(a) ==> assign_form(top.assigns, lib, ffs, a)
                &&& forall|l: int| 0 <= l < m.gates.len() ==> gate_origin(top.gates, cfg.inv_definition@.name, lib, ffs, #[trigger] m.gates[l])
                &&& no_ff_named_inverter(ffs) ==> forall|k: int| 0 <= k < ffs.len()
                    && inverted_bound(ff_def_of(lib, (#[trigger] ffs[k]).1.name), ffs[k].1)
                    ==> inverter_present(m.gates, cfg.inv_definition@, ppi_name((k + 1) as nat, ffs[k].0), inverter_id((k + 1) as nat), ff_def_of(lib, ffs[k].1.name), ffs[k].1)
            }),
    {
        let ffs = configured_model.extract_ff_gates();
        let top = configured_model.top_module();
        let cfg = configured_model.cfg();
        let ghost lib = library_view(cfg.ff_definitions@);
        let ghost fv = ff_instances(top@.gates, lib);
        let ghost inv_name = cfg.inv_definition@.name;
        let primary_inputs = keep_ports(&top.inputs, &cfg.clock_pins, true);
        let primary_outputs = keep_ports(&top.outputs, &cfg.clock_pins, false);
        let mut m = top.duplicate();
        m.inputs = crate::verilog::duplicate_wires(&primary_inputs);
        m.outputs = crate::verilog::duplicate_wires(&primary_outputs);
        let ghost ids = fv.map_values(|e: (Seq<char>, GateView)| e.0);
        proof {
            assert forall|j: int| 0 <= j < m@.gates.len() implies {
                ||| !is_ff_cell(lib, #[trigger] m@.gates[j].1.name)
                ||| m@.gates[j].1.name == inv_name
                ||| ids.subrange(0, ids.len() as int).contains(m@.gates[j].0)
            } by {
                if is_ff_cell(lib, m@.gates[j].1.name) {
                    let k = choose|k: int| 0 <= k < ffs@.len() && ffs@[k].1@ == single(top@.gates[j].0);
                    assert(ids.subrange(0, ids.len() as int)[k] == m@.gates[j].0);
                }
            }
        }
        let mut pseudo_primary_inputs: Vec<Wire> = Vec::new();
        let mut pseudo_primary_outputs: Vec<Wire> = Vec::new();
        let mut pseudo_primary_ios: Vec<(Wire, Wire)> = Vec::new();
        let mut i: usize = 0;
        while i < ffs.len()
            invariant
                configured_model.wf(),
                cfg == &configured_model.cfg,
                top@ == configured_model.spec_top(),
                lib == library_view(cfg.ff_definitions@),
                fv == ff_instances(top@.gates, lib),
                ids == fv.map_values(|e: (Seq<char>, GateView)| e.0),
                inv_name == cfg.inv_definition@.name,
                ffs@.len() == fv.len(),
                forall|k: int| 0 <= k < ffs@.len() ==> {
                    let e = #[trigger] fv[k];
                    &&& ffs@[k].0@ == ff_def_of(lib, e.1.name)
                    &&& ffs@[k].1@ == single(e.0)
                    &&& ffs@[k].2@ == e.1
                },
                wire_views(primary_inputs@) == kept_ports(top@.inputs, string_views(cfg.clock_pins@), true),
                wire_views(primary_outputs@) == kept_ports(top@.outputs, string_views(cfg.clock_pins@), false),
                m.wf(),
                m@.name == top@.name,
                i <= ffs@.len(),
                pseudo_primary_inputs@.len() == i,
                pseudo_primary_outputs@.len() == i,
                pseudo_primary_ios@.len() == i,
                forall|k: int| 0 <= k < i ==> {
                    &&& (#[trigger] pseudo_primary_inputs@[k])@ == single(ppi_name((k + 1) as nat, fv[k].0))
                    &&& pseudo_primary_outputs@[k]@ == single(ppo_name((k + 1) as nat, fv[k].0))
                    &&& pseudo_primary_ios@[k].0@ == pseudo_primary_inputs@[k]@
                    &&& pseudo_primary_ios@[k].1@ == pseudo_primary_outputs@[k]@
                    &&& ppo_captured(m@, ff_def_of(lib, fv[k].1.name), fv[k].1, ppo_name((k + 1) as nat, fv[k].0))
                    &&& ppi_driven(m@, ff_def_of(lib, fv[k].1.name), fv[k].1, ppi_name((k + 1) as nat, fv[k].0))
                },
                gates_clean(m@.gates, lib, inv_name, ids.subrange(i as int, ids.len() as int)),
                forall|l: int| 0 <= l < m@.gates.len() ==> gate_origin(top@.gates, inv_name, lib, fv, #[trigger] m@.gates[l]),
                top.wf(),
                forall|id: Seq<char>| kept_gate(top@.gates, lib, id) && no_inverter_id(id, i as int)
                    ==> crate::verilog::has_gate(m@.gates, id) && crate::verilog::gate_of(m@.gates, id)
                    == crate::verilog::gate_of(top@.gates, id),
                forall|x: WireView| m@.inputs.contains(x) ==> wire_views(primary_inputs@).contains(x)
                    || exists|k: int| 0 <= k < i && x == single(ppi_name((k + 1) as nat, fv[k].0)),
                forall|x: WireView| wire_views(primary_inputs@).contains(x) ==> m@.inputs.contains(x),
                forall|x: WireView| wire_views(primary_outputs@).contains(x) ==> m@.outputs.contains(x),
                forall|x: WireView| m@.outputs.contains(x) ==> output_form(wire_views(primary_outputs@), fv, x),
                forall|a: Seq<char>| m@.assigns.contains(a) ==> assign_form(top@.assigns, lib, fv, a),
                no_ff_named_inverter(fv) ==> forall|k: int| 0 <= k < i && inverted_bound(ff_def_of(lib, (#[trigger] fv[k]).1.name), fv[k].1)
                    ==> inverter_present(m@.gates, cfg.inv_definition@, ppi_name((k + 1) as nat, fv[k].0), inverter_id((k + 1) as nat), ff_def_of(lib, fv[k].1.name), fv[k].1),
            decreases ffs.len() - i,
        {
            let ghost m0 = m@;

            let def = &ffs[i].0;
            let wire = &ffs[i].1;
            let gate = &ffs[i].2;
            let index = to_decimal(i + 1);
            let ppi_head = concat3("ppi_", index.as_str(), "_");
            let ppi = concat(ppi_head.as_str(), wire.name());
            let ppo_head = concat3("ppo_", index.as_str(), "_");
            let ppo = concat(ppo_head.as_str(), wire.name());
            let ghost e = fv[i as int];
            assert(ppi@ == ppi_name((i + 1) as nat, e.0));
            assert(ppo@ == ppo_name((i + 1) as nat, e.0));
            // each bound data input is observed through the pseudo-primary output
            let mut j: usize = 0;
            while j < def.data_in.len()
                invariant
                    m.wf(),
                    m@.name == m0.name,
                    m@.inputs == m0.inputs,
                    m@.gates == m0.gates,
                    grows(m0, m@),
                    forall|x: WireView| m@.outputs.contains(x) ==> output_form(wire_views(primary_outputs@), fv, x),
                    forall|a: Seq<char>| m@.assigns.contains(a) ==> assign_form(top@.assigns, lib, fv, a),
                    ppo@ == ppo_name((i + 1) as nat, fv[i as int].0),
                    ppi@ == ppi_name((i + 1) as nat, fv[i as int].0),
                    i < fv.len(),
                    e == fv[i as int],
                    lib == library_view(cfg.ff_definitions@),
                    def@ == ff_def_of(lib, e.1.name),
                    gate@ == e.1,
                    j <= def.data_in@.len(),
                    forall|l: int| 0 <= l < j && has_port(e.1.ports, #[trigger] def@.data_in[l]) ==> {
                        &&& m@.assigns.contains(assign_text(ppo@, bound_wire(e.1, def@.data_in[l])))
                        &&& m@.outputs.contains(single(ppo@))
                    },
                decreases def.data_in.len() - j,
            {
                assert(def@.data_in[j as int] == def.data_in@[j as int]@);
                match gate.port_position(def.data_in[j].as_str()) {
                    Some(k) => {
                        proof {
                            lemma_first_port_unique(gate@.ports, def@.data_in[j as int], k as int);
                        }
                        let ghost before = m@;
                        let text = concat3(ppo.as_str(), " = ", gate.ports[k].wire());
                        m.push_assign(text);
                        let ghost ma = m@;
                        m.push_output(Wire::new_single(ppo.clone()));
                        proof {
                            crate::broadside::lemma_push_only(before.assigns, text@);
                            lemma_wires_with_contains(ma.outputs, single(ppo@));
                            assert forall|a: Seq<char>| m@.assigns.contains(a) implies assign_form(top@.assigns, lib, fv, a) by {
                                if a == text@ {
                                    assert(ppo_assign(def@, e.1, ppo@, a)) by {
                                        assert(has_port(e.1.ports, def@.data_in[j as int]));
                                    }
                                    assert(0 <= i < fv.len() && ppo_assign(ff_def_of(lib, fv[i as int].1.name), fv[i as int].1,
                                        ppo_name((i + 1) as nat, fv[i as int].0), a));
                                } else {
                                    assert(before.assigns.contains(a));
                                }
                            }
                            assert forall|x: WireView| m@.outputs.contains(x) implies output_form(wire_views(primary_outputs@), fv, x) by {
                                if x == single(ppo@) {
                                    assert(0 <= i < i + 1 && x == single(ppo_name((i + 1) as nat, fv[i as int].0)));
                                } else {
                                    assert(ma.outputs.contains(x));
                                    assert(before.outputs.contains(x));
                                }
                            }
                            lemma_push_contains(before.assigns, assign_text(ppo@, bound_wire(e.1, def@.data_in[j as int])));
                            lemma_wires_with_contains(before.outputs, single(ppo@));
                        }
                    },
                    None => {},
                }
                j = j + 1;
            }
            let ghost m1 = m@;
            // each bound data output is driven from the pseudo-primary input
            let mut j: usize = 0;
            while j < def.data_out.len()
                invariant
                    m.wf(),
                    m@.name == m0.name,
                    grows(m1, m@),
                    forall|l: int| 0 <= l < m@.gates.len() ==> {
                        ||| m1.gates.contains(#[trigger] m@.gates[l])
                        ||| m@.gates[l].1.name == inv_name && m@.gates[l].0 == inverter_id((i + 1) as nat)
                            && exists|j0: int| 0 <= j0 < j && def@.data_out[j0].contains('N') && has_port(e.1.ports, #[trigger] def@.data_out[j0])
                    },
                    forall|id: Seq<char>| crate::verilog::has_gate(m@.gates, id) ==> crate::verilog::has_gate(m1.gates, id)
                        || id == inverter_id((i + 1) as nat),
                    forall|id: Seq<char>| id != inverter_id((i + 1) as nat) && crate::verilog::has_gate(m1.gates, id)
                        ==> crate::verilog::has_gate(m@.gates, id) && crate::verilog::gate_of(m@.gates, id)
                        == crate::verilog::gate_of(m1.gates, id),
                    forall|x: WireView| m@.inputs.contains(x) ==> m1.inputs.contains(x) || x == single(ppi@),
                    m@.outputs == m1.outputs,
                    forall|a: Seq<char>| m@.assigns.contains(a) ==> assign_form(top@.assigns, lib, fv, a),
                    ppi@ == ppi_name((i + 1) as nat, fv[i as int].0),
                    i < fv.len(),
                    e == fv[i as int],
                    lib == library_view(cfg.ff_definitions@),
                    (exists|j0: int| 0 <= j0 < j && def@.data_out[j0].contains('N') && has_port(e.1.ports, #[trigger] def@.data_out[j0]))
                        ==> inverter_present(m@.gates, cfg.inv_definition@, ppi@, inverter_id((i + 1) as nat), def@, e.1),
                    def@ == ff_def_of(lib, e.1.name),
                    gate@ == e.1,
                    inv_name == cfg.inv_definition@.name,
                    index@ == decimal((i + 1) as nat),
                    j <= def.data_out@.len(),
                    forall|l: int| 0 <= l < j && has_port(e.1.ports, #[trigger] def@.data_out[l]) ==> {
                        &&& m@.inputs.contains(single(ppi@))
                        &&& !def@.data_out[l].contains('N') ==> m@.assigns.contains(
                            assign_text(bound_wire(e.1, def@.data_out[l]), ppi@),
                        )
                    },
                decreases def.data_out.len() - j,
            {
                assert(def@.data_out[j as int] == def.data_out@[j as int]@);
                match gate.port_position(def.data_out[j].as_str()) {
                    Some(k) => {
                        proof {
                            lemma_first_port_unique(gate@.ports, def@.data_out[j as int], k as int);
                        }
                        let ghost before = m@;
                        m.push_input(Wire::new_single(ppi.clone()));
                        proof {
                            lemma_wires_with_contains(before.inputs, single(ppi@));
                        }
                        if contains_char(def.data_out[j].as_str(), 'N') {
                            let ghost before_gates = m@;
                            let inv_gate = cfg.inv_definition.to_gate(
                                ppi.clone(),
                                String::from_str(gate.ports[k].wire()),
                            );
                            let id = concat("UN", index.as_str());
                            assert(id@ == inverter_id((i + 1) as nat));
                            let ghost igv = inv_gate@;
                            m.push_gate(id, inv_gate);
                            proof {
                                crate::atpg::lemma_gates_with(before_gates.gates, id@, igv);
                                assert(igv.ports[1] == crate::verilog::wire_binding(cfg.inv_definition@.output, bound_wire(e.1, def@.data_out[j as int])));
                                assert(inverter_present(m@.gates, cfg.inv_definition@, ppi@, inverter_id((i + 1) as nat), def@, e.1));
                                let gs0 = before_gates.gates;
                                let gs1 = m@.gates;
                                assert forall|l: int| 0 <= l < gs1.len() implies {
                                    ||| m1.gates.contains(#[trigger] gs1[l])
                                    ||| gs1[l].1.name == inv_name && gs1[l].0 == inverter_id((i + 1) as nat)
                                        && exists|j0: int| 0 <= j0 < j + 1 && def@.data_out[j0].contains('N') && has_port(e.1.ports, #[trigger] def@.data_out[j0])
                                } by {
                                    assert(gs1.contains(gs1[l]));
                                    assert(has_port(e.1.ports, def@.data_out[j as int]));
                                    if gs1[l] != (id@, igv) {
                                        assert(gs0.contains(gs1[l]));
                                    }
                                }
                                assert forall|x: Seq<char>| crate::verilog::has_gate(gs1, x) implies
                                    crate::verilog::has_gate(m1.gates, x) || x == inverter_id((i + 1) as nat) by {
                                    if x != id@ {
                                        assert(crate::verilog::has_gate(gs0, x));
                                    }
                                }
                            }
                        } else {
                            let ghost before2 = m@;
                            let text = concat3(gate.ports[k].wire(), " = ", ppi.as_str());
                            m.push_assign(text);
                            proof {
                                assert(!def@.data_out[j as int].contains('N'));
                                crate::broadside::lemma_push_only(before2.assigns, text@);
                                assert forall|a: Seq<char>| m@.assigns.contains(a) implies assign_form(top@.assigns, lib, fv, a) by {
                                    if a == text@ {
                                        assert(ppi_assign(def@, e.1, ppi@, a)) by {
                                            assert(has_port(e.1.ports, def@.data_out[j as int]));
                                        }
                                        assert(0 <= i < fv.len() && ppi_assign(ff_def_of(lib, fv[i as int].1.name), fv[i as int].1,
                                            ppi_name((i + 1) as nat, fv[i as int].0), a));
                                    } else {
                                        assert(before2.assigns.contains(a));
                                    }
                                }
                                lemma_push_contains(before2.assigns, assign_text(bound_wire(e.1, def@.data_out[j as int]), ppi@));
                            }
                        }
                    },
                    None => {},
                }
                j = j + 1;
            }
            let ghost m2 = m@;
            m.remove_gate(wire.name());
            proof {
                if no_ff_named_inverter(fv) {
                    assert(no_inverter_id(fv[i as int].0, fv.len() as int));
                    assert forall|k: int| 0 <= k < i + 1 && inverted_bound(ff_def_of(lib, (#[trigger] fv[k]).1.name), fv[k].1)
                        implies inverter_present(m@.gates, cfg.inv_definition@, ppi_name((k + 1) as nat, fv[k].0), inverter_id((k + 1) as nat), ff_def_of(lib, fv[k].1.name), fv[k].1) by {
                        let uid = inverter_id((k + 1) as nat);
                        if k < i {
                            lemma_inverter_ids_distinct((k + 1) as nat, (i + 1) as nat);
                            assert(inverter_present(m0.gates, cfg.inv_definition@, ppi_name((k + 1) as nat, fv[k].0), uid, ff_def_of(lib, fv[k].1.name), fv[k].1));
                            assert(m1.gates == m0.gates);
                        } else {
                            let j0 = choose|j0: int| 0 <= j0 < def@.data_out.len() && def@.data_out[j0].contains('N') && has_port(e.1.ports, #[trigger] def@.data_out[j0]);
                            assert(has_port(e.1.ports, def@.data_out[j0]));
                        }
                        assert(inverter_present(m2.gates, cfg.inv_definition@, ppi_name((k + 1) as nat, fv[k].0), uid, ff_def_of(lib, fv[k].1.name), fv[k].1));
                        assert(uid != e.0);
                        if crate::verilog::has_gate(m2.gates, e.0) {
                            lemma_gates_remove(m2.gates, e.0, uid);
                        }
                    }
                }
                lemma_grows_trans(m0, m1, m2);
                assert(grows(m2, m@));
                lemma_grows_trans(m0, m2, m@);
                lemma_grows_keeps(m0, m@, def@, e.1, ppi@, ppo@);
                assert forall|k: int| 0 <= k < i implies {
                    &&& ppo_captured(m@, ff_def_of(lib, fv[k].1.name), fv[k].1, ppo_name((k + 1) as nat, fv[k].0))
                    &&& ppi_driven(m@, ff_def_of(lib, fv[k].1.name), fv[k].1, ppi_name((k + 1) as nat, fv[k].0))
                } by {
                    assert(pseudo_primary_inputs@[k]@ == single(ppi_name((k + 1) as nat, fv[k].0)));
                    lemma_grows_keeps(m0, m@, ff_def_of(lib, fv[k].1.name), fv[k].1,
                        ppi_name((k + 1) as nat, fv[k].0), ppo_name((k + 1) as nat, fv[k].0));
                }
                let pend0 = ids.subrange(i as int, ids.len() as int);
                let pend1 = ids.subrange(i + 1, ids.len() as int);
                assert(ids[i as int] == e.0);
                assert forall|l: int| 0 <= l < m@.gates.len() implies {
                    ||| !is_ff_cell(lib, #[trigger] m@.gates[l].1.name)
                    ||| m@.gates[l].1.name == inv_name
                    ||| pend1.contains(m@.gates[l].0)
                } by {
                    let g = m@.gates[l];
                    let p = crate::verilog::gate_index(m2.gates, e.0);
                    assert(crate::verilog::has_gate(m@.gates, g.0));
                    if crate::verilog::has_gate(m2.gates, e.0) {
                        if l < p { assert(g == m2.gates[l]); } else { assert(g == m2.gates[l + 1]); }
                    } else {
                        assert(g == m2.gates[l]);
                    }
                    assert(m2.gates.contains(g));
                    if is_ff_cell(lib, g.1.name) && g.1.name != inv_name {
                        assert(m1.gates.contains(g));
                        let q = choose|q: int| 0 <= q < m1.gates.len() && m1.gates[q] == g;
                        assert(pend0.contains(g.0));
                        let r = choose|r: int| 0 <= r < pend0.len() && pend0[r] == g.0;
                        assert(g.0 != e.0);
                        assert(r != 0);
                        assert(pend1[r - 1] == g.0);
                    }
                }
                assert forall|l: int| 0 <= l < m@.gates.len() implies gate_origin(top@.gates, inv_name, lib, fv, #[trigger] m@.gates[l]) by {
                    let g = m@.gates[l];
                    let p = crate::verilog::gate_index(m2.gates, e.0);
                    if crate::verilog::has_gate(m2.gates, e.0) {
                        if l < p { assert(g == m2.gates[l]); } else { assert(g == m2.gates[l + 1]); }
                    } else {
                        assert(g == m2.gates[l]);
                    }
                    assert(m2.gates.contains(g));
                    let q = choose|q: int| 0 <= q < m2.gates.len() && m2.gates[q] == g;
                    if m1.gates.contains(g) {
                        let q1 = choose|q1: int| 0 <= q1 < m1.gates.len() && m1.gates[q1] == g;
                        assert(m1.gates == m0.gates);
                        assert(gate_origin(top@.gates, inv_name, lib, fv, m0.gates[q1]));
                    } else {
                        assert(g.0 == inverter_id((i + 1) as nat));
                        assert(1 <= (i + 1) as nat <= fv.len());
                        assert(fv[((i + 1) as nat) - 1] == e);
                        assert(inverted_bound(ff_def_of(lib, e.1.name), e.1));
                    }
                }
                lemma_ff_instance_in(top@.gates, lib, i as int);
                assert forall|id: Seq<char>| kept_gate(top@.gates, lib, id) && no_inverter_id(id, i + 1)
                    implies crate::verilog::has_gate(m@.gates, id) && crate::verilog::gate_of(m@.gates, id)
                    == crate::verilog::gate_of(top@.gates, id) by {
                    assert(id != inverter_id((i + 1) as nat));
                    assert(no_inverter_id(id, i as int));
                    assert(id != e.0);
                    assert(crate::verilog::has_gate(m2.gates, id));
                    if crate::verilog::has_gate(m2.gates, e.0) {
                        lemma_gates_remove(m2.gates, e.0, id);
                    }
                }
                assert forall|x: WireView| m@.inputs.contains(x) implies wire_views(primary_inputs@).contains(x)
                    || exists|k: int| 0 <= k < i + 1 && x == single(ppi_name((k + 1) as nat, fv[k].0)) by {
                    if x == single(ppi@) {
                        assert(x == single(ppi_name((i + 1) as nat, fv[i as int].0)));
                    }
                }
            }
            pseudo_primary_inputs.push(Wire::new_single(ppi.clone()));
            pseudo_primary_outputs.push(Wire::new_single(ppo.clone()));
            pseudo_primary_ios.push((Wire::new_single(ppi), Wire::new_single(ppo)));
            i = i + 1;
        }
        proof {
            assert(ids.subrange(i as int, ids.len() as int) =~= Seq::<Seq<char>>::empty());
        }
        ExtractedCombinationalPartModel {
            configured_model,
            extracted_module: m,
            primary_inputs,
            primary_outputs,
            pseudo_primary_inputs,
            pseudo_primary_outputs,
            pseudo_primary_ios,
        }
    }

    pub fn configured_model(&self) -> (r: &ConfiguredModel)
        ensures
            r == &self.configured_model,
    {
        &self.configured_model
    }

    pub fn extracted_module(&self) -> (r: &Module)
        ensures
            r@ == self.extracted_module@,
    {
        &self.extracted_module
    }

    pub fn primary_inputs(&self) -> (r: &Vec<Wire>)
        ensures
            wire_views(r@) == wire_views(self.primary_inputs@),
    {
        &self.primary_inputs
    }

    pub fn primary_outputs(&self) -> (r: &Vec<Wire>)
        ensures
            wire_views(r@) == wire_views(self.primary_outputs@),
    {
        &self.primary_outputs
    }

    pub fn pseudo_primary_inputs(&self) -> (r: &Vec<Wire>)
        ensures
            wire_views(r@) == wire_views(self.pseudo_primary_inputs@),
    {
        &self.pseudo_primary_inputs
    }

    pub fn pseudo_primary_outputs(&self) -> (r: &Vec<Wire>)
        ensures
            wire_views(r@) == wire_views(self.pseudo_primary_outputs@),
    {
        &self.pseudo_primary_outputs
    }

    pub fn pseudo_primary_ios(&self) -> (r: &Vec<(Wire, Wire)>)
        ensures
            r@ == self.pseudo_primary_ios@,
    {
        &self.pseudo_primary_ios
    }
}


impl crate::config::ConfiguredTrait for ConfiguredModel {
    open spec fn spec_cfg(&self) -> crate::config::ExpansionConfig {
        self.cfg
    }

    fn cfg_ref(&self) -> (r: &crate::config::ExpansionConfig) {
        &self.cfg
    }
}


impl crate::config::ConfiguredTrait for ExtractedCombinationalPartModel {
    open spec fn spec_cfg(&self) -> crate::config::ExpansionConfig {
        self.configured_model.cfg
    }

    fn cfg_ref(&self) -> (r: &crate::config::ExpansionConfig) {
        &self.configured_model.cfg
    }
}

} // verus!
