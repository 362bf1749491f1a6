//! Broadside expansion: two combinational copies chained first-cycle outputs to second-cycle inputs.
use vstd::prelude::*;
use crate::atpg::{all_resolve, faults_view, inject_all, inject_faults, insert_restricted_gates};
use crate::extraction::ExtractedCombinationalPartModel;
use crate::fault::Fault;
use crate::text::{concat, concat3};
use crate::verilog::{
    assign_text, gate_ids, has_gate, has_module, module_index, module_named,
    observable_name, resolves, single, PortWire, VerilogError, binding, has_port, Gate, GateView, wire_views, wires_with, Module, ModuleView,
    Verilog, Wire, WireView,
};

verus! {

/// `w` renamed with `suffix` appended, its range kept.
pub open spec fn suffixed(w: WireView, suffix: Seq<char>) -> WireView {
    WireView { name: w.name + suffix, range: w.range }
}

/// A copy of `w` whose name has `suffix` appended.
pub fn with_suffix(w: &Wire, suffix: &str) -> (r: Wire)
    ensures
        r@ == suffixed(w@, suffix@),
{
    Wire::new(w.range.duplicate(), concat(w.name.as_str(), suffix))
}

/// `b` holds every assign, input, output and internal wire that `a` holds, under the same name.
pub open spec fn extends(a: ModuleView, b: ModuleView) -> bool {
    &&& b.name == a.name
    &&& b.gates == a.gates
    &&& forall|x: Seq<char>| a.assigns.contains(x) ==> b.assigns.contains(x)
    &&& forall|x: WireView| a.inputs.contains(x) ==> b.inputs.contains(x)
    &&& forall|x: WireView| a.outputs.contains(x) ==> b.outputs.contains(x)
    &&& forall|x: WireView| a.wires.contains(x) ==> b.wires.contains(x)
}

pub proof fn lemma_extends_trans(a: ModuleView, b: ModuleView, c: ModuleView)
    requires
        extends(a, b),
        extends(b, c),
    ensures
        extends(a, c),
{
}

pub(crate) proof fn lemma_with_contains(ws: Seq<WireView>, w: WireView)
    ensures
        wires_with(ws, w).contains(w),
        forall|x: WireView| ws.contains(x) ==> wires_with(ws, w).contains(x),
{
    crate::verilog::lemma_wires_with(ws, w);
}

pub(crate) proof fn lemma_with_only(ws: Seq<WireView>, w: WireView)
    ensures
        forall|x: WireView| wires_with(ws, w).contains(x) ==> ws.contains(x) || x == w,
{
    crate::verilog::lemma_wires_with(ws, w);
}

proof fn lemma_assign_contains(xs: Seq<Seq<char>>, y: Seq<char>)
    ensures
        xs.push(y).contains(y),
        forall|x: Seq<char>| xs.contains(x) ==> xs.push(y).contains(x),
{
    assert(xs.push(y)[xs.len() as int] == y);
    assert forall|x: Seq<char>| xs.contains(x) implies xs.push(y).contains(x) by {
        let j = choose|j: int| 0 <= j < xs.len() && xs[j] == x;
        assert(xs.push(y)[j] == x);
    }
}

/// Adds an input port, keeping what was there.
pub(crate) fn add_input(m: &mut Module, w: Wire)
    requires
        old(m).wf(),
    ensures
        final(m).wf(),
        extends(old(m)@, final(m)@),
        final(m)@.inputs.contains(w@),
        final(m)@.assigns == old(m)@.assigns,
        final(m)@.outputs == old(m)@.outputs,
        forall|x: WireView| final(m)@.inputs.contains(x) ==> old(m)@.inputs.contains(x) || x == w@,
{
    let ghost v = w@;
    m.push_input(w);
    proof {
        lemma_with_contains(old(m)@.inputs, v);
        lemma_with_only(old(m)@.inputs, v);
    }
}

/// Adds an output port, keeping what was there.
pub(crate) fn add_output(m: &mut Module, w: Wire)
    requires
        old(m).wf(),
    ensures
        final(m).wf(),
        extends(old(m)@, final(m)@),
        final(m)@.outputs.contains(w@),
        final(m)@.assigns == old(m)@.assigns,
        final(m)@.inputs == old(m)@.inputs,
        forall|x: WireView| final(m)@.outputs.contains(x) ==> old(m)@.outputs.contains(x) || x == w@,
{
    let ghost v = w@;
    m.push_output(w);
    proof {
        lemma_with_contains(old(m)@.outputs, v);
        lemma_with_only(old(m)@.outputs, v);
    }
}

/// Adds an internal wire, keeping what was there.
pub(crate) fn add_wire(m: &mut Module, w: Wire)
    requires
        old(m).wf(),
    ensures
        final(m).wf(),
        extends(old(m)@, final(m)@),
        final(m)@.wires.contains(w@),
        final(m)@.assigns == old(m)@.assigns,
        final(m)@.inputs == old(m)@.inputs,
        final(m)@.outputs == old(m)@.outputs,
{
    let ghost v = w@;
    m.push_wire(w);
    proof {
        lemma_with_contains(old(m)@.wires, v);
    }
}

/// Adds the assign `lhs = rhs`, keeping what was there.
pub(crate) fn add_assign(m: &mut Module, lhs: &str, rhs: &str)
    requires
        old(m).wf(),
    ensures
        final(m).wf(),
        extends(old(m)@, final(m)@),
        final(m)@.assigns.contains(assign_text(lhs@, rhs@)),
        final(m)@.assigns == old(m)@.assigns.push(assign_text(lhs@, rhs@)),
        final(m)@.inputs == old(m)@.inputs,
        final(m)@.outputs == old(m)@.outputs,
        final(m)@.wires == old(m)@.wires,
{
    let a = concat3(lhs, " = ", rhs);
    m.push_assign(a);
    proof {
        lemma_assign_contains(old(m)@.assigns, assign_text(lhs@, rhs@));
    }
}

/// `y` is one of the assigns that the broadside top holds: a scan-chain link, a held primary
/// input (without `use_primary_io`), or an observed second-cycle output.
pub open spec fn bs_assign_form(x: ExtractedCombinationalPartModel, y: Seq<char>) -> bool {
    let ppis = wire_views(x.pseudo_primary_inputs@);
    let ppos = wire_views(x.pseudo_primary_outputs@);
    let pis = wire_views(x.primary_inputs@);
    let upio = x.configured_model.cfg.use_primary_io;
    ||| exists|k: int| 0 <= k < ppis.len() && y == assign_text(#[trigger] ppis[k].name + "_c2"@, ppos[k].name + "_c1"@)
    ||| !upio && exists|w: WireView| pis.contains(w) && y == assign_text(w.name + "_c2"@, w.name + "_c1"@)
    ||| exists|o: WireView| x.extracted_module@.outputs.contains(o) && (upio || names_wire(ppos, o.name))
        && y == assign_text(o.name, o.name + "_c2"@)
}

pub(crate) proof fn lemma_push_only(xs: Seq<Seq<char>>, t: Seq<char>)
    ensures
        forall|y: Seq<char>| xs.push(t).contains(y) ==> xs.contains(y) || y == t,
{
    assert forall|y: Seq<char>| xs.push(t).contains(y) implies xs.contains(y) || y == t by {
        let j = choose|j: int| 0 <= j < xs.push(t).len() && xs.push(t)[j] == y;
        if j < xs.len() {
            assert(xs[j] == y);
        }
    }
}

/// Removes every binding of the port named `name` from `g`.
pub(crate) fn take_all_ports(g: &mut Gate, name: &str)
    ensures
        final(g)@.name == old(g)@.name,
        !has_port(final(g)@.ports, name@),
        others_kept(old(g)@, final(g)@, name@),
{
    loop
        invariant
            g@.name == old(g)@.name,
            others_kept(old(g)@, g@, name@),
        ensures
            g@.name == old(g)@.name,
            others_kept(old(g)@, g@, name@),
            !has_port(g@.ports, name@),
        decreases g.ports@.len(),
    {
        let ghost before = g@;
        match g.take_port_by_name(name) {
            Some(_) => {
                assert(g@.ports.len() < before.ports.len());
            },
            None => {
                break;
            },
        }
    }
}

/// Where the instance `g` binds port `p`, its first binding of it connects `w`.
pub open spec fn bound_to(g: GateView, p: Seq<char>, w: Seq<char>) -> bool {
    has_port(g.ports, p) ==> binding(g.ports, p) == w
}

/// The first `upto` wires of `ws` are bound in `g` to their names with `sfx` appended.
pub open spec fn renamed_all(g: GateView, ws: Seq<WireView>, upto: int, sfx: Seq<char>) -> bool {
    forall|k: int| 0 <= k < upto ==> bound_to(g, (#[trigger] ws[k]).name, ws[k].name + sfx)
}

/// `g1` is `g0` with its first binding of port `n` connected to `w` where there is one.
pub open spec fn port_set(g0: GateView, g1: GateView, n: Seq<char>, w: Seq<char>) -> bool {
    &&& has_port(g0.ports, n) ==> binding(g1.ports, n) == w
    &&& !has_port(g0.ports, n) ==> g1 == g0
    &&& forall|q: Seq<char>| q != n ==> (has_port(g1.ports, q) <==> has_port(g0.ports, q))
    &&& forall|q: Seq<char>| q != n && has_port(g0.ports, q) ==> binding(g1.ports, q) == binding(g0.ports, q)
}

/// `g1` is `g0` with the bindings of port `n` changed only.
pub open spec fn others_kept(g0: GateView, g1: GateView, n: Seq<char>) -> bool {
    &&& forall|q: Seq<char>| q != n ==> (has_port(g1.ports, q) <==> has_port(g0.ports, q))
    &&& forall|q: Seq<char>| q != n && has_port(g0.ports, q) ==> binding(g1.ports, q) == binding(g0.ports, q)
}

pub proof fn lemma_port_set_keeps(g0: GateView, g1: GateView, n: Seq<char>, sfx: Seq<char>, ws: Seq<WireView>, upto: int)
    requires
        port_set(g0, g1, n, n + sfx),
        renamed_all(g0, ws, upto, sfx),
    ensures
        renamed_all(g1, ws, upto, sfx),
{
    assert forall|k: int| 0 <= k < upto implies bound_to(g1, (#[trigger] ws[k]).name, ws[k].name + sfx) by {
        assert(bound_to(g0, ws[k].name, ws[k].name + sfx));
    }
}

/// Each wire of `ws` whose name none of the first `upto` wires of `avoid` has is bound in `g`
/// to its name with `sfx` appended.
pub open spec fn renamed_unless(g: GateView, ws: Seq<WireView>, sfx: Seq<char>, avoid: Seq<WireView>, upto: int) -> bool {
    forall|k: int| 0 <= k < ws.len() && (forall|j: int| 0 <= j < upto ==> (#[trigger] avoid[j]).name != ws[k].name)
        ==> bound_to(g, (#[trigger] ws[k]).name, ws[k].name + sfx)
}

/// Some wire of `ws` is named `n`.
pub open spec fn names_wire(ws: Seq<WireView>, n: Seq<char>) -> bool {
    exists|i: int| 0 <= i < ws.len() && ws[i].name == n
}

/// The two-cycle broadside model: the expanded top module and its two combinational copies.
#[derive(Debug, Clone)]
pub struct BroadSideExpansionModel {
    pub combinational_part_model: ExtractedCombinationalPartModel,
    pub expanded_model: Verilog,
}

impl BroadSideExpansionModel {
    /// The invariant: the netlist holds the expanded top, then the copies `_c1` and `_c2`.
    pub open spec fn wf(&self) -> bool {
        &&& self.combinational_part_model.wf()
        &&& self.expanded_model.wf()
        &&& self.expanded_model@.len() == 3
        &&& gate_ids(self.expanded_model@[0].gates) == seq!["C1"@, "C2"@]
    }

    /// Builds the broadside model from an extracted combinational part. The first copy takes
    /// the primary and pseudo-primary inputs, its pseudo-primary outputs feed the second copy's
    /// pseudo-primary inputs; without `use_primary_io` the primary inputs are held across the
    /// two cycles and only pseudo-primary outputs are observed.
    pub fn from_extracted(combinational_part_model: ExtractedCombinationalPartModel) -> (r: Self)
        requires
            combinational_part_model.wf(),
        ensures
            r.wf(),
            r.combinational_part_model == combinational_part_model,
            ({
                let x = combinational_part_model;
                let mc = x.extracted_module@;
                let upio = x.configured_model.cfg.use_primary_io;
                let pis = wire_views(x.primary_inputs@);
                let ppis = wire_views(x.pseudo_primary_inputs@);
                let ppos = wire_views(x.pseudo_primary_outputs@);
                let top = r.expanded_model@[0];
                &&& r.expanded_model@[1] == (ModuleView { name: mc.name + "_c1"@, ..mc })
                &&& r.expanded_model@[2] == (ModuleView { name: mc.name + "_c2"@, ..mc })
                &&& top.name == x.configured_model.cfg.top_module@ + "_bs"@
                &&& top.gates[0].1.name == mc.name + "_c1"@
                &&& top.gates[1].1.name == mc.name + "_c2"@
                &&& forall|k: int| 0 <= k < ppis.len() ==> top.assigns.contains(
                    assign_text(#[trigger] ppis[k].name + "_c2"@, ppos[k].name + "_c1"@),
                )
                &&& forall|w: WireView| pis.contains(w) || ppis.contains(w) ==> top.inputs.contains(
                    suffixed(w, "_c1"@),
                )
                &&& forall|w: WireView| ppos.contains(w) ==> top.wires.contains(suffixed(w, "_c1"@))
                &&& forall|w: WireView| pis.contains(w) ==> if upio {
                    top.inputs.contains(suffixed(w, "_c2"@))
                } else {
                    top.wires.contains(suffixed(w, "_c2"@)) && top.assigns.contains(
                        assign_text(w.name + "_c2"@, w.name + "_c1"@),
                    )
                }
                &&& forall|x: WireView| top.inputs.contains(x) ==> (exists|w: WireView|
                    (pis.contains(w) || ppis.contains(w)) && x == suffixed(w, "_c1"@)) || (upio
                    && exists|w: WireView| pis.contains(w) && x == suffixed(w, "_c2"@))
                &&& forall|o: WireView| mc.outputs.contains(o) && (upio || names_wire(ppos, o.name))
                    ==> top.outputs.contains(o) && top.wires.contains(suffixed(o, "_c2"@))
                    && top.assigns.contains(assign_text(o.name, o.name + "_c2"@))
                &&& forall|o: WireView| top.outputs.contains(o) ==> mc.outputs.contains(o) && (upio
                    || names_wire(ppos, o.name))
                &&& forall|w: WireView| (pis.contains(w) || ppis.contains(w) || ppos.contains(w))
                    && !names_wire(wire_views(x.primary_outputs@), w.name)
                    ==> bound_to(top.gates[0].1, w.name, w.name + "_c1"@)
                &&& forall|w: WireView| (pis.contains(w) || ppis.contains(w)) && !names_wire(mc.outputs, w.name)
                    ==> bound_to(top.gates[1].1, w.name, w.name + "_c2"@)
                &&& forall|y: Seq<char>| top.assigns.contains(y) ==> bs_assign_form(x, y)
                &&& forall|k: int| 0 <= k < ppis.len() ==> top.wires.contains(suffixed(#[trigger] ppis[k], "_c2"@))
                &&& forall|y: Seq<char>| top.assigns.contains(y) ==> exists|l: Seq<char>, rr: Seq<char>|
                    y == assign_text(l, rr) && crate::verilog::declares(top, l) && crate::verilog::declares(top, rr)
                &&& forall|w: WireView| wire_views(x.primary_outputs@).contains(w) ==> !has_port(top.gates[0].1.ports, w.name)
                &&& forall|o: WireView| mc.outputs.contains(o) && !(upio || names_wire(ppos, o.name))
                    ==> !has_port(top.gates[1].1.ports, o.name)
            }),
    {
        let x = &combinational_part_model;
        let upio = x.configured_model.cfg.use_primary_io;
        let ghost mc = x.extracted_module@;
        let ghost pis = wire_views(x.primary_inputs@);
        let ghost ppis = wire_views(x.pseudo_primary_inputs@);
        let ghost ppos = wire_views(x.pseudo_primary_outputs@);
        let c1_module = x.extracted_module.clone_with_name_prefix("_c1");
        let c2_module = x.extracted_module.clone_with_name_prefix("_c2");
        let mut gate_c1 = c1_module.to_gate();
        let mut gate_c2 = c2_module.to_gate();
        let mut top = Module::new_with_name(concat(x.configured_model.cfg.top_module.as_str(), "_bs"));
        let ghost t0 = top@;
        // first-cycle inputs: primary and pseudo-primary inputs of the first copy
        let mut i: usize = 0;
        while i < x.primary_inputs.len()
            invariant
                i <= x.primary_inputs.len(),
                top.wf(),
                extends(t0, top@),
                top@.assigns == t0.assigns,
                top@.outputs == t0.outputs,
                gate_c1@.name == mc.name + "_c1"@,
                pis == wire_views(x.primary_inputs@),
                i <= x.primary_inputs.len(),
                renamed_all(gate_c1@, pis, i as int, "_c1"@),
                forall|k: int| 0 <= k < i ==> top@.inputs.contains(suffixed(#[trigger] pis[k], "_c1"@)),
                forall|y: WireView| top@.inputs.contains(y) ==> exists|k: int| 0 <= k < i && y == suffixed(
                    #[trigger] pis[k],
                    "_c1"@,
                ),
            decreases x.primary_inputs.len() - i,
        {
            let w = &x.primary_inputs[i];
            assert(pis[i as int] == w@);
            let n1 = with_suffix(w, "_c1");
            let ghost g0 = gate_c1@;
            gate_c1.set_port_wire(w.name.as_str(), n1.name.clone());
            proof {
                lemma_port_set_keeps(g0, gate_c1@, w.name@, "_c1"@, pis, i as int);
            }
            add_input(&mut top, n1);
            i = i + 1;
        }
        assert(i == pis.len());
        let ghost t1 = top@;
        let mut i: usize = 0;
        while i < x.pseudo_primary_inputs.len()
            invariant
                i <= x.pseudo_primary_inputs.len(),
                top.wf(),
                extends(t1, top@),
                top@.assigns == t0.assigns,
                top@.outputs == t0.outputs,
                gate_c1@.name == mc.name + "_c1"@,
                ppis == wire_views(x.pseudo_primary_inputs@),
                pis == wire_views(x.primary_inputs@),
                i <= x.pseudo_primary_inputs.len(),
                renamed_all(gate_c1@, pis, pis.len() as int, "_c1"@),
                renamed_all(gate_c1@, ppis, i as int, "_c1"@),
                forall|k: int| 0 <= k < i ==> top@.inputs.contains(suffixed(#[trigger] ppis[k], "_c1"@)),
                forall|y: WireView| top@.inputs.contains(y) ==> t1.inputs.contains(y) || exists|k: int|
                    0 <= k < i && y == suffixed(#[trigger] ppis[k], "_c1"@),
            decreases x.pseudo_primary_inputs.len() - i,
        {
            let w = &x.pseudo_primary_inputs[i];
            assert(ppis[i as int] == w@);
            let n1 = with_suffix(w, "_c1");
            let ghost g0 = gate_c1@;
            gate_c1.set_port_wire(w.name.as_str(), n1.name.clone());
            proof {
                lemma_port_set_keeps(g0, gate_c1@, w.name@, "_c1"@, pis, pis.len() as int);
                lemma_port_set_keeps(g0, gate_c1@, w.name@, "_c1"@, ppis, i as int);
            }
            add_input(&mut top, n1);
            i = i + 1;
        }
        assert(i == ppis.len());
        let ghost t2 = top@;
        // first-cycle pseudo-primary outputs become internal wires; primary outputs are dropped
        let mut i: usize = 0;
        while i < x.pseudo_primary_outputs.len()
            invariant
                i <= x.pseudo_primary_outputs.len(),
                top.wf(),
                extends(t2, top@),
                top@.assigns == t0.assigns,
                top@.inputs == t2.inputs,
                top@.outputs == t0.outputs,
                gate_c1@.name == mc.name + "_c1"@,
                ppos == wire_views(x.pseudo_primary_outputs@),
                ppis == wire_views(x.pseudo_primary_inputs@),
                pis == wire_views(x.primary_inputs@),
                renamed_all(gate_c1@, pis, pis.len() as int, "_c1"@),
                renamed_all(gate_c1@, ppis, ppis.len() as int, "_c1"@),
                renamed_all(gate_c1@, ppos, i as int, "_c1"@),
                forall|k: int| 0 <= k < i ==> top@.wires.contains(suffixed(#[trigger] ppos[k], "_c1"@)),
            decreases x.pseudo_primary_outputs.len() - i,
        {
            let w = &x.pseudo_primary_outputs[i];
            assert(ppos[i as int] == w@);
            let n1 = with_suffix(w, "_c1");
            let ghost g0 = gate_c1@;
            gate_c1.set_port_wire(w.name.as_str(), n1.name.clone());
            proof {
                lemma_port_set_keeps(g0, gate_c1@, w.name@, "_c1"@, pis, pis.len() as int);
                lemma_port_set_keeps(g0, gate_c1@, w.name@, "_c1"@, ppis, ppis.len() as int);
                lemma_port_set_keeps(g0, gate_c1@, w.name@, "_c1"@, ppos, i as int);
            }
            add_wire(&mut top, n1);
            i = i + 1;
        }
        assert(i == ppos.len());
        let ghost pos = wire_views(x.primary_outputs@);
        let mut i: usize = 0;
        while i < x.primary_outputs.len()
            invariant
                i <= x.primary_outputs.len(),
                gate_c1@.name == mc.name + "_c1"@,
                pos == wire_views(x.primary_outputs@),
                renamed_unless(gate_c1@, pis, "_c1"@, pos, i as int),
                renamed_unless(gate_c1@, ppis, "_c1"@, pos, i as int),
                renamed_unless(gate_c1@, ppos, "_c1"@, pos, i as int),
                forall|j: int| 0 <= j < i ==> !has_port(gate_c1@.ports, (#[trigger] pos[j]).name),
            decreases x.primary_outputs.len() - i,
        {
            let ghost g0 = gate_c1@;
            assert(pos[i as int] == x.primary_outputs@[i as int]@);
            take_all_ports(&mut gate_c1, x.primary_outputs[i].name.as_str());
            proof {
                assert(others_kept(g0, gate_c1@, pos[i as int].name));
                assert forall|j: int| 0 <= j < i + 1 implies !has_port(gate_c1@.ports, (#[trigger] pos[j]).name) by {
                    if pos[j].name != pos[i as int].name {
                        assert(!has_port(g0.ports, pos[j].name));
                    }
                }
                assert forall|k: int| 0 <= k < pis.len() && (forall|j: int| 0 <= j < i + 1 ==> (#[trigger] pos[j]).name != pis[k].name)
                    implies bound_to(gate_c1@, (#[trigger] pis[k]).name, pis[k].name + "_c1"@) by {
                    assert(pos[i as int].name != pis[k].name);
                }
                assert forall|k: int| 0 <= k < ppis.len() && (forall|j: int| 0 <= j < i + 1 ==> (#[trigger] pos[j]).name != ppis[k].name)
                    implies bound_to(gate_c1@, (#[trigger] ppis[k]).name, ppis[k].name + "_c1"@) by {
                    assert(pos[i as int].name != ppis[k].name);
                }
                assert forall|k: int| 0 <= k < ppos.len() && (forall|j: int| 0 <= j < i + 1 ==> (#[trigger] pos[j]).name != ppos[k].name)
                    implies bound_to(gate_c1@, (#[trigger] ppos[k]).name, ppos[k].name + "_c1"@) by {
                    assert(pos[i as int].name != ppos[k].name);
                }
            }
            i = i + 1;
        }
        assert(i == pos.len());
        let ghost g1_final = gate_c1@;
        let ghost t3 = top@;
        // scan chaining: the second copy's pseudo-primary inputs come from the first's outputs
        let mut i: usize = 0;
        while i < x.pseudo_primary_ios.len()
            invariant
                i <= x.pseudo_primary_ios.len(),
                x.wf(),
                top.wf(),
                extends(t3, top@),
                top@.inputs == t3.inputs,
                top@.outputs == t0.outputs,
                ppis == wire_views(x.pseudo_primary_inputs@),
                ppos == wire_views(x.pseudo_primary_outputs@),
                forall|k: int| 0 <= k < i ==> top@.assigns.contains(
                    assign_text(#[trigger] ppis[k].name + "_c2"@, ppos[k].name + "_c1"@),
                ),
                forall|k: int| 0 <= k < i ==> top@.wires.contains(suffixed(#[trigger] ppis[k], "_c2"@)),
                forall|y: Seq<char>| top@.assigns.contains(y) ==> bs_assign_form(*x, y),
            decreases x.pseudo_primary_ios.len() - i,
        {
            let (ppi, ppo) = (&x.pseudo_primary_ios[i].0, &x.pseudo_primary_ios[i].1);
            assert(ppis[i as int] == x.pseudo_primary_inputs@[i as int]@);
            assert(ppos[i as int] == x.pseudo_primary_outputs@[i as int]@);
            let lhs = concat(ppi.name.as_str(), "_c2");
            let rhs = concat(ppo.name.as_str(), "_c1");
            let ghost pa = top@.assigns;
            add_assign(&mut top, lhs.as_str(), rhs.as_str());
            proof {
                lemma_push_only(pa, assign_text(lhs@, rhs@));
                assert(bs_assign_form(*x, assign_text(lhs@, rhs@))) by {
                    assert(0 <= i < ppis.len() && assign_text(lhs@, rhs@) == assign_text(ppis[i as int].name + "_c2"@, ppos[i as int].name + "_c1"@));
                }
            }
            let ghost tw = top@;
            add_wire(&mut top, with_suffix(ppi, "_c2"));
            i = i + 1;
        }
        let ghost t4 = top@;
        // second-cycle primary inputs: fresh inputs, or held from the first cycle
        let mut i: usize = 0;
        while i < x.primary_inputs.len()
            invariant
                i <= x.primary_inputs.len(),
                top.wf(),
                extends(t4, top@),
                top@.outputs == t0.outputs,
                gate_c2@.name == mc.name + "_c2"@,
                upio == x.configured_model.cfg.use_primary_io,
                pis == wire_views(x.primary_inputs@),
                renamed_all(gate_c2@, pis, i as int, "_c2"@),
                forall|k: int| 0 <= k < i ==> if upio {
                    top@.inputs.contains(suffixed(#[trigger] pis[k], "_c2"@))
                } else {
                    top@.wires.contains(suffixed(pis[k], "_c2"@)) && top@.assigns.contains(
                        assign_text(pis[k].name + "_c2"@, pis[k].name + "_c1"@),
                    )
                },
                forall|y: WireView| top@.inputs.contains(y) ==> t4.inputs.contains(y) || (upio
                    && exists|k: int| 0 <= k < i && y == suffixed(#[trigger] pis[k], "_c2"@)),
                forall|y: Seq<char>| top@.assigns.contains(y) ==> bs_assign_form(*x, y),
                x.wf(),
            decreases x.primary_inputs.len() - i,
        {
            let w = &x.primary_inputs[i];
            assert(pis[i as int] == w@);
            let n2 = with_suffix(w, "_c2");
            let ghost g0 = gate_c2@;
            gate_c2.set_port_wire(w.name.as_str(), n2.name.clone());
            proof {
                lemma_port_set_keeps(g0, gate_c2@, w.name@, "_c2"@, pis, i as int);
            }
            if upio {
                add_input(&mut top, n2);
            } else {
                let n1 = concat(w.name.as_str(), "_c1");
                let ghost pa = top@.assigns;
                add_assign(&mut top, n2.name.as_str(), n1.as_str());
                proof {
                    lemma_push_only(pa, assign_text(n2.name@, n1@));
                    assert(pis.contains(w@));
                }
                add_wire(&mut top, n2);
            }
            i = i + 1;
        }
        assert(i == pis.len());
        let mut i: usize = 0;
        while i < x.pseudo_primary_inputs.len()
            invariant
                i <= x.pseudo_primary_inputs.len(),
                gate_c2@.name == mc.name + "_c2"@,
                pis == wire_views(x.primary_inputs@),
                ppis == wire_views(x.pseudo_primary_inputs@),
                renamed_all(gate_c2@, pis, pis.len() as int, "_c2"@),
                renamed_all(gate_c2@, ppis, i as int, "_c2"@),
            decreases x.pseudo_primary_inputs.len() - i,
        {
            let w = &x.pseudo_primary_inputs[i];
            assert(ppis[i as int] == w@);
            let ghost g0 = gate_c2@;
            gate_c2.set_port_wire(w.name.as_str(), concat(w.name.as_str(), "_c2"));
            proof {
                lemma_port_set_keeps(g0, gate_c2@, w.name@, "_c2"@, pis, pis.len() as int);
                lemma_port_set_keeps(g0, gate_c2@, w.name@, "_c2"@, ppis, i as int);
            }
            i = i + 1;
        }
        assert(i == ppis.len());
        let ghost t5 = top@;
        // second-cycle outputs: exposed where observed, masked otherwise
        let mut i: usize = 0;
        while i < c1_module.outputs.len()
            invariant
                i <= c1_module.outputs.len(),
                top.wf(),
                extends(t5, top@),
                top@.inputs == t5.inputs,
                gate_c2@.name == mc.name + "_c2"@,
                upio == x.configured_model.cfg.use_primary_io,
                ppos == wire_views(x.pseudo_primary_outputs@),
                wire_views(c1_module.outputs@) == mc.outputs,
                pis == wire_views(x.primary_inputs@),
                ppis == wire_views(x.pseudo_primary_inputs@),
                renamed_unless(gate_c2@, pis, "_c2"@, mc.outputs, i as int),
                renamed_unless(gate_c2@, ppis, "_c2"@, mc.outputs, i as int),
                forall|y: Seq<char>| top@.assigns.contains(y) ==> bs_assign_form(*x, y),
                x.wf(),
                mc == x.extracted_module@,
                forall|k: int| 0 <= k < i && !(upio || names_wire(ppos, (#[trigger] mc.outputs[k]).name))
                    ==> !has_port(gate_c2@.ports, mc.outputs[k].name),
                forall|k: int| 0 <= k < i && (upio || names_wire(ppos, (#[trigger] mc.outputs[k]).name))
                    ==> top@.outputs.contains(mc.outputs[k]) && top@.wires.contains(
                    suffixed(mc.outputs[k], "_c2"@),
                ) && top@.assigns.contains(assign_text(mc.outputs[k].name, mc.outputs[k].name + "_c2"@)),
                forall|y: WireView| top@.outputs.contains(y) ==> exists|k: int| 0 <= k < i && y == (
                #[trigger] mc.outputs[k]) && (upio || names_wire(ppos, y.name)),
            decreases c1_module.outputs.len() - i,
        {
            let o = &c1_module.outputs[i];
            assert(mc.outputs[i as int] == o@);
            let n2 = with_suffix(o, "_c2");
            let ghost g0 = gate_c2@;
            gate_c2.set_port_wire(o.name.as_str(), n2.name.clone());
            let ghost g1 = gate_c2@;
            if upio || names_any(&x.pseudo_primary_outputs, o.name.as_str()) {
                let ghost pa = top@.assigns;
                add_assign(&mut top, o.name.as_str(), n2.name.as_str());
                proof {
                    lemma_push_only(pa, assign_text(o.name@, n2.name@));
                    assert(mc.outputs.contains(o@));
                }
                add_output(&mut top, o.duplicate());
                add_wire(&mut top, n2);
            } else {
                take_all_ports(&mut gate_c2, o.name.as_str());
            }
            proof {
                assert(others_kept(g0, g1, o@.name));
                assert(others_kept(g1, gate_c2@, o@.name));
                assert forall|k: int| 0 <= k < pis.len() && (forall|j: int| 0 <= j < i + 1 ==> (#[trigger] mc.outputs[j]).name != pis[k].name)
                    implies bound_to(gate_c2@, (#[trigger] pis[k]).name, pis[k].name + "_c2"@) by {
                    assert(mc.outputs[i as int].name != pis[k].name);
                    assert(bound_to(g0, pis[k].name, pis[k].name + "_c2"@));
                }
                assert forall|k: int| 0 <= k < ppis.len() && (forall|j: int| 0 <= j < i + 1 ==> (#[trigger] mc.outputs[j]).name != ppis[k].name)
                    implies bound_to(gate_c2@, (#[trigger] ppis[k]).name, ppis[k].name + "_c2"@) by {
                    assert(mc.outputs[i as int].name != ppis[k].name);
                    assert(bound_to(g0, ppis[k].name, ppis[k].name + "_c2"@));
                }
            }
            i = i + 1;
        }
        let ghost t6 = top@;
        let ghost g1v = gate_c1@;
        let ghost g2v = gate_c2@;
        proof {
            reveal_strlit("C1");
            reveal_strlit("C2");
            assert(t6.gates.len() == 0);
            assert(!crate::verilog::has_gate(t6.gates, "C1"@));
            assert(crate::verilog::is_gate_pos(t6.gates, "C1"@, 0));
            crate::verilog::lemma_gate_pos(t6.gates, "C1"@);
        }
        top.push_gate(String::from_str("C1"), gate_c1);
        let ghost t7 = top@;
        proof {
            assert(t7.gates =~= seq![("C1"@, g1v)]);
            assert(!crate::verilog::has_gate(t7.gates, "C2"@)) by {
                assert("C1"@[1] != "C2"@[1]);
                assert(t7.gates[0].0 != "C2"@);
            }
            crate::text::lemma_instance_order();
            assert(crate::verilog::is_gate_pos(t7.gates, "C2"@, 1));
            crate::verilog::lemma_gate_pos(t7.gates, "C2"@);
        }
        top.push_gate(String::from_str("C2"), gate_c2);
        proof {
            assert(top@.gates =~= seq![("C1"@, g1v), ("C2"@, g2v)]);
            assert(gate_ids(top@.gates) =~= seq!["C1"@, "C2"@]);
            assert(top@.gates[0].1 == g1_final);
            assert forall|w: WireView| (pis.contains(w) || ppis.contains(w) || ppos.contains(w))
                && !names_wire(pos, w.name) implies bound_to(top@.gates[0].1, w.name, w.name + "_c1"@) by {
                assert forall|j: int| 0 <= j < pos.len() implies (#[trigger] pos[j]).name != w.name by {}
                if pis.contains(w) {
                    let k = choose|k: int| 0 <= k < pis.len() && pis[k] == w;
                    assert(bound_to(g1_final, pis[k].name, pis[k].name + "_c1"@));
                } else if ppis.contains(w) {
                    let k = choose|k: int| 0 <= k < ppis.len() && ppis[k] == w;
                    assert(bound_to(g1_final, ppis[k].name, ppis[k].name + "_c1"@));
                } else {
                    let k = choose|k: int| 0 <= k < ppos.len() && ppos[k] == w;
                    assert(bound_to(g1_final, ppos[k].name, ppos[k].name + "_c1"@));
                }
            }
            assert forall|w: WireView| pos.contains(w) implies !has_port(top@.gates[0].1.ports, w.name) by {
                let j = choose|j: int| 0 <= j < pos.len() && pos[j] == w;
                assert(!has_port(g1_final.ports, pos[j].name));
            }
            assert forall|o: WireView| mc.outputs.contains(o) && !(upio || names_wire(ppos, o.name))
                implies !has_port(top@.gates[1].1.ports, o.name) by {
                let j = choose|j: int| 0 <= j < mc.outputs.len() && mc.outputs[j] == o;
                assert(!has_port(g2v.ports, mc.outputs[j].name));
            }
            let tv = top@;
            assert forall|y: Seq<char>| tv.assigns.contains(y) implies exists|l: Seq<char>, rr: Seq<char>|
                y == assign_text(l, rr) && crate::verilog::declares(tv, l) && crate::verilog::declares(tv, rr) by {
                assert(bs_assign_form(*x, y));
                if exists|k: int| 0 <= k < ppis.len() && y == assign_text(#[trigger] ppis[k].name + "_c2"@, ppos[k].name + "_c1"@) {
                    let k = choose|k: int| 0 <= k < ppis.len() && y == assign_text(#[trigger] ppis[k].name + "_c2"@, ppos[k].name + "_c1"@);
                    assert(tv.wires.contains(suffixed(ppis[k], "_c2"@)));
                    assert(ppos.contains(ppos[k]));
                    assert(tv.wires.contains(suffixed(ppos[k], "_c1"@)));
                    let a = choose|a: int| 0 <= a < tv.wires.len() && tv.wires[a] == suffixed(ppis[k], "_c2"@);
                    let b = choose|b: int| 0 <= b < tv.wires.len() && tv.wires[b] == suffixed(ppos[k], "_c1"@);
                    assert(crate::verilog::declares(tv, ppis[k].name + "_c2"@));
                    assert(crate::verilog::declares(tv, ppos[k].name + "_c1"@));
                } else if !upio && exists|w: WireView| pis.contains(w) && y == assign_text(w.name + "_c2"@, w.name + "_c1"@) {
                    let w = choose|w: WireView| pis.contains(w) && y == assign_text(w.name + "_c2"@, w.name + "_c1"@);
                    assert(tv.wires.contains(suffixed(w, "_c2"@)));
                    assert(tv.inputs.contains(suffixed(w, "_c1"@)));
                    let a = choose|a: int| 0 <= a < tv.wires.len() && tv.wires[a] == suffixed(w, "_c2"@);
                    let b = choose|b: int| 0 <= b < tv.inputs.len() && tv.inputs[b] == suffixed(w, "_c1"@);
                    assert(crate::verilog::declares(tv, w.name + "_c2"@));
                    assert(crate::verilog::declares(tv, w.name + "_c1"@));
                } else {
                    let o = choose|o: WireView| mc.outputs.contains(o) && (upio || names_wire(ppos, o.name))
                        && y == assign_text(o.name, o.name + "_c2"@);
                    assert(tv.outputs.contains(o));
                    assert(tv.wires.contains(suffixed(o, "_c2"@)));
                    let a = choose|a: int| 0 <= a < tv.outputs.len() && tv.outputs[a] == o;
                    let b = choose|b: int| 0 <= b < tv.wires.len() && tv.wires[b] == suffixed(o, "_c2"@);
                    assert(crate::verilog::declares(tv, o.name));
                    assert(crate::verilog::declares(tv, o.name + "_c2"@));
                }
            }
            assert forall|w: WireView| (pis.contains(w) || ppis.contains(w)) && !names_wire(mc.outputs, w.name)
                implies bound_to(top@.gates[1].1, w.name, w.name + "_c2"@) by {
                assert forall|j: int| 0 <= j < mc.outputs.len() implies (#[trigger] mc.outputs[j]).name != w.name by {}
                if pis.contains(w) {
                    let k = choose|k: int| 0 <= k < pis.len() && pis[k] == w;
                    assert(bound_to(g2v, pis[k].name, pis[k].name + "_c2"@));
                } else {
                    let k = choose|k: int| 0 <= k < ppis.len() && ppis[k] == w;
                    assert(bound_to(g2v, ppis[k].name, ppis[k].name + "_c2"@));
                }
            }
            assert(extends(t0, t1));
            lemma_extends_trans(t0, t1, t2);
            lemma_extends_trans(t2, t3, t4);
            lemma_extends_trans(t4, t5, t6);
            assert forall|y: WireView| top@.inputs.contains(y) implies (exists|w: WireView|
                    (pis.contains(w) || ppis.contains(w)) && y == suffixed(w, "_c1"@)) || (upio
                    && exists|w: WireView| pis.contains(w) && y == suffixed(w, "_c2"@)) by {
                if t4.inputs.contains(y) {
                    if t1.inputs.contains(y) {
                        let k = choose|k: int| 0 <= k < pis.len() && y == suffixed(#[trigger] pis[k], "_c1"@);
                        assert(pis.contains(pis[k]));
                    } else {
                        let k = choose|k: int| 0 <= k < ppis.len() && y == suffixed(#[trigger] ppis[k], "_c1"@);
                        assert(ppis.contains(ppis[k]));
                    }
                } else {
                    let k = choose|k: int| 0 <= k < pis.len() && y == suffixed(#[trigger] pis[k], "_c2"@);
                    assert(pis.contains(pis[k]));
                }
            }
        }
        let ghost tv = top@;
        proof {
            assert(forall|k: int| 0 <= k < ppis.len() ==> tv.assigns.contains(
                assign_text(#[trigger] ppis[k].name + "_c2"@, ppos[k].name + "_c1"@)));
            assert(forall|w: WireView| pis.contains(w) || ppis.contains(w) ==> tv.inputs.contains(
                suffixed(w, "_c1"@)));
            assert(forall|w: WireView| ppos.contains(w) ==> tv.wires.contains(suffixed(w, "_c1"@)));
            assert(forall|w: WireView| pis.contains(w) ==> if upio {
                    tv.inputs.contains(suffixed(w, "_c2"@))
                } else {
                    tv.wires.contains(suffixed(w, "_c2"@)) && tv.assigns.contains(
                        assign_text(w.name + "_c2"@, w.name + "_c1"@))
                });
            assert(forall|y: WireView| tv.inputs.contains(y) ==> (exists|w: WireView|
                    (pis.contains(w) || ppis.contains(w)) && y == suffixed(w, "_c1"@)) || (upio
                    && exists|w: WireView| pis.contains(w) && y == suffixed(w, "_c2"@)));
            assert(forall|o: WireView| mc.outputs.contains(o) && (upio || names_wire(ppos, o.name))
                    ==> tv.outputs.contains(o) && tv.wires.contains(suffixed(o, "_c2"@))
                    && tv.assigns.contains(assign_text(o.name, o.name + "_c2"@)));
            assert(forall|o: WireView| tv.outputs.contains(o) ==> mc.outputs.contains(o) && (upio
                    || names_wire(ppos, o.name)));
        }
        let mut verilog = Verilog::new();
        verilog.push_module(top);
        verilog.push_module(c1_module);
        verilog.push_module(c2_module);
        proof {
            assert forall|k: int| 0 <= k < verilog@.len() implies crate::verilog::module_wf(#[trigger] verilog@[k]) by {
                if k == 0 {} else if k == 1 {} else {}
            }
        }
        BroadSideExpansionModel { combinational_part_model, expanded_model: verilog }
    }
}

/// Whether some wire of `ws` is named `n`.
pub fn names_any(ws: &Vec<Wire>, n: &str) -> (r: bool)
    ensures
        r == names_wire(wire_views(ws@), n@),
{
    let mut i: usize = 0;
    while i < ws.len()
        invariant
            i <= ws.len(),
            forall|j: int| 0 <= j < i ==> wire_views(ws@)[j].name != n@,
        decreases ws.len() - i,
    {
        if crate::text::str_eq(ws[i].name.as_str(), n) {
            assert(wire_views(ws@)[i as int].name == n@);
            return true;
        }
        i = i + 1;
    }
    false
}


impl BroadSideExpansionModel {
    /// The view of the expanded top module.
    pub open spec fn spec_top(&self) -> ModuleView {
        self.expanded_model@[0]
    }

    /// The view of the first-cycle copy.
    pub open spec fn spec_c1(&self) -> ModuleView {
        self.expanded_model@[1]
    }

    /// The view of the second-cycle copy.
    pub open spec fn spec_c2(&self) -> ModuleView {
        self.expanded_model@[2]
    }

    pub fn combinational_part_model(&self) -> (r: &ExtractedCombinationalPartModel)
        ensures
            r == &self.combinational_part_model,
    {
        &self.combinational_part_model
    }

    pub fn expanded_model(&self) -> (r: &Verilog)
        ensures
            r@ == self.expanded_model@,
    {
        &self.expanded_model
    }

    /// The expanded top module.
    pub fn top_module(&self) -> (r: &Module)
        requires
            self.wf(),
        ensures
            r@ == self.spec_top(),
            r.wf(),
    {
        assert(self.expanded_model@[0] == self.expanded_model.modules@[0]@);
        &self.expanded_model.modules[0]
    }

    /// The first-cycle copy.
    pub fn c1_module(&self) -> (r: &Module)
        requires
            self.wf(),
        ensures
            r@ == self.spec_c1(),
            r.wf(),
    {
        assert(self.expanded_model@[1] == self.expanded_model.modules@[1]@);
        &self.expanded_model.modules[1]
    }

    /// The second-cycle copy.
    pub fn c2_module(&self) -> (r: &Module)
        requires
            self.wf(),
        ensures
            r@ == self.spec_c2(),
            r.wf(),
    {
        assert(self.expanded_model@[2] == self.expanded_model.modules@[2]@);
        &self.expanded_model.modules[2]
    }
}

/// Each fault of `fs` can be observed in `m`.
pub open spec fn all_observable(m: ModuleView, fs: Seq<(Seq<char>, bool)>) -> bool {
    forall|k: int| 0 <= k < fs.len() ==> resolves(m, #[trigger] fs[k].0)
}

/// The top's assigns after the restriction steps for the faults `fs` in turn, starting from
/// `a0`, each replacing the assigns that feed an output of the copy bound by `ports`.
pub open spec fn assigns_after(a0: Seq<Seq<char>>, ports: Seq<crate::verilog::PortView>, fs: Seq<(Seq<char>, bool)>) -> Seq<Seq<char>>
    decreases fs.len(),
{
    if fs.len() == 0 {
        a0
    } else {
        let prev = assigns_after(a0, ports, fs.drop_last());
        crate::atpg::unrestricted_assigns(prev, ports) + crate::atpg::feeding_assigns(
            crate::atpg::restricted_assigns(prev, ports),
            fs.last().0,
            fs.last().1,
        )
    }
}

/// The restriction gates of fault `j` can take no name that those of fault `k` take.
pub open spec fn ids_apart(fs: Seq<(Seq<char>, bool)>, j: int, k: int, cmb: Seq<char>) -> bool {
    forall|a: nat, b: nat| #[trigger] crate::atpg::restriction_id(a, fs[j].0, fs[j].1, cmb) != #[trigger] crate::atpg::restriction_id(
        b,
        fs[k].0,
        fs[k].1,
        cmb,
    )
}

/// The restriction gates of fault `k` are in place in `m`, for the assigns that its step
/// found, where no later fault's gates can take their names.
pub open spec fn fault_restricted(
    m: ModuleView,
    a0: Seq<Seq<char>>,
    ports: Seq<crate::verilog::PortView>,
    fs: Seq<(Seq<char>, bool)>,
    k: int,
    upto: int,
    inverted: bool,
    cmb: Seq<char>,
) -> bool {
    (forall|j: int| k < j < upto ==> ids_apart(fs, j, k, cmb)) ==> crate::atpg::restrictions_in_place(
        m,
        crate::atpg::restricted_assigns(assigns_after(a0, ports, fs.subrange(0, k)), ports),
        observable_name(fs[k].0, fs[k].1),
        fs[k].0,
        fs[k].1,
        inverted,
        cmb,
    )
}

/// The assigns that tap each fault of `fs` in the first copy `m`.
pub open spec fn tap_assigns(m: ModuleView, fs: Seq<(Seq<char>, bool)>) -> Seq<Seq<char>> {
    fs.map_values(|f: (Seq<char>, bool)| assign_text(observable_name(f.0, f.1), crate::verilog::located_wire(m, f.0)))
}

/// The instance `C1` of `gs` binds the tap of each of the first `upto` faults to the wire
/// of the same name.
pub open spec fn taps_bound(gs: Seq<(Seq<char>, GateView)>, faults: Seq<Fault>, upto: int) -> bool {
    &&& crate::verilog::has_gate(gs, "C1"@)
    &&& forall|k: int| 0 <= k < upto ==> {
        let o = observable_name((#[trigger] faults[k]).location@, faults[k].sa_value);
        crate::verilog::gate_of(gs, "C1"@).ports.contains(crate::verilog::wire_binding(o, o))
    }
}

/// No restriction gate is named `C1`.
pub proof fn lemma_c1_no_restriction(k: nat, loc: Seq<char>, sa: bool, cmb: Seq<char>)
    ensures
        "C1"@ != crate::atpg::restriction_id(k, loc, sa, cmb),
{
    reveal_strlit("C1");
    reveal_strlit("R");
    assert(crate::atpg::restriction_id(k, loc, sa, cmb)[0] == 'R');
}

/// Taps each fault location in the first copy `c1`, routes the taps into the top module as
/// restriction wires, and gates the outputs of the copy named `cmb` (whose instance is `copy_gate`)
/// with restriction gates.
pub fn observe_and_restrict(
    top: &mut Module,
    c1: &mut Module,
    copy_ports: &Vec<PortWire>,
    faults: &Vec<Fault>,
    inverted: bool,
    cmb_name: &str,
) -> (r: Result<(), VerilogError>)
    requires
        old(top).wf(),
        old(c1).wf(),
        crate::verilog::has_gate(old(top)@.gates, "C1"@),
    ensures
        final(top).wf(),
        final(c1).wf(),
        r is Ok <==> all_observable(old(c1)@, faults_view(faults@)),
        r is Ok ==> taps_bound(final(top)@.gates, faults@, faults@.len() as int),
        r is Ok ==> final(c1)@.gates == old(c1)@.gates && final(c1)@.name == old(c1)@.name
            && final(c1)@.inputs == old(c1)@.inputs && final(top)@.name == old(top)@.name
            && forall|k: int| 0 <= k < faults@.len() ==> {
                let o = observable_name((#[trigger] faults@[k]).location@, faults@[k].sa_value);
                &&& final(c1)@.outputs.contains(single(o))
                &&& final(top)@.wires.contains(single(o))
            },
        r is Ok ==> final(top)@.assigns == assigns_after(old(top)@.assigns, crate::verilog::port_views(copy_ports@), faults_view(faults@)),
        r is Ok ==> forall|k: int| 0 <= k < faults@.len() ==> #[trigger] fault_restricted(
            final(top)@,
            old(top)@.assigns,
            crate::verilog::port_views(copy_ports@),
            faults_view(faults@),
            k,
            faults@.len() as int,
            inverted,
            cmb_name@,
        ),
        r is Ok ==> final(c1)@.assigns == old(c1)@.assigns + tap_assigns(old(c1)@, faults_view(faults@)),
{
    let ghost c10 = c1@;
    let mut i: usize = 0;
    while i < faults.len()
        invariant
            i <= faults.len(),
            top.wf(),
            c1.wf(),
            c1@.gates == c10.gates,
            c1@.name == c10.name,
            c1@.inputs == c10.inputs,
            c10 == old(c1)@,
            top@.name == old(top)@.name,
            forall|k: int| 0 <= k < i ==> resolves(c10, (#[trigger] faults_view(faults@)[k]).0),
            forall|k: int| 0 <= k < i ==> {
                let o = observable_name((#[trigger] faults@[k]).location@, faults@[k].sa_value);
                &&& c1@.outputs.contains(single(o))
                &&& top@.wires.contains(single(o))
            },
            top@.assigns == assigns_after(old(top)@.assigns, crate::verilog::port_views(copy_ports@), faults_view(faults@).subrange(0, i as int)),
            forall|k: int| 0 <= k < i ==> #[trigger] fault_restricted(
                top@,
                old(top)@.assigns,
                crate::verilog::port_views(copy_ports@),
                faults_view(faults@),
                k,
                i as int,
                inverted,
                cmb_name@,
            ),
            c1@.assigns == c10.assigns + tap_assigns(c10, faults_view(faults@).subrange(0, i as int)),
            taps_bound(top@.gates, faults@, i as int),
        decreases faults.len() - i,
    {
        let fault = &faults[i];
        assert(faults_view(faults@)[i as int] == (fault.location@, fault.sa_value));
        let ghost c1a = c1@;
        let ghost ta = top@;
        match c1.add_observation_point(fault.location.as_str(), fault.sa_value) {
            Ok(observable) => {
                proof {
                    assert(resolves(c1a, fault.location@));
                    lemma_with_contains(c1a.outputs, single(observable@));
                }
                let restriction = Wire::new_single(observable.clone());
                add_wire(top, Wire::new_single(observable.clone()));
                let ghost tw = top@;
                match top.gate_position("C1") {
                    Some(p) => {
                        let mut g = top.gates[p].1.duplicate();
                        let ghost gold = g@;
                        g.push_port(PortWire::Wire(observable.clone(), observable.clone()));
                        let ghost gnew = g@;
                        proof {
                            reveal_strlit("C1");
                            crate::atpg::lemma_gates_with(tw.gates, "C1"@, gnew);
                            assert(gold == crate::verilog::gate_of(tw.gates, "C1"@));
                        }
                        top.push_gate(String::from_str("C1"), g);
                        proof {
                            assert(forall|other: Seq<char>| other != "C1"@ && crate::verilog::has_gate(tw.gates, other)
                                ==> crate::verilog::has_gate(top@.gates, other)
                                && crate::verilog::gate_of(top@.gates, other) == crate::verilog::gate_of(tw.gates, other));
                            let o = observable@;
                            assert(gnew.ports == gold.ports.push(crate::verilog::wire_binding(o, o)));
                            assert(gnew.ports[gold.ports.len() as int] == crate::verilog::wire_binding(o, o));
                            assert forall|k: int| 0 <= k < i + 1 implies {
                                let ok = observable_name((#[trigger] faults@[k]).location@, faults@[k].sa_value);
                                crate::verilog::gate_of(top@.gates, "C1"@).ports.contains(crate::verilog::wire_binding(ok, ok))
                            } by {
                                if k < i {
                                    let ok = observable_name(faults@[k].location@, faults@[k].sa_value);
                                    assert(ta.gates == tw.gates);
                                    let q = choose|q: int| 0 <= q < gold.ports.len() && gold.ports[q] == crate::verilog::wire_binding(ok, ok);
                                    assert(gnew.ports[q] == crate::verilog::wire_binding(ok, ok));
                                }
                            }
                        }
                    },
                    None => {
                        proof {
                            assert(false);
                        }
                    },
                }
                let ghost tb = top@;
                assert(tb.wires.contains(single(observable@)));
                assert(i == 0 ==> tb.assigns == old(top)@.assigns);
                assert(forall|other: Seq<char>| other != "C1"@ && crate::verilog::has_gate(tw.gates, other)
                    ==> crate::verilog::has_gate(tb.gates, other)
                    && crate::verilog::gate_of(tb.gates, other) == crate::verilog::gate_of(tw.gates, other));
                assert(tb.assigns == ta.assigns);
                assert(tw.gates == ta.gates);
                insert_restricted_gates(top, copy_ports, &restriction, fault, inverted, cmb_name);
                proof {
                    let fv = faults_view(faults@);
                    let ports = crate::verilog::port_views(copy_ports@);
                    let a0 = old(top)@.assigns;
                    assert(fv[i as int] == (fault.location@, fault.sa_value));
                    assert(fv.subrange(0, i + 1).drop_last() =~= fv.subrange(0, i as int));
                    assert(fv.subrange(0, i + 1).last() == fv[i as int]);
                    assert(top@.assigns == assigns_after(a0, ports, fv.subrange(0, i + 1)));
                    assert forall|k: int| 0 <= k < i + 1 implies #[trigger] fault_restricted(top@, a0, ports, fv, k, i + 1, inverted, cmb_name@) by {
                        if k < i {
                            if forall|j: int| k < j < i + 1 ==> ids_apart(fv, j, k, cmb_name@) {
                                assert(fault_restricted(ta, a0, ports, fv, k, i as int, inverted, cmb_name@));
                                assert(ids_apart(fv, i as int, k, cmb_name@));
                                let rs = crate::atpg::restricted_assigns(assigns_after(a0, ports, fv.subrange(0, k)), ports);
                                let rw = observable_name(fv[k].0, fv[k].1);
                                assert(crate::atpg::restrictions_in_place(ta, rs, rw, fv[k].0, fv[k].1, inverted, cmb_name@));
                                assert forall|m: int| 0 <= m < rs.len() implies has_gate(top@.gates, #[trigger] crate::atpg::restriction_id((m + 1) as nat, fv[k].0, fv[k].1, cmb_name@))
                                    && crate::verilog::gate_of(top@.gates, crate::atpg::restriction_id((m + 1) as nat, fv[k].0, fv[k].1, cmb_name@))
                                    == crate::verilog::gate_of(ta.gates, crate::atpg::restriction_id((m + 1) as nat, fv[k].0, fv[k].1, cmb_name@)) by {
                                    let rid = crate::atpg::restriction_id((m + 1) as nat, fv[k].0, fv[k].1, cmb_name@);
                                    let rm = rs[m];
                                    assert(has_gate(ta.gates, rid));
                                    lemma_c1_no_restriction((m + 1) as nat, fv[k].0, fv[k].1, cmb_name@);
                                    assert(has_gate(tb.gates, rid));
                                    assert forall|q: int| 0 <= q < crate::atpg::restricted_assigns(tb.assigns, ports).len()
                                        implies rid != #[trigger] crate::atpg::restriction_id((q + 1) as nat, fault.location@, fault.sa_value, cmb_name@) by {
                                        assert(crate::atpg::restriction_id((q + 1) as nat, fv[i as int].0, fv[i as int].1, cmb_name@) != crate::atpg::restriction_id((m + 1) as nat, fv[k].0, fv[k].1, cmb_name@));
                                    }
                                }
                                crate::atpg::lemma_in_place_kept(ta, top@, rs, rw, fv[k].0, fv[k].1, inverted, cmb_name@);
                            }
                        } else {
                            assert(fv.subrange(0, k) == fv.subrange(0, i as int));
                        }
                    }
                    assert(c1@.assigns == c1a.assigns.push(assign_text(observable@, crate::verilog::located_wire(c1a, fault.location@))));
                    assert(crate::verilog::located_wire(c1a, fault.location@) == crate::verilog::located_wire(c10, fault.location@));
                    assert(tap_assigns(c10, fv.subrange(0, i + 1)) =~= tap_assigns(c10, fv.subrange(0, i as int)).push(
                        assign_text(observable@, crate::verilog::located_wire(c10, fault.location@))));
                    assert(c1@.assigns =~= c10.assigns + tap_assigns(c10, fv.subrange(0, i + 1)));
                }
                proof {
                    assert forall|k: int| 0 <= k < crate::atpg::restricted_assigns(tb.assigns, crate::verilog::port_views(copy_ports@)).len()
                        implies "C1"@ != #[trigger] crate::atpg::restriction_id((k + 1) as nat, fault.location@, fault.sa_value, cmb_name@) by {
                        lemma_c1_no_restriction((k + 1) as nat, fault.location@, fault.sa_value, cmb_name@);
                    }
                    assert(crate::verilog::has_gate(tb.gates, "C1"@));
                    assert(crate::verilog::gate_of(top@.gates, "C1"@) == crate::verilog::gate_of(tb.gates, "C1"@));
                }
                assert(top@.wires.contains(single(observable@)));
                assert forall|k: int| 0 <= k < i + 1 implies {
                    let o = observable_name((#[trigger] faults@[k]).location@, faults@[k].sa_value);
                    &&& c1@.outputs.contains(single(o))
                    &&& top@.wires.contains(single(o))
                } by {
                    if k < i {
                        let o = observable_name(faults@[k].location@, faults@[k].sa_value);
                        assert(ta.wires.contains(single(o)));
                        assert(c1a.outputs.contains(single(o)));
                    }
                }
            },
            Err(e) => {
                proof {
                    assert(!resolves(c10, faults_view(faults@)[i as int].0));
                }
                return Err(VerilogError::ModuleError(e));
            },
        }
        i = i + 1;
    }
    proof {
        assert(faults_view(faults@).subrange(0, i as int) =~= faults_view(faults@));
    }
    Ok(())
}

/// The broadside model prepared for ATPG: observation taps in the first copy and
/// restriction gates on the outputs of the second.
#[derive(Debug)]
pub struct BroadSideExpansionATPGModel {
    pub bs_model: BroadSideExpansionModel,
    pub atpg_model: Verilog,
}

impl BroadSideExpansionATPGModel {
    /// The invariant: a well-formed netlist of the top module and the two copies.
    pub open spec fn wf(&self) -> bool {
        &&& self.bs_model.wf()
        &&& self.atpg_model.wf()
        &&& self.atpg_model@.len() == 3
        &&& self.atpg_model@[2] == self.bs_model.spec_c2()
    }

    /// Inserts an observation tap in the first copy for each configured fault, and restriction
    /// gates on the second copy's outputs; fails where a fault location cannot be observed.
    pub fn try_from_model(bs_model: BroadSideExpansionModel) -> (r: Result<Self, VerilogError>)
        requires
            bs_model.wf(),
        ensures
            r is Ok <==> all_observable(
                bs_model.spec_c1(),
                faults_view(bs_model.combinational_part_model.configured_model.cfg.equivalent_check@),
            ),
            r matches Ok(a) ==> a.wf() && a.bs_model == bs_model && a.atpg_model@[1].gates
                == bs_model.spec_c1().gates && a.atpg_model@[0].name == bs_model.spec_top().name
                && forall|k: int| 0 <= k < bs_model.combinational_part_model.configured_model.cfg.equivalent_check@.len() ==> {
                    let f = #[trigger] bs_model.combinational_part_model.configured_model.cfg.equivalent_check@[k];
                    let o = observable_name(f.location@, f.sa_value);
                    &&& a.atpg_model@[1].outputs.contains(single(o))
                    &&& a.atpg_model@[0].wires.contains(single(o))
                },
            r matches Ok(a) ==> taps_bound(
                a.atpg_model@[0].gates,
                bs_model.combinational_part_model.configured_model.cfg.equivalent_check@,
                bs_model.combinational_part_model.configured_model.cfg.equivalent_check@.len() as int,
            ),
            ({
                let fs = faults_view(bs_model.combinational_part_model.configured_model.cfg.equivalent_check@);
                let ports = bs_model.spec_top().gates[1].1.ports;
                let a0 = bs_model.spec_top().assigns;
                r matches Ok(a) ==> {
                    &&& a.atpg_model@[0].assigns == assigns_after(a0, ports, fs)
                    &&& forall|k: int| 0 <= k < fs.len() ==> #[trigger] fault_restricted(
                        a.atpg_model@[0], a0, ports, fs, k, fs.len() as int, false, "c2"@)
                    &&& a.atpg_model@[1].assigns == bs_model.spec_c1().assigns + tap_assigns(bs_model.spec_c1(), fs)
                }
            }),
    {
        let mut top = bs_model.top_module().duplicate();
        let mut c1 = bs_model.c1_module().duplicate();
        let c2 = bs_model.c2_module().duplicate();
        let faults = &bs_model.combinational_part_model.configured_model.cfg.equivalent_check;
        proof {
            reveal_strlit("C2");
            let gs = top@.gates;
            assert(gate_ids(gs) == seq!["C1"@, "C2"@]);
            assert(gate_ids(gs).len() == gs.len());
            assert(gate_ids(gs)[1] == gs[1].0);
            assert(gs[1].0 == "C2"@);
            assert(crate::verilog::has_gate(gs, "C2"@));
            let q = crate::verilog::gate_index(gs, "C2"@);
            assert(0 <= q < gs.len() && gs[q].0 == "C2"@);
            assert(gate_ids(gs)[q] == gs[q].0);
        }
        let copy_ports = match top.gate_by_name("C2") {
            Some(g) => {
                let d = g.duplicate();
                d.ports
            },
            None => Vec::new(),
        };
        assert(crate::verilog::port_views(copy_ports@) == bs_model.spec_top().gates[1].1.ports);
        proof {
            reveal_strlit("C1");
            let gs = top@.gates;
            assert(gate_ids(gs)[0] == gs[0].0);
            assert(gs[0].0 == "C1"@);
        }
        let res = observe_and_restrict(&mut top, &mut c1, &copy_ports, faults, false, "c2");
        match res {
            Ok(()) => {
                let mut atpg_model = Verilog::new();
                atpg_model.push_module(top);
                atpg_model.push_module(c1);
                atpg_model.push_module(c2);
                proof {
                    assert forall|k: int| 0 <= k < atpg_model@.len() implies crate::verilog::module_wf(
                        #[trigger] atpg_model@[k],
                    ) by {
                        if k == 0 {} else if k == 1 {} else {}
                    }
                }
                Ok(BroadSideExpansionATPGModel { bs_model, atpg_model })
            },
            Err(e) => Err(e),
        }
    }

    pub fn atpg_model(&self) -> (r: &Verilog)
        ensures
            r@ == self.atpg_model@,
    {
        &self.atpg_model
    }

    /// The reference model (the ATPG model as it is) and the implementation model (the
    /// ATPG model with each configured fault injected into the second copy).
    pub fn equivalent_check(&self) -> (r: Result<(Verilog, Verilog), VerilogError>)
        requires
            self.wf(),
        ensures
            ({
                let c2 = self.atpg_model@[2];
                let fs = faults_view(self.bs_model.combinational_part_model.configured_model.cfg.equivalent_check@);
                &&& r is Ok <==> all_resolve(module_named(self.atpg_model@, c2.name), c2.name, fs)
                &&& r matches Err(e) ==> e is ModuleError
                &&& r matches Ok((reference, implementation)) ==> reference@ == self.atpg_model@
                    && implementation@ == self.atpg_model@.update(
                        module_index(self.atpg_model@, c2.name),
                        inject_all(module_named(self.atpg_model@, c2.name), c2.name, fs),
                    )
            }),
    {
        let reference = crate::verilog::duplicate_netlist(&self.atpg_model);
        let mut implementation = crate::verilog::duplicate_netlist(&self.atpg_model);
        assert(self.atpg_model@[2] == self.atpg_model.modules@[2]@);
        let name = self.atpg_model.modules[2].name.clone();
        assert(has_module(implementation@, name@)) by {
            assert(implementation@[2].name == name@);
        }
        match inject_faults(&mut implementation, name.as_str(), &self.bs_model.combinational_part_model.configured_model.cfg.equivalent_check) {
            Ok(()) => Ok((reference, implementation)),
            Err(e) => Err(e),
        }
    }
}


impl crate::config::ConfiguredTrait for BroadSideExpansionModel {
    open spec fn spec_cfg(&self) -> crate::config::ExpansionConfig {
        self.combinational_part_model.configured_model.cfg
    }

    fn cfg_ref(&self) -> (r: &crate::config::ExpansionConfig) {
        &self.combinational_part_model.configured_model.cfg
    }
}


impl crate::config::ConfiguredTrait for BroadSideExpansionATPGModel {
    open spec fn spec_cfg(&self) -> crate::config::ExpansionConfig {
        self.bs_model.combinational_part_model.configured_model.cfg
    }

    fn cfg_ref(&self) -> (r: &crate::config::ExpansionConfig) {
        &self.bs_model.combinational_part_model.configured_model.cfg
    }
}

} // verus!
