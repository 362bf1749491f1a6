//! Detection-identification expansion: a third copy observes the fault-propagation cone.
use vstd::prelude::*;
use crate::broadside::{
    bound_to, renamed_all, lemma_port_set_keeps, lemma_push_only, take_all_ports, others_kept, port_set, add_assign, add_input, add_output, add_wire, lemma_extends_trans, suffixed, with_suffix, extends, BroadSideExpansionModel,
};
use crate::atpg::{all_resolve, faults_view, inject_all, inject_faults};
use crate::config::{ExpansionConfigError, ExpansionConfigVerificationError};
use crate::extraction::ExtractedCombinationalPartModel;
use crate::fault::Fault;
use crate::text::{concat, concat3};
use crate::verilog::{
    assign_text, duplicate_netlist, VerilogError, gate_ids, has_gate, has_module, module_index, module_named,
    observable_name, resolves, single, PortWire, GateView, wire_views, Module, ModuleView, Verilog, Wire,
    WireView,
};

verus! {

/// The outputs that the third copy drives: the pseudo-primary outputs, and with
/// `use_primary_io` the primary outputs too.
pub open spec fn di_outputs(x: ExtractedCombinationalPartModel) -> Seq<WireView> {
    if x.configured_model.cfg.use_primary_io {
        wire_views(x.pseudo_primary_outputs@) + wire_views(x.primary_outputs@)
    } else {
        wire_views(x.pseudo_primary_outputs@)
    }
}

/// The assign of the broadside top that an output `n` of the DI model replaces.
pub open spec fn replaced_assign(n: WireView) -> Seq<char> {
    assign_text(n.name, n.name + "_c2"@)
}

/// Each pseudo-primary input of the third copy is driven from the first copy's pseudo-primary output.
pub open spec fn di_chained(x: ExtractedCombinationalPartModel, top: ModuleView) -> bool {
    let ppis = wire_views(x.pseudo_primary_inputs@);
    let ppos = wire_views(x.pseudo_primary_outputs@);
    forall|k: int| 0 <= k < ppis.len() ==> top.assigns.contains(
        assign_text(#[trigger] ppis[k].name + "_c3"@, ppos[k].name + "_c1"@),
    )
}

/// Every assign of the broadside top stays, but those of the outputs that are split.
pub open spec fn di_keeps_assigns(x: ExtractedCombinationalPartModel, bt: ModuleView, top: ModuleView) -> bool {
    forall|y: Seq<char>| bt.assigns.contains(y) && !(exists|n: WireView| di_outputs(x).contains(n)
        && y == replaced_assign(n)) ==> top.assigns.contains(y)
}

/// The third copy's primary inputs: fresh top inputs, or held from the first copy.
pub open spec fn di_inputs(x: ExtractedCombinationalPartModel, top: ModuleView) -> bool {
    forall|w: WireView| wire_views(x.primary_inputs@).contains(w) ==> if x.configured_model.cfg.use_primary_io {
        top.inputs.contains(suffixed(w, "_c3"@))
    } else {
        top.wires.contains(suffixed(w, "_c3"@)) && top.assigns.contains(
            assign_text(w.name + "_c3"@, w.name + "_c1"@),
        )
    }
}

/// Each output that the third copy drives is observed twice: `_sa0` from the second copy,
/// `_sa1` from the third.
pub open spec fn di_split_outputs(x: ExtractedCombinationalPartModel, top: ModuleView) -> bool {
    forall|n: WireView| di_outputs(x).contains(n) ==> {
        &&& top.outputs.contains(suffixed(n, "_sa0"@))
        &&& top.outputs.contains(suffixed(n, "_sa1"@))
        &&& top.assigns.contains(assign_text(n.name + "_sa0"@, n.name + "_c2"@))
        &&& top.assigns.contains(assign_text(n.name + "_sa1"@, n.name + "_c3"@))
        &&& top.wires.contains(suffixed(n, "_c3"@))
    }
}

/// The top's outputs are the broadside outputs that are not split, and the split observations.
pub open spec fn di_only_outputs(x: ExtractedCombinationalPartModel, bt: ModuleView, top: ModuleView) -> bool {
    forall|o: WireView| top.outputs.contains(o) ==> (bt.outputs.contains(o) && !di_outputs(x).contains(o))
        || exists|n: WireView| di_outputs(x).contains(n) && (o == suffixed(n, "_sa0"@) || o == suffixed(n, "_sa1"@))
}

/// The third copy's instance binds each primary and pseudo-primary input to its `_c3` wire.
pub open spec fn di_third_copy_bound(x: ExtractedCombinationalPartModel, top: ModuleView) -> bool {
    forall|w: WireView| (wire_views(x.primary_inputs@).contains(w) || wire_views(x.pseudo_primary_inputs@).contains(w))
        ==> bound_to(top.gates[2].1, w.name, w.name + "_c3"@)
}

/// No binding of `g` is of a port named like a wire of `ws`.
pub open spec fn no_ports_named(g: GateView, ws: Seq<WireView>) -> bool {
    forall|j: int| 0 <= j < ws.len() ==> !crate::verilog::has_port(g.ports, (#[trigger] ws[j]).name)
}

proof fn lemma_port_set_no_ports(g0: GateView, g1: GateView, n: Seq<char>, w: Seq<char>, ws: Seq<WireView>)
    requires
        port_set(g0, g1, n, w),
        no_ports_named(g0, ws),
    ensures
        no_ports_named(g1, ws),
{
    assert forall|j: int| 0 <= j < ws.len() implies !crate::verilog::has_port(g1.ports, (#[trigger] ws[j]).name) by {
        assert(!crate::verilog::has_port(g0.ports, ws[j].name));
    }
}

/// `y` is one of the assigns that the DI top holds: a broadside assign that no split output
/// replaced, a split observation, a scan-chain link into the third copy, or a held input of it.
pub open spec fn di_assign_form(x: ExtractedCombinationalPartModel, bt: ModuleView, y: Seq<char>) -> bool {
    let outs = di_outputs(x);
    let ppis = wire_views(x.pseudo_primary_inputs@);
    let ppos = wire_views(x.pseudo_primary_outputs@);
    let pis = wire_views(x.primary_inputs@);
    ||| bt.assigns.contains(y) && forall|n: WireView| outs.contains(n) ==> y != replaced_assign(n)
    ||| exists|n: WireView| outs.contains(n) && (y == assign_text(n.name + "_sa0"@, n.name + "_c2"@)
        || y == assign_text(n.name + "_sa1"@, n.name + "_c3"@))
    ||| exists|k: int| 0 <= k < ppis.len() && y == assign_text(#[trigger] ppis[k].name + "_c3"@, ppos[k].name + "_c1"@)
    ||| !x.configured_model.cfg.use_primary_io && exists|w: WireView| pis.contains(w)
        && y == assign_text(w.name + "_c3"@, w.name + "_c1"@)
}

/// The three-copy DI model: the expanded top module and its copies `_c1`, `_c2`, `_c3`.
#[derive(Debug, Clone)]
pub struct DiExpansionModel {
    pub combinational_part_model: ExtractedCombinationalPartModel,
    pub expanded_model: Verilog,
}

/// Removes every copy of the assign `text`, keeping every other assign.
fn drop_assign(m: &mut Module, text: &String)
    requires
        old(m).wf(),
    ensures
        final(m).wf(),
        final(m)@.name == old(m)@.name,
        final(m)@.gates == old(m)@.gates,
        final(m)@.inputs == old(m)@.inputs,
        final(m)@.outputs == old(m)@.outputs,
        final(m)@.wires == old(m)@.wires,
        forall|x: Seq<char>| x != text@ && old(m)@.assigns.contains(x) ==> final(m)@.assigns.contains(x),
        forall|x: Seq<char>| final(m)@.assigns.contains(x) ==> old(m)@.assigns.contains(x),
        !final(m)@.assigns.contains(text@),
{
    loop
        invariant
            m.wf(),
            m@ == (ModuleView { assigns: m@.assigns, ..old(m)@ }),
            forall|x: Seq<char>| x != text@ && old(m)@.assigns.contains(x) ==> m@.assigns.contains(x),
            forall|x: Seq<char>| m@.assigns.contains(x) ==> old(m)@.assigns.contains(x),
        ensures
            m.wf(),
            m@ == (ModuleView { assigns: m@.assigns, ..old(m)@ }),
            forall|x: Seq<char>| x != text@ && old(m)@.assigns.contains(x) ==> m@.assigns.contains(x),
            forall|x: Seq<char>| m@.assigns.contains(x) ==> old(m)@.assigns.contains(x),
            !m@.assigns.contains(text@),
        decreases m@.assigns.len(),
    {
        let ghost a0 = m@.assigns;
        let r = m.remove_assign(text);
        match r {
            Some(_) => {
                proof {
                    let i = choose|i: int| 0 <= i < a0.len() && a0[i] == text@
                        && (forall|j: int| 0 <= j < i ==> a0[j] != text@)
                        && m@ == (ModuleView { assigns: a0.remove(i), ..old(m)@ });
                    assert forall|x: Seq<char>| x != text@ && a0.contains(x) implies m@.assigns.contains(x) by {
                        let j = choose|j: int| 0 <= j < a0.len() && a0[j] == x;
                        if j < i {
                            assert(m@.assigns[j] == x);
                        } else {
                            assert(j != i);
                            assert(m@.assigns[j - 1] == x);
                        }
                    }
                    assert forall|x: Seq<char>| m@.assigns.contains(x) implies a0.contains(x) by {
                        let j = choose|j: int| 0 <= j < m@.assigns.len() && m@.assigns[j] == x;
                        if j < i {
                            assert(a0[j] == x);
                        } else {
                            assert(a0[j + 1] == x);
                        }
                    }
                }
            },
            None => {
                break;
            },
        }
    }
}

impl DiExpansionModel {
    /// The invariant: the netlist holds the expanded top, then the copies `_c1`, `_c2`, `_c3`.
    pub open spec fn wf(&self) -> bool {
        &&& self.combinational_part_model.wf()
        &&& self.expanded_model.wf()
        &&& self.expanded_model@.len() == 4
        &&& gate_ids(self.expanded_model@[0].gates) == seq!["C1"@, "C2"@, "C3"@]
    }

    /// Extends a broadside model with a third copy: its pseudo-primary inputs also come from
    /// the first copy, and each observed output `n` is split into `n_sa0`, driven by the
    /// second copy, and `n_sa1`, driven by the third.
    pub fn from_broadside(bs_model: BroadSideExpansionModel) -> (r: Self)
        requires
            bs_model.wf(),
        ensures
            r.wf(),
            r.combinational_part_model == bs_model.combinational_part_model,
            r.expanded_model@[1] == bs_model.spec_c1(),
            r.expanded_model@[2] == bs_model.spec_c2(),
            r.expanded_model@[3] == (ModuleView {
                name: bs_model.combinational_part_model.extracted_module@.name + "_c3"@,
                ..bs_model.combinational_part_model.extracted_module@
            }),
            r.expanded_model@[0].name == bs_model.spec_top().name,
            r.expanded_model@[0].gates[2].1.name == bs_model.combinational_part_model.extracted_module@.name + "_c3"@,
            di_chained(bs_model.combinational_part_model, r.expanded_model@[0]),
            di_keeps_assigns(bs_model.combinational_part_model, bs_model.spec_top(), r.expanded_model@[0]),
            di_inputs(bs_model.combinational_part_model, r.expanded_model@[0]),
            di_split_outputs(bs_model.combinational_part_model, r.expanded_model@[0]),
            di_only_outputs(bs_model.combinational_part_model, bs_model.spec_top(), r.expanded_model@[0]),
            di_third_copy_bound(bs_model.combinational_part_model, r.expanded_model@[0]),
            forall|n: WireView| di_outputs(bs_model.combinational_part_model).contains(n)
                ==> bound_to(r.expanded_model@[0].gates[2].1, n.name, n.name + "_c3"@),
            !bs_model.combinational_part_model.configured_model.cfg.use_primary_io ==> no_ports_named(
                r.expanded_model@[0].gates[2].1,
                wire_views(bs_model.combinational_part_model.primary_outputs@),
            ),
            r.expanded_model@[0].gates[0] == bs_model.spec_top().gates[0],
            r.expanded_model@[0].gates[1] == bs_model.spec_top().gates[1],
            forall|y: Seq<char>| r.expanded_model@[0].assigns.contains(y) ==> di_assign_form(
                bs_model.combinational_part_model,
                bs_model.spec_top(),
                y,
            ),
    {
        let x = &bs_model.combinational_part_model;
        let upio = x.configured_model.cfg.use_primary_io;
        let ghost mc = x.extracted_module@;
        let ghost pis = wire_views(x.primary_inputs@);
        let ghost ppis = wire_views(x.pseudo_primary_inputs@);
        let ghost ppos = wire_views(x.pseudo_primary_outputs@);
        let ghost outs = di_outputs(*x);
        let mut top = bs_model.top_module().duplicate();
        let c1_module = bs_model.c1_module().duplicate();
        let c2_module = bs_model.c2_module().duplicate();
        let c3_module = x.extracted_module.clone_with_name_prefix("_c3");
        let mut gate_c3 = c3_module.to_gate();
        let ghost bt = top@;
        let ghost pos = wire_views(x.primary_outputs@);
        // the outputs that the third copy drives
        let mut outputs: Vec<Wire> = Vec::new();
        let mut i: usize = 0;
        while i < x.pseudo_primary_outputs.len()
            invariant
                i <= x.pseudo_primary_outputs.len(),
                ppos == wire_views(x.pseudo_primary_outputs@),
                outputs@.len() == i,
                forall|k: int| 0 <= k < i ==> outputs@[k]@ == ppos[k],
            decreases x.pseudo_primary_outputs.len() - i,
        {
            outputs.push(x.pseudo_primary_outputs[i].duplicate());
            i = i + 1;
        }
        assert(wire_views(outputs@) =~= ppos);
        if upio {
            let mut i: usize = 0;
            while i < x.primary_outputs.len()
                invariant
                    i <= x.primary_outputs.len(),
                    outputs@.len() == ppos.len() + i,
                    forall|k: int| 0 <= k < ppos.len() ==> outputs@[k]@ == ppos[k],
                    forall|k: int| 0 <= k < i ==> outputs@[ppos.len() + k]@ == wire_views(x.primary_outputs@)[k],
                decreases x.primary_outputs.len() - i,
            {
                outputs.push(x.primary_outputs[i].duplicate());
                i = i + 1;
            }
            assert(wire_views(outputs@) =~= ppos + wire_views(x.primary_outputs@));
        } else {
            let mut i: usize = 0;
            while i < x.primary_outputs.len()
                invariant
                    i <= x.primary_outputs.len(),
                    gate_c3@.name == mc.name + "_c3"@,
                    pos == wire_views(x.primary_outputs@),
                    forall|j: int| 0 <= j < i ==> !crate::verilog::has_port(gate_c3@.ports, (#[trigger] pos[j]).name),
                decreases x.primary_outputs.len() - i,
            {
                let ghost g0 = gate_c3@;
                assert(pos[i as int] == x.primary_outputs@[i as int]@);
                take_all_ports(&mut gate_c3, x.primary_outputs[i].name.as_str());
                assert forall|j: int| 0 <= j < i + 1 implies !crate::verilog::has_port(gate_c3@.ports, (#[trigger] pos[j]).name) by {
                    if pos[j].name != pos[i as int].name {
                        assert(!crate::verilog::has_port(g0.ports, pos[j].name));
                    }
                }
                i = i + 1;
            }
            assert(no_ports_named(gate_c3@, pos));
        }
        assert(wire_views(outputs@) == outs);
        // the observed outputs leave the top together with the assigns that fed them
        let mut i: usize = 0;
        while i < outputs.len()
            invariant
                i <= outputs.len(),
                wire_views(outputs@) == outs,
                top.wf(),
                top@.name == bt.name,
                top@.gates == bt.gates,
                top@.inputs == bt.inputs,
                top@.wires == bt.wires,
                gate_c3@.name == mc.name + "_c3"@,
                forall|y: Seq<char>| bt.assigns.contains(y) && !(exists|n: WireView| outs.contains(n)
                    && y == replaced_assign(n)) ==> top@.assigns.contains(y),
                forall|o: WireView| #[trigger] top@.outputs.contains(o) ==> bt.outputs.contains(o)
                    && !outs.subrange(0, i as int).contains(o),
                renamed_all(gate_c3@, outs, i as int, "_c3"@),
                !upio ==> no_ports_named(gate_c3@, pos),
                upio == x.configured_model.cfg.use_primary_io,
                pos == wire_views(x.primary_outputs@),
                forall|y: Seq<char>| #[trigger] top@.assigns.contains(y) ==> bt.assigns.contains(y) && forall|k: int|
                    0 <= k < i ==> y != replaced_assign(#[trigger] outs[k]),
            decreases outputs.len() - i,
        {
            let n = &outputs[i];
            assert(outs[i as int] == n@);
            let c2_name = concat(n.name.as_str(), "_c2");
            let c3_name = concat(n.name.as_str(), "_c3");
            let old_assign = concat3(n.name.as_str(), " = ", c2_name.as_str());
            let ghost ta = top@;
            assert(forall|o: WireView| ta.outputs.contains(o) ==> bt.outputs.contains(o)
                && !outs.subrange(0, i as int).contains(o));
            drop_assign(&mut top, &old_assign);
            let ghost td = top@;
            let ghost g0 = gate_c3@;
            gate_c3.set_port_wire(n.name.as_str(), c3_name);
            proof {
                lemma_port_set_keeps(g0, gate_c3@, n.name@, "_c3"@, outs, i as int);
                if !upio {
                    lemma_port_set_no_ports(g0, gate_c3@, n.name@, n.name@ + "_c3"@, pos);
                }
            }
            let ghost tb = top@;
            top.remove_output(n);
            proof {
                assert(old_assign@ == replaced_assign(n@));
                assert(outs.contains(n@));
                assert forall|y: Seq<char>| top@.assigns.contains(y) implies bt.assigns.contains(y) && forall|k: int|
                    0 <= k < i + 1 ==> y != replaced_assign(#[trigger] outs[k]) by {
                    assert(td.assigns.contains(y));
                    assert(ta.assigns.contains(y));
                    assert(bt.assigns.contains(y) && forall|k: int| 0 <= k < i ==> y != replaced_assign(#[trigger] outs[k]));
                    assert(y != old_assign@);
                    assert forall|k: int| 0 <= k < i + 1 implies y != replaced_assign(#[trigger] outs[k]) by {
                        if k == i {
                            assert(outs[k] == n@);
                        }
                    }
                }
                assert forall|y: Seq<char>| bt.assigns.contains(y) && !(exists|m: WireView| outs.contains(m)
                    && y == replaced_assign(m)) implies top@.assigns.contains(y) by {
                    if y == old_assign@ {
                        assert(outs.contains(n@) && y == replaced_assign(n@));
                    }
                    assert(ta.assigns.contains(y));
                }
                assert forall|o: WireView| top@.outputs.contains(o) implies bt.outputs.contains(o)
                    && !outs.subrange(0, i + 1).contains(o) by {
                    assert(o != n@);
                    assert(tb.outputs.contains(o));
                    assert(ta.outputs.contains(o));
                    assert(!outs.subrange(0, i as int).contains(o));
                    if outs.subrange(0, i + 1).contains(o) {
                        let k = choose|k: int| 0 <= k < i + 1 && #[trigger] outs.subrange(0, i + 1)[k] == o;
                        if k < i {
                            assert(outs.subrange(0, i as int)[k] == o);
                        }
                    }
                }
            }
            i = i + 1;
        }
        let ghost tm = top@;
        assert(outs.subrange(0, i as int) =~= outs);
        assert forall|o: WireView| tm.outputs.contains(o) implies bt.outputs.contains(o) && !outs.contains(o) by {
            assert(bt.outputs.contains(o) && !outs.subrange(0, i as int).contains(o));
        }
        assert forall|y: Seq<char>| tm.assigns.contains(y) implies di_assign_form(*x, bt, y) by {
            assert(bt.assigns.contains(y) && forall|k: int| 0 <= k < i ==> y != replaced_assign(#[trigger] outs[k]));
            assert forall|n: WireView| outs.contains(n) implies y != replaced_assign(n) by {
                let k = choose|k: int| 0 <= k < outs.len() && outs[k] == n;
                assert(y != replaced_assign(outs[k]));
            }
        }
        let ghost g3m = gate_c3@;
        assert(renamed_all(g3m, outs, outs.len() as int, "_c3"@));
        assert(!upio ==> no_ports_named(g3m, pos));
        // each observed output is split into a second-copy and a third-copy observation
        let mut i: usize = 0;
        while i < outputs.len()
            invariant
                i <= outputs.len(),
                wire_views(outputs@) == outs,
                top.wf(),
                top@.name == bt.name,
                top@.gates == bt.gates,
                top@.inputs == bt.inputs,
                extends(tm, top@),
                forall|y: Seq<char>| top@.assigns.contains(y) ==> di_assign_form(*x, bt, y),
                outs == di_outputs(*x),
                gate_c3@ == g3m,
                forall|k: int| 0 <= k < i ==> {
                    let n = #[trigger] outs[k];
                    &&& top@.outputs.contains(suffixed(n, "_sa0"@))
                    &&& top@.outputs.contains(suffixed(n, "_sa1"@))
                    &&& top@.assigns.contains(assign_text(n.name + "_sa0"@, n.name + "_c2"@))
                    &&& top@.assigns.contains(assign_text(n.name + "_sa1"@, n.name + "_c3"@))
                    &&& top@.wires.contains(suffixed(n, "_c3"@))
                },
                forall|o: WireView| top@.outputs.contains(o) ==> tm.outputs.contains(o)
                    || exists|k: int| 0 <= k < i && (o == suffixed(#[trigger] outs[k], "_sa0"@) || o == suffixed(outs[k], "_sa1"@)),
            decreases outputs.len() - i,
        {
            let n = &outputs[i];
            assert(outs[i as int] == n@);
            let c2_name = concat(n.name.as_str(), "_c2");
            let c3_name = concat(n.name.as_str(), "_c3");
            let sa0 = with_suffix(n, "_sa0");
            let sa1 = with_suffix(n, "_sa1");
            let ghost ta = top@;
            let ghost pa = top@.assigns;
            add_assign(&mut top, sa0.name.as_str(), c2_name.as_str());
            let ghost pb = top@.assigns;
            add_assign(&mut top, sa1.name.as_str(), c3_name.as_str());
            proof {
                lemma_push_only(pa, assign_text(sa0.name@, c2_name@));
                lemma_push_only(pb, assign_text(sa1.name@, c3_name@));
                assert(outs.contains(n@));
            }
            add_wire(&mut top, with_suffix(n, "_c3"));
            add_output(&mut top, sa0);
            add_output(&mut top, sa1);
            proof {
                lemma_extends_trans(tm, ta, top@);
                assert forall|o: WireView| top@.outputs.contains(o) implies tm.outputs.contains(o)
                    || exists|k: int| 0 <= k < i + 1 && (o == suffixed(#[trigger] outs[k], "_sa0"@) || o == suffixed(outs[k], "_sa1"@)) by {
                    if !ta.outputs.contains(o) {
                        assert(o == suffixed(outs[i as int], "_sa0"@) || o == suffixed(outs[i as int], "_sa1"@));
                    }
                }
            }
            i = i + 1;
        }
        let ghost tn = top@;
        assert(forall|o: WireView| tn.outputs.contains(o) ==> tm.outputs.contains(o)
            || exists|k: int| 0 <= k < outs.len() && (o == suffixed(#[trigger] outs[k], "_sa0"@) || o == suffixed(outs[k], "_sa1"@)));
        // scan chaining into the third copy
        let mut i: usize = 0;
        while i < x.pseudo_primary_ios.len()
            invariant
                x.wf(),
                i <= x.pseudo_primary_ios.len(),
                top.wf(),
                extends(tn, top@),
                top@.inputs == tn.inputs,
                top@.outputs == tn.outputs,
                ppis == wire_views(x.pseudo_primary_inputs@),
                ppos == wire_views(x.pseudo_primary_outputs@),
                forall|k: int| 0 <= k < i ==> top@.assigns.contains(
                    assign_text(#[trigger] ppis[k].name + "_c3"@, ppos[k].name + "_c1"@),
                ),
                forall|y: Seq<char>| top@.assigns.contains(y) ==> di_assign_form(*x, bt, y),
                gate_c3@ == g3m,
            decreases x.pseudo_primary_ios.len() - i,
        {
            let (ppi, ppo) = (&x.pseudo_primary_ios[i].0, &x.pseudo_primary_ios[i].1);
            assert(ppis[i as int] == x.pseudo_primary_inputs@[i as int]@);
            assert(ppos[i as int] == x.pseudo_primary_outputs@[i as int]@);
            let lhs = concat(ppi.name.as_str(), "_c3");
            let rhs = concat(ppo.name.as_str(), "_c1");
            let ghost pa = top@.assigns;
            add_assign(&mut top, lhs.as_str(), rhs.as_str());
            proof {
                lemma_push_only(pa, assign_text(lhs@, rhs@));
                assert(0 <= i < ppis.len() && assign_text(lhs@, rhs@) == assign_text(ppis[i as int].name + "_c3"@, ppos[i as int].name + "_c1"@));
            }
            i = i + 1;
        }
        let ghost to = top@;
        // third-copy primary inputs: fresh inputs, or held from the first cycle
        let mut i: usize = 0;
        while i < x.primary_inputs.len()
            invariant
                i <= x.primary_inputs.len(),
                top.wf(),
                extends(to, top@),
                top@.outputs == tn.outputs,
                gate_c3@.name == mc.name + "_c3"@,
                upio == x.configured_model.cfg.use_primary_io,
                pis == wire_views(x.primary_inputs@),
                renamed_all(gate_c3@, pis, i as int, "_c3"@),
                renamed_all(gate_c3@, outs, outs.len() as int, "_c3"@),
                !upio ==> no_ports_named(gate_c3@, pos),
                pos == wire_views(x.primary_outputs@),
                outs == di_outputs(*x),
                forall|y: Seq<char>| top@.assigns.contains(y) ==> di_assign_form(*x, bt, y),
                forall|k: int| 0 <= k < i ==> if upio {
                    top@.inputs.contains(suffixed(#[trigger] pis[k], "_c3"@))
                } else {
                    top@.wires.contains(suffixed(pis[k], "_c3"@)) && top@.assigns.contains(
                        assign_text(pis[k].name + "_c3"@, pis[k].name + "_c1"@),
                    )
                },
            decreases x.primary_inputs.len() - i,
        {
            let w = &x.primary_inputs[i];
            assert(pis[i as int] == w@);
            let n3 = with_suffix(w, "_c3");
            let ghost g0 = gate_c3@;
            gate_c3.set_port_wire(w.name.as_str(), n3.name.clone());
            proof {
                lemma_port_set_keeps(g0, gate_c3@, w.name@, "_c3"@, pis, i as int);
                lemma_port_set_keeps(g0, gate_c3@, w.name@, "_c3"@, outs, outs.len() as int);
                if !upio {
                    lemma_port_set_no_ports(g0, gate_c3@, w.name@, w.name@ + "_c3"@, pos);
                }
            }
            if upio {
                add_input(&mut top, n3);
            } else {
                let n1 = concat(w.name.as_str(), "_c1");
                let ghost pa = top@.assigns;
                add_assign(&mut top, n3.name.as_str(), n1.as_str());
                proof {
                    lemma_push_only(pa, assign_text(n3.name@, n1@));
                    assert(pis.contains(w@));
                }
                add_wire(&mut top, n3);
            }
            i = i + 1;
        }
        assert(i == pis.len());
        let mut i: usize = 0;
        while i < x.pseudo_primary_inputs.len()
            invariant
                i <= x.pseudo_primary_inputs.len(),
                gate_c3@.name == mc.name + "_c3"@,
                pis == wire_views(x.primary_inputs@),
                ppis == wire_views(x.pseudo_primary_inputs@),
                renamed_all(gate_c3@, pis, pis.len() as int, "_c3"@),
                renamed_all(gate_c3@, ppis, i as int, "_c3"@),
                renamed_all(gate_c3@, outs, outs.len() as int, "_c3"@),
                !upio ==> no_ports_named(gate_c3@, pos),
                upio == x.configured_model.cfg.use_primary_io,
            decreases x.pseudo_primary_inputs.len() - i,
        {
            let w = &x.pseudo_primary_inputs[i];
            assert(ppis[i as int] == w@);
            let ghost g0 = gate_c3@;
            gate_c3.set_port_wire(w.name.as_str(), concat(w.name.as_str(), "_c3"));
            proof {
                lemma_port_set_keeps(g0, gate_c3@, w.name@, "_c3"@, pis, pis.len() as int);
                lemma_port_set_keeps(g0, gate_c3@, w.name@, "_c3"@, ppis, i as int);
                lemma_port_set_keeps(g0, gate_c3@, w.name@, "_c3"@, outs, outs.len() as int);
                if !upio {
                    lemma_port_set_no_ports(g0, gate_c3@, w.name@, w.name@ + "_c3"@, pos);
                }
            }
            i = i + 1;
        }
        assert(i == ppis.len());
        let ghost tp = top@;
        let ghost g3 = gate_c3@;
        proof {
            lemma_extends_trans(tn, to, tp);
            reveal_strlit("C1");
            reveal_strlit("C2");
            reveal_strlit("C3");
            assert(tp.gates == bt.gates);
            assert(gate_ids(tp.gates) == seq!["C1"@, "C2"@]);
            assert(!has_gate(tp.gates, "C3"@)) by {
                assert("C1"@[1] != "C3"@[1]);
                assert("C2"@[1] != "C3"@[1]);
                assert(gate_ids(tp.gates).len() == tp.gates.len());
                assert forall|j: int| 0 <= j < tp.gates.len() implies tp.gates[j].0 != "C3"@ by {
                    assert(gate_ids(tp.gates)[j] == tp.gates[j].0);
                    if j == 0 {
                        assert(tp.gates[j].0 == "C1"@);
                    } else {
                        assert(tp.gates[j].0 == "C2"@);
                    }
                }
            }
        }
        proof {
            crate::text::lemma_instance_order();
            assert(tp.gates == bt.gates);
            assert(gate_ids(tp.gates) == seq!["C1"@, "C2"@]);
            assert(gate_ids(tp.gates).len() == tp.gates.len());
            assert(tp.gates[0].0 == gate_ids(tp.gates)[0]);
            assert(tp.gates[1].0 == gate_ids(tp.gates)[1]);
            assert(crate::verilog::is_gate_pos(tp.gates, "C3"@, 2));
            crate::verilog::lemma_gate_pos(tp.gates, "C3"@);
            assert(tp.gates.insert(2, ("C3"@, g3)) =~= tp.gates.push(("C3"@, g3)));
        }
        top.push_gate(String::from_str("C3"), gate_c3);
        let mut verilog = Verilog::new();
        verilog.push_module(top);
        verilog.push_module(c1_module);
        verilog.push_module(c2_module);
        verilog.push_module(c3_module);
        proof {
            assert(gate_ids(verilog@[0].gates) =~= seq!["C1"@, "C2"@, "C3"@]) by {
                assert(verilog@[0].gates =~= tp.gates.push(("C3"@, g3)));
                assert(gate_ids(tp.gates.push(("C3"@, g3))) =~= gate_ids(tp.gates).push("C3"@));
            }
            assert forall|k: int| 0 <= k < verilog@.len() implies crate::verilog::module_wf(
                #[trigger] verilog@[k],
            ) by {
                if k == 0 {} else if k == 1 {} else if k == 2 {} else {}
            }
            let v0 = verilog@[0];
            assert(v0 == (ModuleView { gates: tp.gates.push(("C3"@, g3)), ..tp }));
            assert(v0.gates[2].1 == g3);
            assert(v0.gates[0] == tp.gates[0] && v0.gates[1] == tp.gates[1]);
            assert forall|n: WireView| outs.contains(n) implies bound_to(v0.gates[2].1, n.name, n.name + "_c3"@) by {
                let k = choose|k: int| 0 <= k < outs.len() && outs[k] == n;
                assert(bound_to(g3, outs[k].name, outs[k].name + "_c3"@));
            }
            assert forall|w: WireView| (pis.contains(w) || ppis.contains(w))
                implies bound_to(v0.gates[2].1, w.name, w.name + "_c3"@) by {
                if pis.contains(w) {
                    let k = choose|k: int| 0 <= k < pis.len() && pis[k] == w;
                    assert(bound_to(g3, pis[k].name, pis[k].name + "_c3"@));
                } else {
                    let k = choose|k: int| 0 <= k < ppis.len() && ppis[k] == w;
                    assert(bound_to(g3, ppis[k].name, ppis[k].name + "_c3"@));
                }
            }
            assert forall|o: WireView| v0.outputs.contains(o) implies (bt.outputs.contains(o) && !outs.contains(o))
                    || exists|n: WireView| outs.contains(n) && (o == suffixed(n, "_sa0"@) || o == suffixed(n, "_sa1"@)) by {
                assert(tp.outputs.contains(o));
                assert(tn.outputs.contains(o));
                if !tm.outputs.contains(o) {
                    let k = choose|k: int| 0 <= k < outs.len() && (o == suffixed(#[trigger] outs[k], "_sa0"@)
                        || o == suffixed(outs[k], "_sa1"@));
                    assert(outs.contains(outs[k]));
                } else {
                    assert(bt.outputs.contains(o) && !outs.contains(o));
                }
            }
        }
        DiExpansionModel { combinational_part_model: bs_model.combinational_part_model, expanded_model: verilog }
    }
}


impl DiExpansionModel {
    /// The view of the expanded top module.
    pub open spec fn spec_top(&self) -> ModuleView {
        self.expanded_model@[0]
    }

    pub fn expanded_model(&self) -> (r: &Verilog)
        ensures
            r@ == self.expanded_model@,
    {
        &self.expanded_model
    }

    pub fn combinational_part_model(&self) -> (r: &ExtractedCombinationalPartModel)
        ensures
            r == &self.combinational_part_model,
    {
        &self.combinational_part_model
    }

    /// The module at position `i` of the expanded netlist: the top, then `_c1`, `_c2`, `_c3`.
    pub fn module_at(&self, i: usize) -> (r: &Module)
        requires
            self.wf(),
            i < 4,
        ensures
            r@ == self.expanded_model@[i as int],
            r.wf(),
    {
        assert(self.expanded_model@[i as int] == self.expanded_model.modules@[i as int]@);
        &self.expanded_model.modules[i]
    }

    /// The expanded top module.
    pub fn top_module(&self) -> (r: &Module)
        requires
            self.wf(),
        ensures
            r@ == self.spec_top(),
            r.wf(),
    {
        self.module_at(0)
    }
}

/// The bindings of the instance `id` of `top`, or none where there is no such instance.
fn bindings_of(top: &Module, id: &str) -> (r: Vec<PortWire>)
    requires
        top.wf(),
    ensures
        has_gate(top@.gates, id@) ==> crate::verilog::port_views(r@) == crate::verilog::gate_of(top@.gates, id@).ports,
        !has_gate(top@.gates, id@) ==> r@.len() == 0,
{
    match top.gate_by_name(id) {
        Some(g) => g.duplicate().ports,
        None => Vec::new(),
    }
}

/// Appends to the instance `C1` of `top` a binding of the port `obs` to the wire `obs`.
fn bind_tap(top: &mut Module, obs: &String)
    requires
        old(top).wf(),
    ensures
        final(top).wf(),
        final(top)@.name == old(top)@.name,
        final(top)@.inputs == old(top)@.inputs,
        final(top)@.outputs == old(top)@.outputs,
        final(top)@.wires == old(top)@.wires,
        final(top)@.assigns == old(top)@.assigns,
        has_gate(old(top)@.gates, "C1"@) ==> has_gate(final(top)@.gates, "C1"@)
            && crate::verilog::gate_of(final(top)@.gates, "C1"@).ports
            == crate::verilog::gate_of(old(top)@.gates, "C1"@).ports.push(crate::verilog::wire_binding(obs@, obs@)),
        forall|id: Seq<char>| id != "C1"@ && has_gate(old(top)@.gates, id) ==> has_gate(final(top)@.gates, id)
            && crate::verilog::gate_of(final(top)@.gates, id) == crate::verilog::gate_of(old(top)@.gates, id),
{
    proof {
        reveal_strlit("C1");
    }
    match top.gate_position("C1") {
        Some(p) => {
            let mut g = top.gates[p].1.duplicate();
            g.push_port(PortWire::Wire(obs.clone(), obs.clone()));
            proof {
                crate::atpg::lemma_gates_with(top@.gates, "C1"@, g@);
            }
            top.push_gate(String::from_str("C1"), g);
        },
        None => {},
    }
}

/// Restriction gates as `insert_restricted_gates` puts them; the copy instances (named with
/// a leading `C`) stay as they are.
fn restrict_step(
    top: &mut Module,
    outputs: &Vec<PortWire>,
    restriction_wire: &Wire,
    fault: &Fault,
    inverted: bool,
    cmb_name: &str,
)
    requires
        old(top).wf(),
    ensures
        final(top).wf(),
        final(top)@.name == old(top)@.name,
        final(top)@.inputs == old(top)@.inputs,
        final(top)@.outputs == old(top)@.outputs,
        forall|x: WireView| old(top)@.wires.contains(x) ==> final(top)@.wires.contains(x),
        final(top)@.assigns == crate::atpg::restrict_assigns(old(top)@.assigns, crate::verilog::port_views(outputs@),
            (fault.location@, fault.sa_value)),
        crate::atpg::restrictions_in_place(
            final(top)@,
            crate::atpg::restricted_assigns(old(top)@.assigns, crate::verilog::port_views(outputs@)),
            restriction_wire@.name,
            fault.location@,
            fault.sa_value,
            inverted,
            cmb_name@,
        ),
        forall|id: Seq<char>| has_gate(old(top)@.gates, id) && (forall|k: int|
            0 <= k < crate::atpg::restricted_assigns(old(top)@.assigns, crate::verilog::port_views(outputs@)).len()
            ==> id != #[trigger] crate::atpg::restriction_id((k + 1) as nat, fault.location@, fault.sa_value, cmb_name@))
            ==> has_gate(final(top)@.gates, id) && crate::verilog::gate_of(final(top)@.gates, id)
            == crate::verilog::gate_of(old(top)@.gates, id),
        forall|id: Seq<char>| id.len() > 0 && id[0] == 'C' && has_gate(old(top)@.gates, id) ==> has_gate(final(top)@.gates, id)
            && crate::verilog::gate_of(final(top)@.gates, id) == crate::verilog::gate_of(old(top)@.gates, id),
{
    let ghost t0 = top@;
    crate::atpg::insert_restricted_gates(top, outputs, restriction_wire, fault, inverted, cmb_name);
    proof {
        reveal_strlit("R");
        assert forall|id: Seq<char>| id.len() > 0 && id[0] == 'C' && has_gate(t0.gates, id) implies has_gate(top@.gates, id)
            && crate::verilog::gate_of(top@.gates, id) == crate::verilog::gate_of(t0.gates, id) by {
            assert forall|k: int| 0 <= k < crate::atpg::restricted_assigns(t0.assigns, crate::verilog::port_views(outputs@)).len()
                implies id != #[trigger] crate::atpg::restriction_id((k + 1) as nat, fault.location@, fault.sa_value, cmb_name@) by {
                assert(crate::atpg::restriction_id((k + 1) as nat, fault.location@, fault.sa_value, cmb_name@)[0] == 'R');
            }
        }
    }
}

/// The top `m` after the four restriction steps from the assigns `a0`: the undetected fault `f0`
/// (tapped by `o0`) on the second copy (bound by `p2`) and the third (bound by `p3`), then the
/// detected fault `f1` (tapped by `o1`) on both. Gates of the undetected fault are stated where
/// the detected fault's gates cannot take their names.
pub open spec fn di_restrictions(
    m: ModuleView,
    a0: Seq<Seq<char>>,
    p2: Seq<crate::verilog::PortView>,
    p3: Seq<crate::verilog::PortView>,
    f0: (Seq<char>, bool),
    o0: Seq<char>,
    f1: (Seq<char>, bool),
    o1: Seq<char>,
) -> bool {
    let a1 = crate::atpg::restrict_assigns(a0, p2, f0);
    let a2 = crate::atpg::restrict_assigns(a1, p3, f0);
    let a3 = crate::atpg::restrict_assigns(a2, p2, f1);
    let a4 = crate::atpg::restrict_assigns(a3, p3, f1);
    &&& m.assigns == a4
    &&& crate::atpg::restrictions_in_place(m, crate::atpg::restricted_assigns(a3, p3), o1, f1.0, f1.1, false, "c3"@)
    &&& crate::atpg::restrictions_in_place(m, crate::atpg::restricted_assigns(a2, p2), o1, f1.0, f1.1, false, "c2"@)
    &&& crate::atpg::restriction_ids_apart(f0.0, f0.1, f1.0, f1.1, "c3"@) ==> crate::atpg::restrictions_in_place(
        m, crate::atpg::restricted_assigns(a1, p3), o0, f0.0, f0.1, true, "c3"@)
    &&& crate::atpg::restriction_ids_apart(f0.0, f0.1, f1.0, f1.1, "c2"@) ==> crate::atpg::restrictions_in_place(
        m, crate::atpg::restricted_assigns(a0, p2), o0, f0.0, f0.1, false, "c2"@)
}

/// The four restriction steps of the DI model: the undetected fault `ud` on the second and
/// third copies, then the detected fault `dt` on both.
fn restrict_both(
    top: &mut Module,
    c2_ports: &Vec<PortWire>,
    c3_ports: &Vec<PortWire>,
    ud_wire: &Wire,
    ud: &Fault,
    dt_wire: &Wire,
    dt: &Fault,
)
    requires
        old(top).wf(),
    ensures
        final(top).wf(),
        final(top)@.name == old(top)@.name,
        final(top)@.inputs == old(top)@.inputs,
        final(top)@.outputs == old(top)@.outputs,
        forall|x: WireView| old(top)@.wires.contains(x) ==> final(top)@.wires.contains(x),
        forall|id: Seq<char>| id.len() > 0 && id[0] == 'C' && has_gate(old(top)@.gates, id) ==> has_gate(final(top)@.gates, id)
            && crate::verilog::gate_of(final(top)@.gates, id) == crate::verilog::gate_of(old(top)@.gates, id),
        ({
            let p2 = crate::verilog::port_views(c2_ports@);
            let p3 = crate::verilog::port_views(c3_ports@);
            let f0 = (ud.location@, ud.sa_value);
            let f1 = (dt.location@, dt.sa_value);
            let a0 = old(top)@.assigns;
            let a1 = crate::atpg::restrict_assigns(a0, p2, f0);
            let a2 = crate::atpg::restrict_assigns(a1, p3, f0);
            let a3 = crate::atpg::restrict_assigns(a2, p2, f1);
            let a4 = crate::atpg::restrict_assigns(a3, p3, f1);
            let m = final(top)@;
            &&& m.assigns == a4
            &&& crate::atpg::restrictions_in_place(m, crate::atpg::restricted_assigns(a3, p3), dt_wire@.name, f1.0, f1.1, false, "c3"@)
            &&& crate::atpg::restrictions_in_place(m, crate::atpg::restricted_assigns(a2, p2), dt_wire@.name, f1.0, f1.1, false, "c2"@)
            &&& crate::atpg::restriction_ids_apart(f0.0, f0.1, f1.0, f1.1, "c3"@) ==> crate::atpg::restrictions_in_place(
                m, crate::atpg::restricted_assigns(a1, p3), ud_wire@.name, f0.0, f0.1, true, "c3"@)
            &&& crate::atpg::restriction_ids_apart(f0.0, f0.1, f1.0, f1.1, "c2"@) ==> crate::atpg::restrictions_in_place(
                m, crate::atpg::restricted_assigns(a0, p2), ud_wire@.name, f0.0, f0.1, false, "c2"@)
        }),
{
    let ghost t0 = top@;
    restrict_step(top, c2_ports, ud_wire, ud, false, "c2");
    let ghost t1 = top@;
    restrict_step(top, c3_ports, ud_wire, ud, true, "c3");
    let ghost t2 = top@;
    restrict_step(top, c2_ports, dt_wire, dt, false, "c2");
    let ghost t3 = top@;
    restrict_step(top, c3_ports, dt_wire, dt, false, "c3");
    proof {
        let p2 = crate::verilog::port_views(c2_ports@);
        let p3 = crate::verilog::port_views(c3_ports@);
        let l0 = ud.location@;
        let s0 = ud.sa_value;
        let l1 = dt.location@;
        let s1 = dt.sa_value;
        assert forall|a: nat, b: nat| #[trigger] crate::atpg::restriction_id(a, l0, s0, "c2"@) != #[trigger] crate::atpg::restriction_id(b, l0, s0, "c3"@) by {
            crate::atpg::lemma_copies_apart(a, l0, s0, b, l0, s0);
        }
        assert forall|a: nat, b: nat| #[trigger] crate::atpg::restriction_id(a, l0, s0, "c2"@) != #[trigger] crate::atpg::restriction_id(b, l1, s1, "c3"@) by {
            crate::atpg::lemma_copies_apart(a, l0, s0, b, l1, s1);
        }
        assert forall|a: nat, b: nat| #[trigger] crate::atpg::restriction_id(a, l0, s0, "c3"@) != #[trigger] crate::atpg::restriction_id(b, l1, s1, "c2"@) by {
            crate::atpg::lemma_copies_apart(b, l1, s1, a, l0, s0);
        }
        assert forall|a: nat, b: nat| #[trigger] crate::atpg::restriction_id(a, l1, s1, "c2"@) != #[trigger] crate::atpg::restriction_id(b, l1, s1, "c3"@) by {
            crate::atpg::lemma_copies_apart(a, l1, s1, b, l1, s1);
        }
        // the detected fault on the second copy survives the last step
        crate::atpg::lemma_in_place_through(t3, top@, crate::atpg::restricted_assigns(t2.assigns, p2), dt_wire@.name, l1, s1, false, "c2"@,
            crate::atpg::restricted_assigns(t3.assigns, p3), l1, s1, "c3"@);
        // the undetected fault on the third copy survives the last two steps
        if crate::atpg::restriction_ids_apart(l0, s0, l1, s1, "c3"@) {
            crate::atpg::lemma_in_place_through(t2, t3, crate::atpg::restricted_assigns(t1.assigns, p3), ud_wire@.name, l0, s0, true, "c3"@,
                crate::atpg::restricted_assigns(t2.assigns, p2), l1, s1, "c2"@);
            crate::atpg::lemma_in_place_through(t3, top@, crate::atpg::restricted_assigns(t1.assigns, p3), ud_wire@.name, l0, s0, true, "c3"@,
                crate::atpg::restricted_assigns(t3.assigns, p3), l1, s1, "c3"@);
        }
        // the undetected fault on the second copy survives the last three steps
        if crate::atpg::restriction_ids_apart(l0, s0, l1, s1, "c2"@) {
            crate::atpg::lemma_in_place_through(t1, t2, crate::atpg::restricted_assigns(t0.assigns, p2), ud_wire@.name, l0, s0, false, "c2"@,
                crate::atpg::restricted_assigns(t1.assigns, p3), l0, s0, "c3"@);
            crate::atpg::lemma_in_place_through(t2, t3, crate::atpg::restricted_assigns(t0.assigns, p2), ud_wire@.name, l0, s0, false, "c2"@,
                crate::atpg::restricted_assigns(t2.assigns, p2), l1, s1, "c2"@);
            crate::atpg::lemma_in_place_through(t3, top@, crate::atpg::restricted_assigns(t0.assigns, p2), ud_wire@.name, l0, s0, false, "c2"@,
                crate::atpg::restricted_assigns(t3.assigns, p3), l1, s1, "c3"@);
        }
    }
}

/// The DI model prepared for ATPG: observation taps for the two faults in the first copy, and
/// restriction gates on the outputs of the second and third copies.
#[derive(Debug, Clone)]
pub struct DiExpansionATPGModel {
    pub de_model: DiExpansionModel,
    pub atpg_model: Verilog,
}

impl DiExpansionATPGModel {
    /// The invariant: the netlist holds the top module and the three copies.
    pub open spec fn wf(&self) -> bool {
        &&& self.de_model.wf()
        &&& self.atpg_model.wf()
        &&& self.atpg_model@.len() == 4
        &&& self.atpg_model@[2] == self.de_model.expanded_model@[2]
        &&& self.atpg_model@[3] == self.de_model.expanded_model@[3]
    }

    /// The configured faults.
    pub open spec fn spec_faults(&self) -> Seq<Fault> {
        self.de_model.combinational_part_model.configured_model.cfg.equivalent_check@
    }

    /// Replaces each top assign that feeds an output from one of `outputs` by a restriction gate.
    pub fn insert_restricted_gates(
        top_module: &mut Module,
        outputs: &Vec<PortWire>,
        restriction_wire: &Wire,
        fault: &Fault,
        inverted: bool,
        cmb_name: &str,
    )
        requires
            old(top_module).wf(),
        ensures
            final(top_module).wf(),
            final(top_module)@.name == old(top_module)@.name,
            final(top_module)@.inputs == old(top_module)@.inputs,
            final(top_module)@.outputs == old(top_module)@.outputs,
            crate::atpg::restrictions_in_place(
                final(top_module)@,
                crate::atpg::restricted_assigns(old(top_module)@.assigns, crate::verilog::port_views(outputs@)),
                restriction_wire@.name,
                fault.location@,
                fault.sa_value,
                inverted,
                cmb_name@,
            ),
            forall|x: WireView| old(top_module)@.wires.contains(x) ==> final(top_module)@.wires.contains(x),
            final(top_module)@.assigns == crate::atpg::unrestricted_assigns(
                old(top_module)@.assigns,
                crate::verilog::port_views(outputs@),
            ) + crate::atpg::feeding_assigns(
                crate::atpg::restricted_assigns(old(top_module)@.assigns, crate::verilog::port_views(outputs@)),
                fault.location@,
                fault.sa_value,
            ),
            forall|id: Seq<char>| has_gate(old(top_module)@.gates, id) && (forall|k: int|
                0 <= k < crate::atpg::restricted_assigns(old(top_module)@.assigns, crate::verilog::port_views(outputs@)).len()
                ==> id != #[trigger] crate::atpg::restriction_id((k + 1) as nat, fault.location@, fault.sa_value, cmb_name@))
                ==> has_gate(final(top_module)@.gates, id) && crate::verilog::gate_of(final(top_module)@.gates, id)
                == crate::verilog::gate_of(old(top_module)@.gates, id),
    {
        crate::atpg::insert_restricted_gates(top_module, outputs, restriction_wire, fault, inverted, cmb_name);
    }

    /// Inserts the taps and the restriction gates for the two configured faults, the first one
    /// undetected by the third copy and the second one detected by it. Fails unless exactly two
    /// faults are configured and both can be observed in the first copy.
    #[verifier::rlimit(60)]
    pub fn try_from_model(de_model: DiExpansionModel) -> (r: Result<Self, ExpansionConfigError>)
        requires
            de_model.wf(),
        ensures
            ({
                let fs = de_model.combinational_part_model.configured_model.cfg.equivalent_check@;
                let c1 = de_model.expanded_model@[1];
                &&& r is Ok <==> fs.len() == 2 && resolves(c1, fs[0].location@) && resolves(c1, fs[1].location@)
                &&& (r matches Err(ExpansionConfigError::ConfigVerificationError(
                    ExpansionConfigVerificationError::MalformedFaultSet,
                ))) <==> fs.len() != 2
                &&& r matches Ok(a) ==> {
                    &&& has_gate(a.atpg_model@[0].gates, "C1"@)
                    &&& crate::verilog::gate_of(a.atpg_model@[0].gates, "C1"@).ports
                        == crate::verilog::gate_of(de_model.expanded_model@[0].gates, "C1"@).ports.push(
                            crate::verilog::wire_binding(observable_name(fs[0].location@, fs[0].sa_value), observable_name(fs[0].location@, fs[0].sa_value)),
                        ).push(
                            crate::verilog::wire_binding(observable_name(fs[1].location@, fs[1].sa_value), observable_name(fs[1].location@, fs[1].sa_value)),
                        )
                    &&& has_gate(a.atpg_model@[0].gates, "C2"@)
                    &&& has_gate(a.atpg_model@[0].gates, "C3"@)
                    &&& crate::verilog::gate_of(a.atpg_model@[0].gates, "C2"@) == crate::verilog::gate_of(de_model.expanded_model@[0].gates, "C2"@)
                    &&& crate::verilog::gate_of(a.atpg_model@[0].gates, "C3"@) == crate::verilog::gate_of(de_model.expanded_model@[0].gates, "C3"@)
                    &&& a.atpg_model@[1].assigns == c1.assigns + crate::broadside::tap_assigns(c1, faults_view(fs))
                    &&& di_restrictions(
                        a.atpg_model@[0],
                        de_model.expanded_model@[0].assigns,
                        crate::verilog::gate_of(de_model.expanded_model@[0].gates, "C2"@).ports,
                        crate::verilog::gate_of(de_model.expanded_model@[0].gates, "C3"@).ports,
                        (fs[0].location@, fs[0].sa_value),
                        observable_name(fs[0].location@, fs[0].sa_value),
                        (fs[1].location@, fs[1].sa_value),
                        observable_name(fs[1].location@, fs[1].sa_value),
                    )
                    &&& a.wf()
                    &&& a.de_model == de_model
                    &&& a.atpg_model@[1].gates == c1.gates
                    &&& forall|k: int| 0 <= k < 2 ==> {
                        let o = observable_name((#[trigger] fs[k]).location@, fs[k].sa_value);
                        &&& a.atpg_model@[1].outputs.contains(single(o))
                        &&& a.atpg_model@[0].wires.contains(single(o))
                    }
                }
            }),
    {
        let faults = &de_model.combinational_part_model.configured_model.cfg.equivalent_check;
        if faults.len() != 2 {
            return Err(ExpansionConfigError::ConfigVerificationError(
                ExpansionConfigVerificationError::MalformedFaultSet,
            ));
        }
        let mut top = de_model.top_module().duplicate();
        let mut c1 = de_model.module_at(1).duplicate();
        let c2 = de_model.module_at(2).duplicate();
        let c3 = de_model.module_at(3).duplicate();
        let ud_fault = &faults[0];
        let dt_fault = &faults[1];
        let ghost c10 = c1@;
        let ud_observable = match c1.add_observation_point(ud_fault.location.as_str(), ud_fault.sa_value) {
            Ok(o) => o,
            Err(e) => {
                return Err(ExpansionConfigError::ModuleError(e));
            },
        };
        let ghost c11 = c1@;
        proof {
            crate::broadside::lemma_with_contains(c10.outputs, single(ud_observable@));
        }
        let dt_observable = match c1.add_observation_point(dt_fault.location.as_str(), dt_fault.sa_value) {
            Ok(o) => o,
            Err(e) => {
                assert(!resolves(c10, dt_fault.location@));
                return Err(ExpansionConfigError::ModuleError(e));
            },
        };
        proof {
            crate::broadside::lemma_with_contains(c11.outputs, single(dt_observable@));
        }
        let ud_wire = Wire::new_single(ud_observable.clone());
        let dt_wire = Wire::new_single(dt_observable.clone());
        add_wire(&mut top, Wire::new_single(ud_observable.clone()));
        add_wire(&mut top, Wire::new_single(dt_observable.clone()));
        let ghost t1 = top@;
        proof {
            reveal_strlit("C1");
            let gs = top@.gates;
            assert(gs == de_model.expanded_model@[0].gates);
            assert(gate_ids(gs) == seq!["C1"@, "C2"@, "C3"@]);
            assert(gate_ids(gs).len() == gs.len());
            assert(gate_ids(gs)[0] == gs[0].0);
            assert(gs[0].0 == "C1"@);
            assert(has_gate(gs, "C1"@));
        }
        let ghost c1g0 = crate::verilog::gate_of(top@.gates, "C1"@);
        assert(c1g0 == crate::verilog::gate_of(de_model.expanded_model@[0].gates, "C1"@));
        bind_tap(&mut top, &ud_observable);
        bind_tap(&mut top, &dt_observable);
        proof {
            reveal_strlit("C1");
            reveal_strlit("C2");
            reveal_strlit("C3");
            let gs = t1.gates;
            assert(gate_ids(gs)[1] == gs[1].0);
            assert(gate_ids(gs)[2] == gs[2].0);
            assert(has_gate(gs, "C2"@));
            assert(has_gate(gs, "C3"@));
            assert("C2"@[1] != "C1"@[1]);
            assert("C3"@[1] != "C1"@[1]);
        }
        let c2_ports = bindings_of(&top, "C2");
        let c3_ports = bindings_of(&top, "C3");
        let ghost tg = top@;
        proof {
            reveal_strlit("C1");
            reveal_strlit("C2");
            reveal_strlit("C3");
            assert("C1"@.len() > 0 && "C1"@[0] == 'C');
            assert("C2"@.len() > 0 && "C2"@[0] == 'C');
            assert("C3"@.len() > 0 && "C3"@[0] == 'C');
        }
        restrict_both(&mut top, &c2_ports, &c3_ports, &ud_wire, ud_fault, &dt_wire, dt_fault);
        proof {
            let fv = faults_view(faults@);
            assert(fv[0] == (ud_fault.location@, ud_fault.sa_value));
            assert(fv[1] == (dt_fault.location@, dt_fault.sa_value));
            assert(crate::verilog::located_wire(c11, ud_fault.location@) == crate::verilog::located_wire(c10, ud_fault.location@));
            assert(crate::verilog::located_wire(c11, dt_fault.location@) == crate::verilog::located_wire(c10, dt_fault.location@));
            assert(crate::broadside::tap_assigns(c10, fv) =~= seq![
                assign_text(ud_observable@, crate::verilog::located_wire(c10, ud_fault.location@)),
                assign_text(dt_observable@, crate::verilog::located_wire(c10, dt_fault.location@)),
            ]);
            assert(c1@.assigns =~= c10.assigns + crate::broadside::tap_assigns(c10, fv));
            assert(tg.assigns == de_model.expanded_model@[0].assigns);
        }
        assert(top@.wires.contains(single(ud_observable@)));
        assert(top@.wires.contains(single(dt_observable@)));
        let mut atpg_model = Verilog::new();
        atpg_model.push_module(top);
        atpg_model.push_module(c1);
        atpg_model.push_module(c2);
        atpg_model.push_module(c3);
        proof {
            assert forall|k: int| 0 <= k < atpg_model@.len() implies crate::verilog::module_wf(
                #[trigger] atpg_model@[k],
            ) by {
                if k == 0 {} else if k == 1 {} else if k == 2 {} else {}
            }
            assert(c1@.outputs.contains(single(ud_observable@)));
        }
        Ok(DiExpansionATPGModel { de_model, atpg_model })
    }

    pub fn atpg_model(&self) -> (r: &Verilog)
        ensures
            r@ == self.atpg_model@,
    {
        &self.atpg_model
    }

    /// The reference model (the ATPG model as it is) and the implementation model: the first
    /// (undetected) fault injected into the second copy, the second (detected) one into the third.
    pub fn equivalent_check(&self) -> (r: Result<(Verilog, Verilog), VerilogError>)
        requires
            self.wf(),
            self.spec_faults().len() == 2,
        ensures
            ({
                let a = self.atpg_model@;
                let c2 = a[2].name;
                let c3 = a[3].name;
                let f2 = faults_view(self.spec_faults().subrange(0, 1));
                let f3 = faults_view(self.spec_faults().subrange(1, 2));
                let mid = a.update(module_index(a, c2), inject_all(module_named(a, c2), c2, f2));
                &&& r is Ok <==> all_resolve(module_named(a, c2), c2, f2) && all_resolve(module_named(mid, c3), c3, f3)
                &&& r matches Err(e) ==> e is ModuleError
                &&& r matches Ok((reference, implementation)) ==> reference@ == a
                    && implementation@ == mid.update(module_index(mid, c3), inject_all(module_named(mid, c3), c3, f3))
            }),
    {
        let faults = &self.de_model.combinational_part_model.configured_model.cfg.equivalent_check;
        let reference = duplicate_netlist(&self.atpg_model);
        let mut implementation = duplicate_netlist(&self.atpg_model);
        assert(self.atpg_model@[2] == self.atpg_model.modules@[2]@);
        assert(self.atpg_model@[3] == self.atpg_model.modules@[3]@);
        let c2_name = self.atpg_model.modules[2].name.clone();
        let c3_name = self.atpg_model.modules[3].name.clone();
        let mut c2_faults: Vec<Fault> = Vec::new();
        c2_faults.push(faults[0].duplicate());
        let mut c3_faults: Vec<Fault> = Vec::new();
        c3_faults.push(faults[1].duplicate());
        assert(faults_view(c2_faults@) =~= faults_view(self.spec_faults().subrange(0, 1)));
        assert(faults_view(c3_faults@) =~= faults_view(self.spec_faults().subrange(1, 2)));
        assert(has_module(implementation@, c2_name@)) by {
            assert(implementation@[2].name == c2_name@);
        }
        let ghost a = implementation@;
        let p2 = implementation.module_position(c2_name.as_str());
        match inject_faults(&mut implementation, c2_name.as_str(), &c2_faults) {
            Ok(()) => {},
            Err(e) => {
                return Err(e);
            },
        }
        let ghost mid = implementation@;
        assert(has_module(implementation@, c3_name@)) by {
            let fv = faults_view(c2_faults@);
            assert(fv.len() == 1);
            let p = p2->Some_0 as int;
            assert(inject_all(module_named(a, c2_name@), c2_name@, fv).name == c2_name@);
            assert(implementation@[3].name == c3_name@) by {
                if p != 3 {
                    assert(implementation@[3] == a[3]);
                }
            }
        }
        match inject_faults(&mut implementation, c3_name.as_str(), &c3_faults) {
            Ok(()) => Ok((reference, implementation)),
            Err(e) => Err(e),
        }
    }
}


impl crate::config::ConfiguredTrait for DiExpansionModel {
    open spec fn spec_cfg(&self) -> crate::config::ExpansionConfig {
        self.combinational_part_model.configured_model.cfg
    }

    fn cfg_ref(&self) -> (r: &crate::config::ExpansionConfig) {
        &self.combinational_part_model.configured_model.cfg
    }
}


impl crate::config::ConfiguredTrait for DiExpansionATPGModel {
    open spec fn spec_cfg(&self) -> crate::config::ExpansionConfig {
        self.de_model.combinational_part_model.configured_model.cfg
    }

    fn cfg_ref(&self) -> (r: &crate::config::ExpansionConfig) {
        &self.de_model.combinational_part_model.configured_model.cfg
    }
}

} // verus!
