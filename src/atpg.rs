//! ATPG transformation: observation points, restriction gates and the reference/implementation pair.
use vstd::prelude::*;
use crate::fault::{sanitize, slow_to_tag, Fault};
use crate::text::{
    assign_sides, concat, concat3, decimal, ends_with, lemma_numbered_distinct, seq_ends_with,
    split_assign, to_decimal,
};
use crate::verilog::{
    assign_text, duplicate_strings, gate_ids, gate_index, gate_of, gates_with, has_gate,
    module_index, module_named, module_wf, port_views, resolves, single, string_views,
    wire_binding, wires_with, with_stuck_at, Gate, GateView, Module, ModuleView, PortView,
    PortWire, Verilog, VerilogError, Wire, WireView,
};

verus! {

/// After `gates_with`, `id` holds `g` and every other instance is unchanged.
pub proof fn lemma_gates_with(gs: Seq<(Seq<char>, GateView)>, id: Seq<char>, g: GateView)
    requires
        gate_ids(gs).no_duplicates(),
    ensures
        has_gate(gates_with(gs, id, g), id),
        gate_of(gates_with(gs, id, g), id) == g,
        gate_ids(gates_with(gs, id, g)).no_duplicates(),
        crate::verilog::gates_sorted(gs) ==> crate::verilog::gates_sorted(gates_with(gs, id, g)),
        forall|other: Seq<char>| other != id ==> (has_gate(gates_with(gs, id, g), other) <==> has_gate(gs, other)),
        forall|other: Seq<char>| other != id && has_gate(gs, other) ==> gate_of(gates_with(gs, id, g), other)
            == gate_of(gs, other),
        forall|e: (Seq<char>, GateView)| gates_with(gs, id, g).contains(e) ==> gs.contains(e) || e == (id, g),
{
    let ns = gates_with(gs, id, g);
    let gi = gate_ids(gs);
    let ni = gate_ids(ns);
    // where the entry for `id` stands in `ns`, and where each other entry came from
    let p: int = if has_gate(gs, id) { gate_index(gs, id) } else { crate::verilog::gate_pos(gs, id) };
    if has_gate(gs, id) {
        assert(ns[p].0 == id);
        assert(ni =~= gi);
    } else {
        crate::verilog::lemma_gate_pos(gs, id);
        assert(ns[p] == (id, g));
        assert forall|j: int| 0 <= j < p implies ns[j] == gs[j] by {}
        assert forall|j: int| p < j < ns.len() implies ns[j] == gs[j - 1] by {}
        assert forall|a: int, b: int| 0 <= a < b < ni.len() implies ni[a] != ni[b] by {
            if a == p {
                assert(gs[b - 1].0 == gi[b - 1]);
            } else if b == p {
                assert(gs[a].0 == gi[a]);
            } else {
                let oa = if a < p { a } else { a - 1 };
                let ob = if b < p { b } else { b - 1 };
                assert(ni[a] == gi[oa] && ni[b] == gi[ob]);
            }
        }
        if crate::verilog::gates_sorted(gs) {
            assert forall|a: int, b: int| 0 <= a < b < ns.len() implies !crate::text::name_lt(ni[b], ni[a]) by {
                if a == p {
                    let ob = b - 1;
                    assert(ni[b] == gi[ob]);
                    if p < gs.len() {
                        assert(crate::text::name_lt(id, gs[p].0));
                        if ob > p {
                            assert(!crate::text::name_lt(gi[ob], gi[p]));
                        }
                        if crate::text::name_lt(gi[ob], id) {
                            crate::text::lemma_name_lt_trans(gi[ob], id, gs[p].0);
                            if ob == p {
                                crate::text::lemma_name_lt_asym(gs[p].0, gs[p].0);
                            }
                        }
                    }
                } else if b == p {
                    assert(ni[a] == gi[a]);
                    assert(!crate::text::name_lt(id, gs[a].0));
                } else {
                    let oa = if a < p { a } else { a - 1 };
                    let ob = if b < p { b } else { b - 1 };
                    assert(ni[a] == gi[oa] && ni[b] == gi[ob]);
                }
            }
        }
    }
    let q = gate_index(ns, id);
    assert(0 <= q < ns.len() && ns[q].0 == id);
    assert(ni[q] == ni[p]);
    assert forall|other: Seq<char>| other != id implies (has_gate(ns, other) <==> has_gate(gs, other)) by {
        if has_gate(ns, other) {
            let j = choose|j: int| 0 <= j < ns.len() && ns[j].0 == other;
            if has_gate(gs, id) {
                assert(gs[j].0 == other);
            } else if j < p {
                assert(gs[j].0 == other);
            } else {
                assert(j != p);
                assert(gs[j - 1].0 == other);
            }
        }
        if has_gate(gs, other) {
            let j = choose|j: int| 0 <= j < gs.len() && gs[j].0 == other;
            if has_gate(gs, id) || j < p {
                assert(ns[j].0 == other);
            } else {
                assert(ns[j + 1].0 == other);
            }
        }
    }
    assert forall|other: Seq<char>| other != id && has_gate(gs, other) implies gate_of(ns, other) == gate_of(gs, other) by {
        let a = gate_index(gs, other);
        let b = gate_index(ns, other);
        assert(0 <= a < gs.len() && gs[a].0 == other);
        assert(0 <= b < ns.len() && ns[b].0 == other);
        let na = if has_gate(gs, id) || a < p { a } else { a + 1 };
        assert(ns[na] == gs[a]);
        assert(ni[na] == ni[b]);
    }
    assert forall|e: (Seq<char>, GateView)| ns.contains(e) implies gs.contains(e) || e == (id, g) by {
        let j = choose|j: int| 0 <= j < ns.len() && ns[j] == e;
        if j != p {
            if has_gate(gs, id) || j < p {
                assert(gs[j] == e);
            } else {
                assert(gs[j - 1] == e);
            }
        }
    }
}

/// The cell of a restriction gate: an AND where the stuck-at value differs from `inverted`,
/// an OR otherwise.
pub open spec fn restriction_cell(sa_value: bool, inverted: bool) -> Seq<char> {
    if sa_value != inverted {
        "AN2"@
    } else {
        "OR2"@
    }
}

/// A restriction gate of cell `cell` gating `b` with `a` onto `z`.
pub open spec fn restriction_gate(cell: Seq<char>, a: Seq<char>, b: Seq<char>, z: Seq<char>) -> GateView {
    GateView { name: cell, ports: seq![wire_binding("A"@, a), wire_binding("B"@, b), wire_binding("Z"@, z)] }
}

/// The wire that carries a copy's output into the restriction gate for a fault.
pub open spec fn restricted_wire(output: Seq<char>, loc: Seq<char>, sa_value: bool) -> Seq<char> {
    output + "_"@ + sanitize(loc) + "_"@ + slow_to_tag(sa_value)
}

/// The identifier of the `k`-th restriction gate of a fault on copy `cmb`.
pub open spec fn restriction_id(k: nat, loc: Seq<char>, sa_value: bool, cmb: Seq<char>) -> Seq<char> {
    "R"@ + decimal(k) + ("_"@ + sanitize(loc) + "_"@ + slow_to_tag(sa_value) + "_"@ + cmb)
}

/// The assign `a` ends with the wire of some binding of `ports`.
pub open spec fn ends_with_some(a: Seq<char>, ports: Seq<PortView>) -> bool {
    exists|j: int| 0 <= j < ports.len() && seq_ends_with(a, ports[j].wire)
}

/// The assigns that feed a top output from one of the copy's bindings, in order.
pub open spec fn restricted_assigns(assigns: Seq<Seq<char>>, ports: Seq<PortView>) -> Seq<Seq<char>> {
    assigns.filter_map(
        |a: Seq<char>|
            if ends_with_some(a, ports) && assign_sides(a) is Some {
                Some(a)
            } else {
                None
            },
    )
}

/// Whether `a` ends with the wire of some binding of `ports`.
fn ends_with_any(a: &str, ports: &Vec<PortWire>) -> (r: bool)
    ensures
        r == ends_with_some(a@, port_views(ports@)),
{
    let mut j: usize = 0;
    while j < ports.len()
        invariant
            j <= ports.len(),
            forall|l: int| 0 <= l < j ==> !seq_ends_with(a@, port_views(ports@)[l].wire),
        decreases ports.len() - j,
    {
        if ends_with(a, ports[j].wire()) {
            assert(seq_ends_with(a@, port_views(ports@)[j as int].wire));
            return true;
        }
        j = j + 1;
    }
    false
}

/// The assigns that are left untouched by restriction, in order.
pub open spec fn unrestricted_assigns(assigns: Seq<Seq<char>>, ports: Seq<PortView>) -> Seq<Seq<char>> {
    assigns.filter_map(
        |a: Seq<char>|
            if ends_with_some(a, ports) && assign_sides(a) is Some {
                None
            } else {
                Some(a)
            },
    )
}

/// The left side of an assign text that has one.
pub open spec fn lhs_of(a: Seq<char>) -> Seq<char> {
    assign_sides(a)->Some_0.0
}

/// The right side of an assign text that has one.
pub open spec fn rhs_of(a: Seq<char>) -> Seq<char> {
    assign_sides(a)->Some_0.1
}

/// The assigns that feed the restriction gates of `rs`, in order.
pub open spec fn feeding_assigns(rs: Seq<Seq<char>>, loc: Seq<char>, sa_value: bool) -> Seq<Seq<char>> {
    rs.map_values(|a: Seq<char>| assign_text(restricted_wire(rhs_of(a), loc, sa_value), rhs_of(a)))
}

/// The restriction gates that `restrict_outputs` puts in place of `rs` are there.
pub open spec fn restrictions_in_place(
    m: ModuleView,
    rs: Seq<Seq<char>>,
    rw: Seq<char>,
    loc: Seq<char>,
    sa_value: bool,
    inverted: bool,
    cmb: Seq<char>,
) -> bool {
    forall|k: int| 0 <= k < rs.len() ==> {
        let nw = restricted_wire(rhs_of(#[trigger] rs[k]), loc, sa_value);
        let id = restriction_id((k + 1) as nat, loc, sa_value, cmb);
        &&& has_gate(m.gates, id)
        &&& gate_of(m.gates, id) == restriction_gate(
            restriction_cell(sa_value, inverted),
            rw,
            nw,
            lhs_of(rs[k]),
        )
        &&& m.wires.contains(single(nw))
    }
}

/// Replaces each top-level assign that feeds a top output from one of the copy's bindings
/// (`out = copy_out`) by a restriction gate: `copy_out` goes through a fresh wire into input `B`,
/// the restriction wire into input `A`, and that gate drives `out`.
pub fn insert_restricted_gates(
    top_module: &mut Module,
    outputs: &Vec<PortWire>,
    restriction_wire: &Wire,
    fault: &Fault,
    inverted: bool,
    cmb_name: &str,
)
    requires
        old(top_module).wf(),
    ensures
        final(top_module).wf(),
        ({
            let o = old(top_module)@;
            let f = final(top_module)@;
            let ports = port_views(outputs@);
            let rs = restricted_assigns(o.assigns, ports);
            &&& f.name == o.name
            &&& f.inputs == o.inputs
            &&& f.outputs == o.outputs
            &&& f.assigns == unrestricted_assigns(o.assigns, ports) + feeding_assigns(
                rs,
                fault.location@,
                fault.sa_value,
            )
            &&& restrictions_in_place(f, rs, restriction_wire@.name, fault.location@,
                fault.sa_value, inverted, cmb_name@)
            &&& forall|x: WireView| o.wires.contains(x) ==> f.wires.contains(x)
            &&& forall|id: Seq<char>| has_gate(o.gates, id) && (forall|k: int| 0 <= k < rs.len()
                ==> id != #[trigger] restriction_id((k + 1) as nat, fault.location@, fault.sa_value, cmb_name@))
                ==> has_gate(f.gates, id) && gate_of(f.gates, id) == gate_of(o.gates, id)
        }),
{
    let ghost o = top_module@;
    let ghost ports = port_views(outputs@);
    let ghost loc = fault.location@;
    let ghost sa = fault.sa_value;
    let location = fault.sanitized_location();
    let tag = fault.slow_to();
    let cell: &str = if fault.sa_value != inverted { "AN2" } else { "OR2" };
    let assigns = duplicate_strings(&top_module.assigns);
    let ghost av = string_views(assigns@);
    let mut kept: Vec<String> = Vec::new();
    let mut added: Vec<String> = Vec::new();
    let mut count: usize = 0;
    let mut i: usize = 0;
    while i < assigns.len()
        invariant
            av == string_views(assigns@),
            av == o.assigns,
            ports == port_views(outputs@),
            loc == fault.location@,
            sa == fault.sa_value,
            location@ == sanitize(loc),
            tag@ == slow_to_tag(sa),
            cell@ == restriction_cell(sa, inverted),
            i <= assigns.len(),
            count as int == restricted_assigns(av.subrange(0, i as int), ports).len(),
            count <= i,
            top_module.wf(),
            top_module@.name == o.name,
            top_module@.inputs == o.inputs,
            top_module@.outputs == o.outputs,
            top_module@.assigns == o.assigns,
            string_views(kept@) == unrestricted_assigns(av.subrange(0, i as int), ports),
            string_views(added@) == feeding_assigns(restricted_assigns(av.subrange(0, i as int), ports), loc, sa),
            restrictions_in_place(top_module@, restricted_assigns(av.subrange(0, i as int), ports),
                restriction_wire@.name, loc, sa, inverted, cmb_name@),
            forall|x: WireView| o.wires.contains(x) ==> top_module@.wires.contains(x),
            forall|id: Seq<char>| has_gate(o.gates, id) && (forall|k: int| 0 <= k < count
                ==> id != #[trigger] restriction_id((k + 1) as nat, loc, sa, cmb_name@))
                ==> has_gate(top_module@.gates, id) && gate_of(top_module@.gates, id) == gate_of(o.gates, id),
        decreases assigns.len() - i,
    {
        let a = &assigns[i];
        let ghost prefix = av.subrange(0, i as int);
        let ghost next = av.subrange(0, i + 1);
        assert(next.drop_last() =~= prefix);
        assert(next.last() == a@);
        let ghost rs0 = restricted_assigns(prefix, ports);
        let hit = ends_with_any(a.as_str(), outputs);
        let sides = if hit { split_assign(a.as_str()) } else { None };
        match sides {
            Some((lhs, rhs)) => {
                let ghost m0 = top_module@;
                assert(restricted_assigns(next, ports) == rs0.push(a@));
                assert(unrestricted_assigns(next, ports) == unrestricted_assigns(prefix, ports));
                let index = to_decimal(count + 1);
                let head = concat3(rhs.as_str(), "_", location.as_str());
                let new_wire = concat3(head.as_str(), "_", tag);
                let mut gate = Gate::new_with_name(String::from_str(cell));
                gate.push_port(PortWire::Wire(String::from_str("A"), restriction_wire.name.clone()));
                gate.push_port(PortWire::Wire(String::from_str("B"), new_wire.clone()));
                gate.push_port(PortWire::Wire(String::from_str("Z"), lhs));
                let tail1 = concat3("_", location.as_str(), "_");
                let tail2 = concat3(tail1.as_str(), tag, "_");
                let tail = concat(tail2.as_str(), cmb_name);
                let id = concat3("R", index.as_str(), tail.as_str());
                proof {
                    reveal_strlit("_");
                    assert(tail@ == "_"@ + sanitize(loc) + "_"@ + slow_to_tag(sa) + "_"@ + cmb_name@);
                    assert(id@ == restriction_id((count + 1) as nat, loc, sa, cmb_name@));
                    assert(gate@.ports =~= seq![
                        wire_binding("A"@, restriction_wire@.name),
                        wire_binding("B"@, new_wire@),
                        wire_binding("Z"@, lhs_of(a@)),
                    ]);
                    lemma_gates_with(m0.gates, id@, gate@);
                }
                let ghost gv = gate@;
                top_module.push_gate(id, gate);
                let ghost m1 = top_module@;
                let ghost nw = new_wire@;
                top_module.push_wire(Wire::new_single(new_wire.clone()));
                let feed = concat3(new_wire.as_str(), " = ", rhs.as_str());
                let ghost fv = feed@;
                added.push(feed);
                proof {
                    let m2 = top_module@;
                    let rs1 = rs0.push(a@);
                    assert(m2.wires == wires_with(m1.wires, single(nw)));
                    crate::verilog::lemma_wires_with(m1.wires, single(nw));
                    assert forall|k: int| 0 <= k < rs1.len() implies {
                        let nwk = restricted_wire(rhs_of(#[trigger] rs1[k]), loc, sa);
                        let idk = restriction_id((k + 1) as nat, loc, sa, cmb_name@);
                        &&& has_gate(m2.gates, idk)
                        &&& gate_of(m2.gates, idk) == restriction_gate(
                            restriction_cell(sa, inverted),
                            restriction_wire@.name,
                            nwk,
                            lhs_of(rs1[k]),
                        )
                        &&& m2.wires.contains(single(nwk))
                    } by {
                        if k < rs0.len() {
                            assert(rs1[k] == rs0[k]);
                            let idk = restriction_id((k + 1) as nat, loc, sa, cmb_name@);
                            lemma_numbered_distinct("R"@, (k + 1) as nat, (count + 1) as nat,
                                "_"@ + sanitize(loc) + "_"@ + slow_to_tag(sa) + "_"@ + cmb_name@,
                                "_"@ + sanitize(loc) + "_"@ + slow_to_tag(sa) + "_"@ + cmb_name@);
                            assert(idk != id@);
                        } else {
                            assert(rs1[k] == a@);
                        }
                    }
                    assert(string_views(added@) =~= string_views(added@).drop_last().push(fv));
                    assert(feeding_assigns(rs1, loc, sa) =~= feeding_assigns(rs0, loc, sa).push(fv));
                    assert forall|idx: Seq<char>| has_gate(o.gates, idx) && (forall|k: int| 0 <= k < count + 1
                        ==> idx != #[trigger] restriction_id((k + 1) as nat, loc, sa, cmb_name@))
                        implies has_gate(m2.gates, idx) && gate_of(m2.gates, idx) == gate_of(o.gates, idx) by {
                        assert(idx != restriction_id((count + 1) as nat, loc, sa, cmb_name@));
                    }
                }
                count = count + 1;
            },
            None => {
                proof {
                    assert(restricted_assigns(next, ports) == rs0);
                    assert(unrestricted_assigns(next, ports) == unrestricted_assigns(prefix, ports).push(a@));
                }
                let ghost kv = string_views(kept@);
                kept.push(a.clone());
                assert(string_views(kept@) =~= kv.push(a@));
            },
        }
        i = i + 1;
    }
    proof {
        assert(av.subrange(0, i as int) =~= av);
    }
    let ghost kv = string_views(kept@);
    let ghost adv = string_views(added@);
    kept.append(&mut added);
    assert(string_views(kept@) =~= kv + adv);
    top_module.assigns = kept;
}


/// The views of a list of faults: each location with its stuck-at value.
pub open spec fn faults_view(fs: Seq<Fault>) -> Seq<(Seq<char>, bool)> {
    fs.map_values(|f: Fault| (f.location@, f.sa_value))
}

/// `m` renamed to `name` with each fault of `fs` injected in turn.
pub open spec fn inject_all(m: ModuleView, name: Seq<char>, fs: Seq<(Seq<char>, bool)>) -> ModuleView
    decreases fs.len(),
{
    if fs.len() == 0 {
        m
    } else {
        with_stuck_at(inject_all(m, name, fs.drop_last()), name, fs.last().0, fs.last().1)
    }
}

/// Each fault of `fs` resolves in the module that the faults before it leave.
pub open spec fn all_resolve(m: ModuleView, name: Seq<char>, fs: Seq<(Seq<char>, bool)>) -> bool {
    forall|k: int| 0 <= k < fs.len() ==> resolves(inject_all(m, name, #[trigger] fs.subrange(0, k)), fs[k].0)
}

/// Injects each fault of `faults` in turn into the module of `netlist` named `name`.
pub fn inject_faults(netlist: &mut Verilog, name: &str, faults: &Vec<Fault>) -> (r: Result<(), VerilogError>)
    requires
        old(netlist).wf(),
        crate::verilog::has_module(old(netlist)@, name@),
    ensures
        final(netlist).wf(),
        r is Ok <==> all_resolve(module_named(old(netlist)@, name@), name@, faults_view(faults@)),
        r matches Err(e) ==> e is ModuleError,
        r is Ok ==> final(netlist)@ == old(netlist)@.update(
            module_index(old(netlist)@, name@),
            inject_all(module_named(old(netlist)@, name@), name@, faults_view(faults@)),
        ),
{
    let ghost fv = faults_view(faults@);
    let ghost m0 = module_named(netlist@, name@);
    let ghost idx = module_index(netlist@, name@);
    let ghost n0 = netlist@;
    let pos = match netlist.module_position(name) {
        Some(p) => p,
        None => {
            proof {
                assert(false);
            }
            return Ok(());
        },
    };
    assert(m0.name == name@);
    let mut i: usize = 0;
    while i < faults.len()
        invariant
            fv == faults_view(faults@),
            i <= faults.len(),
            pos as int == idx,
            n0 == old(netlist)@,
            m0 == module_named(n0, name@),
            0 <= idx < n0.len(),
            m0 == n0[idx],
            netlist.wf(),
            netlist@ == n0.update(idx, inject_all(m0, name@, fv.subrange(0, i as int))),
            forall|k: int| 0 <= k < i ==> resolves(inject_all(m0, name@, #[trigger] fv.subrange(0, k)), fv[k].0),
        decreases faults.len() - i,
    {
        let ghost cur = inject_all(m0, name@, fv.subrange(0, i as int));
        assert(netlist@.len() == netlist.modules@.len());
        assert(netlist@[pos as int] == netlist.modules@[pos as int]@);
        assert(module_wf(netlist@[pos as int]));
        assert(fv[i as int] == (faults@[i as int].location@, faults@[i as int].sa_value));
        let injected = netlist.modules[pos].insert_stuck_at_fault(String::from_str(name), &faults[i]);
        match injected {
            Ok(m) => {
                let ghost prev = netlist@;
                let ghost mv = m@;
                netlist.modules.set(pos, m);
                proof {
                    assert(netlist@ =~= prev.update(pos as int, mv));
                    assert(fv.subrange(0, i + 1).drop_last() =~= fv.subrange(0, i as int));
                    assert(fv.subrange(0, i + 1).last() == fv[i as int]);
                    assert(mv == inject_all(m0, name@, fv.subrange(0, i + 1)));
                    assert(netlist@ =~= n0.update(idx, inject_all(m0, name@, fv.subrange(0, i + 1))));
                    assert forall|k: int| 0 <= k < netlist@.len() implies module_wf(#[trigger] netlist@[k]) by {
                        if k != idx {
                            assert(netlist@[k] == prev[k]);
                        }
                    }
                }
            },
            Err(e) => {
                proof {
                    assert(!resolves(cur, fv[i as int].0));
                    assert(!all_resolve(m0, name@, fv));
                    assert(m0 == module_named(old(netlist)@, name@));
                }
                return Err(VerilogError::ModuleError(e));
            },
        }
        i = i + 1;
    }
    proof {
        assert(fv.subrange(0, i as int) =~= fv);
    }
    Ok(())
}


/// The top's assigns after one restriction step for fault `f` on the copy bound by `ports`.
pub open spec fn restrict_assigns(a: Seq<Seq<char>>, ports: Seq<PortView>, f: (Seq<char>, bool)) -> Seq<Seq<char>> {
    unrestricted_assigns(a, ports) + feeding_assigns(restricted_assigns(a, ports), f.0, f.1)
}

/// No restriction gate of the fault `(l1, s1)` can be named like one of `(l2, s2)` on copy `cmb`.
pub open spec fn restriction_ids_apart(l1: Seq<char>, s1: bool, l2: Seq<char>, s2: bool, cmb: Seq<char>) -> bool {
    forall|a: nat, b: nat| #[trigger] restriction_id(a, l1, s1, cmb) != #[trigger] restriction_id(b, l2, s2, cmb)
}

/// Restriction gates of different copies never share a name: the names end with the copy.
pub proof fn lemma_copies_apart(a: nat, l1: Seq<char>, s1: bool, b: nat, l2: Seq<char>, s2: bool)
    ensures
        restriction_id(a, l1, s1, "c2"@) != restriction_id(b, l2, s2, "c3"@),
{
    reveal_strlit("c2");
    reveal_strlit("c3");
    let x = restriction_id(a, l1, s1, "c2"@);
    let y = restriction_id(b, l2, s2, "c3"@);
    assert(x.last() == '2');
    assert(y.last() == '3');
}

/// Restriction gates that keep their names keep their place.
pub proof fn lemma_in_place_kept(
    m1: ModuleView,
    m2: ModuleView,
    rs: Seq<Seq<char>>,
    rw: Seq<char>,
    loc: Seq<char>,
    sa: bool,
    inverted: bool,
    cmb: Seq<char>,
)
    requires
        restrictions_in_place(m1, rs, rw, loc, sa, inverted, cmb),
        forall|k: int| 0 <= k < rs.len() ==> has_gate(m2.gates, #[trigger] restriction_id((k + 1) as nat, loc, sa, cmb))
            && gate_of(m2.gates, restriction_id((k + 1) as nat, loc, sa, cmb))
            == gate_of(m1.gates, restriction_id((k + 1) as nat, loc, sa, cmb)),
        forall|x: WireView| m1.wires.contains(x) ==> m2.wires.contains(x),
    ensures
        restrictions_in_place(m2, rs, rw, loc, sa, inverted, cmb),
{
}

/// Restriction gates of one step stay in place through a later step whose gates take other names.
pub proof fn lemma_in_place_through(
    m1: ModuleView,
    m2: ModuleView,
    rs: Seq<Seq<char>>,
    rw: Seq<char>,
    loc: Seq<char>,
    sa: bool,
    inverted: bool,
    cmb: Seq<char>,
    rs2: Seq<Seq<char>>,
    loc2: Seq<char>,
    sa2: bool,
    cmb2: Seq<char>,
)
    requires
        restrictions_in_place(m1, rs, rw, loc, sa, inverted, cmb),
        forall|id: Seq<char>| has_gate(m1.gates, id) && (forall|k: int| 0 <= k < rs2.len()
            ==> id != #[trigger] restriction_id((k + 1) as nat, loc2, sa2, cmb2))
            ==> has_gate(m2.gates, id) && gate_of(m2.gates, id) == gate_of(m1.gates, id),
        forall|x: WireView| m1.wires.contains(x) ==> m2.wires.contains(x),
        forall|a: nat, b: nat| #[trigger] restriction_id(a, loc, sa, cmb) != #[trigger] restriction_id(b, loc2, sa2, cmb2),
    ensures
        restrictions_in_place(m2, rs, rw, loc, sa, inverted, cmb),
{
    assert forall|k: int| 0 <= k < rs.len() implies has_gate(m2.gates, #[trigger] restriction_id((k + 1) as nat, loc, sa, cmb))
        && gate_of(m2.gates, restriction_id((k + 1) as nat, loc, sa, cmb))
        == gate_of(m1.gates, restriction_id((k + 1) as nat, loc, sa, cmb)) by {
        let rid = restriction_id((k + 1) as nat, loc, sa, cmb);
        let rk = rs[k];
        assert(has_gate(m1.gates, rid));
        assert forall|q: int| 0 <= q < rs2.len() implies rid != #[trigger] restriction_id((q + 1) as nat, loc2, sa2, cmb2) by {
            assert(restriction_id((k + 1) as nat, loc, sa, cmb) != restriction_id((q + 1) as nat, loc2, sa2, cmb2));
        }
    }
    lemma_in_place_kept(m1, m2, rs, rw, loc, sa, inverted, cmb);
}

} // verus!
