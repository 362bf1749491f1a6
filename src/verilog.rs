//! The netlist data model: netlists, modules, wires, gate instances and port bindings.
use vstd::prelude::*;
use crate::fault::{
    is_bare, is_pair, path_head, path_tail, sanitize, slow_to, slow_to_tag, split_location,
    splits_at, Location,
};
use crate::fault::Fault;
use crate::text::{concat, concat3, contains_char, lemma_name_lt_asym, lemma_name_lt_trans, name_less, name_lt, str_eq};

verus! {

/// The bit range of a wire: a scalar, or a bus `[msb:lsb]`.
#[derive(Clone, Debug, PartialEq, Eq, Hash)]
pub enum SignalRange {
    Multiple(String, String),
    Single,
}

/// What a `SignalRange` stands for.
pub enum RangeView {
    Multiple(Seq<char>, Seq<char>),
    Single,
}

impl View for SignalRange {
    type V = RangeView;

    open spec fn view(&self) -> RangeView {
        match self {
            SignalRange::Multiple(l, r) => RangeView::Multiple(l@, r@),
            SignalRange::Single => RangeView::Single,
        }
    }
}

impl SignalRange {
    /// A copy of this range.
    pub fn duplicate(&self) -> (r: SignalRange)
        ensures
            r@ == self@,
    {
        match self {
            SignalRange::Multiple(l, r) => SignalRange::Multiple(l.clone(), r.clone()),
            SignalRange::Single => SignalRange::Single,
        }
    }

    /// Whether the two ranges are the same.
    pub fn same_as(&self, other: &SignalRange) -> (r: bool)
        ensures
            r == (self@ == other@),
    {
        match (self, other) {
            (SignalRange::Multiple(a, b), SignalRange::Multiple(c, d)) => {
                str_eq(a.as_str(), c.as_str()) && str_eq(b.as_str(), d.as_str())
            },
            (SignalRange::Single, SignalRange::Single) => true,
            _ => false,
        }
    }
}

/// A declared wire: its name and its bit range.
#[derive(Clone, Debug, PartialEq, Eq, Hash)]
pub struct Wire {
    pub range: SignalRange,
    pub name: String,
}

/// What a `Wire` stands for.
pub struct WireView {
    pub name: Seq<char>,
    pub range: RangeView,
}

impl View for Wire {
    type V = WireView;

    open spec fn view(&self) -> WireView {
        WireView { name: self.name@, range: self.range@ }
    }
}

/// The view of a scalar wire named `name`.
pub open spec fn single(name: Seq<char>) -> WireView {
    WireView { name, range: RangeView::Single }
}

impl Wire {
    pub fn new(range: SignalRange, name: String) -> (r: Self)
        ensures
            r@ == (WireView { name: name@, range: range@ }),
    {
        Wire { range, name }
    }

    pub fn new_single(name: String) -> (r: Self)
        ensures
            r@ == single(name@),
    {
        Self::new(SignalRange::Single, name)
    }

    pub fn new_multiple(name: String, left: String, right: String) -> (r: Self)
        ensures
            r@ == (WireView { name: name@, range: RangeView::Multiple(left@, right@) }),
    {
        Self::new(SignalRange::Multiple(left, right), name)
    }

    pub fn name(&self) -> (r: &str)
        ensures
            r@ == self.name@,
    {
        self.name.as_str()
    }

    pub fn range(&self) -> (r: &SignalRange)
        ensures
            r@ == self.range@,
    {
        &self.range
    }

    pub fn set_name(&mut self, name: String)
        ensures
            final(self)@ == (WireView { name: name@, range: old(self).range@ }),
    {
        self.name = name;
    }

    pub fn name_mut(&mut self) -> (r: &mut String)
        ensures
            *r == old(self).name,
            *final(self) == (Wire { name: *final(r), ..*old(self) }),
    {
        &mut self.name
    }

    /// A copy of this wire.
    pub fn duplicate(&self) -> (r: Wire)
        ensures
            r@ == self@,
    {
        Wire { range: self.range.duplicate(), name: self.name.clone() }
    }

    /// Whether the two wires have the same name and range.
    pub fn same_as(&self, other: &Wire) -> (r: bool)
        ensures
            r == (self@ == other@),
    {
        str_eq(self.name.as_str(), other.name.as_str()) && self.range.same_as(&other.range)
    }
}

/// A port binding of a gate instance: to a wire expression, or to a constant literal.
#[derive(Clone, Debug, Eq, PartialEq)]
pub enum PortWire {
    Constant(String, String),
    Wire(String, String),
}

/// What a `PortWire` stands for.
pub struct PortView {
    pub constant: bool,
    pub port: Seq<char>,
    pub wire: Seq<char>,
}

impl View for PortWire {
    type V = PortView;

    open spec fn view(&self) -> PortView {
        match self {
            PortWire::Constant(p, w) => PortView { constant: true, port: p@, wire: w@ },
            PortWire::Wire(p, w) => PortView { constant: false, port: p@, wire: w@ },
        }
    }
}

/// The view of a binding of `port` to the wire `wire`.
pub open spec fn wire_binding(port: Seq<char>, wire: Seq<char>) -> PortView {
    PortView { constant: false, port, wire }
}

impl PortWire {
    pub fn wire(&self) -> (r: &str)
        ensures
            r@ == self@.wire,
    {
        match self {
            Self::Wire(_, wire) => wire.as_str(),
            Self::Constant(_, wire) => wire.as_str(),
        }
    }

    pub fn port(&self) -> (r: &str)
        ensures
            r@ == self@.port,
    {
        match self {
            Self::Wire(port, _) => port.as_str(),
            Self::Constant(port, _) => port.as_str(),
        }
    }

    pub fn port_is(&self, port_name: &str) -> (r: bool)
        ensures
            r == (self@.port == port_name@),
    {
        str_eq(self.port(), port_name)
    }

    pub fn wire_mut(&mut self) -> (r: &mut String)
        ensures
            (*r)@ == old(self)@.wire,
            final(self)@ == (PortView { wire: (*final(r))@, ..old(self)@ }),
    {
        match self {
            Self::Wire(_, wire) => wire,
            Self::Constant(_, wire) => wire,
        }
    }

    /// Binds the port to `wire` instead, keeping its kind.
    pub fn set_wire(&mut self, wire: String)
        ensures
            final(self)@ == (PortView { wire: wire@, ..old(self)@ }),
    {
        match self {
            Self::Wire(_, w) => { *w = wire; },
            Self::Constant(_, w) => { *w = wire; },
        }
    }

    /// A copy of this binding.
    pub fn duplicate(&self) -> (r: PortWire)
        ensures
            r@ == self@,
    {
        match self {
            Self::Wire(p, w) => Self::Wire(p.clone(), w.clone()),
            Self::Constant(p, w) => Self::Constant(p.clone(), w.clone()),
        }
    }
}

/// A gate instance: its cell type and its port bindings in declaration order.
#[derive(Clone, Debug, Default, Eq, PartialEq)]
pub struct Gate {
    pub name: String,
    pub ports: Vec<PortWire>,
}

/// What a `Gate` stands for.
pub struct GateView {
    pub name: Seq<char>,
    pub ports: Seq<PortView>,
}

/// The views of a sequence of bindings.
pub open spec fn port_views(ps: Seq<PortWire>) -> Seq<PortView> {
    ps.map_values(|p: PortWire| p@)
}

impl View for Gate {
    type V = GateView;

    open spec fn view(&self) -> GateView {
        GateView { name: self.name@, ports: port_views(self.ports@) }
    }
}

/// Some binding in `ports` is of the port named `p`.
pub open spec fn has_port(ports: Seq<PortView>, p: Seq<char>) -> bool {
    exists|i: int| 0 <= i < ports.len() && ports[i].port == p
}

/// `i` is the first binding in `ports` of the port named `p`.
pub open spec fn is_first_port(ports: Seq<PortView>, p: Seq<char>, i: int) -> bool {
    0 <= i < ports.len() && ports[i].port == p && forall|j: int| 0 <= j < i ==> ports[j].port != p
}

/// The wire that the first binding of port `p` in `ports` connects.
pub open spec fn binding(ports: Seq<PortView>, p: Seq<char>) -> Seq<char> {
    ports[choose|i: int| is_first_port(ports, p, i)].wire
}

/// The first binding of a port is unique.
pub proof fn lemma_first_port(ports: Seq<PortView>, p: Seq<char>, i: int)
    requires
        is_first_port(ports, p, i),
    ensures
        binding(ports, p) == ports[i].wire,
        (choose|j: int| is_first_port(ports, p, j)) == i,
{
    let k = choose|j: int| is_first_port(ports, p, j);
    assert(is_first_port(ports, p, k));
}

/// Some port named `p` has a first binding.
pub proof fn lemma_has_first_port(ports: Seq<PortView>, p: Seq<char>)
    requires
        has_port(ports, p),
    ensures
        exists|i: int| is_first_port(ports, p, i),
    decreases ports.len(),
{
    let d = ports.drop_last();
    if has_port(d, p) {
        lemma_has_first_port(d, p);
        let i = choose|i: int| is_first_port(d, p, i);
        assert(ports[i] == d[i]);
        assert forall|j: int| 0 <= j < i implies ports[j].port != p by {
            assert(ports[j] == d[j]);
        }
        assert(is_first_port(ports, p, i));
    } else {
        let j = choose|j: int| 0 <= j < ports.len() && ports[j].port == p;
        if j < ports.len() - 1 {
            assert(d[j] == ports[j]);
        }
        assert forall|l: int| 0 <= l < ports.len() - 1 implies ports[l].port != p by {
            assert(d[l] == ports[l]);
        }
        assert(is_first_port(ports, p, ports.len() - 1));
    }
}

impl Gate {
    /// A gate of cell type `name` with no bindings yet.
    pub fn new_with_name(name: String) -> (r: Gate)
        ensures
            r@ == (GateView { name: name@, ports: Seq::empty() }),
    {
        let r = Gate { name, ports: Vec::new() };
        assert(r@.ports =~= Seq::<PortView>::empty());
        r
    }

    pub fn name(&self) -> (r: &str)
        ensures
            r@ == self.name@,
    {
        self.name.as_str()
    }

    pub fn set_name(&mut self, name: String)
        ensures
            final(self)@ == (GateView { name: name@, ..old(self)@ }),
    {
        self.name = name;
    }

    pub fn name_mut(&mut self) -> (r: &mut String)
        ensures
            *r == old(self).name,
            *final(self) == (Gate { name: *final(r), ..*old(self) }),
    {
        &mut self.name
    }

    pub fn ports_mut(&mut self) -> (r: &mut Vec<PortWire>)
        ensures
            *r == old(self).ports,
            *final(self) == (Gate { ports: *final(r), ..*old(self) }),
    {
        &mut self.ports
    }

    pub fn push_port(&mut self, port_wire: PortWire)
        ensures
            final(self)@ == (GateView { ports: old(self)@.ports.push(port_wire@), ..old(self)@ }),
    {
        self.ports.push(port_wire);
        assert(self@.ports =~= old(self)@.ports.push(port_wire@));
    }

    pub fn ports(&self) -> (r: &Vec<PortWire>)
        ensures
            port_views(r@) == self@.ports,
    {
        &self.ports
    }

    /// The position of the first binding of the port named `port_name`.
    pub fn port_position(&self, port_name: &str) -> (r: Option<usize>)
        ensures
            match r {
                Some(i) => is_first_port(self@.ports, port_name@, i as int),
                None => !has_port(self@.ports, port_name@),
            },
    {
        let mut i: usize = 0;
        while i < self.ports.len()
            invariant
                forall|j: int| 0 <= j < i ==> self@.ports[j].port != port_name@,
            decreases self.ports.len() - i,
        {
            if self.ports[i].port_is(port_name) {
                return Some(i);
            }
            i = i + 1;
        }
        None
    }

    pub fn port_by_name(&self, port_name: &str) -> (r: Option<&PortWire>)
        ensures
            match r {
                Some(pw) => exists|i: int| is_first_port(self@.ports, port_name@, i)
                    && pw@ == self@.ports[i],
                None => !has_port(self@.ports, port_name@),
            },
    {
        match self.port_position(port_name) {
            Some(i) => Some(&self.ports[i]),
            None => None,
        }
    }

    /// Rebinds the first binding of the port named `port_name` to `wire`; false where there is none.
    pub fn set_port_wire(&mut self, port_name: &str, wire: String) -> (r: bool)
        ensures
            r == has_port(old(self)@.ports, port_name@),
            r ==> exists|i: int| is_first_port(old(self)@.ports, port_name@, i)
                && final(self)@ == (GateView {
                    ports: old(self)@.ports.update(i, PortView { wire: wire@, ..old(self)@.ports[i] }),
                    ..old(self)@
                }),
            !r ==> final(self)@ == old(self)@,
            final(self)@.name == old(self)@.name,
            r ==> binding(final(self)@.ports, port_name@) == wire@,
            forall|q: Seq<char>| q != port_name@ ==> (has_port(final(self)@.ports, q) <==> has_port(old(self)@.ports, q)),
            forall|q: Seq<char>| q != port_name@ && has_port(old(self)@.ports, q) ==> binding(final(self)@.ports, q)
                == binding(old(self)@.ports, q),
    {
        match self.port_position(port_name) {
            Some(i) => {
                let mut pw = self.ports[i].duplicate();
                pw.set_wire(wire);
                self.ports.set(i, pw);
                assert(self@.ports =~= old(self)@.ports.update(i as int, pw@));
                proof {
                    let o = old(self)@.ports;
                    let n = self@.ports;
                    assert(is_first_port(n, port_name@, i as int));
                    lemma_first_port(n, port_name@, i as int);
                    assert forall|q: Seq<char>| q != port_name@ implies (has_port(n, q) <==> has_port(o, q)) by {
                        if has_port(n, q) {
                            let j = choose|j: int| 0 <= j < n.len() && n[j].port == q;
                            assert(o[j].port == q);
                        }
                        if has_port(o, q) {
                            let j = choose|j: int| 0 <= j < o.len() && o[j].port == q;
                            assert(n[j].port == q);
                        }
                    }
                    assert forall|q: Seq<char>| q != port_name@ && has_port(o, q) implies binding(n, q) == binding(o, q) by {
                        lemma_has_first_port(o, q);
                        let j = choose|j: int| is_first_port(o, q, j);
                        lemma_first_port(o, q, j);
                        assert(is_first_port(n, q, j));
                        lemma_first_port(n, q, j);
                    }
                }
                true
            },
            None => false,
        }
    }

    /// Removes and returns the first binding of the port named `port_name`.
    pub fn take_port_by_name(&mut self, port_name: &str) -> (r: Option<PortWire>)
        ensures
            match r {
                Some(pw) => exists|i: int| is_first_port(old(self)@.ports, port_name@, i)
                    && pw@ == old(self)@.ports[i]
                    && final(self)@ == (GateView { ports: old(self)@.ports.remove(i), ..old(self)@ }),
                None => !has_port(old(self)@.ports, port_name@) && final(self)@ == old(self)@,
            },
            final(self)@.name == old(self)@.name,
            forall|q: Seq<char>| q != port_name@ ==> (has_port(final(self)@.ports, q) <==> has_port(old(self)@.ports, q)),
            forall|q: Seq<char>| q != port_name@ && has_port(old(self)@.ports, q) ==> binding(final(self)@.ports, q)
                == binding(old(self)@.ports, q),
    {
        match self.port_position(port_name) {
            Some(i) => {
                let pw = self.ports.remove(i);
                assert(self@.ports =~= old(self)@.ports.remove(i as int));
                proof {
                    let o = old(self)@.ports;
                    let n = self@.ports;
                    assert forall|q: Seq<char>| q != port_name@ implies (has_port(n, q) <==> has_port(o, q)) by {
                        if has_port(n, q) {
                            let j = choose|j: int| 0 <= j < n.len() && n[j].port == q;
                            if j < i { assert(o[j].port == q); } else { assert(o[j + 1].port == q); }
                        }
                        if has_port(o, q) {
                            let j = choose|j: int| 0 <= j < o.len() && o[j].port == q;
                            assert(j != i);
                            if j < i { assert(n[j].port == q); } else { assert(n[j - 1].port == q); }
                        }
                    }
                    assert forall|q: Seq<char>| q != port_name@ && has_port(o, q) implies binding(n, q) == binding(o, q) by {
                        lemma_has_first_port(o, q);
                        let j = choose|j: int| is_first_port(o, q, j);
                        lemma_first_port(o, q, j);
                        assert(j != i);
                        let nj = if j < i { j } else { j - 1 };
                        assert(n[nj] == o[j]);
                        assert forall|l: int| 0 <= l < nj implies n[l].port != q by {
                            if l < i { assert(n[l] == o[l]); } else { assert(n[l] == o[l + 1]); }
                        }
                        assert(is_first_port(n, q, nj));
                        lemma_first_port(n, q, nj);
                    }
                }
                Some(pw)
            },
            None => None,
        }
    }

    /// A copy of this gate.
    pub fn duplicate(&self) -> (r: Gate)
        ensures
            r@ == self@,
    {
        let mut ports: Vec<PortWire> = Vec::new();
        let mut i: usize = 0;
        while i < self.ports.len()
            invariant
                i <= self.ports.len(),
                ports@.len() == i,
                forall|k: int| 0 <= k < i ==> ports@[k]@ == self.ports@[k]@,
            decreases self.ports.len() - i,
        {
            let d = self.ports[i].duplicate();
            ports.push(d);
            i = i + 1;
        }
        let r = Gate { name: self.name.clone(), ports };
        assert(r@.ports =~= self@.ports);
        r
    }
}

/// The views of a sequence of wires.
pub open spec fn wire_views(ws: Seq<Wire>) -> Seq<WireView> {
    ws.map_values(|w: Wire| w@)
}

/// The views of a sequence of strings.
pub open spec fn string_views(ss: Seq<String>) -> Seq<Seq<char>> {
    ss.map_values(|s: String| s@)
}

/// The views of a sequence of named gate instances.
pub open spec fn gate_views(gs: Seq<(String, Gate)>) -> Seq<(Seq<char>, GateView)> {
    gs.map_values(|g: (String, Gate)| (g.0@, g.1@))
}

/// A module: its ports, internal wires, continuous assigns and gate instances.
#[derive(Clone, Debug, Default, Eq, PartialEq)]
pub struct Module {
    pub name: String,
    pub inputs: Vec<Wire>,
    pub outputs: Vec<Wire>,
    pub wires: Vec<Wire>,
    pub assigns: Vec<String>,
    pub gates: Vec<(String, Gate)>,
}

/// What a `Module` stands for.
pub struct ModuleView {
    pub name: Seq<char>,
    pub inputs: Seq<WireView>,
    pub outputs: Seq<WireView>,
    pub wires: Seq<WireView>,
    pub assigns: Seq<Seq<char>>,
    pub gates: Seq<(Seq<char>, GateView)>,
}

impl View for Module {
    type V = ModuleView;

    open spec fn view(&self) -> ModuleView {
        ModuleView {
            name: self.name@,
            inputs: wire_views(self.inputs@),
            outputs: wire_views(self.outputs@),
            wires: wire_views(self.wires@),
            assigns: string_views(self.assigns@),
            gates: gate_views(self.gates@),
        }
    }
}

/// The instance identifiers of `gs`, in order.
pub open spec fn gate_ids(gs: Seq<(Seq<char>, GateView)>) -> Seq<Seq<char>> {
    gs.map_values(|g: (Seq<char>, GateView)| g.0)
}

/// Some instance of `gs` is named `id`.
pub open spec fn has_gate(gs: Seq<(Seq<char>, GateView)>, id: Seq<char>) -> bool {
    exists|i: int| 0 <= i < gs.len() && gs[i].0 == id
}

/// The position of the instance named `id` in `gs`.
pub open spec fn gate_index(gs: Seq<(Seq<char>, GateView)>, id: Seq<char>) -> int {
    choose|i: int| 0 <= i < gs.len() && gs[i].0 == id
}

/// The position of `w` in `ws`.
pub open spec fn wire_index(ws: Seq<WireView>, w: WireView) -> int {
    choose|i: int| 0 <= i < ws.len() && ws[i] == w
}

/// `gs` with the instance `id` set to `g`: replaced in place where present, appended otherwise.
pub open spec fn gates_with(gs: Seq<(Seq<char>, GateView)>, id: Seq<char>, g: GateView) -> Seq<
    (Seq<char>, GateView),
> {
    if has_gate(gs, id) {
        gs.update(gate_index(gs, id), (id, g))
    } else {
        gs.insert(gate_pos(gs, id), (id, g))
    }
}

/// The instances of `gs` stand in ascending order of their identifiers.
pub open spec fn gates_sorted(gs: Seq<(Seq<char>, GateView)>) -> bool {
    forall|i: int, j: int| 0 <= i < j < gs.len() ==> !name_lt(gate_ids(gs)[j], gate_ids(gs)[i])
}

/// `p` is where an instance named `id` goes in the id-sorted `gs`.
pub open spec fn is_gate_pos(gs: Seq<(Seq<char>, GateView)>, id: Seq<char>, p: int) -> bool {
    &&& 0 <= p <= gs.len()
    &&& forall|j: int| 0 <= j < p ==> !name_lt(id, gs[j].0)
    &&& p < gs.len() ==> name_lt(id, gs[p].0)
}

/// Where an instance named `id` goes in the id-sorted `gs`.
pub open spec fn gate_pos(gs: Seq<(Seq<char>, GateView)>, id: Seq<char>) -> int {
    choose|p: int| is_gate_pos(gs, id, p)
}

/// There is one place for an instance named `id` in `gs`.
pub proof fn lemma_gate_pos(gs: Seq<(Seq<char>, GateView)>, id: Seq<char>)
    ensures
        is_gate_pos(gs, id, gate_pos(gs, id)),
        forall|p: int| is_gate_pos(gs, id, p) ==> p == gate_pos(gs, id),
    decreases gs.len(),
{
    if gs.len() == 0 {
        assert(is_gate_pos(gs, id, 0));
    } else {
        let d = gs.drop_last();
        lemma_gate_pos(d, id);
        let q = gate_pos(d, id);
        if q < d.len() {
            assert forall|j: int| 0 <= j < q implies !name_lt(id, gs[j].0) by {
                assert(gs[j] == d[j]);
            }
            assert(gs[q] == d[q]);
            assert(is_gate_pos(gs, id, q));
        } else if name_lt(id, gs.last().0) {
            assert forall|j: int| 0 <= j < d.len() implies !name_lt(id, gs[j].0) by {
                assert(gs[j] == d[j]);
            }
            assert(is_gate_pos(gs, id, d.len() as int));
        } else {
            assert forall|j: int| 0 <= j < gs.len() implies !name_lt(id, gs[j].0) by {
                if j < d.len() {
                    assert(gs[j] == d[j]);
                }
            }
            assert(is_gate_pos(gs, id, gs.len() as int));
        }
    }
    let p = gate_pos(gs, id);
    assert forall|p2: int| is_gate_pos(gs, id, p2) implies p2 == p by {
        if p2 < p {
            assert(name_lt(id, gs[p2].0));
        } else if p < p2 {
            assert(name_lt(id, gs[p].0));
        }
    }
}

/// The wires of `ws` stand in lexicographic order of their names.
pub open spec fn sorted_names(ws: Seq<WireView>) -> bool {
    forall|i: int, j: int| 0 <= i < j < ws.len() ==> !name_lt(ws[j].name, ws[i].name)
}

/// `p` is where `w` goes in the name-sorted `ws`: after every name not greater than its own.
pub open spec fn is_insert_pos(ws: Seq<WireView>, w: WireView, p: int) -> bool {
    &&& 0 <= p <= ws.len()
    &&& forall|j: int| 0 <= j < p ==> !name_lt(w.name, ws[j].name)
    &&& p < ws.len() ==> name_lt(w.name, ws[p].name)
}

/// Where `w` goes in the name-sorted `ws`.
pub open spec fn insert_pos(ws: Seq<WireView>, w: WireView) -> int {
    choose|p: int| is_insert_pos(ws, w, p)
}

/// `ws` with `w` added in name order where it is not there yet.
pub open spec fn wires_with(ws: Seq<WireView>, w: WireView) -> Seq<WireView> {
    if ws.contains(w) {
        ws
    } else {
        ws.insert(insert_pos(ws, w), w)
    }
}

/// There is one place for `w` in `ws`.
pub proof fn lemma_insert_pos(ws: Seq<WireView>, w: WireView)
    ensures
        is_insert_pos(ws, w, insert_pos(ws, w)),
        forall|p: int| is_insert_pos(ws, w, p) ==> p == insert_pos(ws, w),
    decreases ws.len(),
{
    if ws.len() == 0 {
        assert(is_insert_pos(ws, w, 0));
    } else {
        let d = ws.drop_last();
        lemma_insert_pos(d, w);
        let q = insert_pos(d, w);
        if q < d.len() {
            assert forall|j: int| 0 <= j < q implies !name_lt(w.name, ws[j].name) by {
                assert(ws[j] == d[j]);
            }
            assert(ws[q] == d[q]);
            assert(is_insert_pos(ws, w, q));
        } else if name_lt(w.name, ws.last().name) {
            assert forall|j: int| 0 <= j < d.len() implies !name_lt(w.name, ws[j].name) by {
                assert(ws[j] == d[j]);
            }
            assert(is_insert_pos(ws, w, d.len() as int));
        } else {
            assert forall|j: int| 0 <= j < ws.len() implies !name_lt(w.name, ws[j].name) by {
                if j < d.len() {
                    assert(ws[j] == d[j]);
                }
            }
            assert(is_insert_pos(ws, w, ws.len() as int));
        }
    }
    let p = insert_pos(ws, w);
    assert forall|p2: int| is_insert_pos(ws, w, p2) implies p2 == p by {
        if p2 < p {
            assert(name_lt(w.name, ws[p2].name));
        } else if p < p2 {
            assert(name_lt(w.name, ws[p].name));
        }
    }
}

/// What `wires_with` holds.
pub proof fn lemma_wires_with(ws: Seq<WireView>, w: WireView)
    ensures
        wires_with(ws, w).contains(w),
        forall|x: WireView| ws.contains(x) ==> wires_with(ws, w).contains(x),
        forall|x: WireView| wires_with(ws, w).contains(x) ==> ws.contains(x) || x == w,
        ws.no_duplicates() ==> wires_with(ws, w).no_duplicates(),
        sorted_names(ws) ==> sorted_names(wires_with(ws, w)),
{
    if !ws.contains(w) {
        lemma_insert_pos(ws, w);
        let p = insert_pos(ws, w);
        let r = ws.insert(p, w);
        assert(r[p] == w);
        assert forall|x: WireView| ws.contains(x) implies r.contains(x) by {
            let j = choose|j: int| 0 <= j < ws.len() && ws[j] == x;
            if j < p { assert(r[j] == x); } else { assert(r[j + 1] == x); }
        }
        assert forall|x: WireView| r.contains(x) implies ws.contains(x) || x == w by {
            let j = choose|j: int| 0 <= j < r.len() && r[j] == x;
            if j < p { assert(ws[j] == x); } else if j > p { assert(ws[j - 1] == x); }
        }
        if ws.no_duplicates() {
            assert forall|a: int, b: int| 0 <= a < b < r.len() implies r[a] != r[b] by {
                if a == p { assert(ws.contains(r[b])); }
                else if b == p { assert(ws.contains(r[a])); }
                else {
                    let oa = if a < p { a } else { a - 1 };
                    let ob = if b < p { b } else { b - 1 };
                    assert(r[a] == ws[oa] && r[b] == ws[ob]);
                }
            }
        }
        if sorted_names(ws) {
            assert forall|a: int, b: int| 0 <= a < b < r.len() implies !name_lt(r[b].name, r[a].name) by {
                if a == p {
                    let ob = b - 1;
                    assert(r[b] == ws[ob]);
                    if p < ws.len() {
                        assert(name_lt(w.name, ws[p].name));
                        if ob > p {
                            assert(!name_lt(ws[ob].name, ws[p].name));
                        }
                        if name_lt(ws[ob].name, w.name) {
                            lemma_name_lt_trans(ws[ob].name, w.name, ws[p].name);
                            if ob == p {
                                lemma_name_lt_asym(ws[p].name, ws[p].name);
                            }
                        }
                    }
                } else if b == p {
                    assert(r[a] == ws[a]);
                } else {
                    let oa = if a < p { a } else { a - 1 };
                    let ob = if b < p { b } else { b - 1 };
                    assert(r[a] == ws[oa] && r[b] == ws[ob]);
                }
            }
        }
    }
}

/// `ws` without `w`.
pub open spec fn wires_without(ws: Seq<WireView>, w: WireView) -> Seq<WireView> {
    if ws.contains(w) {
        ws.remove(wire_index(ws, w))
    } else {
        ws
    }
}

/// A module view is well formed: each wire container holds each wire once, and
/// instance identifiers are unique.
pub open spec fn module_wf(m: ModuleView) -> bool {
    &&& sorted_names(m.inputs)
    &&& sorted_names(m.outputs)
    &&& sorted_names(m.wires)
    &&& m.inputs.no_duplicates()
    &&& m.outputs.no_duplicates()
    &&& m.wires.no_duplicates()
    &&& gate_ids(m.gates).no_duplicates()
    &&& gates_sorted(m.gates)
}

/// The name is declared in `m`: as an input, an output or an internal wire.
pub open spec fn declares(m: ModuleView, n: Seq<char>) -> bool {
    ||| exists|i: int| 0 <= i < m.inputs.len() && m.inputs[i].name == n
    ||| exists|i: int| 0 <= i < m.outputs.len() && m.outputs[i].name == n
    ||| exists|i: int| 0 <= i < m.wires.len() && m.wires[i].name == n
}

/// The position of `w` in `ws`.
fn wire_position(ws: &Vec<Wire>, w: &Wire) -> (r: Option<usize>)
    ensures
        match r {
            Some(i) => i < ws@.len() && wire_views(ws@)[i as int] == w@,
            None => !wire_views(ws@).contains(w@),
        },
{
    let mut i: usize = 0;
    while i < ws.len()
        invariant
            forall|j: int| 0 <= j < i ==> ws@[j]@ != w@,
        decreases ws.len() - i,
    {
        if ws[i].same_as(w) {
            return Some(i);
        }
        i = i + 1;
    }
    None
}

/// Adds `w` to the wire container `ws`, in name order, where it is not there yet.
fn wire_set_insert(ws: &mut Vec<Wire>, w: Wire) -> (r: bool)
    requires
        wire_views(old(ws)@).no_duplicates(),
        sorted_names(wire_views(old(ws)@)),
    ensures
        r == !wire_views(old(ws)@).contains(w@),
        wire_views(final(ws)@) == wires_with(wire_views(old(ws)@), w@),
        wire_views(final(ws)@).no_duplicates(),
        sorted_names(wire_views(final(ws)@)),
{
    let ghost v = w@;
    let ghost o = wire_views(ws@);
    proof {
        lemma_wires_with(o, v);
    }
    match wire_position(ws, &w) {
        Some(_) => false,
        None => {
            let mut p: usize = 0;
            while p < ws.len() && !name_less(w.name.as_str(), ws[p].name.as_str())
                invariant
                    o == wire_views(ws@),
                    v == w@,
                    p <= ws@.len(),
                    forall|j: int| 0 <= j < p ==> !name_lt(v.name, o[j].name),
                decreases ws.len() - p,
            {
                p = p + 1;
            }
            proof {
                assert(is_insert_pos(o, v, p as int));
                lemma_insert_pos(o, v);
            }
            ws.insert(p, w);
            assert(wire_views(ws@) =~= o.insert(p as int, v));
            true
        },
    }
}

/// Removes `w` from the wire container `ws`.
fn wire_set_remove(ws: &mut Vec<Wire>, w: &Wire) -> (r: bool)
    requires
        wire_views(old(ws)@).no_duplicates(),
        sorted_names(wire_views(old(ws)@)),
    ensures
        sorted_names(wire_views(final(ws)@)),
        r == wire_views(old(ws)@).contains(w@),
        wire_views(final(ws)@) == wires_without(wire_views(old(ws)@), w@),
        wire_views(final(ws)@).no_duplicates(),
        !wire_views(final(ws)@).contains(w@),
        forall|x: WireView| x != w@ ==> (wire_views(final(ws)@).contains(x)
            <==> wire_views(old(ws)@).contains(x)),
{
    let ghost old_v = wire_views(ws@);
    match wire_position(ws, w) {
        Some(i) => {
            ws.remove(i);
            let ghost k = wire_index(old_v, w@);
            assert(old_v[i as int] == w@);
            assert(k == i);
            assert(wire_views(ws@) =~= old_v.remove(i as int));
            assert forall|a: int, b: int| 0 <= a < b < wire_views(ws@).len() implies
                !name_lt(wire_views(ws@)[b].name, wire_views(ws@)[a].name) by {
                let oa = if a < i { a } else { a + 1 };
                let ob = if b < i { b } else { b + 1 };
                assert(wire_views(ws@)[a] == old_v[oa] && wire_views(ws@)[b] == old_v[ob]);
            }
            assert forall|x: WireView| x != w@ implies (wire_views(ws@).contains(x)
                <==> old_v.contains(x)) by {
                if old_v.contains(x) {
                    let j = choose|j: int| 0 <= j < old_v.len() && old_v[j] == x;
                    if j < i {
                        assert(wire_views(ws@)[j] == x);
                    } else {
                        assert(wire_views(ws@)[j - 1] == x);
                    }
                }
            }
            true
        },
        None => false,
    }
}

/// A copy of a wire container.
pub fn duplicate_wires(ws: &Vec<Wire>) -> (r: Vec<Wire>)
    ensures
        wire_views(r@) == wire_views(ws@),
{
    let mut r: Vec<Wire> = Vec::new();
    let mut i: usize = 0;
    while i < ws.len()
        invariant
            i <= ws.len(),
            r@.len() == i,
            forall|k: int| 0 <= k < i ==> r@[k]@ == ws@[k]@,
        decreases ws.len() - i,
    {
        r.push(ws[i].duplicate());
        i = i + 1;
    }
    assert(wire_views(r@) =~= wire_views(ws@));
    r
}

/// A copy of a list of strings.
pub fn duplicate_strings(ss: &Vec<String>) -> (r: Vec<String>)
    ensures
        string_views(r@) == string_views(ss@),
{
    let mut r: Vec<String> = Vec::new();
    let mut i: usize = 0;
    while i < ss.len()
        invariant
            i <= ss.len(),
            r@.len() == i,
            forall|k: int| 0 <= k < i ==> r@[k]@ == ss@[k]@,
        decreases ss.len() - i,
    {
        r.push(ss[i].clone());
        i = i + 1;
    }
    assert(string_views(r@) =~= string_views(ss@));
    r
}

/// A copy of a list of named gate instances.
fn duplicate_gates(gs: &Vec<(String, Gate)>) -> (r: Vec<(String, Gate)>)
    ensures
        gate_views(r@) == gate_views(gs@),
{
    let mut r: Vec<(String, Gate)> = Vec::new();
    let mut i: usize = 0;
    while i < gs.len()
        invariant
            i <= gs.len(),
            r@.len() == i,
            forall|k: int| 0 <= k < i ==> r@[k].0@ == gs@[k].0@ && r@[k].1@ == gs@[k].1@,
        decreases gs.len() - i,
    {
        let id = gs[i].0.clone();
        let g = gs[i].1.duplicate();
        r.push((id, g));
        i = i + 1;
    }
    assert(gate_views(r@) =~= gate_views(gs@));
    r
}

impl Module {
    /// The invariant of a module: see `module_wf`.
    pub open spec fn wf(&self) -> bool {
        module_wf(self@)
    }

    /// An empty module named `name`.
    pub fn new_with_name(name: String) -> (r: Self)
        ensures
            r@ == (ModuleView {
                name: name@,
                inputs: Seq::empty(),
                outputs: Seq::empty(),
                wires: Seq::empty(),
                assigns: Seq::empty(),
                gates: Seq::empty(),
            }),
            r.wf(),
    {
        let r = Module {
            name,
            inputs: Vec::new(),
            outputs: Vec::new(),
            wires: Vec::new(),
            assigns: Vec::new(),
            gates: Vec::new(),
        };
        assert(r@.inputs =~= Seq::<WireView>::empty());
        assert(r@.outputs =~= Seq::<WireView>::empty());
        assert(r@.wires =~= Seq::<WireView>::empty());
        assert(r@.assigns =~= Seq::<Seq<char>>::empty());
        assert(r@.gates =~= Seq::<(Seq<char>, GateView)>::empty());
        assert(gate_ids(r@.gates) =~= Seq::<Seq<char>>::empty());
        r
    }

    /// A copy of this module whose name has `suffix` appended.
    pub fn clone_with_name_prefix(&self, suffix: &str) -> (r: Self)
        requires
            self.wf(),
        ensures
            r@ == (ModuleView { name: self@.name + suffix@, ..self@ }),
            r.wf(),
    {
        Module {
            name: concat(self.name.as_str(), suffix),
            inputs: duplicate_wires(&self.inputs),
            outputs: duplicate_wires(&self.outputs),
            wires: duplicate_wires(&self.wires),
            assigns: duplicate_strings(&self.assigns),
            gates: duplicate_gates(&self.gates),
        }
    }

    /// A copy of this module.
    pub fn duplicate(&self) -> (r: Self)
        ensures
            r@ == self@,
    {
        Module {
            name: self.name.clone(),
            inputs: duplicate_wires(&self.inputs),
            outputs: duplicate_wires(&self.outputs),
            wires: duplicate_wires(&self.wires),
            assigns: duplicate_strings(&self.assigns),
            gates: duplicate_gates(&self.gates),
        }
    }

    pub fn name(&self) -> (r: &String)
        ensures
            r@ == self@.name,
    {
        &self.name
    }

    pub fn name_mut(&mut self) -> (r: &mut String)
        ensures
            *r == old(self).name,
            *final(self) == (Module { name: *final(r), ..*old(self) }),
    {
        &mut self.name
    }

    pub fn set_name(&mut self, name: String)
        ensures
            final(self)@ == (ModuleView { name: name@, ..old(self)@ }),
    {
        self.name = name;
    }

    /// Declares `input` as an input port; false where it already is one.
    pub fn push_input(&mut self, input: Wire) -> (r: bool)
        requires
            old(self).wf(),
        ensures
            r == !old(self)@.inputs.contains(input@),
            final(self)@ == (ModuleView { inputs: wires_with(old(self)@.inputs, input@), ..old(self)@ }),
            final(self).wf(),
    {
        wire_set_insert(&mut self.inputs, input)
    }

    /// Removes `input` from the input ports; false where it was not one.
    pub fn remove_input(&mut self, input: &Wire) -> (r: bool)
        requires
            old(self).wf(),
        ensures
            r == old(self)@.inputs.contains(input@),
            final(self)@ == (ModuleView { inputs: wires_without(old(self)@.inputs, input@), ..old(self)@ }),
            !final(self)@.inputs.contains(input@),
            forall|x: WireView| x != input@ ==> (final(self)@.inputs.contains(x)
                <==> old(self)@.inputs.contains(x)),
            final(self).wf(),
    {
        wire_set_remove(&mut self.inputs, input)
    }

    /// Declares `output` as an output port; false where it already is one.
    pub fn push_output(&mut self, output: Wire) -> (r: bool)
        requires
            old(self).wf(),
        ensures
            r == !old(self)@.outputs.contains(output@),
            final(self)@ == (ModuleView { outputs: wires_with(old(self)@.outputs, output@), ..old(self)@ }),
            final(self).wf(),
    {
        wire_set_insert(&mut self.outputs, output)
    }

    /// Removes `output` from the output ports; false where it was not one.
    pub fn remove_output(&mut self, output: &Wire) -> (r: bool)
        requires
            old(self).wf(),
        ensures
            r == old(self)@.outputs.contains(output@),
            final(self)@ == (ModuleView { outputs: wires_without(old(self)@.outputs, output@), ..old(self)@ }),
            !final(self)@.outputs.contains(output@),
            forall|x: WireView| x != output@ ==> (final(self)@.outputs.contains(x)
                <==> old(self)@.outputs.contains(x)),
            final(self).wf(),
    {
        wire_set_remove(&mut self.outputs, output)
    }

    /// Declares `wire` as an internal wire; false where it already is one.
    pub fn push_wire(&mut self, wire: Wire) -> (r: bool)
        requires
            old(self).wf(),
        ensures
            r == !old(self)@.wires.contains(wire@),
            final(self)@ == (ModuleView { wires: wires_with(old(self)@.wires, wire@), ..old(self)@ }),
            final(self).wf(),
    {
        wire_set_insert(&mut self.wires, wire)
    }

    pub fn assigns(&self) -> (r: &Vec<String>)
        ensures
            string_views(r@) == self@.assigns,
    {
        &self.assigns
    }

    /// Appends the continuous assign `assign`.
    pub fn push_assign(&mut self, assign: String)
        requires
            old(self).wf(),
        ensures
            final(self)@ == (ModuleView { assigns: old(self)@.assigns.push(assign@), ..old(self)@ }),
            final(self).wf(),
    {
        let ghost v = assign@;
        self.assigns.push(assign);
        assert(self@.assigns =~= old(self)@.assigns.push(v));
    }

    /// Removes the first continuous assign equal to `assign`, and returns it.
    pub fn remove_assign(&mut self, assign: &String) -> (r: Option<String>)
        requires
            old(self).wf(),
        ensures
            match r {
                Some(a) => a@ == assign@ && exists|i: int| 0 <= i < old(self)@.assigns.len()
                    && old(self)@.assigns[i] == assign@
                    && (forall|j: int| 0 <= j < i ==> old(self)@.assigns[j] != assign@)
                    && final(self)@ == (ModuleView { assigns: old(self)@.assigns.remove(i), ..old(self)@ }),
                None => !old(self)@.assigns.contains(assign@) && final(self)@ == old(self)@,
            },
            final(self).wf(),
    {
        let mut i: usize = 0;
        while i < self.assigns.len()
            invariant
                self@ == old(self)@,
                old(self).wf(),
                forall|j: int| 0 <= j < i ==> self@.assigns[j] != assign@,
            decreases self.assigns.len() - i,
        {
            if str_eq(self.assigns[i].as_str(), assign.as_str()) {
                let a = self.assigns.remove(i);
                assert(self@.assigns =~= old(self)@.assigns.remove(i as int));
                assert(self@ == (ModuleView { assigns: old(self)@.assigns.remove(i as int), ..old(self)@ }));
                assert(old(self)@.assigns[i as int] == assign@);
                return Some(a);
            }
            i = i + 1;
        }
        None
    }

    /// The position of the instance named `ident`.
    pub fn gate_position(&self, ident: &str) -> (r: Option<usize>)
        requires
            self.wf(),
        ensures
            match r {
                Some(i) => i < self@.gates.len() && self@.gates[i as int].0 == ident@
                    && gate_index(self@.gates, ident@) == i,
                None => !has_gate(self@.gates, ident@),
            },
    {
        let mut i: usize = 0;
        while i < self.gates.len()
            invariant
                self.wf(),
                forall|j: int| 0 <= j < i ==> self@.gates[j].0 != ident@,
            decreases self.gates.len() - i,
        {
            if str_eq(self.gates[i].0.as_str(), ident) {
                proof {
                    assert(0 <= i < self@.gates.len() && self@.gates[i as int].0 == ident@);
                    let k = gate_index(self@.gates, ident@);
                    assert(0 <= k < self@.gates.len() && self@.gates[k].0 == ident@);
                    assert(gate_ids(self@.gates)[k] == gate_ids(self@.gates)[i as int]);
                }
                return Some(i);
            }
            i = i + 1;
        }
        None
    }

    /// The instance named `ident`.
    pub fn gate_by_name(&self, ident: &str) -> (r: Option<&Gate>)
        requires
            self.wf(),
        ensures
            match r {
                Some(g) => has_gate(self@.gates, ident@)
                    && g@ == self@.gates[gate_index(self@.gates, ident@)].1,
                None => !has_gate(self@.gates, ident@),
            },
    {
        match self.gate_position(ident) {
            Some(i) => Some(&self.gates[i].1),
            None => None,
        }
    }

    /// Sets the instance `ident` to `gate`: in place where it exists, appended otherwise.
    pub fn push_gate(&mut self, ident: String, gate: Gate)
        requires
            old(self).wf(),
        ensures
            final(self)@ == (ModuleView {
                gates: gates_with(old(self)@.gates, ident@, gate@),
                ..old(self)@
            }),
            final(self).wf(),
    {
        let ghost entry = (ident@, gate@);
        match self.gate_position(ident.as_str()) {
            Some(i) => {
                self.gates.set(i, (ident, gate));
                assert(self@.gates =~= old(self)@.gates.update(i as int, entry));
                assert(gate_ids(self@.gates) =~= gate_ids(old(self)@.gates));
            },
            None => {
                let ghost o = old(self)@.gates;
                let mut p: usize = 0;
                while p < self.gates.len() && !name_less(ident.as_str(), self.gates[p].0.as_str())
                    invariant
                        self@ == old(self)@,
                        o == self@.gates,
                        entry.0 == ident@,
                        p <= self.gates@.len(),
                        forall|j: int| 0 <= j < p ==> !name_lt(ident@, o[j].0),
                    decreases self.gates.len() - p,
                {
                    p = p + 1;
                }
                proof {
                    assert(is_gate_pos(o, ident@, p as int));
                    lemma_gate_pos(o, ident@);
                }
                self.gates.insert(p, (ident, gate));
                assert(self@.gates =~= o.insert(p as int, entry));
            },
        }
        proof {
            crate::atpg::lemma_gates_with(old(self)@.gates, entry.0, entry.1);
        }
    }

    /// Removes the instance named `ident`, and returns it.
    pub fn remove_gate(&mut self, ident: &str) -> (r: Option<Gate>)
        requires
            old(self).wf(),
        ensures
            match r {
                Some(g) => has_gate(old(self)@.gates, ident@)
                    && g@ == old(self)@.gates[gate_index(old(self)@.gates, ident@)].1
                    && final(self)@ == (ModuleView {
                        gates: old(self)@.gates.remove(gate_index(old(self)@.gates, ident@)),
                        ..old(self)@
                    }),
                None => !has_gate(old(self)@.gates, ident@) && final(self)@ == old(self)@,
            },
            !has_gate(final(self)@.gates, ident@),
            final(self).wf(),
    {
        match self.gate_position(ident) {
            Some(i) => {
                let (_, g) = self.gates.remove(i);
                assert(self@.gates =~= old(self)@.gates.remove(i as int));
                assert(gate_ids(self@.gates) =~= gate_ids(old(self)@.gates).remove(i as int));
                assert forall|a: int, b: int| 0 <= a < b < self@.gates.len() implies
                    !name_lt(gate_ids(self@.gates)[b], gate_ids(self@.gates)[a]) by {
                    let oa = if a < i { a } else { a + 1 };
                    let ob = if b < i { b } else { b + 1 };
                    assert(gate_ids(self@.gates)[a] == gate_ids(old(self)@.gates)[oa]);
                    assert(gate_ids(self@.gates)[b] == gate_ids(old(self)@.gates)[ob]);
                }
                assert forall|j: int| 0 <= j < self@.gates.len() implies self@.gates[j].0 != ident@ by {
                    if j < i {
                        assert(gate_ids(old(self)@.gates)[j] != gate_ids(old(self)@.gates)[i as int]);
                    } else {
                        assert(gate_ids(old(self)@.gates)[j + 1] != gate_ids(old(self)@.gates)[i as int]);
                    }
                }
                Some(g)
            },
            None => None,
        }
    }

    pub fn inputs(&self) -> (r: &Vec<Wire>)
        ensures
            wire_views(r@) == self@.inputs,
    {
        &self.inputs
    }

    pub fn outputs(&self) -> (r: &Vec<Wire>)
        ensures
            wire_views(r@) == self@.outputs,
    {
        &self.outputs
    }

    pub fn gates(&self) -> (r: &Vec<(String, Gate)>)
        ensures
            gate_views(r@) == self@.gates,
    {
        &self.gates
    }

    /// The ports of the module: its inputs, then its outputs.
    pub fn pins(&self) -> (r: Vec<Wire>)
        ensures
            wire_views(r@) == self@.inputs + self@.outputs,
    {
        let mut r = duplicate_wires(&self.inputs);
        let mut o = duplicate_wires(&self.outputs);
        let ghost a = r@;
        let ghost b = o@;
        r.append(&mut o);
        assert(wire_views(r@) =~= wire_views(a) + wire_views(b));
        r
    }
}

/// The errors of reading or transforming a netlist.
#[derive(Debug)]
pub enum VerilogError {
    ParserError(crate::parser::ParseError),
    ModuleError(ModuleError),
}

/// Why an observation point or a fault cannot be placed.
#[derive(Debug)]
pub enum ModuleError {
    /// The location names an instance or a port that does not exist.
    UndefinedSignal(String),
    /// The location has more than two levels.
    ExceededStuckAtFaultInsertionDepth(String),
}

/// The text of the continuous assign `lhs = rhs`.
pub open spec fn assign_text(lhs: Seq<char>, rhs: Seq<char>) -> Seq<char> {
    lhs + " = "@ + rhs
}

/// The position of the first binding of the port named `p`.
pub open spec fn first_port_index(ports: Seq<PortView>, p: Seq<char>) -> int {
    choose|i: int| is_first_port(ports, p, i)
}

/// The view of the instance named `id`.
pub open spec fn gate_of(gs: Seq<(Seq<char>, GateView)>, id: Seq<char>) -> GateView {
    gs[gate_index(gs, id)].1
}

/// The location `sig` resolves in `m`: a bare wire, or an existing instance and port.
pub open spec fn resolves(m: ModuleView, sig: Seq<char>) -> bool {
    ||| is_bare(sig)
    ||| (is_pair(sig) && has_gate(m.gates, path_head(sig)) && has_port(
        gate_of(m.gates, path_head(sig)).ports,
        path_tail(sig),
    ))
}

/// The wire that the location `sig` designates in `m`.
pub open spec fn located_wire(m: ModuleView, sig: Seq<char>) -> Seq<char> {
    if is_bare(sig) {
        sig
    } else {
        let g = gate_of(m.gates, path_head(sig));
        g.ports[first_port_index(g.ports, path_tail(sig))].wire
    }
}

/// The name of the observation output that taps `sig` for a fault of value `sa_value`.
pub open spec fn observable_name(sig: Seq<char>, sa_value: bool) -> Seq<char> {
    sanitize(sig) + "_tp_"@ + slow_to_tag(sa_value)
}

/// Only one index is the first binding of a port.
pub proof fn lemma_first_port_unique(ports: Seq<PortView>, p: Seq<char>, i: int)
    requires
        is_first_port(ports, p, i),
    ensures
        first_port_index(ports, p) == i,
{
    let k = first_port_index(ports, p);
    assert(is_first_port(ports, p, k));
}

/// A bare name is its own sanitized form; `head/tail` becomes `head_tail`.
pub proof fn lemma_sanitize_shape(sig: Seq<char>)
    ensures
        is_bare(sig) ==> sanitize(sig) == sig,
        is_pair(sig) ==> sanitize(sig) == path_head(sig) + "_"@ + path_tail(sig),
{
    reveal_strlit("_");
    if is_bare(sig) {
        assert forall|j: int| 0 <= j < sig.len() implies sanitize(sig)[j] == sig[j] by {
            assert(sig[j] != '/');
        }
        assert(sanitize(sig) =~= sig);
    }
    if is_pair(sig) {
        let i = choose|i: int| splits_at(sig, i);
        let h = path_head(sig);
        let t = path_tail(sig);
        assert forall|j: int| 0 <= j < sig.len() implies sanitize(sig)[j] == (h + "_"@ + t)[j] by {
            if j < i {
                assert(sig.subrange(0, i)[j] == sig[j]);
            } else if j > i {
                assert(sig.subrange(i + 1, sig.len() as int)[j - i - 1] == sig[j]);
            }
        }
        assert(sanitize(sig) =~= h + "_"@ + t);
    }
}

impl Module {
    /// A gate instance of this module as a cell: each port bound to the wire of the same name.
    pub fn to_gate(&self) -> (r: Gate)
        ensures
            r@.name == self@.name,
            r@.ports.len() == self@.inputs.len() + self@.outputs.len(),
            forall|i: int| 0 <= i < r@.ports.len() ==> #[trigger] r@.ports[i] == wire_binding(
                (self@.inputs + self@.outputs)[i].name,
                (self@.inputs + self@.outputs)[i].name,
            ),
    {
        let pins = self.pins();
        let mut gate = Gate::new_with_name(self.name.clone());
        let mut i: usize = 0;
        while i < pins.len()
            invariant
                wire_views(pins@) == self@.inputs + self@.outputs,
                gate@.name == self@.name,
                i <= pins.len(),
                gate@.ports.len() == i,
                forall|k: int| 0 <= k < i ==> #[trigger] gate@.ports[k] == wire_binding(
                    wire_views(pins@)[k].name,
                    wire_views(pins@)[k].name,
                ),
            decreases pins.len() - i,
        {
            let n = pins[i].name.clone();
            let n2 = pins[i].name.clone();
            gate.push_port(PortWire::Wire(n, n2));
            i = i + 1;
        }
        assert(wire_views(pins@).len() == pins@.len());
        gate
    }

    /// Taps the signal at `signal` (`wire` or `instance/port`) with a new output port,
    /// and returns the port's name.
    pub fn add_observation_point(&mut self, signal: &str, sa_value: bool) -> (r: Result<
        String,
        ModuleError,
    >)
        requires
            old(self).wf(),
        ensures
            final(self).wf(),
            r is Ok <==> resolves(old(self)@, signal@),
            r matches Err(ModuleError::ExceededStuckAtFaultInsertionDepth(_)) <==> (!is_bare(signal@)
                && !is_pair(signal@)),
            match r {
                Ok(obs) => obs@ == observable_name(signal@, sa_value) && final(self)@ == (ModuleView {
                    assigns: old(self)@.assigns.push(
                        assign_text(obs@, located_wire(old(self)@, signal@)),
                    ),
                    outputs: wires_with(old(self)@.outputs, single(obs@)),
                    ..old(self)@
                }),
                Err(_) => final(self)@ == old(self)@,
            },
    {
        let tag = slow_to(sa_value);
        proof {
            lemma_sanitize_shape(signal@);
        }
        match split_location(signal) {
            Location::Bare => {
                let observable = concat3(signal, "_tp_", tag);
                self.push_assign(concat3(observable.as_str(), " = ", signal));
                self.push_output(Wire::new_single(observable.clone()));
                Ok(observable)
            },
            Location::Pair(gate_name, port) => {
                match self.gate_by_name(gate_name.as_str()) {
                    Some(gate) => {
                        match gate.port_position(port.as_str()) {
                            Some(k) => {
                                proof {
                                    lemma_first_port_unique(gate@.ports, port@, k as int);
                                }
                                let wire = String::from_str(gate.ports[k].wire());
                                let head = concat3(gate_name.as_str(), "_", port.as_str());
                                let observable = concat3(head.as_str(), "_tp_", tag);
                                self.push_assign(concat3(observable.as_str(), " = ", wire.as_str()));
                                self.push_output(Wire::new_single(observable.clone()));
                                Ok(observable)
                            },
                            None => Err(ModuleError::UndefinedSignal(String::from_str(signal))),
                        }
                    },
                    None => Err(ModuleError::UndefinedSignal(String::from_str(signal))),
                }
            },
            Location::TooDeep => Err(
                ModuleError::ExceededStuckAtFaultInsertionDepth(String::from_str(signal)),
            ),
        }
    }
}

/// A port that by the cell library's naming convention is an output: its name holds `Z`, `Y` or `Q`.
pub open spec fn is_output_port(p: Seq<char>) -> bool {
    p.contains('Z') || p.contains('Y') || p.contains('Q')
}

/// The constant literal of a stuck-at value.
pub open spec fn stuck_literal(sa_value: bool) -> Seq<char> {
    if sa_value {
        "1'b1"@
    } else {
        "1'b0"@
    }
}

/// The name that a drained wire takes.
pub open spec fn drained(w: Seq<char>) -> Seq<char> {
    w + "_drained"@
}

/// A binding after the wire `w` is pinned to `lit`: an output driving `w` is left on the
/// drained wire, an input reading `w` reads `lit`.
pub open spec fn pin_binding(pv: PortView, w: Seq<char>, lit: Seq<char>) -> PortView {
    if pv.wire == w {
        if is_output_port(pv.port) {
            PortView { wire: drained(w), ..pv }
        } else {
            PortView { wire: lit, ..pv }
        }
    } else {
        pv
    }
}

/// A gate after the wire `w` is pinned to `lit`.
pub open spec fn pin_gate(g: GateView, w: Seq<char>, lit: Seq<char>) -> GateView {
    GateView { ports: g.ports.map_values(|pv: PortView| pin_binding(pv, w, lit)), ..g }
}

/// Some output port of `g` drives `w`.
pub open spec fn gate_drives(g: GateView, w: Seq<char>) -> bool {
    exists|j: int| 0 <= j < g.ports.len() && g.ports[j].wire == w && is_output_port(g.ports[j].port)
}

/// Some output port of an instance of `gs` drives `w`.
pub open spec fn drives(gs: Seq<(Seq<char>, GateView)>, w: Seq<char>) -> bool {
    exists|i: int| 0 <= i < gs.len() && gate_drives(gs[i].1, w)
}

/// The module `m`, renamed to `name`, with the location `loc` stuck at `sa_value`.
pub open spec fn with_stuck_at(m: ModuleView, name: Seq<char>, loc: Seq<char>, sa_value: bool) -> ModuleView {
    let lit = stuck_literal(sa_value);
    if is_bare(loc) {
        let d = drives(m.gates, loc);
        ModuleView {
            name,
            gates: m.gates.map_values(|e: (Seq<char>, GateView)| (e.0, pin_gate(e.1, loc, lit))),
            wires: if d { wires_with(m.wires, single(drained(loc))) } else { m.wires },
            assigns: if d { m.assigns.push(assign_text(loc, lit)) } else { m.assigns },
            ..m
        }
    } else {
        let id = path_head(loc);
        let port = path_tail(loc);
        let g = gate_of(m.gates, id);
        let k = first_port_index(g.ports, port);
        let w = g.ports[k].wire;
        if is_output_port(port) {
            ModuleView {
                name,
                gates: gates_with(m.gates, id, GateView {
                    ports: g.ports.update(k, PortView { wire: drained(w), ..g.ports[k] }),
                    ..g
                }),
                wires: wires_with(m.wires, single(drained(w))),
                assigns: m.assigns.push(assign_text(w, lit)),
                ..m
            }
        } else {
            ModuleView {
                name,
                gates: gates_with(m.gates, id, GateView {
                    ports: g.ports.update(k, PortView { wire: lit, ..g.ports[k] }),
                    ..g
                }),
                ..m
            }
        }
    }
}

/// Whether `p` is an output port by the naming convention.
pub fn is_output_port_name(p: &str) -> (r: bool)
    ensures
        r == is_output_port(p@),
{
    contains_char(p, 'Z') || contains_char(p, 'Y') || contains_char(p, 'Q')
}

/// The literal of a stuck-at value.
pub fn stuck_at_literal(sa_value: bool) -> (r: String)
    ensures
        r@ == stuck_literal(sa_value),
{
    if sa_value {
        String::from_str("1'b1")
    } else {
        String::from_str("1'b0")
    }
}

/// `g` with the wire `w` pinned to `lit`, and whether an output port of it drove `w`.
fn pin_gate_wire(g: &Gate, w: &str, lit: &str) -> (r: (Gate, bool))
    ensures
        r.0@ == pin_gate(g@, w@, lit@),
        r.1 == gate_drives(g@, w@),
{
    let mut ports: Vec<PortWire> = Vec::new();
    let mut any = false;
    let mut i: usize = 0;
    while i < g.ports.len()
        invariant
            i <= g.ports.len(),
            ports@.len() == i,
            forall|k: int| 0 <= k < i ==> ports@[k]@ == pin_binding(g.ports@[k]@, w@, lit@),
            any == exists|j: int| 0 <= j < i && g@.ports[j].wire == w@ && is_output_port(g@.ports[j].port),
        decreases g.ports.len() - i,
    {
        let mut pw = g.ports[i].duplicate();
        assert(g@.ports[i as int] == g.ports@[i as int]@);
        let ghost hit = g@.ports[i as int].wire == w@ && is_output_port(g@.ports[i as int].port);
        if str_eq(pw.wire(), w) {
            if is_output_port_name(pw.port()) {
                pw.set_wire(concat(w, "_drained"));
                any = true;
            } else {
                pw.set_wire(String::from_str(lit));
            }
        }
        ports.push(pw);
        proof {
            if hit {
                assert(0 <= i < i + 1 && g@.ports[i as int].wire == w@ && is_output_port(
                    g@.ports[i as int].port,
                ));
            }
        }
        i = i + 1;
    }
    let r = Gate { name: g.name.clone(), ports };
    assert(r@.ports =~= pin_gate(g@, w@, lit@).ports);
    (r, any)
}

impl Module {
    /// A copy of this module named `new_module_name` in which the location of `fault` is
    /// stuck at its value.
    pub fn insert_stuck_at_fault(&self, new_module_name: String, fault: &Fault) -> (r: Result<
        Self,
        ModuleError,
    >)
        requires
            self.wf(),
        ensures
            r is Ok <==> resolves(self@, fault.location@),
            r matches Err(ModuleError::ExceededStuckAtFaultInsertionDepth(_)) <==> (!is_bare(
                fault.location@,
            ) && !is_pair(fault.location@)),
            match r {
                Ok(m) => m@ == with_stuck_at(self@, new_module_name@, fault.location@, fault.sa_value)
                    && m.wf(),
                Err(_) => true,
            },
    {
        let lit = stuck_at_literal(fault.sa_value);
        let loc = fault.location.as_str();
        match split_location(loc) {
            Location::Bare => {
                let mut gates: Vec<(String, Gate)> = Vec::new();
                let mut any = false;
                let mut i: usize = 0;
                while i < self.gates.len()
                    invariant
                        i <= self.gates.len(),
                        gates@.len() == i,
                        forall|k: int| 0 <= k < i ==> gates@[k].0@ == self.gates@[k].0@
                            && gates@[k].1@ == pin_gate(self.gates@[k].1@, loc@, lit@),
                        any == exists|j: int| 0 <= j < i && gate_drives(self@.gates[j].1, loc@),
                    decreases self.gates.len() - i,
                {
                    let (g, d) = pin_gate_wire(&self.gates[i].1, loc, lit.as_str());
                    assert(self@.gates[i as int].1 == self.gates@[i as int].1@);
                    gates.push((self.gates[i].0.clone(), g));
                    proof {
                        if d {
                            assert(0 <= i < i + 1 && gate_drives(self@.gates[i as int].1, loc@));
                        }
                    }
                    any = any || d;
                    i = i + 1;
                }
                let mut m = Module {
                    name: new_module_name,
                    inputs: duplicate_wires(&self.inputs),
                    outputs: duplicate_wires(&self.outputs),
                    wires: duplicate_wires(&self.wires),
                    assigns: duplicate_strings(&self.assigns),
                    gates,
                };
                assert(m@.gates =~= self@.gates.map_values(
                    |e: (Seq<char>, GateView)| (e.0, pin_gate(e.1, loc@, lit@)),
                ));
                assert(gate_ids(m@.gates) =~= gate_ids(self@.gates));
                if any {
                    m.push_wire(Wire::new_single(concat(loc, "_drained")));
                    m.push_assign(concat3(loc, " = ", lit.as_str()));
                }
                Ok(m)
            },
            Location::Pair(id, port) => {
                match self.gate_by_name(id.as_str()) {
                    Some(gate) => {
                        match gate.port_position(port.as_str()) {
                            Some(k) => {
                                proof {
                                    lemma_first_port_unique(gate@.ports, port@, k as int);
                                }
                                let mut m = self.duplicate();
                                m.name = new_module_name;
                                let mut g = gate.duplicate();
                                let w = String::from_str(gate.ports[k].wire());
                                if is_output_port_name(port.as_str()) {
                                    let d = concat(w.as_str(), "_drained");
                                    let ok = g.set_port_wire(port.as_str(), d.clone());
                                    m.push_gate(id, g);
                                    m.push_wire(Wire::new_single(d));
                                    m.push_assign(concat3(w.as_str(), " = ", lit.as_str()));
                                } else {
                                    let ok = g.set_port_wire(port.as_str(), lit);
                                    m.push_gate(id, g);
                                }
                                Ok(m)
                            },
                            None => Err(ModuleError::UndefinedSignal(String::from_str(loc))),
                        }
                    },
                    None => Err(ModuleError::UndefinedSignal(String::from_str(loc))),
                }
            },
            Location::TooDeep => Err(
                ModuleError::ExceededStuckAtFaultInsertionDepth(String::from_str(loc)),
            ),
        }
    }
}

/// A netlist: an ordered sequence of modules.
#[derive(Clone, Debug, Default, Eq, PartialEq)]
pub struct Verilog {
    pub modules: Vec<Module>,
}

/// The views of a sequence of modules.
pub open spec fn module_views(ms: Seq<Module>) -> Seq<ModuleView> {
    ms.map_values(|m: Module| m@)
}

impl View for Verilog {
    type V = Seq<ModuleView>;

    open spec fn view(&self) -> Seq<ModuleView> {
        module_views(self.modules@)
    }
}

/// Some module of `ms` is named `name`.
pub open spec fn has_module(ms: Seq<ModuleView>, name: Seq<char>) -> bool {
    exists|i: int| 0 <= i < ms.len() && ms[i].name == name
}

/// `i` is the first module of `ms` named `name`.
pub open spec fn is_first_module(ms: Seq<ModuleView>, name: Seq<char>, i: int) -> bool {
    0 <= i < ms.len() && ms[i].name == name && forall|j: int| 0 <= j < i ==> ms[j].name != name
}

/// The position of the first module of `ms` named `name`.
pub open spec fn module_index(ms: Seq<ModuleView>, name: Seq<char>) -> int {
    choose|i: int| is_first_module(ms, name, i)
}

/// The first module of `ms` named `name`.
pub open spec fn module_named(ms: Seq<ModuleView>, name: Seq<char>) -> ModuleView {
    ms[module_index(ms, name)]
}

/// Every module of the netlist is well formed.
pub open spec fn netlist_wf(ms: Seq<ModuleView>) -> bool {
    forall|i: int| 0 <= i < ms.len() ==> module_wf(#[trigger] ms[i])
}

impl Verilog {
    /// An empty netlist.
    pub fn new() -> (r: Self)
        ensures
            r@ == Seq::<ModuleView>::empty(),
    {
        let r = Verilog { modules: Vec::new() };
        assert(r@ =~= Seq::<ModuleView>::empty());
        r
    }

    /// The invariant of a netlist: see `netlist_wf`.
    pub open spec fn wf(&self) -> bool {
        netlist_wf(self@)
    }

    pub fn push_module(&mut self, module: Module)
        ensures
            final(self)@ == old(self)@.push(module@),
    {
        let ghost v = module@;
        self.modules.push(module);
        assert(self@ =~= old(self)@.push(v));
    }

    /// The position of the first module named `name`.
    pub fn module_position(&self, name: &str) -> (r: Option<usize>)
        ensures
            match r {
                Some(i) => is_first_module(self@, name@, i as int) && module_index(self@, name@) == i,
                None => !has_module(self@, name@),
            },
    {
        let mut i: usize = 0;
        while i < self.modules.len()
            invariant
                forall|j: int| 0 <= j < i ==> self@[j].name != name@,
            decreases self.modules.len() - i,
        {
            if str_eq(self.modules[i].name.as_str(), name) {
                proof {
                    assert(is_first_module(self@, name@, i as int));
                    let k = module_index(self@, name@);
                    assert(is_first_module(self@, name@, k));
                }
                return Some(i);
            }
            i = i + 1;
        }
        None
    }

    /// The first module named `name`.
    pub fn module_by_name(&self, name: &str) -> (r: Option<&Module>)
        ensures
            match r {
                Some(m) => has_module(self@, name@) && m@ == module_named(self@, name@),
                None => !has_module(self@, name@),
            },
    {
        match self.module_position(name) {
            Some(i) => Some(&self.modules[i]),
            None => None,
        }
    }

    /// Puts `module` in place of the first module named `name`; false where there is none.
    pub fn replace_module(&mut self, name: &str, module: Module) -> (r: bool)
        ensures
            r == has_module(old(self)@, name@),
            r ==> final(self)@ == old(self)@.update(module_index(old(self)@, name@), module@),
            !r ==> final(self)@ == old(self)@,
    {
        match self.module_position(name) {
            Some(i) => {
                let ghost v = module@;
                self.modules.set(i, module);
                assert(self@ =~= old(self)@.update(i as int, v));
                true
            },
            None => false,
        }
    }

    /// The first module named `name`, to change in place.
    pub fn module_by_name_mut(&mut self, name: &str) -> (r: Option<&mut Module>)
        ensures
            match r {
                Some(m) => has_module(old(self)@, name@) && m@ == module_named(old(self)@, name@)
                    && final(self)@ == old(self)@.update(module_index(old(self)@, name@), final(m)@),
                None => !has_module(old(self)@, name@) && final(self)@ == old(self)@,
            },
    {
        match self.module_position(name) {
            Some(i) => {
                assert(self@[i as int] == self.modules@[i as int]@);
                Some(vec_index_mut(&mut self.modules, i))
            },
            None => None,
        }
    }

    /// Removes and returns the first module named `name`.
    pub fn take_module_buy_name(&mut self, name: &str) -> (r: Option<Module>)
        ensures
            match r {
                Some(m) => has_module(old(self)@, name@) && m@ == module_named(old(self)@, name@)
                    && final(self)@ == old(self)@.remove(module_index(old(self)@, name@)),
                None => !has_module(old(self)@, name@) && final(self)@ == old(self)@,
            },
    {
        match self.module_position(name) {
            Some(i) => {
                let m = self.modules.remove(i);
                assert(self@ =~= old(self)@.remove(i as int));
                Some(m)
            },
            None => None,
        }
    }

    pub fn modules(&self) -> (r: &Vec<Module>)
        ensures
            module_views(r@) == self@,
    {
        &self.modules
    }
}

/// The element at `i` of `v`, to change in place.
fn vec_index_mut<T>(v: &mut Vec<T>, i: usize) -> (r: &mut T)
    requires
        i < old(v)@.len(),
    ensures
        *r == old(v)@[i as int],
        final(v)@ == old(v)@.update(i as int, *final(r)),
{
    &mut v[i]
}

/// A copy of a netlist.
pub fn duplicate_netlist(v: &Verilog) -> (r: Verilog)
    ensures
        r@ == v@,
{
    let mut modules: Vec<Module> = Vec::new();
    let mut i: usize = 0;
    while i < v.modules.len()
        invariant
            i <= v.modules.len(),
            modules@.len() == i,
            forall|k: int| 0 <= k < i ==> modules@[k]@ == v.modules@[k]@,
        decreases v.modules.len() - i,
    {
        modules.push(v.modules[i].duplicate());
        i = i + 1;
    }
    let r = Verilog { modules };
    assert(r@ =~= v@);
    r
}

} // verus!
