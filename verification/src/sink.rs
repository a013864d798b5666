//! A model of the graph sink's get-or-create semantics, used to state and
//! prove that re-emitting the same aggregated edges creates no duplicate
//! nodes and no duplicate relationship instances.
use vstd::prelude::*;
use crate::emit::{UpsertOp, UpsertOpV};

verus! {

/// Ghost image of the sink: the node names and relationship instances that
/// exist.
pub ghost struct GraphStateV {
    pub nodes: Seq<Seq<char>>,
    pub rels: Seq<UpsertOpV>,
}

/// The sink state an emission run builds up: each upsert gets or creates its
/// endpoint nodes and its relationship instance.
pub struct GraphState {
    pub nodes: Vec<String>,
    pub rels: Vec<UpsertOp>,
}

impl View for GraphState {
    type V = GraphStateV;

    open spec fn view(&self) -> GraphStateV {
        GraphStateV { nodes: self.nodes.deep_view(), rels: Seq::new(self.rels@.len(), |i: int| self.rels@[i]@) }
    }
}

/// No node name and no relationship instance occurs twice.
pub open spec fn spec_distinct(s: GraphStateV) -> bool {
    &&& forall|i: int, j: int|
        0 <= i < j < s.nodes.len() ==> s.nodes[i] != s.nodes[j]
    &&& forall|i: int, j: int|
        0 <= i < j < s.rels.len() ==> s.rels[i] != s.rels[j]
}

/// Whether an operation is fully absorbed by a state: both endpoints exist
/// and the relationship instance exists.
pub open spec fn spec_absorbed(op: UpsertOpV, s: GraphStateV) -> bool {
    &&& s.nodes.contains(op.origin)
    &&& s.nodes.contains(op.destination)
    &&& s.rels.contains(op)
}

/// Applying one upsert: add each endpoint unless present, add the
/// relationship instance unless present.
pub open spec fn spec_apply(s: GraphStateV, op: UpsertOpV) -> GraphStateV {
    let n1 = if s.nodes.contains(op.origin) {
        s.nodes
    } else {
        s.nodes.push(op.origin)
    };
    let n2 = if n1.contains(op.destination) {
        n1
    } else {
        n1.push(op.destination)
    };
    let r = if s.rels.contains(op) {
        s.rels
    } else {
        s.rels.push(op)
    };
    GraphStateV { nodes: n2, rels: r }
}

/// Applying a sequence of upserts in order.
pub open spec fn spec_apply_all(s: GraphStateV, ops: Seq<UpsertOpV>) -> GraphStateV
    decreases ops.len(),
{
    if ops.len() == 0 {
        s
    } else {
        spec_apply(spec_apply_all(s, ops.drop_last()), ops.last())
    }
}

/// What a sequence contains, it still contains after a push.
proof fn lemma_contains_push<A>(s: Seq<A>, x: A, y: A)
    requires
        s.contains(y),
    ensures
        s.push(x).contains(y),
{
    let i = choose|i: int| 0 <= i < s.len() && s[i] == y;
    assert(s.push(x)[i] == y);
}

/// A push makes the pushed element contained.
proof fn lemma_push_contains_self<A>(s: Seq<A>, x: A)
    ensures
        s.push(x).contains(x),
{
    assert(s.push(x)[s.len() as int] == x);
}

/// One application absorbs the operation.
pub proof fn lemma_apply_absorbs(s: GraphStateV, op: UpsertOpV)
    ensures
        spec_absorbed(op, spec_apply(s, op)),
{
    let n1 = if s.nodes.contains(op.origin) {
        s.nodes
    } else {
        s.nodes.push(op.origin)
    };
    if !s.nodes.contains(op.origin) {
        lemma_push_contains_self(s.nodes, op.origin);
    }
    if !n1.contains(op.destination) {
        lemma_push_contains_self(n1, op.destination);
        lemma_contains_push(n1, op.destination, op.origin);
    }
    if !s.rels.contains(op) {
        lemma_push_contains_self(s.rels, op);
    }
}

/// Absorption survives further applications.
pub proof fn lemma_absorbed_stable(op: UpsertOpV, s: GraphStateV, op2: UpsertOpV)
    requires
        spec_absorbed(op, s),
    ensures
        spec_absorbed(op, spec_apply(s, op2)),
{
    let n1 = if s.nodes.contains(op2.origin) {
        s.nodes
    } else {
        s.nodes.push(op2.origin)
    };
    if !s.nodes.contains(op2.origin) {
        lemma_contains_push(s.nodes, op2.origin, op.origin);
        lemma_contains_push(s.nodes, op2.origin, op.destination);
    }
    if !n1.contains(op2.destination) {
        lemma_contains_push(n1, op2.destination, op.origin);
        lemma_contains_push(n1, op2.destination, op.destination);
    }
    if !s.rels.contains(op2) {
        lemma_contains_push(s.rels, op2, op);
    }
}

/// Absorption survives a whole further run.
pub proof fn lemma_absorbed_stable_all(op: UpsertOpV, s: GraphStateV, ops: Seq<UpsertOpV>)
    requires
        spec_absorbed(op, s),
    ensures
        spec_absorbed(op, spec_apply_all(s, ops)),
    decreases ops.len(),
{
    if ops.len() > 0 {
        lemma_absorbed_stable_all(op, s, ops.drop_last());
        lemma_absorbed_stable(op, spec_apply_all(s, ops.drop_last()), ops.last());
    }
}

/// An absorbed operation changes nothing.
pub proof fn lemma_apply_absorbed_noop(s: GraphStateV, op: UpsertOpV)
    requires
        spec_absorbed(op, s),
    ensures
        spec_apply(s, op) == s,
{
}

/// After one run, every operation of that run is absorbed.
pub proof fn lemma_run_absorbs(s: GraphStateV, ops: Seq<UpsertOpV>)
    ensures
        forall|i: int| 0 <= i < ops.len() ==> spec_absorbed(#[trigger] ops[i], spec_apply_all(s, ops)),
    decreases ops.len(),
{
    if ops.len() > 0 {
        let prefix = ops.drop_last();
        let mid = spec_apply_all(s, prefix);
        lemma_run_absorbs(s, prefix);
        assert forall|i: int| 0 <= i < ops.len() implies spec_absorbed(
            #[trigger] ops[i],
            spec_apply_all(s, ops),
        ) by {
            if i < prefix.len() {
                assert(prefix[i] == ops[i]);
                lemma_absorbed_stable(ops[i], mid, ops.last());
            } else {
                lemma_apply_absorbs(mid, ops.last());
            }
        }
    }
}

/// Applying operations that are all absorbed changes nothing.
pub proof fn lemma_apply_all_absorbed_noop(s: GraphStateV, ops: Seq<UpsertOpV>)
    requires
        forall|i: int| 0 <= i < ops.len() ==> spec_absorbed(#[trigger] ops[i], s),
    ensures
        spec_apply_all(s, ops) == s,
    decreases ops.len(),
{
    if ops.len() > 0 {
        lemma_apply_all_absorbed_noop(s, ops.drop_last());
        lemma_apply_absorbed_noop(s, ops.last());
    }
}

/// Idempotence of edge emission: running the same upsert sequence a second
/// time over the sink leaves it exactly as the first run left it, so no
/// duplicate nodes and no duplicate relationship instances are created.
pub proof fn lemma_emission_idempotent(s: GraphStateV, ops: Seq<UpsertOpV>)
    ensures
        spec_apply_all(spec_apply_all(s, ops), ops) == spec_apply_all(s, ops),
{
    let once = spec_apply_all(s, ops);
    lemma_run_absorbs(s, ops);
    lemma_apply_all_absorbed_noop(once, ops);
}

/// Pushing a fresh node name keeps the names distinct.
proof fn lemma_push_distinct_nodes(ns: Seq<Seq<char>>, x: Seq<char>)
    requires
        forall|i: int, j: int| 0 <= i < j < ns.len() ==> ns[i] != ns[j],
        !ns.contains(x),
    ensures
        forall|i: int, j: int| 0 <= i < j < ns.push(x).len() ==> ns.push(x)[i] != ns.push(x)[j],
{
    assert forall|i: int, j: int| 0 <= i < j < ns.push(x).len() implies ns.push(x)[i] != ns.push(
        x,
    )[j] by {
        if j == ns.len() {
            assert(ns[i] != x);
        }
    }
}

/// Applying one upsert keeps node names and relationship instances distinct.
pub proof fn lemma_apply_distinct(s: GraphStateV, op: UpsertOpV)
    requires
        spec_distinct(s),
    ensures
        spec_distinct(spec_apply(s, op)),
{
    let n1 = if s.nodes.contains(op.origin) {
        s.nodes
    } else {
        s.nodes.push(op.origin)
    };
    if !s.nodes.contains(op.origin) {
        lemma_push_distinct_nodes(s.nodes, op.origin);
    }
    if !n1.contains(op.destination) {
        lemma_push_distinct_nodes(n1, op.destination);
    }
    if !s.rels.contains(op) {
        let rs = s.rels;
        assert forall|i: int, j: int| 0 <= i < j < rs.push(op).len() implies rs.push(op)[i]
            != rs.push(op)[j] by {
            if j == rs.len() {
                assert(rs[i] != op);
            }
        }
    }
}

impl GraphState {
    /// The empty sink.
    pub fn new() -> (r: GraphState)
        ensures
            r@.nodes.len() == 0,
            r@.rels.len() == 0,
            spec_distinct(r@),
    {
        let r = GraphState { nodes: Vec::new(), rels: Vec::new() };
        proof {
            assert(r@.nodes.len() == 0);
        }
        r
    }

    /// Whether a node of this name exists.
    fn has_node(&self, name: &String) -> (r: bool)
        ensures
            r == self@.nodes.contains(name@),
    {
        let mut i: usize = 0;
        while i < self.nodes.len()
            invariant
                i <= self.nodes@.len(),
                forall|j: int| 0 <= j < i ==> self@.nodes[j] != name@,
        decreases self.nodes@.len() - i,
        {
            if self.nodes[i] == *name {
                assert(self@.nodes[i as int] == name@);
                return true;
            }
            i = i + 1;
        }
        assert(forall|j: int| 0 <= j < self@.nodes.len() ==> self@.nodes[j] != name@);
        false
    }

    /// Whether this relationship instance exists.
    fn has_rel(&self, op: &UpsertOp) -> (r: bool)
        ensures
            r == self@.rels.contains(op@),
    {
        let mut i: usize = 0;
        while i < self.rels.len()
            invariant
                i <= self.rels@.len(),
                forall|j: int| 0 <= j < i ==> self@.rels[j] != op@,
        decreases self.rels@.len() - i,
        {
            if self.rels[i].same_op(op) {
                assert(self@.rels[i as int] == op@);
                return true;
            }
            i = i + 1;
        }
        false
    }

    /// Applies one upsert with get-or-create semantics.
    pub fn apply(&mut self, op: UpsertOp)
        ensures
            final(self)@ == spec_apply(old(self)@, op@),
    {
        let ghost s0 = self@;
        let ghost opv = op@;
        if !self.has_node(&op.origin) {
            self.nodes.push(op.origin.clone());
        }
        let ghost n1 = if s0.nodes.contains(opv.origin) {
            s0.nodes
        } else {
            s0.nodes.push(opv.origin)
        };
        proof {
            assert(self@.nodes =~~= n1);
            assert(self@.rels =~~= s0.rels);
        }
        if !self.has_node(&op.destination) {
            self.nodes.push(op.destination.clone());
        }
        let ghost n2 = if n1.contains(opv.destination) {
            n1
        } else {
            n1.push(opv.destination)
        };
        proof {
            assert(self@.nodes =~~= n2);
            assert(self@.rels =~~= s0.rels);
        }
        if !self.has_rel(&op) {
            self.rels.push(op);
            proof {
                assert(self@.rels =~~= s0.rels.push(opv));
                assert(self@.nodes =~~= n2);
            }
        }
        proof {
            assert(self@.nodes =~~= spec_apply(s0, opv).nodes);
            assert(self@.rels =~~= spec_apply(s0, opv).rels);
            assert(self@ == spec_apply(s0, opv));
        }
    }

    /// Applies a whole emission run, in order.
    pub fn apply_all(&mut self, ops: &Vec<UpsertOp>)
        ensures
            final(self)@ == spec_apply_all(old(self)@, Seq::new(ops@.len(), |i: int| ops@[i]@)),
    {
        let ghost opsv = Seq::new(ops@.len(), |i: int| ops@[i]@);
        let mut i: usize = 0;
        while i < ops.len()
            invariant
                i <= ops@.len(),
                opsv == Seq::new(ops@.len(), |k: int| ops@[k]@),
                self@ == spec_apply_all(old(self)@, opsv.take(i as int)),
            decreases ops@.len() - i,
        {
            let op = UpsertOp {
                origin: ops[i].origin.clone(),
                destination: ops[i].destination.clone(),
                rel_type: ops[i].rel_type.clone(),
                time: ops[i].time.clone(),
                logon_kind: ops[i].logon_kind.clone(),
                src_host: ops[i].src_host.clone(),
                src_ip: ops[i].src_ip.clone(),
                target_user: ops[i].target_user.clone(),
                target_domain: ops[i].target_domain.clone(),
                subject_user: ops[i].subject_user.clone(),
                subject_domain: ops[i].subject_domain.clone(),
                count: ops[i].count,
            };
            proof {
                assert(op@ == opsv[i as int]);
            }
            self.apply(op);
            i = i + 1;
            proof {
                assert(opsv.take(i as int).drop_last() =~= opsv.take(i - 1));
                assert(opsv.take(i as int).last() == opsv[i - 1]);
            }
        }
        proof {
            assert(opsv.take(ops@.len() as int) =~= opsv);
        }
    }
}

} // verus!
