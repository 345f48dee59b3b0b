//! Connectors as a directed relation between nodes: walks, reachability and
//! the absence of cycles.

use vstd::prelude::*;
use crate::node::NodeId;

verus! {

/// A wire from an output port of one node to an input port of another.
#[derive(Debug)]
pub struct Connector {
    pub from: NodeId,
    pub from_port: String,
    pub to: NodeId,
    pub to_port: String,
}

/// What a `Connector` stands for in contracts.
pub struct ConnectorView {
    pub from: NodeId,
    pub from_port: Seq<char>,
    pub to: NodeId,
    pub to_port: Seq<char>,
}

impl View for Connector {
    type V = ConnectorView;

    open spec fn view(&self) -> ConnectorView {
        ConnectorView {
            from: self.from,
            from_port: self.from_port@,
            to: self.to,
            to_port: self.to_port@,
        }
    }
}

impl Clone for Connector {
    fn clone(&self) -> (c: Connector)
        ensures
            c@ == self@,
    {
        Connector {
            from: self.from,
            from_port: self.from_port.clone(),
            to: self.to,
            to_port: self.to_port.clone(),
        }
    }
}

/// The connectors of `v`, each by its view.
pub open spec fn connector_views(v: Seq<Connector>) -> Seq<ConnectorView> {
    Seq::new(v.len(), |i: int| v[i]@)
}

/// Some connector of `cs` leads from `a` to `b`.
pub open spec fn has_edge(cs: Seq<ConnectorView>, a: NodeId, b: NodeId) -> bool {
    exists|i: int| 0 <= i < cs.len() && #[trigger] cs[i].from == a && cs[i].to == b
}

/// `p` is a walk: a sequence of at least one node in which each node is wired
/// to the next.
pub open spec fn is_walk(cs: Seq<ConnectorView>, p: Seq<NodeId>) -> bool {
    &&& p.len() >= 1
    &&& forall|i: int| #![trigger p[i]] 0 <= i < p.len() - 1 ==> has_edge(cs, p[i], p[i + 1])
}

/// A walk leads from `a` to `b`. Every node reaches itself.
pub open spec fn reaches(cs: Seq<ConnectorView>, a: NodeId, b: NodeId) -> bool {
    exists|p: Seq<NodeId>| #[trigger] is_walk(cs, p) && p.first() == a && p.last() == b
}

/// No connector closes a cycle: the node it ends at never reaches the node it
/// starts from.
pub open spec fn acyclic(cs: Seq<ConnectorView>) -> bool {
    forall|i: int| 0 <= i < cs.len() ==> !reaches(cs, (#[trigger] cs[i]).to, cs[i].from)
}

/// Every connector of `small` occurs in `big`.
pub open spec fn edges_within(small: Seq<ConnectorView>, big: Seq<ConnectorView>) -> bool {
    forall|i: int| 0 <= i < small.len() ==> has_edge(big, (#[trigger] small[i]).from, small[i].to)
}

/// Every node reaches itself.
pub proof fn lemma_reaches_self(cs: Seq<ConnectorView>, a: NodeId)
    ensures
        reaches(cs, a, a),
{
    let p = seq![a];
    assert(is_walk(cs, p));
    assert(p.first() == a && p.last() == a);
}

/// Without connectors a node reaches only itself.
pub proof fn lemma_no_edges(cs: Seq<ConnectorView>, a: NodeId, b: NodeId)
    requires
        cs.len() == 0,
    ensures
        reaches(cs, a, b) == (a == b),
{
    if reaches(cs, a, b) {
        let p = choose|p: Seq<NodeId>| #[trigger] is_walk(cs, p) && p.first() == a && p.last() == b;
        if p.len() > 1 {
            assert(has_edge(cs, p[0int], p[0int + 1]));
        }
    }
    if a == b {
        lemma_reaches_self(cs, a);
    }
}

/// A node at which no connector starts reaches only itself.
pub proof fn lemma_no_way_out(cs: Seq<ConnectorView>, a: NodeId, b: NodeId)
    requires
        forall|i: int| 0 <= i < cs.len() ==> (#[trigger] cs[i]).from != a,
        reaches(cs, a, b),
    ensures
        a == b,
{
    let p = choose|p: Seq<NodeId>| #[trigger] is_walk(cs, p) && p.first() == a && p.last() == b;
    if p.len() > 1 {
        assert(has_edge(cs, p[0int], p[0int + 1]));
    }
}

/// A walk can be extended by one connector at its end.
pub proof fn lemma_reaches_then_edge(cs: Seq<ConnectorView>, a: NodeId, m: NodeId, b: NodeId)
    requires
        reaches(cs, a, m),
        has_edge(cs, m, b),
    ensures
        reaches(cs, a, b),
{
    let p = choose|p: Seq<NodeId>| #[trigger] is_walk(cs, p) && p.first() == a && p.last() == m;
    let q = p.push(b);
    assert forall|i: int| #![trigger q[i]] 0 <= i < q.len() - 1 implies has_edge(
        cs,
        q[i],
        q[i + 1],
    ) by {
        if i < p.len() - 1 {
            assert(q[i] == p[i]);
            assert(q[i + 1] == p[i + 1]);
        }
    }
    assert(is_walk(cs, q));
    assert(q.first() == a && q.last() == b);
}

/// Two walks that meet can be joined.
pub proof fn lemma_reaches_trans(cs: Seq<ConnectorView>, a: NodeId, b: NodeId, c: NodeId)
    requires
        reaches(cs, a, b),
        reaches(cs, b, c),
    ensures
        reaches(cs, a, c),
{
    let q = choose|q: Seq<NodeId>| #[trigger] is_walk(cs, q) && q.first() == b && q.last() == c;
    lemma_walk_suffix(cs, a, q, q.len() - 1);
}

/// A node that reaches the start of a walk reaches every node on it.
proof fn lemma_walk_suffix(cs: Seq<ConnectorView>, a: NodeId, q: Seq<NodeId>, i: int)
    requires
        is_walk(cs, q),
        reaches(cs, a, q.first()),
        0 <= i < q.len(),
    ensures
        reaches(cs, a, q[i]),
    decreases i,
{
    if i > 0 {
        lemma_walk_suffix(cs, a, q, i - 1);
        assert(has_edge(cs, q[i - 1], q[i - 1 + 1]));
        lemma_reaches_then_edge(cs, a, q[i - 1], q[i]);
    }
}

/// A walk stays a walk when connectors are added.
pub proof fn lemma_reaches_within(
    small: Seq<ConnectorView>,
    big: Seq<ConnectorView>,
    a: NodeId,
    b: NodeId,
)
    requires
        edges_within(small, big),
        reaches(small, a, b),
    ensures
        reaches(big, a, b),
{
    let p = choose|p: Seq<NodeId>| #[trigger] is_walk(small, p) && p.first() == a && p.last() == b;
    assert forall|i: int| #![trigger p[i]] 0 <= i < p.len() - 1 implies has_edge(
        big,
        p[i],
        p[i + 1],
    ) by {
        assert(has_edge(small, p[i], p[i + 1]));
        let k = choose|k: int|
            0 <= k < small.len() && #[trigger] small[k].from == p[i] && small[k].to == p[i + 1];
        assert(has_edge(big, small[k].from, small[k].to));
    }
    assert(is_walk(big, p));
}

/// Taking connectors away makes no cycle.
pub proof fn lemma_acyclic_within(small: Seq<ConnectorView>, big: Seq<ConnectorView>)
    requires
        edges_within(small, big),
        acyclic(big),
    ensures
        acyclic(small),
{
    assert forall|i: int| 0 <= i < small.len() implies !reaches(
        small,
        (#[trigger] small[i]).to,
        small[i].from,
    ) by {
        if reaches(small, small[i].to, small[i].from) {
            lemma_reaches_within(small, big, small[i].to, small[i].from);
            let k = choose|k: int|
                0 <= k < big.len() && #[trigger] big[k].from == small[i].from && big[k].to
                    == small[i].to;
            assert(!reaches(big, big[k].to, big[k].from));
        }
    }
}

/// A walk through `cs` with `e` added either avoids `e`, or splits at `e` into
/// a walk to where `e` starts and a walk from where `e` ends.
proof fn lemma_walk_split(cs: Seq<ConnectorView>, e: ConnectorView, p: Seq<NodeId>, i: int)
    requires
        is_walk(cs.push(e), p),
        0 <= i < p.len(),
    ensures
        reaches(cs, p.first(), p[i]) || (reaches(cs, p.first(), e.from) && reaches(cs, e.to, p[i])),
    decreases i,
{
    let big = cs.push(e);
    if i == 0 {
        lemma_reaches_self(cs, p.first());
    } else {
        lemma_walk_split(cs, e, p, i - 1);
        let m = p[i - 1];
        let b = p[i];
        assert(has_edge(big, p[i - 1], p[i - 1 + 1]));
        let k = choose|k: int| 0 <= k < big.len() && #[trigger] big[k].from == m && big[k].to == b;
        if k < cs.len() {
            assert(big[k] == cs[k]);
            assert(has_edge(cs, m, b));
            if reaches(cs, p.first(), m) {
                lemma_reaches_then_edge(cs, p.first(), m, b);
            } else {
                lemma_reaches_then_edge(cs, e.to, m, b);
            }
        } else {
            assert(big[k] == e);
            lemma_reaches_self(cs, e.to);
        }
    }
}

/// Whatever is reached after `e` was added was reached before, or is reached
/// through `e`.
pub proof fn lemma_reaches_push(cs: Seq<ConnectorView>, e: ConnectorView, a: NodeId, b: NodeId)
    requires
        reaches(cs.push(e), a, b),
    ensures
        reaches(cs, a, b) || (reaches(cs, a, e.from) && reaches(cs, e.to, b)),
{
    let p = choose|p: Seq<NodeId>| #[trigger]
        is_walk(cs.push(e), p) && p.first() == a && p.last() == b;
    lemma_walk_split(cs, e, p, p.len() - 1);
}

/// Adding a connector whose end does not reach its start makes no cycle.
pub proof fn lemma_acyclic_push(cs: Seq<ConnectorView>, e: ConnectorView)
    requires
        acyclic(cs),
        !reaches(cs, e.to, e.from),
    ensures
        acyclic(cs.push(e)),
{
    let big = cs.push(e);
    assert forall|i: int| 0 <= i < big.len() implies !reaches(
        big,
        (#[trigger] big[i]).to,
        big[i].from,
    ) by {
        let u = big[i].from;
        let v = big[i].to;
        if reaches(big, v, u) {
            lemma_reaches_push(cs, e, v, u);
            if i < cs.len() {
                assert(big[i] == cs[i]);
                assert(!reaches(cs, cs[i].to, cs[i].from));
                assert(has_edge(cs, u, v));
                // v reaches e.from, and e.to reaches u, which is wired to v
                lemma_reaches_then_edge(cs, e.to, u, v);
                lemma_reaches_trans(cs, e.to, v, e.from);
            } else {
                assert(big[i] == e);
                if !reaches(cs, v, u) {
                    lemma_reaches_trans(cs, e.to, e.from, e.from);
                }
            }
        }
    }
}

/// The entries of `s` that are `false`.
pub open spec fn count_false(s: Seq<bool>) -> nat
    decreases s.len(),
{
    if s.len() == 0 {
        0
    } else {
        count_false(s.drop_last()) + if s.last() {
            0nat
        } else {
            1nat
        }
    }
}

/// Setting a `false` entry leaves one `false` entry fewer.
pub proof fn lemma_count_false_set(s: Seq<bool>, k: int)
    requires
        0 <= k < s.len(),
        !s[k],
    ensures
        count_false(s.update(k, true)) + 1 == count_false(s),
    decreases s.len(),
{
    let t = s.update(k, true);
    if k == s.len() - 1 {
        assert(t.drop_last() =~= s.drop_last());
    } else {
        assert(t.drop_last() =~= s.drop_last().update(k, true));
        lemma_count_false_set(s.drop_last(), k);
    }
}

/// `x` is the start, or a marked connector ends at `x`.
pub open spec fn marked_at(
    cs: Seq<ConnectorView>,
    marks: Seq<bool>,
    start: NodeId,
    x: NodeId,
) -> bool {
    x == start || exists|j: int| 0 <= j < cs.len() && #[trigger] marks[j] && cs[j].to == x
}

/// Every marked connector starts at a node that `start` reaches.
pub open spec fn marks_sound(cs: Seq<ConnectorView>, marks: Seq<bool>, start: NodeId) -> bool {
    &&& marks.len() == cs.len()
    &&& forall|j: int| 0 <= j < cs.len() && #[trigger] marks[j] ==> reaches(cs, start, cs[j].from)
}

/// Every connector that starts at the start, or where a marked one ends, is
/// marked.
pub open spec fn marks_closed(cs: Seq<ConnectorView>, marks: Seq<bool>, start: NodeId) -> bool {
    forall|k: int|
        0 <= k < cs.len() && marked_at(cs, marks, start, (#[trigger] cs[k]).from) ==> marks[k]
}

/// Under closed marks every node on a walk from the start is marked.
proof fn lemma_closed_marks_cover(
    cs: Seq<ConnectorView>,
    marks: Seq<bool>,
    start: NodeId,
    p: Seq<NodeId>,
    i: int,
)
    requires
        marks.len() == cs.len(),
        marks_closed(cs, marks, start),
        is_walk(cs, p),
        p.first() == start,
        0 <= i < p.len(),
    ensures
        marked_at(cs, marks, start, p[i]),
    decreases i,
{
    if i > 0 {
        lemma_closed_marks_cover(cs, marks, start, p, i - 1);
        assert(has_edge(cs, p[i - 1], p[i - 1 + 1]));
        let k = choose|k: int|
            0 <= k < cs.len() && #[trigger] cs[k].from == p[i - 1] && cs[k].to == p[i];
        assert(marks[k]);
    }
}

/// Sound and closed marks tell exactly what the start reaches.
proof fn lemma_marks_decide(cs: Seq<ConnectorView>, marks: Seq<bool>, start: NodeId, x: NodeId)
    requires
        marks_sound(cs, marks, start),
        marks_closed(cs, marks, start),
    ensures
        marked_at(cs, marks, start, x) == reaches(cs, start, x),
{
    if reaches(cs, start, x) {
        let p = choose|p: Seq<NodeId>| #[trigger]
            is_walk(cs, p) && p.first() == start && p.last() == x;
        lemma_closed_marks_cover(cs, marks, start, p, p.len() - 1);
    }
    if marked_at(cs, marks, start, x) {
        if x == start {
            lemma_reaches_self(cs, start);
        } else {
            let j = choose|j: int| 0 <= j < cs.len() && #[trigger] marks[j] && cs[j].to == x;
            assert(has_edge(cs, cs[j].from, cs[j].to));
            lemma_reaches_then_edge(cs, start, cs[j].from, x);
        }
    }
}

/// True when `x` is the start or a marked connector ends at `x`.
fn is_marked_at(connectors: &Vec<Connector>, marks: &Vec<bool>, start: NodeId, x: NodeId) -> (r:
    bool)
    requires
        marks@.len() == connectors@.len(),
    ensures
        r == marked_at(connector_views(connectors@), marks@, start, x),
{
    if x == start {
        return true;
    }
    let ghost cs = connector_views(connectors@);
    let mut j: usize = 0;
    while j < connectors.len()
        invariant
            j <= connectors@.len(),
            marks@.len() == connectors@.len(),
            cs == connector_views(connectors@),
            forall|i: int| 0 <= i < j ==> !(#[trigger] marks@[i] && cs[i].to == x),
        decreases connectors@.len() - j,
    {
        if marks[j] && connectors[j].to == x {
            assert(cs[j as int].to == x);
            return true;
        }
        j += 1;
    }
    false
}

/// Decides whether a walk along `connectors` leads from `start` to `target`.
pub fn can_reach(connectors: &Vec<Connector>, start: NodeId, target: NodeId) -> (r: bool)
    ensures
        r == reaches(connector_views(connectors@), start, target),
{
    let ghost cs = connector_views(connectors@);
    let n = connectors.len();
    let mut marks: Vec<bool> = Vec::new();
    while marks.len() < n
        invariant
            n == connectors@.len(),
            marks@.len() <= n,
            forall|j: int| 0 <= j < marks@.len() ==> !marks@[j],
        decreases n - marks@.len(),
    {
        marks.push(false);
    }
    let mut changed = true;
    while changed
        invariant
            n == connectors@.len(),
            cs == connector_views(connectors@),
            marks_sound(cs, marks@, start),
            !changed ==> marks_closed(cs, marks@, start),
        decreases
                count_false(marks@) + if changed {
                    1nat
                } else {
                    0nat
                },
    {
        changed = false;
        let ghost before = marks@;
        let mut k: usize = 0;
        while k < n
            invariant
                n == connectors@.len(),
                k <= n,
                cs == connector_views(connectors@),
                marks_sound(cs, marks@, start),
                before.len() == n,
                !changed ==> marks@ == before,
                !changed ==> forall|j: int|
                    0 <= j < k && marked_at(cs, marks@, start, (#[trigger] cs[j]).from)
                        ==> marks@[j],
                changed ==> count_false(marks@) < count_false(before),
            decreases n - k,
        {
            if !marks[k] {
                let source = connectors[k].from;
                assert(cs[k as int].from == source);
                if is_marked_at(connectors, &marks, start, source) {
                    proof {
                        lemma_count_false_set(marks@, k as int);
                        if source == start {
                            lemma_reaches_self(cs, start);
                        } else {
                            let j = choose|j: int|
                                0 <= j < cs.len() && #[trigger] marks@[j] && cs[j].to == source;
                            assert(has_edge(cs, cs[j].from, cs[j].to));
                            lemma_reaches_then_edge(cs, start, cs[j].from, source);
                        }
                    }
                    marks.set(k, true);
                    changed = true;
                }
            }
            k += 1;
        }
    }
    proof {
        lemma_marks_decide(cs, marks@, start, target);
    }
    is_marked_at(connectors, &marks, start, target)
}

} // verus!
