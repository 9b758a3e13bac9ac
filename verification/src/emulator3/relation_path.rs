//! Paths through the relationship graph: the table occurrences to go
//! through to get from one occurrence to another.

use std::collections::VecDeque;
use vstd::prelude::*;

verus! {

/// A relationship of a table occurrence, as the path search reads it: the
/// occurrence it leads to.
pub struct Relation {
    pub other_occurrence: u32,
}

/// A table occurrence of the relationship graph: its id and its
/// relationships.
pub struct TableOccurrence {
    pub id: u32,
    pub relations: Vec<Relation>,
}

/// The relationship graph: its table occurrences.
pub struct RelationGraph {
    pub nodes: Vec<TableOccurrence>,
}

/// The position of the first occurrence with id `id`.
pub open spec fn node_index(g: Seq<TableOccurrence>, id: u32) -> Option<int>
    decreases g.len(),
{
    if g.len() == 0 {
        None
    } else {
        match node_index(g.drop_last(), id) {
            Some(i) => Some(i),
            None => if g.last().id == id {
                Some(g.len() - 1)
            } else {
                None
            },
        }
    }
}

/// The occurrences that the relationships of occurrence `id` lead to (those
/// of the first occurrence with that id; none when there is none).
pub open spec fn targets(g: Seq<TableOccurrence>, id: u32) -> Seq<u32> {
    match node_index(g, id) {
        Some(i) => g[i].relations@.map_values(|r: Relation| r.other_occurrence),
        None => Seq::empty(),
    }
}

/// A relationship leads from occurrence `a` to occurrence `b`.
pub open spec fn edge(g: Seq<TableOccurrence>, a: u32, b: u32) -> bool {
    targets(g, a).contains(b)
}

/// `p` goes from `a` to `b` along relationships.
pub open spec fn is_walk(g: Seq<TableOccurrence>, p: Seq<u32>, a: u32, b: u32) -> bool {
    &&& p.len() > 0
    &&& p[0] == a
    &&& p.last() == b
    &&& forall|i: int| 0 <= i < p.len() - 1 ==> #[trigger] edge(g, p[i], p[i + 1])
}

/// Some walk goes from `a` to `b`.
pub open spec fn reachable(g: Seq<TableOccurrence>, a: u32, b: u32) -> bool {
    exists|p: Seq<u32>| #[trigger] is_walk(g, p, a, b)
}

/// The ids of a list of visited occurrences.
pub open spec fn ids(v: Seq<(u32, Option<u32>)>) -> Seq<u32> {
    v.map_values(|e: (u32, Option<u32>)| e.0)
}

proof fn lemma_node_index(g: Seq<TableOccurrence>, id: u32)
    ensures
        match node_index(g, id) {
            Some(i) => 0 <= i < g.len() && g[i].id == id && forall|j: int| 0 <= j < i ==> (#[trigger] g[j]).id != id,
            None => forall|j: int| 0 <= j < g.len() ==> (#[trigger] g[j]).id != id,
        },
    decreases g.len(),
{
    if g.len() > 0 {
        let d = g.drop_last();
        lemma_node_index(d, id);
        assert forall|j: int| 0 <= j < d.len() implies #[trigger] g[j] == d[j] by {}
    }
}

/// A walk followed by one more relationship is a walk.
proof fn lemma_walk_extend(g: Seq<TableOccurrence>, p: Seq<u32>, a: u32, b: u32, c: u32)
    requires
        is_walk(g, p, a, b),
        edge(g, b, c),
    ensures
        is_walk(g, p.push(c), a, c),
{
    let q = p.push(c);
    assert forall|i: int| 0 <= i < q.len() - 1 implies #[trigger] edge(g, q[i], q[i + 1]) by {
        if i < p.len() - 1 {
            assert(q[i] == p[i] && q[i + 1] == p[i + 1]);
            assert(edge(g, p[i], p[i + 1]));
        } else {
            assert(q[i] == b && q[i + 1] == c);
        }
    }
}

/// A set of occurrences that holds `a` and every occurrence that the
/// relationships of its members lead to holds the end of every walk from
/// `a`.
proof fn lemma_closed_holds_walk(g: Seq<TableOccurrence>, seen: Seq<u32>, p: Seq<u32>, a: u32, b: u32)
    requires
        is_walk(g, p, a, b),
        seen.contains(a),
        forall|x: u32, t: u32| seen.contains(x) && #[trigger] edge(g, x, t) ==> seen.contains(t),
    ensures
        seen.contains(b),
    decreases p.len(),
{
    if p.len() > 1 {
        let q = p.drop_last();
        assert forall|i: int| 0 <= i < q.len() - 1 implies #[trigger] edge(g, q[i], q[i + 1]) by {
            assert(q[i] == p[i] && q[i + 1] == p[i + 1]);
            assert(edge(g, p[i], p[i + 1]));
        }
        lemma_closed_holds_walk(g, seen, q, a, q.last());
        let k = p.len() - 2;
        assert(edge(g, p[k], p[k + 1]));
        assert(q.last() == p[k]);
    }
}

/// Distinct ids of occurrences of the graph are no more than the graph's
/// occurrences.
proof fn lemma_visited_bound(g: Seq<TableOccurrence>, s: Seq<u32>)
    requires
        s.no_duplicates(),
        forall|i: int| 0 <= i < s.len() ==> node_index(g, #[trigger] s[i]) is Some,
    ensures
        s.len() <= g.len(),
{
    let all = g.map_values(|n: TableOccurrence| n.id);
    assert forall|x: u32| s.to_set().contains(x) implies all.to_set().contains(x) by {
        let i = choose|i: int| 0 <= i < s.len() && s[i] == x;
        assert(node_index(g, s[i]) is Some);
        lemma_node_index(g, x);
        let k = node_index(g, x)->0;
        assert(all[k] == x);
    }
    s.unique_seq_to_set();
    all.lemma_cardinality_of_set();
    vstd::set_lib::lemma_len_subset(s.to_set(), all.to_set());
}

/// The position of the first occurrence with id `id`.
fn find_node(graph: &RelationGraph, id: u32) -> (r: usize)
    requires
        node_index(graph.nodes@, id) is Some,
    ensures
        node_index(graph.nodes@, id) == Some(r as int),
        r < graph.nodes@.len(),
{
    proof {
        lemma_node_index(graph.nodes@, id);
    }
    let mut i: usize = 0;
    while i < graph.nodes.len()
        invariant
            i <= graph.nodes@.len(),
            node_index(graph.nodes@, id) is Some,
            forall|j: int| 0 <= j < i ==> (#[trigger] graph.nodes@[j]).id != id,
        decreases graph.nodes.len() - i,
    {
        if graph.nodes[i].id == id {
            proof {
                lemma_node_index(graph.nodes@, id);
            }
            return i;
        }
        i = i + 1;
    }
    proof {
        lemma_node_index(graph.nodes@, id);
    }
    i
}

/// The position of the first visited entry for `id`.
fn find_visited(visited: &Vec<(u32, Option<u32>)>, id: u32) -> (r: Option<usize>)
    ensures
        match r {
            Some(k) => k < visited@.len() && visited@[k as int].0 == id && forall|j: int|
                0 <= j < k ==> (#[trigger] visited@[j]).0 != id,
            None => forall|j: int| 0 <= j < visited@.len() ==> (#[trigger] visited@[j]).0 != id,
        },
{
    let mut i: usize = 0;
    while i < visited.len()
        invariant
            i <= visited@.len(),
            forall|j: int| 0 <= j < i ==> (#[trigger] visited@[j]).0 != id,
        decreases visited.len() - i,
    {
        if visited[i].0 == id {
            return Some(i);
        }
        i = i + 1;
    }
    None
}

/// `v` in reverse order.
fn reversed(v: &Vec<u32>) -> (r: Vec<u32>)
    ensures
        r@.len() == v@.len(),
        forall|i: int| 0 <= i < v@.len() ==> #[trigger] r@[i] == v@[v@.len() - 1 - i],
{
    let mut out: Vec<u32> = Vec::new();
    let mut i: usize = v.len();
    while i > 0
        invariant
            i <= v@.len(),
            out@.len() == v@.len() - i,
            forall|j: int| 0 <= j < out@.len() ==> #[trigger] out@[j] == v@[v@.len() - 1 - j],
        decreases i,
    {
        i = i - 1;
        out.push(v[i]);
    }
    out
}

/// The search's record of the occurrences seen: the first is `node1`,
/// with no parent; each other one names as its parent an occurrence seen
/// before it that has a relationship leading to it; no id is seen twice.
#[verifier::opaque]
pub open spec fn search_tree(g: Seq<TableOccurrence>, v: Seq<(u32, Option<u32>)>, node1: u32) -> bool {
    &&& v.len() >= 1
    &&& v[0] == (node1, None::<u32>)
    &&& ids(v).no_duplicates()
    &&& forall|i: int|
        1 <= i < v.len() ==> (#[trigger] v[i]).1 is Some && (exists|j: int| 0 <= j < i && v[j].0 == v[i].1->0)
            && edge(g, v[i].1->0, v[i].0)
}

/// Every occurrence of `v` is reachable from `node1`.
#[verifier::opaque]
pub open spec fn all_reachable(g: Seq<TableOccurrence>, v: Seq<(u32, Option<u32>)>, node1: u32) -> bool {
    forall|i: int| 0 <= i < v.len() ==> reachable(g, node1, (#[trigger] v[i]).0)
}

/// The relationships of the first `h` occurrences of `v` lead to
/// occurrences of `v`.
#[verifier::opaque]
pub open spec fn closed_upto(g: Seq<TableOccurrence>, v: Seq<(u32, Option<u32>)>, h: int) -> bool {
    forall|j: int, t: u32| 0 <= j < h && #[trigger] edge(g, v[j].0, t) ==> ids(v).contains(t)
}

/// None of the first `h` occurrences of `v` is `node2`.
#[verifier::opaque]
pub open spec fn avoids(v: Seq<(u32, Option<u32>)>, h: int, node2: u32) -> bool {
    forall|j: int| 0 <= j < h ==> (#[trigger] v[j]).0 != node2
}

/// Growing the record of occurrences seen keeps what held of its start.
proof fn lemma_extend_keeps(g: Seq<TableOccurrence>, v: Seq<(u32, Option<u32>)>, w: Seq<(u32, Option<u32>)>, h: int, node2: u32)
    requires
        v.len() <= w.len(),
        w.subrange(0, v.len() as int) == v,
        0 <= h <= v.len(),
        closed_upto(g, v, h),
        avoids(v, h, node2),
    ensures
        closed_upto(g, w, h),
        avoids(w, h, node2),
        forall|i: int| 0 <= i < v.len() ==> #[trigger] w[i] == v[i],
{
    reveal(closed_upto);
    reveal(avoids);
    assert forall|i: int| 0 <= i < v.len() implies #[trigger] w[i] == v[i] by {
        assert(w.subrange(0, v.len() as int)[i] == w[i]);
    }
    assert forall|j: int, t: u32| 0 <= j < h && #[trigger] edge(g, w[j].0, t) implies ids(w).contains(t) by {
        assert(w[j] == v[j]);
        assert(ids(v).contains(t));
        let i = choose|i: int| 0 <= i < ids(v).len() && ids(v)[i] == t;
        assert(w[i] == v[i]);
        assert(ids(w)[i] == t);
    }
    assert forall|j: int| 0 <= j < h implies (#[trigger] w[j]).0 != node2 by {
        assert(w[j] == v[j]);
    }
}

/// `lv` gives each occurrence of `v` the number of occurrences on its path
/// of parents from `node1` (1 for `node1` itself); the numbers never go
/// down along `v`.
#[verifier::opaque]
pub open spec fn levels(v: Seq<(u32, Option<u32>)>, lv: Seq<int>) -> bool {
    &&& lv.len() == v.len()
    &&& lv[0] == 1
    &&& forall|i: int, j: int|
        1 <= i < v.len() && 0 <= j < v.len() && (#[trigger] v[j]).0 == (#[trigger] v[i]).1->0 ==> lv[i] == lv[j] + 1
    &&& forall|i: int, j: int| 0 <= i <= j < v.len() ==> #[trigger] lv[i] <= #[trigger] lv[j]
}

/// The occurrences from position `h` on lie within one level of each other.
#[verifier::opaque]
pub open spec fn spread(lv: Seq<int>, h: int) -> bool {
    forall|i: int, j: int| h <= i <= j < lv.len() ==> #[trigger] lv[j] <= #[trigger] lv[i] + 1
}

/// No walk from `node1` to an occurrence of `v` is shorter than its level.
#[verifier::opaque]
pub open spec fn shortest_levels(g: Seq<TableOccurrence>, v: Seq<(u32, Option<u32>)>, lv: Seq<int>, node1: u32) -> bool {
    forall|i: int, q: Seq<u32>| 0 <= i < v.len() && #[trigger] is_walk(g, q, node1, v[i].0) ==> lv[i] <= q.len()
}

/// Every occurrence that a walk from `node1` shorter than the level of
/// position `h` reaches is among the first `h` of `v`.
#[verifier::opaque]
pub open spec fn known_below(g: Seq<TableOccurrence>, v: Seq<(u32, Option<u32>)>, lv: Seq<int>, h: int, node1: u32) -> bool {
    h < v.len() ==> forall|x: u32, q: Seq<u32>|
        #[trigger] is_walk(g, q, node1, x) && q.len() < lv[h] ==> exists|j: int| 0 <= j < h && v[j].0 == x
}

/// A walk of two or more occurrences is a shorter walk followed by one
/// more relationship.
proof fn lemma_walk_split(g: Seq<TableOccurrence>, q: Seq<u32>, a: u32, b: u32)
    requires
        is_walk(g, q, a, b),
        q.len() >= 2,
    ensures
        is_walk(g, q.drop_last(), a, q[q.len() - 2]),
        edge(g, q[q.len() - 2], b),
{
    let p = q.drop_last();
    assert forall|i: int| 0 <= i < p.len() - 1 implies #[trigger] edge(g, p[i], p[i + 1]) by {
        assert(p[i] == q[i] && p[i + 1] == q[i + 1]);
        assert(edge(g, q[i], q[i + 1]));
    }
    let k = q.len() - 2;
    assert(edge(g, q[k], q[k + 1]));
}

/// An occurrence not yet seen, reached by a relationship of the occurrence
/// at position `h`, is no nearer to `node1` than one level past it.
proof fn lemma_new_is_far(
    g: Seq<TableOccurrence>,
    v: Seq<(u32, Option<u32>)>,
    lv: Seq<int>,
    h: int,
    node1: u32,
    w: u32,
    q: Seq<u32>,
)
    requires
        0 <= h < v.len(),
        v[0].0 == node1,
        closed_upto(g, v, h),
        known_below(g, v, lv, h, node1),
        !ids(v).contains(w),
        is_walk(g, q, node1, w),
    ensures
        lv[h] + 1 <= q.len(),
{
    reveal(closed_upto);
    reveal(known_below);
    if q.len() < lv[h] + 1 {
        assert(ids(v)[0] == node1);
        if q.len() == 1 {
            assert(q[0] == w);
        } else {
            lemma_walk_split(g, q, node1, w);
            let u = q[q.len() - 2];
            let p = q.drop_last();
            assert(is_walk(g, p, node1, u));
            let j = choose|j: int| 0 <= j < h && v[j].0 == u;
            assert(edge(g, v[j].0, w));
        }
    }
}

/// Recording a new occurrence `w`, reached from the occurrence at position
/// `h`, one level past it keeps each level one past its parent's.
proof fn lemma_push_parent_levels(
    before: Seq<(u32, Option<u32>)>,
    lv: Seq<int>,
    h: int,
    current: u32,
    w: u32,
)
    requires
        0 <= h < before.len(),
        before[h].0 == current,
        ids(before).no_duplicates(),
        lv.len() == before.len(),
        forall|i: int|
            1 <= i < before.len() ==> (exists|j: int| 0 <= j < i && before[j].0 == (#[trigger] before[i]).1->0),
        forall|i: int, j: int|
            1 <= i < before.len() && 0 <= j < before.len() && (#[trigger] before[j]).0 == (#[trigger] before[i]).1->0
                ==> lv[i] == lv[j] + 1,
        !ids(before).contains(w),
    ensures
        forall|i: int, j: int|
            1 <= i < before.len() + 1 && 0 <= j < before.len() + 1 && (#[trigger] before.push((w, Some(current)))[j]).0
                == (#[trigger] before.push((w, Some(current)))[i]).1->0 ==> lv.push(lv[h] + 1)[i] == lv.push(lv[h] + 1)[j] + 1,
{
    let after = before.push((w, Some(current)));
    let lv2 = lv.push(lv[h] + 1);
    let n = before.len() as int;
    assert forall|i: int, j: int|
        1 <= i < after.len() && 0 <= j < after.len() && (#[trigger] after[j]).0 == (#[trigger] after[i]).1->0 implies lv2[i]
        == lv2[j] + 1 by {
        if i < n {
            assert(after[i] == before[i]);
            if j == n {
                let k = choose|k: int| 0 <= k < i && before[k].0 == before[i].1->0;
                assert(ids(before)[k] == w);
            } else {
                assert(after[j] == before[j]);
            }
        } else {
            if j < n {
                assert(after[j] == before[j]);
                assert(ids(before)[j] == ids(before)[h]);
            } else {
                assert(ids(before)[h] == current);
            }
        }
    }
}

/// Adding a level one past that of position `h` at the end keeps the levels
/// in order and within one level of each other from `h` on.
proof fn lemma_push_order(lv: Seq<int>, h: int)
    requires
        0 <= h < lv.len(),
        forall|i: int, j: int| 0 <= i <= j < lv.len() ==> #[trigger] lv[i] <= #[trigger] lv[j],
        spread(lv, h),
    ensures
        forall|i: int, j: int| 0 <= i <= j < lv.len() + 1 ==> #[trigger] lv.push(lv[h] + 1)[i] <= #[trigger] lv.push(lv[h] + 1)[j],
        spread(lv.push(lv[h] + 1), h),
{
    reveal(spread);
    let lv2 = lv.push(lv[h] + 1);
    let n = lv.len() as int;
    assert forall|i: int, j: int| 0 <= i <= j < lv2.len() implies #[trigger] lv2[i] <= #[trigger] lv2[j] by {
        if j == n && i < n {
            if i >= h {
                assert(lv[i] <= lv[h] + 1);
            } else {
                assert(lv[i] <= lv[h]);
            }
        }
    }
    assert forall|i: int, j: int| h <= i <= j < lv2.len() implies #[trigger] lv2[j] <= #[trigger] lv2[i] + 1 by {
        if j == n && i < n {
            assert(lv[h] <= lv[i]);
        }
    }
}

/// Recording a new occurrence `w`, reached from the occurrence at position
/// `h`, one level past it keeps the levels of the record.
proof fn lemma_push_levels(
    g: Seq<TableOccurrence>,
    before: Seq<(u32, Option<u32>)>,
    lv: Seq<int>,
    h: int,
    node1: u32,
    current: u32,
    w: u32,
)
    requires
        0 <= h < before.len(),
        before[h].0 == current,
        search_tree(g, before, node1),
        levels(before, lv),
        spread(lv, h),
        !ids(before).contains(w),
    ensures
        levels(before.push((w, Some(current))), lv.push(lv[h] + 1)),
        spread(lv.push(lv[h] + 1), h),
        lv.len() == before.len(),
{
    reveal(search_tree);
    reveal(levels);
    reveal(spread);
    lemma_push_parent_levels(before, lv, h, current, w);
    lemma_push_order(lv, h);
}

/// Recording a new occurrence `w`, reached from the occurrence at position
/// `h`, one level past it keeps every level shortest.
proof fn lemma_push_shortest(
    g: Seq<TableOccurrence>,
    start: Seq<(u32, Option<u32>)>,
    lv0: Seq<int>,
    before: Seq<(u32, Option<u32>)>,
    lv: Seq<int>,
    h: int,
    node1: u32,
    current: u32,
    w: u32,
)
    requires
        0 <= h < start.len(),
        start.len() <= before.len(),
        before.subrange(0, start.len() as int) == start,
        lv.len() == before.len(),
        lv[h] == lv0[h],
        start[0].0 == node1,
        shortest_levels(g, before, lv, node1),
        closed_upto(g, start, h),
        known_below(g, start, lv0, h, node1),
        !ids(before).contains(w),
    ensures
        shortest_levels(g, before.push((w, Some(current))), lv.push(lv[h] + 1), node1),
{
    reveal(closed_upto);
    reveal(shortest_levels);
    reveal(known_below);
    let after = before.push((w, Some(current)));
    let lv2 = lv.push(lv[h] + 1);
    let n = before.len() as int;
    assert(!ids(start).contains(w)) by {
        if ids(start).contains(w) {
            let k = choose|k: int| 0 <= k < ids(start).len() && ids(start)[k] == w;
            assert(before.subrange(0, start.len() as int)[k] == before[k]);
            assert(ids(before)[k] == w);
        }
    }
    assert forall|i: int, q: Seq<u32>| 0 <= i < after.len() && #[trigger] is_walk(g, q, node1, after[i].0) implies lv2[i]
        <= q.len() by {
        if i < n {
            assert(after[i] == before[i]);
        } else {
            lemma_new_is_far(g, start, lv0, h, node1, w, q);
        }
    }
}

/// Visits the relationships of occurrence `current`, found at position
/// `node` of the graph and at position `h` of `visited`: each occurrence
/// they lead to that was not seen yet is recorded with `current` as its
/// parent and queued.
/// Recording a new occurrence `w`, reached by a relationship from the
/// occurrence at position `h`, keeps the record a search tree of
/// occurrences reachable from `node1`, grown at its end.
proof fn lemma_push_tree(
    g: Seq<TableOccurrence>,
    start: Seq<(u32, Option<u32>)>,
    before: Seq<(u32, Option<u32>)>,
    h: int,
    node1: u32,
    current: u32,
    w: u32,
)
    requires
        0 <= h < start.len(),
        start.len() <= before.len(),
        before.subrange(0, start.len() as int) == start,
        start[h].0 == current,
        search_tree(g, before, node1),
        all_reachable(g, before, node1),
        !ids(before).contains(w),
        edge(g, current, w),
    ensures
        search_tree(g, before.push((w, Some(current))), node1),
        all_reachable(g, before.push((w, Some(current))), node1),
        before.push((w, Some(current))).subrange(0, start.len() as int) == start,
        ids(before.push((w, Some(current)))) == ids(before).push(w),
{
    reveal(search_tree);
    reveal(all_reachable);
    let after = before.push((w, Some(current)));
    assert(ids(after) =~= ids(before).push(w));
    assert(before.subrange(0, start.len() as int)[h] == before[h]);
    assert(reachable(g, node1, before[h].0));
    let p = choose|p: Seq<u32>| #[trigger] is_walk(g, p, node1, current);
    lemma_walk_extend(g, p, node1, current, w);
    assert forall|i: int| 1 <= i < after.len() implies (#[trigger] after[i]).1 is Some && (exists|j: int|
        0 <= j < i && after[j].0 == after[i].1->0) && edge(g, after[i].1->0, after[i].0) by {
        if i < before.len() {
            assert(after[i] == before[i]);
            let j = choose|j: int| 0 <= j < i && before[j].0 == before[i].1->0;
            assert(after[j] == before[j]);
        } else {
            assert(after[h] == before[h]);
        }
    }
    assert forall|i: int| 0 <= i < after.len() implies reachable(g, node1, (#[trigger] after[i]).0) by {
        if i < before.len() {
            assert(after[i] == before[i]);
        }
    }
    assert(after.subrange(0, start.len() as int) =~= before.subrange(0, start.len() as int));
}

/// The relationship targets looked at so far stay recorded when the next
/// one is recorded.
proof fn lemma_push_covers(ts: Seq<u32>, k: int, before: Seq<(u32, Option<u32>)>, w: u32)
    requires
        0 <= k < ts.len(),
        ts[k] == w,
        forall|kk: int| 0 <= kk < k ==> ids(before).contains(#[trigger] ts[kk]),
    ensures
        forall|kk: int| 0 <= kk < k + 1 ==> ids(before).push(w).contains(#[trigger] ts[kk]),
{
    assert forall|kk: int| 0 <= kk < k + 1 implies ids(before).push(w).contains(#[trigger] ts[kk]) by {
        if kk < k {
            let i = choose|i: int| 0 <= i < ids(before).len() && ids(before)[i] == ts[kk];
            assert(ids(before).push(w)[i] == ts[kk]);
        } else {
            assert(ids(before).push(w)[ids(before).len() as int] == w);
        }
    }
}

fn visit_relations(
    graph: &RelationGraph,
    node: usize,
    current: u32,
    visited: &mut Vec<(u32, Option<u32>)>,
    queue: &mut VecDeque<u32>,
    Ghost(node1): Ghost<u32>,
    Ghost(h): Ghost<int>,
    Ghost(lv0): Ghost<Seq<int>>,
) -> (lv1: Ghost<Seq<int>>)
    requires
        levels(old(visited)@, lv0),
        spread(lv0, h),
        shortest_levels(graph.nodes@, old(visited)@, lv0, node1),
        closed_upto(graph.nodes@, old(visited)@, h),
        known_below(graph.nodes@, old(visited)@, lv0, h, node1),
        node < graph.nodes@.len(),
        node_index(graph.nodes@, current) == Some(node as int),
        search_tree(graph.nodes@, old(visited)@, node1),
        all_reachable(graph.nodes@, old(visited)@, node1),
        0 <= h < old(visited)@.len(),
        old(visited)@[h].0 == current,
        old(queue)@ == ids(old(visited)@).subrange(h + 1, old(visited)@.len() as int),
    ensures
        search_tree(graph.nodes@, final(visited)@, node1),
        all_reachable(graph.nodes@, final(visited)@, node1),
        old(visited)@.len() <= final(visited)@.len(),
        final(visited)@.subrange(0, old(visited)@.len() as int) == old(visited)@,
        final(queue)@ == ids(final(visited)@).subrange(h + 1, final(visited)@.len() as int),
        forall|t: u32| #[trigger] edge(graph.nodes@, current, t) ==> ids(final(visited)@).contains(t),
        levels(final(visited)@, lv1@),
        spread(lv1@, h),
        shortest_levels(graph.nodes@, final(visited)@, lv1@, node1),
        lv1@.subrange(0, old(visited)@.len() as int) == lv0,
{
    let ghost g = graph.nodes@;
    let ghost start = visited@;
    let ghost mut lv = lv0;
    assert(lv0.len() == start.len()) by {
        reveal(levels);
    }
    assert(lv.subrange(0, start.len() as int) =~= lv0);
    let n = graph.nodes[node].relations.len();
    let ghost ts = targets(g, current);
    assert(ts.len() == n);
    assert(reachable(g, node1, start[h].0)) by {
        reveal(all_reachable);
    }
    assert(start[0].0 == node1) by {
        reveal(search_tree);
    }
    let mut k: usize = 0;
    while k < n
        invariant
            g == graph.nodes@,
            node < g.len(),
            node_index(g, current) == Some(node as int),
            ts == targets(g, current),
            ts.len() == n,
            n == g[node as int].relations@.len(),
            reachable(g, node1, current),
            search_tree(g, visited@, node1),
            all_reachable(g, visited@, node1),
            0 <= h < start.len(),
            start[h].0 == current,
            start.len() <= visited@.len(),
            visited@.subrange(0, start.len() as int) == start,
            queue@ == ids(visited@).subrange(h + 1, visited@.len() as int),
            k <= n,
            forall|kk: int| 0 <= kk < k ==> ids(visited@).contains(#[trigger] ts[kk]),
            levels(visited@, lv),
            spread(lv, h),
            shortest_levels(g, visited@, lv, node1),
            lv.subrange(0, start.len() as int) == lv0,
            lv0.len() == start.len(),
            lv.len() == visited@.len(),
            closed_upto(g, start, h),
            known_below(g, start, lv0, h, node1),
            start[0].0 == node1,
        decreases n - k,
    {
        let other = graph.nodes[node].relations[k].other_occurrence;
        assert(ts[k as int] == other);
        match find_visited(visited, other) {
            None => {
                let ghost before = visited@;
                proof {
                    assert(!ids(before).contains(other)) by {
                        if ids(before).contains(other) {
                            let i = choose|i: int| 0 <= i < ids(before).len() && ids(before)[i] == other;
                            assert(before[i].0 == other);
                        }
                    }
                    assert(before.subrange(0, start.len() as int)[h] == before[h]);
                    assert(lv.subrange(0, start.len() as int)[h] == lv[h]);
                    lemma_push_levels(g, before, lv, h, node1, current, other);
                    lemma_push_shortest(g, start, lv0, before, lv, h, node1, current, other);
                    assert(lv.push(lv[h] + 1).subrange(0, start.len() as int) =~= lv.subrange(0, start.len() as int));
                    lv = lv.push(lv[h] + 1);
                }
                queue.push_back(other);
                visited.push((other, Some(current)));
                proof {
                    assert(edge(g, current, other)) by {
                        assert(ts.contains(other));
                    }
                    lemma_push_tree(g, start, before, h, node1, current, other);
                    lemma_push_covers(ts, k as int, before, other);
                    assert(queue@ =~= ids(visited@).subrange(h + 1, visited@.len() as int));
                }
            },
            Some(i) => {
                assert(ids(visited@)[i as int] == other);
            },
        }
        k = k + 1;
    }
    assert forall|t: u32| #[trigger] edge(g, current, t) implies ids(visited@).contains(t) by {
        assert(ts.contains(t));
        let kk = choose|kk: int| 0 <= kk < ts.len() && ts[kk] == t;
        assert(ids(visited@).contains(ts[kk]));
    }
    Ghost(lv)
}

/// Follows the parents recorded in `visited` back from the occurrence at
/// position `idx`, `node2`, to `node1`; gives the occurrences met from
/// `node2` back to `node1`.
fn trace_back(
    visited: &Vec<(u32, Option<u32>)>,
    node2: u32,
    Ghost(g): Ghost<Seq<TableOccurrence>>,
    Ghost(node1): Ghost<u32>,
    Ghost(idx): Ghost<int>,
    Ghost(lv): Ghost<Seq<int>>,
) -> (back: Vec<u32>)
    requires
        search_tree(g, visited@, node1),
        levels(visited@, lv),
        0 <= idx < visited@.len(),
        visited@[idx].0 == node2,
    ensures
        back@.len() >= 1,
        back@[0] == node2,
        back@.last() == node1,
        forall|i: int| 0 <= i < back@.len() - 1 ==> #[trigger] edge(g, back@[i + 1], back@[i]),
        back@.len() == lv[idx],
{
    reveal(search_tree);
    reveal(levels);
    let mut back: Vec<u32> = Vec::new();
    back.push(node2);
    let mut cur = node2;
    let ghost mut at: int = idx;
    loop
        invariant_except_break
            search_tree(g, visited@, node1),
            levels(visited@, lv),
            0 <= at < visited@.len(),
            visited@[at].0 == cur,
            back@.len() + lv[at] == lv[idx] + 1,
        invariant
            back@.len() >= 1,
            back@[0] == node2,
            back@.last() == cur,
            forall|i: int| 0 <= i < back@.len() - 1 ==> #[trigger] edge(g, back@[i + 1], back@[i]),
        ensures
            cur == node1,
            back@.len() == lv[idx],
        decreases at,
    {
        proof {
            reveal(search_tree);
            reveal(levels);
        }
        match find_visited(visited, cur) {
            Some(k) => {
                assert(ids(visited@)[k as int] == ids(visited@)[at]);
                assert(k as int == at);
                match visited[k].1 {
                    Some(par) => {
                        let ghost j = choose|j: int| 0 <= j < k && visited@[j].0 == par;
                        let ghost before = back@;
                        back.push(par);
                        proof {
                            assert forall|i: int| 0 <= i < back@.len() - 1 implies #[trigger] edge(g, back@[i + 1], back@[i]) by {
                                if i < before.len() - 1 {
                                    assert(back@[i] == before[i] && back@[i + 1] == before[i + 1]);
                                } else {
                                    assert(back@[i] == cur && back@[i + 1] == par);
                                }
                            }
                            assert(at >= 1) by {
                                if at == 0 {
                                    assert(visited@[0].1 is None);
                                }
                            }
                            assert(lv[at] == lv[j] + 1);
                            at = j;
                        }
                        cur = par;
                    },
                    None => {
                        assert(k == 0);
                        assert(lv[0] == 1);
                        break;
                    },
                }
            },
            None => {
                assert(visited@[at].0 == cur);
                assert(false);
                break;
            },
        }
    }
    back
}

/// The occurrences traced back from `node2` to `node1`, read the other way,
/// are a walk from `node1` to `node2`.
proof fn lemma_reversed_walk(g: Seq<TableOccurrence>, back: Seq<u32>, r: Seq<u32>, node1: u32, node2: u32)
    requires
        back.len() >= 1,
        back[0] == node2,
        back.last() == node1,
        forall|i: int| 0 <= i < back.len() - 1 ==> #[trigger] edge(g, back[i + 1], back[i]),
        r.len() == back.len(),
        forall|i: int| 0 <= i < back.len() ==> #[trigger] r[i] == back[back.len() - 1 - i],
    ensures
        is_walk(g, r, node1, node2),
{
    let n = back.len();
    assert(r[0] == back[n - 1]);
    assert(r[n - 1] == back[0]);
    assert forall|i: int| 0 <= i < r.len() - 1 implies #[trigger] edge(g, r[i], r[i + 1]) by {
        let m = n - 2 - i;
        assert(edge(g, back[m + 1], back[m]));
        assert(r[i] == back[m + 1]);
        assert(r[i + 1] == back[m]);
    }
}

/// After the relationships of the occurrence at position `h` were visited,
/// the first `h + 1` occurrences are closed and avoid `node2`, and the
/// record still fits in the graph.
proof fn lemma_after_visit(
    g: Seq<TableOccurrence>,
    before: Seq<(u32, Option<u32>)>,
    after: Seq<(u32, Option<u32>)>,
    h: int,
    node1: u32,
    node2: u32,
)
    requires
        0 <= h < before.len(),
        before.len() <= after.len(),
        after.subrange(0, before.len() as int) == before,
        closed_upto(g, before, h),
        avoids(before, h, node2),
        before[h].0 != node2,
        forall|t: u32| #[trigger] edge(g, before[h].0, t) ==> ids(after).contains(t),
    ensures
        closed_upto(g, after, h + 1),
        avoids(after, h + 1, node2),
{
    reveal(closed_upto);
    reveal(avoids);
    lemma_extend_keeps(g, before, after, h, node2);
    assert(after[h] == before[h]);
    assert forall|j: int, t: u32| 0 <= j < h + 1 && #[trigger] edge(g, after[j].0, t) implies ids(after).contains(t) by {
        if j == h {
            assert(after[h] == before[h]);
        }
    }
}

/// The occurrences seen all lie in the graph, so there are no more of them
/// than the graph has.
proof fn lemma_record_fits(g: Seq<TableOccurrence>, v: Seq<(u32, Option<u32>)>, node1: u32)
    requires
        search_tree(g, v, node1),
        all_reachable(g, v, node1),
        forall|x: u32| #[trigger] reachable(g, node1, x) ==> node_index(g, x) is Some,
    ensures
        v.len() <= g.len(),
{
    reveal(search_tree);
    reveal(all_reachable);
    assert forall|i: int| 0 <= i < ids(v).len() implies node_index(g, #[trigger] ids(v)[i]) is Some by {
        assert(reachable(g, node1, v[i].0));
    }
    lemma_visited_bound(g, ids(v));
}

/// Once the occurrence at position `h` was visited, every occurrence that a
/// walk from `node1` shorter than the level of position `h + 1` reaches is
/// among the first `h + 1`.
proof fn lemma_known_next(
    g: Seq<TableOccurrence>,
    before: Seq<(u32, Option<u32>)>,
    lv0: Seq<int>,
    after: Seq<(u32, Option<u32>)>,
    lv: Seq<int>,
    h: int,
    node1: u32,
)
    requires
        0 <= h < before.len(),
        before.len() <= after.len(),
        after.subrange(0, before.len() as int) == before,
        lv.subrange(0, before.len() as int) == lv0,
        search_tree(g, after, node1),
        known_below(g, before, lv0, h, node1),
        closed_upto(g, after, h + 1),
        shortest_levels(g, after, lv, node1),
        levels(after, lv),
        spread(lv, h),
    ensures
        known_below(g, after, lv, h + 1, node1),
{
    reveal(search_tree);
    reveal(closed_upto);
    reveal(levels);
    reveal(spread);
    reveal(shortest_levels);
    reveal(known_below);
    assert(lv[h] == lv0[h]) by {
        assert(lv.subrange(0, before.len() as int)[h] == lv[h]);
    }
    if h + 1 < after.len() {
        assert forall|x: u32, q: Seq<u32>| #[trigger] is_walk(g, q, node1, x) && q.len() < lv[h + 1] implies exists|j: int|
            0 <= j < h + 1 && after[j].0 == x by {
            if q.len() < lv0[h] {
                let j = choose|j: int| 0 <= j < h && before[j].0 == x;
                assert(after.subrange(0, before.len() as int)[j] == after[j]);
                assert(after[j].0 == x);
            } else if q.len() == 1 {
                assert(q[0] == x);
                assert(after[0].0 == x);
            } else {
                assert(lv[h + 1] <= lv[h] + 1);
                lemma_walk_split(g, q, node1, x);
                let u = q[q.len() - 2];
                let p = q.drop_last();
                assert(is_walk(g, p, node1, u));
                let j = choose|j: int| 0 <= j < h && before[j].0 == u;
                assert(after.subrange(0, before.len() as int)[j] == after[j]);
                assert(edge(g, after[j].0, x));
                let m = choose|m: int| 0 <= m < ids(after).len() && ids(after)[m] == x;
                assert(after[m].0 == x);
                assert(lv[m] <= q.len());
                if m >= h + 1 {
                    assert(lv[h + 1] <= lv[m]);
                }
            }
        }
    }
}

/// The occurrences to go through from `node1` to `node2`, both included,
/// found by a breadth-first search along the relationships: a walk from
/// `node1` to `node2` that no other walk between them is shorter than;
/// empty when no walk leads from `node1` to `node2`.
pub fn get_path(node1: u32, node2: u32, graph: &RelationGraph) -> (r: Vec<u32>)
    requires
        node_index(graph.nodes@, node1) is Some,
        forall|v: u32| #[trigger] reachable(graph.nodes@, node1, v) ==> node_index(graph.nodes@, v) is Some,
    ensures
        r@.len() > 0 ==> is_walk(graph.nodes@, r@, node1, node2),
        r@.len() > 0 ==> forall|q: Seq<u32>| #[trigger] is_walk(graph.nodes@, q, node1, node2) ==> r@.len() <= q.len(),
        r@.len() == 0 ==> !reachable(graph.nodes@, node1, node2),
{
    let ghost g = graph.nodes@;
    let mut queue: VecDeque<u32> = VecDeque::new();
    let mut visited: Vec<(u32, Option<u32>)> = Vec::new();
    let _start = find_node(graph, node1);
    let path: Vec<u32> = Vec::new();
    visited.push((node1, None));
    queue.push_back(node1);
    let ghost mut h: int = 0;
    let ghost mut lv: Seq<int> = seq![1int];
    proof {
        assert(is_walk(g, seq![node1], node1, node1));
        assert(ids(visited@) =~= seq![node1]);
        assert(queue@ =~= ids(visited@).subrange(0, 1));
        assert(search_tree(g, visited@, node1)) by {
            reveal(search_tree);
        }
        assert(all_reachable(g, visited@, node1)) by {
            reveal(all_reachable);
        }
        assert(closed_upto(g, visited@, 0)) by {
            reveal(closed_upto);
        }
        assert(avoids(visited@, 0, node2)) by {
            reveal(avoids);
        }
        assert(levels(visited@, lv)) by {
            reveal(levels);
        }
        assert(spread(lv, 0)) by {
            reveal(spread);
        }
        assert(shortest_levels(g, visited@, lv, node1)) by {
            reveal(shortest_levels);
        }
        assert(known_below(g, visited@, lv, 0, node1)) by {
            reveal(known_below);
        }
    }
    while queue.len() > 0
        invariant
            g == graph.nodes@,
            forall|v: u32| #[trigger] reachable(g, node1, v) ==> node_index(g, v) is Some,
            search_tree(g, visited@, node1),
            all_reachable(g, visited@, node1),
            visited@.len() <= g.len(),
            0 <= h <= visited@.len(),
            queue@ == ids(visited@).subrange(h, visited@.len() as int),
            closed_upto(g, visited@, h),
            avoids(visited@, h, node2),
            levels(visited@, lv),
            spread(lv, h),
            shortest_levels(g, visited@, lv, node1),
            known_below(g, visited@, lv, h, node1),
        decreases 2 * g.len() - h - visited@.len(),
    {
        let ghost q0 = queue@;
        let current = queue.pop_front().unwrap();
        assert(queue@ =~= ids(visited@).subrange(h + 1, visited@.len() as int));
        assert(ids(visited@)[h] == visited@[h].0);
        assert(current == visited@[h].0);
        assert(reachable(g, node1, visited@[h].0)) by {
            reveal(all_reachable);
        }
        let node = find_node(graph, current);
        if current == node2 {
            let back = trace_back(&visited, node2, Ghost(g), Ghost(node1), Ghost(h), Ghost(lv));
            let r = reversed(&back);
            proof {
                lemma_reversed_walk(g, back@, r@, node1, node2);
                assert forall|q: Seq<u32>| #[trigger] is_walk(g, q, node1, node2) implies r@.len() <= q.len() by {
                    reveal(shortest_levels);
                    assert(is_walk(g, q, node1, visited@[h].0));
                }
            }
            return r;
        }
        let ghost before = visited@;
        let ghost lv_before = lv;
        let lv1 = visit_relations(graph, node, current, &mut visited, &mut queue, Ghost(node1), Ghost(h), Ghost(lv));
        proof {
            lv = lv1@;
            lemma_after_visit(g, before, visited@, h, node1, node2);
            lemma_record_fits(g, visited@, node1);
            assert(visited@.subrange(0, before.len() as int)[0] == visited@[0]);
            lemma_known_next(g, before, lv_before, visited@, lv, h, node1);
            assert(spread(lv, h + 1)) by {
                reveal(spread);
            }
            h = h + 1;
        }
    }
    proof {
        reveal(closed_upto);
        reveal(avoids);
        reveal(search_tree);
        if reachable(g, node1, node2) {
            let p = choose|p: Seq<u32>| #[trigger] is_walk(g, p, node1, node2);
            let seen = ids(visited@);
            assert(seen[0] == node1);
            assert forall|x: u32, t: u32| seen.contains(x) && #[trigger] edge(g, x, t) implies seen.contains(t) by {
                let j = choose|j: int| 0 <= j < seen.len() && seen[j] == x;
                assert(visited@[j].0 == x);
            }
            lemma_closed_holds_walk(g, seen, p, node1, node2);
            let j = choose|j: int| 0 <= j < seen.len() && seen[j] == node2;
            assert(visited@[j].0 == node2);
        }
    }
    path
}

} // verus!
