//! Paths of the first HBAM reader: each component is a decimal number
//! written as a string.

use std::cmp::Ordering;
use vstd::prelude::*;
use vstd::std_specs::cmp::PartialOrdSpecImpl;
use super::numbers::{index_int, parse_usize, read_usize};

verus! {

#[derive(PartialEq, Eq, Ord, Debug, Clone)]
pub struct HBAMPath {
    pub components: Vec<String>,
}

/// The text of each component.
pub open spec fn component_views(cs: Seq<String>) -> Seq<Seq<char>> {
    cs.map_values(|s: String| s@)
}

/// The numbers that all components of a path stand for, or `None` when one
/// of them is not a decimal number that fits in a `usize`.
pub open spec fn parse_all(cs: Seq<Seq<char>>) -> Option<Seq<usize>>
    decreases cs.len(),
{
    if cs.len() == 0 {
        Some(Seq::empty())
    } else {
        match (parse_all(cs.drop_last()), parse_usize(cs.last())) {
            (Some(p), Some(n)) => Some(p.push(n)),
            _ => None,
        }
    }
}

/// The order of two lists of numbers decided from index `i` on, over the
/// indices of the first list: the first pair that differs decides; when the
/// second list runs out first, or no pair differs, they are equal.
pub open spec fn numbers_order_from(p: Seq<usize>, q: Seq<usize>, i: int) -> Ordering
    decreases p.len() - i,
{
    if i < 0 || i >= p.len() || i >= q.len() {
        Ordering::Equal
    } else if p[i] > q[i] {
        Ordering::Greater
    } else if p[i] < q[i] {
        Ordering::Less
    } else {
        numbers_order_from(p, q, i + 1)
    }
}

/// The result of comparing two paths: the empty path sorts first; otherwise
/// the components are read as numbers and compared in turn (`None` when a
/// component is not such a number).
pub open spec fn path_partial_order(a: Seq<Seq<char>>, b: Seq<Seq<char>>) -> Option<Ordering> {
    if a.len() == 0 && b.len() == 0 {
        Some(Ordering::Equal)
    } else if a.len() == 0 {
        Some(Ordering::Less)
    } else if b.len() == 0 {
        Some(Ordering::Greater)
    } else {
        match (parse_all(a), parse_all(b)) {
            (Some(p), Some(q)) => Some(numbers_order_from(p, q, 0)),
            _ => None,
        }
    }
}

/// `o` seen from the other side: less and greater swap.
pub open spec fn flipped(o: Option<Ordering>) -> Option<Ordering> {
    match o {
        Some(Ordering::Less) => Some(Ordering::Greater),
        Some(Ordering::Greater) => Some(Ordering::Less),
        other => other,
    }
}

proof fn lemma_numbers_flip(p: Seq<usize>, q: Seq<usize>, i: int)
    requires
        0 <= i,
    ensures
        Some(numbers_order_from(p, q, i)) == flipped(Some(numbers_order_from(q, p, i))),
    decreases p.len() - i,
{
    if i < p.len() && i < q.len() && p[i] == q[i] {
        lemma_numbers_flip(p, q, i + 1);
    }
}

proof fn lemma_numbers_prefix(p: Seq<usize>, q: Seq<usize>, i: int)
    requires
        0 <= i,
        q.len() <= p.len(),
        forall|j: int| 0 <= j < q.len() ==> #[trigger] q[j] == p[j],
    ensures
        numbers_order_from(p, q, i) == Ordering::Equal,
    decreases p.len() - i,
{
    if i < p.len() && i < q.len() {
        lemma_numbers_prefix(p, q, i + 1);
    }
}

proof fn lemma_parse_all_take(cs: Seq<Seq<char>>, k: int)
    requires
        0 <= k <= cs.len(),
        parse_all(cs) is Some,
    ensures
        parse_all(cs.subrange(0, k)) == Some(parse_all(cs)->0.subrange(0, k)),
        parse_all(cs)->0.len() == cs.len(),
    decreases cs.len(),
{
    if cs.len() > 0 {
        lemma_parse_all_take(cs.drop_last(), if k == cs.len() { k - 1 } else { k });
        if k == cs.len() {
            assert(cs.subrange(0, k) =~= cs);
            assert(parse_all(cs)->0.subrange(0, k) =~= parse_all(cs)->0);
        } else {
            assert(cs.drop_last().subrange(0, k) =~= cs.subrange(0, k));
            assert(parse_all(cs.drop_last())->0.subrange(0, k) =~= parse_all(cs)->0.subrange(0, k));
        }
    } else {
        assert(cs.subrange(0, k) =~= cs);
    }
}

/// A path whose components all read as numbers, or the empty path,
/// compares equal to itself.
pub proof fn lemma_order_reflexive(a: Seq<Seq<char>>)
    requires
        a.len() == 0 || parse_all(a) is Some,
    ensures
        path_partial_order(a, a) == Some(Ordering::Equal),
{
    if a.len() > 0 {
        let p = parse_all(a)->0;
        lemma_numbers_prefix(p, p, 0);
    }
}

/// Comparing two paths the other way round swaps less and greater, and
/// keeps equal and incomparable.
pub proof fn lemma_order_flips(a: Seq<Seq<char>>, b: Seq<Seq<char>>)
    ensures
        path_partial_order(a, b) == flipped(path_partial_order(b, a)),
{
    if a.len() > 0 && b.len() > 0 {
        if let (Some(p), Some(q)) = (parse_all(a), parse_all(b)) {
            lemma_numbers_flip(p, q, 0);
        }
    }
}

/// A path compares equal to each of its non-empty prefixes, when its
/// components all read as numbers.
pub proof fn lemma_prefix_compares_equal(a: Seq<Seq<char>>, k: int)
    requires
        0 < k <= a.len(),
        parse_all(a) is Some,
    ensures
        path_partial_order(a, a.subrange(0, k)) == Some(Ordering::Equal),
{
    lemma_parse_all_take(a, k);
    let p = parse_all(a)->0;
    let q = p.subrange(0, k);
    lemma_numbers_prefix(p, q, 0);
}

impl View for HBAMPath {
    type V = Seq<Seq<char>>;

    open spec fn view(&self) -> Seq<Seq<char>> {
        component_views(self.components@)
    }
}

impl HBAMPath {
    /// A path with the given components.
    pub fn new(components: Vec<&str>) -> (r: Self)
        ensures
            r@ == components@.map_values(|s: &str| s@),
    {
        let mut out: Vec<String> = Vec::new();
        let mut i: usize = 0;
        while i < components.len()
            invariant
                i <= components@.len(),
                out@.len() == i,
                forall|j: int| 0 <= j < i ==> #[trigger] out@[j]@ == components@[j]@,
            decreases components.len() - i,
        {
            out.push(components[i].to_owned());
            i = i + 1;
        }
        assert(component_views(out@) =~= components@.map_values(|s: &str| s@));
        HBAMPath { components: out }
    }
}

fn numbers_of(cs: &Vec<String>) -> (r: Option<Vec<usize>>)
    ensures
        match r {
            Some(v) => parse_all(component_views(cs@)) == Some(v@),
            None => parse_all(component_views(cs@)) is None,
        },
{
    let ghost all = component_views(cs@);
    let mut out: Vec<usize> = Vec::new();
    let mut i: usize = 0;
    while i < cs.len()
        invariant
            i <= cs@.len(),
            all == component_views(cs@),
            parse_all(all.subrange(0, i as int)) == Some(out@),
        decreases cs.len() - i,
    {
        assert(all.subrange(0, i as int + 1).drop_last() =~= all.subrange(0, i as int));
        match read_usize(&cs[i]) {
            Some(n) => {
                out.push(n);
            },
            None => {
                proof {
                    lemma_parse_all_prefix(all, i as int + 1);
                }
                return None;
            },
        }
        i = i + 1;
    }
    assert(all.subrange(0, i as int) =~= all);
    Some(out)
}

/// A path whose components do not all parse has no prefix beyond the
/// failing one that parses, and neither does the whole path.
proof fn lemma_parse_all_prefix(cs: Seq<Seq<char>>, k: int)
    requires
        0 < k <= cs.len(),
        parse_all(cs.subrange(0, k)) is None,
    ensures
        parse_all(cs) is None,
    decreases cs.len() - k,
{
    if k < cs.len() {
        assert(cs.subrange(0, k + 1).drop_last() =~= cs.subrange(0, k));
        lemma_parse_all_prefix(cs, k + 1);
    } else {
        assert(cs.subrange(0, k) =~= cs);
    }
}

impl PartialOrd for HBAMPath {
    fn partial_cmp(&self, other: &Self) -> (r: Option<Ordering>) {
        if self.components.len() == 0 && other.components.len() == 0 {
            return Some(Ordering::Equal);
        }
        if self.components.len() == 0 {
            return Some(Ordering::Less);
        }
        if other.components.len() == 0 {
            return Some(Ordering::Greater);
        }
        let path1 = match numbers_of(&self.components) {
            Some(p) => p,
            None => return None,
        };
        let path2 = match numbers_of(&other.components) {
            Some(p) => p,
            None => return None,
        };
        let mut i: usize = 0;
        assert(path_partial_order(self@, other@) == Some(numbers_order_from(path1@, path2@, 0)));
        while i < path1.len()
            invariant
                i <= path1@.len(),
                path_partial_order(self@, other@) == Some(numbers_order_from(path1@, path2@, 0)),
                numbers_order_from(path1@, path2@, 0) == numbers_order_from(path1@, path2@, index_int(i)),
            decreases path1.len() - i,
        {
            if i >= path2.len() {
                return Some(Ordering::Equal);
            }
            if path1[i] > path2[i] {
                return Some(Ordering::Greater);
            } else if path1[i] < path2[i] {
                return Some(Ordering::Less);
            }
            i = i + 1;
        }
        Some(Ordering::Equal)
    }
}

impl PartialOrdSpecImpl for HBAMPath {
    open spec fn obeys_partial_cmp_spec() -> bool {
        true
    }

    open spec fn partial_cmp_spec(&self, other: &HBAMPath) -> Option<Ordering> {
        path_partial_order(self@, other@)
    }
}

} // verus!
