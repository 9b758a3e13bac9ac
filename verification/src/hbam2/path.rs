//! Keys of the HBAM B+tree: a path is a sequence of byte-string components.
//!
//! Paths are ordered component by component, each component ordered
//! lexicographically as a byte string. Two paths whose shared components are
//! all equal compare as `Equal`, so a path is "equal" to each of its prefixes.

use std::cmp::Ordering;
use vstd::prelude::*;
use vstd::std_specs::cmp::{PartialEqSpecImpl, PartialOrdSpecImpl};

verus! {

/// Lexicographic order of two byte strings from index `i` on:
/// -1 when `a` sorts first, 1 when `b` sorts first, 0 when they are equal.
pub open spec fn bytes_order_from(a: Seq<u8>, b: Seq<u8>, i: int) -> int
    decreases a.len() - i,
{
    if i < 0 || i >= a.len() || i >= b.len() {
        if a.len() == b.len() {
            0
        } else if a.len() < b.len() {
            -1
        } else {
            1
        }
    } else if a[i] < b[i] {
        -1
    } else if a[i] > b[i] {
        1
    } else {
        bytes_order_from(a, b, i + 1)
    }
}

/// Lexicographic order of two byte strings (the order of `Vec<u8>`).
pub open spec fn bytes_order(a: Seq<u8>, b: Seq<u8>) -> int {
    bytes_order_from(a, b, 0)
}

/// Order of two paths decided by their components from index `i` on, over
/// the components both paths have: the first component that differs decides;
/// when none differs the result is 0.
pub open spec fn components_order_from(p: Seq<Seq<u8>>, q: Seq<Seq<u8>>, i: int) -> int
    decreases p.len() - i,
{
    if i < 0 || i >= p.len() || i >= q.len() {
        0
    } else if bytes_order(p[i], q[i]) != 0 {
        bytes_order(p[i], q[i])
    } else {
        components_order_from(p, q, i + 1)
    }
}

/// Order of two paths over the components both have.
pub open spec fn components_order(p: Seq<Seq<u8>>, q: Seq<Seq<u8>>) -> int {
    components_order_from(p, q, 0)
}

/// The order of paths used by `partial_cmp`: the empty path sorts before every
/// other path; otherwise the shared components decide, and a path compares
/// equal to its prefixes.
pub open spec fn path_order(p: Seq<Seq<u8>>, q: Seq<Seq<u8>>) -> int {
    if p.len() == 0 && q.len() == 0 {
        0
    } else if p.len() == 0 {
        -1
    } else if q.len() == 0 {
        1
    } else {
        components_order(p, q)
    }
}

/// The equality of paths used by `==`: all shared components are equal.
/// The empty path is equal to every path.
pub open spec fn paths_equal(p: Seq<Seq<u8>>, q: Seq<Seq<u8>>) -> bool {
    components_order(p, q) == 0
}

/// `p` is a prefix of `q`, component by component.
pub open spec fn is_prefix_path(p: Seq<Seq<u8>>, q: Seq<Seq<u8>>) -> bool {
    &&& p.len() <= q.len()
    &&& forall|i: int| 0 <= i < p.len() ==> #[trigger] p[i] == q[i]
}

/// A path without its last component; the empty path stays empty.
pub open spec fn drop_last_component(p: Seq<Seq<u8>>) -> Seq<Seq<u8>> {
    if p.len() == 0 {
        p
    } else {
        p.drop_last()
    }
}

/// A key of the HBAM B+tree.
#[derive(Debug, Clone)]
pub struct HBAMPath {
    pub components: Vec<Vec<u8>>,
}

impl View for HBAMPath {
    type V = Seq<Seq<u8>>;

    open spec fn view(&self) -> Seq<Seq<u8>> {
        self.components.deep_view()
    }
}

/// Compares two byte strings lexicographically: -1, 0 or 1.
pub fn compare_bytes(a: &[u8], b: &[u8]) -> (r: i8)
    ensures
        r as int == bytes_order(a@, b@),
{
    let mut i: usize = 0;
    while i < a.len() && i < b.len()
        invariant
            i <= a@.len(),
            i <= b@.len(),
            bytes_order(a@, b@) == bytes_order_from(a@, b@, i as int),
        decreases a.len() - i,
    {
        if a[i] < b[i] {
            return -1;
        } else if a[i] > b[i] {
            return 1;
        }
        i = i + 1;
    }
    if a.len() == b.len() {
        0
    } else if a.len() < b.len() {
        -1
    } else {
        1
    }
}

/// Compares the shared components of two component lists: -1, 0 or 1.
pub fn compare_components(p: &Vec<Vec<u8>>, q: &Vec<Vec<u8>>) -> (r: i8)
    ensures
        r as int == components_order(p.deep_view(), q.deep_view()),
{
    let ghost pv = p.deep_view();
    let ghost qv = q.deep_view();
    let mut i: usize = 0;
    while i < p.len() && i < q.len()
        invariant
            i <= p.len(),
            i <= q.len(),
            pv == p.deep_view(),
            qv == q.deep_view(),
            components_order(pv, qv) == components_order_from(pv, qv, i as int),
        decreases p.len() - i,
    {
        let c = compare_bytes(p[i].as_slice(), q[i].as_slice());
        proof {
            assert(pv[i as int] == p@[i as int]@);
            assert(qv[i as int] == q@[i as int]@);
        }
        if c != 0 {
            return c;
        }
        i = i + 1;
    }
    0
}

impl HBAMPath {
    /// Builds a path from its components, copying each one.
    pub fn new(components_: Vec<&[u8]>) -> (r: Self)
        ensures
            r@.len() == components_@.len(),
            forall|i: int| 0 <= i < r@.len() ==> #[trigger] r@[i] == components_@[i]@,
    {
        let mut components: Vec<Vec<u8>> = Vec::new();
        let mut i: usize = 0;
        while i < components_.len()
            invariant
                i <= components_@.len(),
                components@.len() == i,
                forall|j: int| 0 <= j < i ==> #[trigger] components@[j]@ == components_@[j]@,
            decreases components_.len() - i,
        {
            components.push(vstd::slice::slice_to_vec(components_[i]));
            i = i + 1;
        }
        HBAMPath { components }
    }

    /// A copy of this path.
    pub fn copy(&self) -> (r: HBAMPath)
        ensures
            r@ == self@,
    {
        let mut components: Vec<Vec<u8>> = Vec::new();
        let mut i: usize = 0;
        while i < self.components.len()
            invariant
                i <= self.components@.len(),
                components@.len() == i,
                forall|j: int| 0 <= j < i ==> #[trigger] components@[j]@ == self.components@[j]@,
            decreases self.components.len() - i,
        {
            components.push(vstd::slice::slice_to_vec(self.components[i].as_slice()));
            i = i + 1;
        }
        let r = HBAMPath { components };
        assert(r@ =~= self@);
        r
    }

    /// Appends a component.
    pub fn push_component(&mut self, c: Vec<u8>)
        ensures
            final(self)@ == old(self)@.push(c@),
    {
        let ghost cv = c@;
        assert(c.deep_view() =~= cv);
        self.components.push(c);
        assert(self@ =~= old(self)@.push(cv));
    }

    /// Removes the last component, if there is one.
    pub fn pop_component(&mut self)
        ensures
            final(self)@ == drop_last_component(old(self)@),
    {
        self.components.pop();
        assert(self@ =~= drop_last_component(old(self)@));
    }

    /// Whether this path is a prefix of `contained`.
    pub fn contains(&self, contained: &HBAMPath) -> (r: bool)
        ensures
            r == is_prefix_path(self@, contained@),
    {
        if self.components.len() > contained.components.len() {
            return false;
        }
        let mut idx: usize = 0;
        while idx < self.components.len()
            invariant
                idx <= self.components@.len(),
                self.components@.len() <= contained.components@.len(),
                forall|j: int| 0 <= j < idx ==> #[trigger] self@[j] == contained@[j],
            decreases self.components.len() - idx,
        {
            let c = compare_bytes(self.components[idx].as_slice(), contained.components[idx].as_slice());
            proof {
                assert(self@[idx as int] == self.components@[idx as int]@);
                assert(contained@[idx as int] == contained.components@[idx as int]@);
                lemma_bytes_order_zero_iff_equal(self@[idx as int], contained@[idx as int]);
            }
            if c != 0 {
                return false;
            }
            idx = idx + 1;
        }
        true
    }

    /// The order of this path against `other`: -1, 0 or 1 (see `path_order`).
    pub fn order(&self, other: &HBAMPath) -> (r: i8)
        ensures
            r as int == path_order(self@, other@),
    {
        let a = self.components.len();
        let b = other.components.len();
        if a == 0 && b == 0 {
            0
        } else if a == 0 {
            -1
        } else if b == 0 {
            1
        } else {
            compare_components(&self.components, &other.components)
        }
    }

    /// Whether all shared components of the two paths are equal.
    pub fn equals(&self, other: &HBAMPath) -> (r: bool)
        ensures
            r == paths_equal(self@, other@),
    {
        compare_components(&self.components, &other.components) == 0
    }
}

/// Two byte strings have order 0 exactly when they are equal.
pub proof fn lemma_bytes_order_zero_iff_equal(a: Seq<u8>, b: Seq<u8>)
    ensures
        (bytes_order(a, b) == 0) <==> (a == b),
{
    assert(a.subrange(0, 0) =~= b.subrange(0, 0));
    lemma_bytes_order_from_zero(a, b, 0);
    if a == b {
        lemma_bytes_order_from_refl(a, 0);
    }
}

proof fn lemma_bytes_order_from_refl(a: Seq<u8>, i: int)
    requires
        0 <= i,
    ensures
        bytes_order_from(a, a, i) == 0,
    decreases a.len() - i,
{
    if i < a.len() {
        lemma_bytes_order_from_refl(a, i + 1);
    }
}

proof fn lemma_bytes_order_from_zero(a: Seq<u8>, b: Seq<u8>, i: int)
    requires
        0 <= i <= a.len(),
        i <= b.len(),
        a.subrange(0, i) == b.subrange(0, i),
    ensures
        (bytes_order_from(a, b, i) == 0) ==> a == b,
    decreases a.len() - i,
{
    if i < a.len() && i < b.len() && a[i] == b[i] {
        assert(a.subrange(0, i + 1) =~= a.subrange(0, i).push(a[i]));
        assert(b.subrange(0, i + 1) =~= b.subrange(0, i).push(b[i]));
        lemma_bytes_order_from_zero(a, b, i + 1);
    } else if i >= a.len() && i >= b.len() {
        assert(a =~= a.subrange(0, i));
        assert(b =~= b.subrange(0, i));
    }
}


proof fn lemma_bytes_order_from_antisym(a: Seq<u8>, b: Seq<u8>, i: int)
    requires
        0 <= i,
    ensures
        bytes_order_from(a, b, i) == -bytes_order_from(b, a, i),
    decreases a.len() - i,
{
    if i < a.len() && i < b.len() && a[i] == b[i] {
        lemma_bytes_order_from_antisym(a, b, i + 1);
    }
}

proof fn lemma_bytes_order_from_trans(a: Seq<u8>, b: Seq<u8>, c: Seq<u8>, i: int)
    requires
        0 <= i,
        bytes_order_from(a, b, i) == -1,
        bytes_order_from(b, c, i) == -1,
    ensures
        bytes_order_from(a, c, i) == -1,
    decreases a.len() - i,
{
    if i < a.len() && i < b.len() && i < c.len() && a[i] == b[i] && b[i] == c[i] {
        lemma_bytes_order_from_trans(a, b, c, i + 1);
    }
}

proof fn lemma_bytes_order_range(a: Seq<u8>, b: Seq<u8>, i: int)
    requires
        0 <= i,
    ensures
        -1 <= bytes_order_from(a, b, i) <= 1,
    decreases a.len() - i,
{
    if i < a.len() && i < b.len() && a[i] == b[i] {
        lemma_bytes_order_range(a, b, i + 1);
    }
}

proof fn lemma_components_order_from_refl(p: Seq<Seq<u8>>, i: int)
    requires
        0 <= i,
    ensures
        components_order_from(p, p, i) == 0,
    decreases p.len() - i,
{
    if i < p.len() {
        lemma_bytes_order_from_refl(p[i], 0);
        lemma_components_order_from_refl(p, i + 1);
    }
}

proof fn lemma_components_order_from_antisym(p: Seq<Seq<u8>>, q: Seq<Seq<u8>>, i: int)
    requires
        0 <= i,
    ensures
        components_order_from(p, q, i) == -components_order_from(q, p, i),
    decreases p.len() - i,
{
    if i < p.len() && i < q.len() {
        lemma_bytes_order_from_antisym(p[i], q[i], 0);
        lemma_components_order_from_antisym(p, q, i + 1);
    }
}

proof fn lemma_components_order_from_range(p: Seq<Seq<u8>>, q: Seq<Seq<u8>>, i: int)
    requires
        0 <= i,
    ensures
        -1 <= components_order_from(p, q, i) <= 1,
    decreases p.len() - i,
{
    if i < p.len() && i < q.len() {
        lemma_bytes_order_range(p[i], q[i], 0);
        lemma_components_order_from_range(p, q, i + 1);
    }
}

proof fn lemma_components_order_from_prefix(p: Seq<Seq<u8>>, q: Seq<Seq<u8>>, i: int)
    requires
        0 <= i,
        is_prefix_path(p, q),
    ensures
        components_order_from(p, q, i) == 0,
    decreases p.len() - i,
{
    if i < p.len() {
        lemma_bytes_order_from_refl(p[i], 0);
        lemma_components_order_from_prefix(p, q, i + 1);
    }
}

proof fn lemma_components_order_from_trans(
    p: Seq<Seq<u8>>,
    q: Seq<Seq<u8>>,
    r: Seq<Seq<u8>>,
    i: int,
)
    requires
        0 <= i,
        components_order_from(p, q, i) == -1,
        components_order_from(q, r, i) == -1,
    ensures
        components_order_from(p, r, i) == -1,
    decreases p.len() - i,
{
    lemma_bytes_order_range(p[i], q[i], 0);
    lemma_bytes_order_range(q[i], r[i], 0);
    let pq = bytes_order(p[i], q[i]);
    let qr = bytes_order(q[i], r[i]);
    lemma_bytes_order_zero_iff_equal(p[i], q[i]);
    lemma_bytes_order_zero_iff_equal(q[i], r[i]);
    if pq == 0 && qr == 0 {
        lemma_components_order_from_trans(p, q, r, i + 1);
    } else if pq == 0 {
        assert(p[i] == q[i]);
    } else if qr == 0 {
        assert(q[i] == r[i]);
    } else {
        lemma_bytes_order_from_trans(p[i], q[i], r[i], 0);
    }
}

/// Every path is equal to itself, and its order against itself is 0.
pub proof fn lemma_path_reflexive(p: Seq<Seq<u8>>)
    ensures
        path_order(p, p) == 0,
        paths_equal(p, p),
{
    lemma_components_order_from_refl(p, 0);
}

/// Comparing in the other direction gives the opposite order, and equality
/// of paths is symmetric.
pub proof fn lemma_path_antisymmetric(p: Seq<Seq<u8>>, q: Seq<Seq<u8>>)
    ensures
        path_order(p, q) == -path_order(q, p),
        paths_equal(p, q) == paths_equal(q, p),
        -1 <= path_order(p, q) <= 1,
{
    lemma_components_order_from_antisym(p, q, 0);
    lemma_components_order_from_range(p, q, 0);
}

/// Order and equality agree: order 0 implies equality, and two non-empty
/// paths that are equal have order 0. (The empty path is equal to every
/// path, yet sorts before every non-empty path.)
pub proof fn lemma_path_order_matches_equality(p: Seq<Seq<u8>>, q: Seq<Seq<u8>>)
    ensures
        path_order(p, q) == 0 ==> paths_equal(p, q),
        (p.len() > 0 && q.len() > 0) ==> (path_order(p, q) == 0 <==> paths_equal(p, q)),
        p.len() == 0 ==> paths_equal(p, q),
{
}

/// A path is equal to every path it is a prefix of.
pub proof fn lemma_prefix_paths_equal(p: Seq<Seq<u8>>, q: Seq<Seq<u8>>)
    requires
        is_prefix_path(p, q),
    ensures
        paths_equal(p, q),
        paths_equal(q, p),
{
    lemma_components_order_from_prefix(p, q, 0);
    lemma_components_order_from_antisym(p, q, 0);
}

/// The strict order of paths is transitive.
pub proof fn lemma_path_less_transitive(p: Seq<Seq<u8>>, q: Seq<Seq<u8>>, r: Seq<Seq<u8>>)
    requires
        path_order(p, q) == -1,
        path_order(q, r) == -1,
    ensures
        path_order(p, r) == -1,
{
    if p.len() > 0 {
        lemma_components_order_from_trans(p, q, r, 0);
    }
}


impl PartialEq for HBAMPath {
    fn eq(&self, other: &Self) -> (r: bool) {
        self.equals(other)
    }
}

impl PartialEqSpecImpl for HBAMPath {
    open spec fn obeys_eq_spec() -> bool {
        true
    }

    open spec fn eq_spec(&self, other: &HBAMPath) -> bool {
        paths_equal(self@, other@)
    }
}

impl Eq for HBAMPath {
}

/// The `Ordering` that `path_order` stands for.
pub open spec fn order_to_ordering(o: int) -> Ordering {
    if o < 0 {
        Ordering::Less
    } else if o == 0 {
        Ordering::Equal
    } else {
        Ordering::Greater
    }
}

impl PartialOrd for HBAMPath {
    fn partial_cmp(&self, other: &Self) -> (r: Option<Ordering>) {
        let o = self.order(other);
        if o < 0 {
            Some(Ordering::Less)
        } else if o == 0 {
            Some(Ordering::Equal)
        } else {
            Some(Ordering::Greater)
        }
    }
}

impl PartialOrdSpecImpl for HBAMPath {
    open spec fn obeys_partial_cmp_spec() -> bool {
        true
    }

    open spec fn partial_cmp_spec(&self, other: &HBAMPath) -> Option<Ordering> {
        Some(order_to_ordering(path_order(self@, other@)))
    }
}

} // verus!
