//! A best-fit allocator of sub-ranges of a growable range of integers.
//!
//! The allocator keeps a list of free ranges. Allocation picks the smallest free range that
//! can hold the request (the first one among equally small ones) and carves the request off its
//! front; deallocation returns a range to the list and merges touching neighbours.
use std::ops::Range;
use vstd::prelude::*;

verus! {

/// Unsigned integer types that can delimit the ranges handed out by a [`RangeAlloc`].
pub trait RangeUnit: Copy + Sized {
    /// The mathematical value of an element.
    spec fn value(self) -> nat;

    /// The largest value the type can hold.
    spec fn max_value() -> nat;

    proof fn value_bounded(self)
        ensures
            self.value() <= Self::max_value(),
    ;

    proof fn value_injective(self, other: Self)
        ensures
            self.value() == other.value() ==> self == other,
    ;

    fn zero() -> (r: Self)
        ensures
            r.value() == 0,
    ;

    fn less(&self, other: &Self) -> (r: bool)
        ensures
            r == (self.value() < other.value()),
    ;

    fn same(&self, other: &Self) -> (r: bool)
        ensures
            r == (self.value() == other.value()),
    ;

    fn plus(self, other: Self) -> (r: Self)
        requires
            self.value() + other.value() <= Self::max_value(),
        ensures
            r.value() == self.value() + other.value(),
    ;

    fn minus(self, other: Self) -> (r: Self)
        requires
            other.value() <= self.value(),
        ensures
            r.value() == self.value() - other.value(),
    ;
}

impl RangeUnit for u32 {
    open spec fn value(self) -> nat {
        self as nat
    }

    open spec fn max_value() -> nat {
        u32::MAX as nat
    }

    proof fn value_bounded(self) {
    }

    proof fn value_injective(self, other: Self) {
    }

    fn zero() -> (r: Self) {
        0
    }

    fn less(&self, other: &Self) -> (r: bool) {
        *self < *other
    }

    fn same(&self, other: &Self) -> (r: bool) {
        *self == *other
    }

    fn plus(self, other: Self) -> (r: Self) {
        self + other
    }

    fn minus(self, other: Self) -> (r: Self) {
        self - other
    }
}

impl RangeUnit for u64 {
    open spec fn value(self) -> nat {
        self as nat
    }

    open spec fn max_value() -> nat {
        u64::MAX as nat
    }

    proof fn value_bounded(self) {
    }

    proof fn value_injective(self, other: Self) {
    }

    fn zero() -> (r: Self) {
        0
    }

    fn less(&self, other: &Self) -> (r: bool) {
        *self < *other
    }

    fn same(&self, other: &Self) -> (r: bool) {
        *self == *other
    }

    fn plus(self, other: Self) -> (r: Self) {
        self + other
    }

    fn minus(self, other: Self) -> (r: Self) {
        self - other
    }
}

impl RangeUnit for usize {
    open spec fn value(self) -> nat {
        self as nat
    }

    open spec fn max_value() -> nat {
        usize::MAX as nat
    }

    proof fn value_bounded(self) {
    }

    proof fn value_injective(self, other: Self) {
    }

    fn zero() -> (r: Self) {
        0
    }

    fn less(&self, other: &Self) -> (r: bool) {
        *self < *other
    }

    fn same(&self, other: &Self) -> (r: bool) {
        *self == *other
    }

    fn plus(self, other: Self) -> (r: Self) {
        self + other
    }

    fn minus(self, other: Self) -> (r: Self) {
        self - other
    }
}

/// First point of a range.
pub open spec fn lo<T: RangeUnit>(r: Range<T>) -> int {
    r.start.value() as int
}

/// One past the last point of a range.
pub open spec fn hi<T: RangeUnit>(r: Range<T>) -> int {
    r.end.value() as int
}

/// Number of points in a range.
pub open spec fn span<T: RangeUnit>(r: Range<T>) -> int {
    hi(r) - lo(r)
}

/// The points of a range.
pub open spec fn points<T: RangeUnit>(r: Range<T>) -> Set<int> {
    Set::new(|p: int| lo(r) <= p < hi(r))
}

/// The integers `p` with `a <= p < b`.
pub open spec fn interval(a: int, b: int) -> Set<int> {
    Set::new(|p: int| a <= p < b)
}

/// The points covered by at least one range of a list.
pub open spec fn covered<T: RangeUnit>(rs: Seq<Range<T>>) -> Set<int> {
    Set::new(|p: int| exists|i: int| 0 <= i < rs.len() && lo(#[trigger] rs[i]) <= p < hi(rs[i]))
}

/// Two ranges share no point.
pub open spec fn ranges_disjoint<T: RangeUnit>(a: Range<T>, b: Range<T>) -> bool {
    hi(a) <= lo(a) || hi(b) <= lo(b) || hi(a) <= lo(b) || hi(b) <= lo(a)
}

/// No two ranges of a list share a point.
pub open spec fn pairwise_disjoint<T: RangeUnit>(rs: Seq<Range<T>>) -> bool {
    forall|i: int, j: int|
        0 <= i < rs.len() && 0 <= j < rs.len() && i != j ==> ranges_disjoint(rs[i], rs[j])
}

/// Range `i` of the list is the one best fit chooses for a request of `len` points: it can hold
/// the request, no range that can hold it is smaller, and every range before it that can hold
/// it is strictly larger.
pub open spec fn is_best_fit<T: RangeUnit>(rs: Seq<Range<T>>, len: int, i: int) -> bool {
    &&& 0 <= i < rs.len()
    &&& span(rs[i]) >= len
    &&& forall|j: int| 0 <= j < rs.len() && span(rs[j]) >= len ==> span(rs[i]) <= span(rs[j])
    &&& forall|j: int| 0 <= j < i && span(rs[j]) >= len ==> span(rs[i]) < span(rs[j])
}

/// Some range of the list can hold a request of `len` points.
pub open spec fn any_fit<T: RangeUnit>(rs: Seq<Range<T>>, len: int) -> bool {
    exists|j: int| 0 <= j < rs.len() && span(rs[j]) >= len
}

/// The index best fit chooses, when there is one.
pub open spec fn best_fit_index<T: RangeUnit>(rs: Seq<Range<T>>, len: int) -> int {
    choose|i: int| is_best_fit(rs, len, i)
}

/// Ranges sorted by ascending start, with no range ending exactly where its successor starts.
pub open spec fn is_defragmented<T: RangeUnit>(rs: Seq<Range<T>>) -> bool {
    &&& forall|i: int, j: int| 0 <= i <= j < rs.len() ==> lo(rs[i]) <= lo(rs[j])
    &&& forall|i: int| 0 <= i < rs.len() - 1 ==> hi(#[trigger] rs[i]) != lo(rs[i + 1])
}

/// Every range of the list holds at least one point.
pub open spec fn all_nonempty<T: RangeUnit>(rs: Seq<Range<T>>) -> bool {
    forall|i: int| 0 <= i < rs.len() ==> lo(#[trigger] rs[i]) < hi(rs[i])
}

/// The canonical free list of a set of points: non-empty ranges in ascending order, each
/// separated from the next by at least one point that is not free. A set of points has at
/// most one such list (see [`law_canonical_unique`]).
pub open spec fn is_canonical<T: RangeUnit>(rs: Seq<Range<T>>) -> bool {
    &&& all_nonempty(rs)
    &&& forall|i: int, j: int| 0 <= i < j < rs.len() ==> hi(#[trigger] rs[i]) < lo(#[trigger] rs[j])
}

/// A sorted, disjoint list of non-empty ranges in which no range ends where the next starts is
/// canonical.
proof fn lemma_defragmented_canonical<T: RangeUnit>(rs: Seq<Range<T>>)
    requires
        is_defragmented(rs),
        pairwise_disjoint(rs),
        all_nonempty(rs),
    ensures
        is_canonical(rs),
{
    assert forall|i: int, j: int| 0 <= i < j < rs.len() implies hi(#[trigger] rs[i]) < lo(#[trigger] rs[j]) by {
        let (a, b, c) = (rs[i], rs[i + 1], rs[j]);
        assert(ranges_disjoint(a, b));
        assert(lo(a) <= lo(b));
        assert(lo(a) < hi(a) && lo(b) < hi(b));
        assert(hi(a) != lo(b));
        if j > i + 1 {
            assert(ranges_disjoint(b, c));
            assert(lo(b) <= lo(c));
            assert(lo(c) < hi(c));
        }
    }
}

/// A canonical list has no two overlapping ranges.
proof fn lemma_canonical_disjoint<T: RangeUnit>(rs: Seq<Range<T>>)
    requires
        is_canonical(rs),
    ensures
        pairwise_disjoint(rs),
{
    assert forall|i: int, j: int| 0 <= i < rs.len() && 0 <= j < rs.len() && i != j implies ranges_disjoint(rs[i], rs[j]) by {
        if i < j {
            assert(hi(rs[i]) < lo(rs[j]));
        } else {
            assert(hi(rs[j]) < lo(rs[i]));
        }
    }
}

/// The points of a canonical list past its first range are those of the rest of the list.
proof fn lemma_canonical_tail<T: RangeUnit>(rs: Seq<Range<T>>)
    requires
        is_canonical(rs),
        rs.len() > 0,
    ensures
        is_canonical(rs.subrange(1, rs.len() as int)),
        covered(rs.subrange(1, rs.len() as int)) == covered(rs).filter(|p: int| p >= hi(rs[0])),
        forall|p: int| #[trigger] covered(rs).contains(p) ==> lo(rs[0]) <= p,
{
    let t = rs.subrange(1, rs.len() as int);
    assert forall|i: int, j: int| 0 <= i < j < t.len() implies hi(#[trigger] t[i]) < lo(#[trigger] t[j]) by {
        assert(hi(rs[i + 1]) < lo(rs[j + 1]));
    }
    assert forall|i: int| 0 <= i < t.len() implies lo(#[trigger] t[i]) < hi(t[i]) by {
        assert(lo(rs[i + 1]) < hi(rs[i + 1]));
    }
    let f = covered(rs).filter(|p: int| p >= hi(rs[0]));
    assert forall|p: int| covered(t).contains(p) implies f.contains(p) by {
        let k = choose|k: int| 0 <= k < t.len() && lo(#[trigger] t[k]) <= p < hi(t[k]);
        assert(lo(rs[k + 1]) <= p < hi(rs[k + 1]));
        assert(hi(rs[0]) < lo(rs[k + 1]));
    }
    assert forall|p: int| f.contains(p) implies covered(t).contains(p) by {
        let k = choose|k: int| 0 <= k < rs.len() && lo(#[trigger] rs[k]) <= p < hi(rs[k]);
        assert(k != 0);
        assert(lo(t[k - 1]) <= p < hi(t[k - 1]));
    }
    assert(covered(t) =~= f);
    assert forall|p: int| #[trigger] covered(rs).contains(p) implies lo(rs[0]) <= p by {
        let k = choose|k: int| 0 <= k < rs.len() && lo(#[trigger] rs[k]) <= p < hi(rs[k]);
        if k > 0 {
            assert(hi(rs[0]) < lo(rs[k]));
        }
    }
}

/// Two canonical lists that cover the same points are the same list: the canonical free list
/// of a set of points is unique.
pub proof fn law_canonical_unique<T: RangeUnit>(a: Seq<Range<T>>, b: Seq<Range<T>>)
    requires
        is_canonical(a),
        is_canonical(b),
        covered(a) == covered(b),
    ensures
        a == b,
    decreases a.len(),
{
    if a.len() == 0 {
        if b.len() > 0 {
            assert(covered(b).contains(lo(b[0])));
        }
        assert(a =~= b);
    } else if b.len() == 0 {
        assert(covered(a).contains(lo(a[0])));
    } else {
        lemma_canonical_tail(a);
        lemma_canonical_tail(b);
        assert(covered(a).contains(lo(a[0])));
        assert(covered(b).contains(lo(b[0])));
        assert(lo(a[0]) == lo(b[0]));
        if hi(a[0]) < hi(b[0]) {
            let p = hi(a[0]);
            assert(covered(b).contains(p));
            let k = choose|k: int| 0 <= k < a.len() && lo(#[trigger] a[k]) <= p < hi(a[k]);
            if k > 0 {
                assert(hi(a[0]) < lo(a[k]));
            }
        }
        if hi(b[0]) < hi(a[0]) {
            let p = hi(b[0]);
            assert(covered(a).contains(p));
            let k = choose|k: int| 0 <= k < b.len() && lo(#[trigger] b[k]) <= p < hi(b[k]);
            if k > 0 {
                assert(hi(b[0]) < lo(b[k]));
            }
        }
        assert(hi(a[0]) == hi(b[0]));
        a[0].start.value_injective(b[0].start);
        a[0].end.value_injective(b[0].end);
        let ta = a.subrange(1, a.len() as int);
        let tb = b.subrange(1, b.len() as int);
        assert(covered(a).filter(|p: int| p >= hi(a[0])) =~= covered(b).filter(|p: int| p >= hi(b[0])));
        law_canonical_unique(ta, tb);
        assert(a =~= seq![a[0]] + ta);
        assert(b =~= seq![b[0]] + tb);
    }
}

/// The list after best fit carved `len` points off the front of range `i`.
pub open spec fn carve<T: RangeUnit>(rs: Seq<Range<T>>, i: int, len: int, rest: Range<T>) -> Seq<
    Range<T>,
> {
    if span(rs[i]) == len {
        rs.remove(i)
    } else {
        rs.update(i, rest)
    }
}

/// At most one index is the best fit.
pub proof fn lemma_best_fit_unique<T: RangeUnit>(rs: Seq<Range<T>>, len: int, i: int, j: int)
    requires
        is_best_fit(rs, len, i),
        is_best_fit(rs, len, j),
    ensures
        i == j,
{
    if i < j {
        assert(span(rs[j]) < span(rs[i]));
    } else if j < i {
        assert(span(rs[i]) < span(rs[j]));
    }
}

/// A best fit exists exactly when some range can hold the request.
pub proof fn lemma_best_fit_exists<T: RangeUnit>(rs: Seq<Range<T>>, len: int)
    requires
        any_fit(rs, len),
    ensures
        is_best_fit(rs, len, best_fit_index(rs, len)),
    decreases rs.len(),
{
    let n = rs.len() as int;
    let prefix = rs.take(n - 1);
    assert forall|j: int| 0 <= j < n - 1 implies prefix[j] == rs[j] by {}
    if any_fit(prefix, len) {
        lemma_best_fit_exists(prefix, len);
        let b = best_fit_index(prefix, len);
        if span(rs[n - 1]) >= len && span(rs[n - 1]) < span(prefix[b]) {
            assert(is_best_fit(rs, len, n - 1));
        } else {
            assert(is_best_fit(rs, len, b));
        }
    } else {
        let w = choose|j: int| 0 <= j < rs.len() && span(#[trigger] rs[j]) >= len;
        if w < n - 1 {
            assert(span(prefix[w]) >= len);
        }
        assert(is_best_fit(rs, len, n - 1));
    }
}

/// Error returned when no free range can hold an allocation request.
#[derive(Debug, Copy, Clone, PartialEq, Eq)]
pub struct RangeAllocError;

impl RangeAllocError {
    /// Human-readable description of the error.
    pub fn message(&self) -> (r: &'static str)
        ensures
            r@ == "range allocation failed"@,
    {
        "range allocation failed"
    }
}

/// The free range best fit picked for a request: its position in the free list and its bounds.
#[derive(Debug)]
#[non_exhaustive]
pub struct BestFit<T> {
    index: usize,
    /// The chosen range; verified code reads it through [`BestFit::chosen_range`], whose
    /// contract ties it to [`BestFit::bounds`].
    pub range: Range<T>,
}

impl<T: RangeUnit> BestFit<T> {
    /// Position of the chosen range in the allocator's free list.
    pub closed spec fn position(&self) -> int {
        self.index as int
    }

    /// Bounds of the chosen range.
    pub closed spec fn bounds(&self) -> Range<T> {
        self.range
    }

    /// The chosen range: the public `range` field.
    pub fn chosen_range(&self) -> (r: &Range<T>)
        ensures
            *r == self.bounds(),
    {
        &self.range
    }
}

/// Hands out sub-ranges of `full_range`, tracking the free ones in `free_ranges`.
#[derive(Debug)]
pub struct RangeAlloc<T> {
    full_range: Range<T>,
    free_ranges: Vec<Range<T>>,
}

impl<T: RangeUnit> RangeAlloc<T> {
    /// The whole range the allocator manages.
    pub closed spec fn full(&self) -> Range<T> {
        self.full_range
    }

    /// The free ranges, in list order.
    pub closed spec fn free(&self) -> Seq<Range<T>> {
        self.free_ranges@
    }

    /// The free points.
    pub open spec fn free_points(&self) -> Set<int> {
        covered(self.free())
    }

    /// Well-formedness: every range is ordered and every free range lies in the full range.
    pub open spec fn wf(&self) -> bool {
        &&& lo(self.full()) <= hi(self.full())
        &&& forall|i: int|
            0 <= i < self.free().len() ==> lo(self.full()) <= lo(#[trigger] self.free()[i]) <= hi(
                self.free()[i],
            ) <= hi(self.full())
    }

    /// The free list describes every free point once: no two free ranges overlap.
    pub open spec fn disjoint(&self) -> bool {
        pairwise_disjoint(self.free())
    }

    /// Creates an allocator whose only free range is `full_range`.
    pub fn new(full_range: Range<T>) -> (r: Self)
        requires
            lo(full_range) <= hi(full_range),
        ensures
            r.wf(),
            r.disjoint(),
            r.full() == full_range,
            r.free() == seq![full_range],
            lo(full_range) < hi(full_range) ==> is_canonical(r.free()),
    {
        let copy = Range { start: full_range.start, end: full_range.end };
        let mut free_ranges = Vec::new();
        free_ranges.push(full_range);
        let r = Self { full_range: copy, free_ranges };
        assert(r.free() =~= seq![r.full()]);
        r
    }

    /// Creates an allocator over `full_range` whose free list is `free_ranges`, or `None` when
    /// some free range is reversed or lies outside `full_range`.
    pub fn from_parts(full_range: Range<T>, free_ranges: Vec<Range<T>>) -> (r: Option<Self>)
        ensures
            r is Some <==> (lo(full_range) <= hi(full_range) && forall|i: int|
                0 <= i < free_ranges@.len() ==> lo(full_range) <= lo(#[trigger] free_ranges@[i])
                    <= hi(free_ranges@[i]) <= hi(full_range)),
            r matches Some(a) ==> a.wf() && a.full() == full_range && a.free() == free_ranges@,
    {
        if full_range.end.less(&full_range.start) {
            return None;
        }
        let mut i: usize = 0;
        while i < free_ranges.len()
            invariant
                i <= free_ranges@.len(),
                lo(full_range) <= hi(full_range),
                forall|k: int|
                    0 <= k < i ==> lo(full_range) <= lo(#[trigger] free_ranges@[k]) <= hi(
                        free_ranges@[k],
                    ) <= hi(full_range),
            decreases free_ranges@.len() - i,
        {
            let r = &free_ranges[i];
            if r.start.less(&full_range.start) || r.end.less(&r.start) || full_range.end.less(
                &r.end,
            ) {
                return None;
            }
            i += 1;
        }
        Some(Self { full_range, free_ranges })
    }

    /// The whole range the allocator manages.
    pub fn full_range(&self) -> (r: &Range<T>)
        ensures
            *r == self.full(),
    {
        &self.full_range
    }

    /// The free ranges, in list order.
    pub fn free_ranges(&self) -> (r: &[Range<T>])
        ensures
            r@ == self.free(),
    {
        self.free_ranges.as_slice()
    }

    /// Finds the free range best fit picks for `len` points: the smallest range that can hold
    /// them, the first one among equally small ones. `None` when `len` exceeds the end of the
    /// full range or no free range is large enough.
    pub fn find_best_fit(&self, len: T) -> (r: Option<BestFit<T>>)
        requires
            self.wf(),
            len.value() > 0,
        ensures
            len.value() > hi(self.full()) ==> r is None,
            len.value() <= hi(self.full()) ==> (r is Some <==> any_fit(self.free(), len.value() as int)),
            r matches Some(b) ==> is_best_fit(self.free(), len.value() as int, b.position())
                && b.bounds() == self.free()[b.position()],
    {
        if self.full_range.end.less(&len) {
            return None;
        }
        let ghost n = len.value() as int;
        let ghost rs = self.free();
        let mut best: Option<usize> = None;
        let mut i: usize = 0;
        while i < self.free_ranges.len()
            invariant_except_break
                self.wf(),
                rs == self.free(),
                n == len.value(),
                i <= rs.len(),
                forall|j: int| 0 <= j < i ==> span(#[trigger] rs[j]) != n,
                best is None ==> forall|j: int| 0 <= j < i ==> span(#[trigger] rs[j]) < n,
                best matches Some(b) ==> is_best_fit(rs.take(i as int), n, b as int),
            ensures
                best is None ==> !any_fit(rs, n),
                best matches Some(b) ==> is_best_fit(rs, n, b as int) || (i == rs.len()
                    && is_best_fit(rs.take(i as int), n, b as int)),
            decreases rs.len() - i,
        {
            let free_range = &self.free_ranges[i];
            let free_range_len = free_range.end.minus(free_range.start);
            if free_range_len.less(&len) {
                proof {
                    if best is Some {
                        let b = best->0 as int;
                        assert(is_best_fit(rs.take(i + 1), n, b)) by {
                            assert(forall|j: int| 0 <= j < i ==> rs.take(i + 1)[j] == rs.take(i as int)[j]);
                        }
                    }
                }
                i += 1;
                continue;
            }
            if free_range_len.same(&len) {
                best = Some(i);
                proof {
                    assert(forall|j: int| 0 <= j < i && span(rs[j]) >= n ==> span(rs[j]) > n);
                }
                break;
            }
            match best {
                Some(bri) => {
                    let best_range = &self.free_ranges[bri];
                    let best_range_len = best_range.end.minus(best_range.start);
                    proof {
                        assert(rs.take(i as int)[bri as int] == rs[bri as int]);
                    }
                    if free_range_len.less(&best_range_len) {
                        best = Some(i);
                        proof {
                            assert forall|j: int| 0 <= j < i && span(rs[j]) >= n implies span(
                                rs[i as int],
                            ) < span(rs[j]) by {
                                assert(rs.take(i as int)[j] == rs[j]);
                            }
                        }
                    } else {
                        proof {
                            assert forall|j: int| 0 <= j < i && span(rs[j]) >= n implies span(
                                rs[bri as int],
                            ) <= span(rs[j]) by {
                                assert(rs.take(i as int)[j] == rs[j]);
                            }
                            assert forall|j: int| 0 <= j < bri && span(rs[j]) >= n implies span(
                                rs[bri as int],
                            ) < span(rs[j]) by {
                                assert(rs.take(i as int)[j] == rs[j]);
                            }
                        }
                    }
                },
                None => {
                    best = Some(i);
                },
            }
            proof {
                let b = best->0 as int;
                assert(is_best_fit(rs.take(i + 1), n, b)) by {
                    assert forall|j: int| 0 <= j < i + 1 implies rs.take(i + 1)[j] == rs[j] by {}
                }
            }
            i += 1;
        }
        proof {
            assert(rs.take(rs.len() as int) =~= rs);
        }
        match best {
            Some(index) => {
                let fr = &self.free_ranges[index];
                Some(BestFit { index, range: Range { start: fr.start, end: fr.end } })
            },
            None => None,
        }
    }

    /// Carves `len` points off the front of the free range `best_fit` designates and returns
    /// them; the free range is dropped when the request uses it up.
    pub fn allocate_best_fit(&mut self, len: T, best_fit: BestFit<T>) -> (r: Range<T>)
        requires
            old(self).wf(),
            0 <= best_fit.position() < old(self).free().len(),
            best_fit.bounds() == old(self).free()[best_fit.position()],
            len.value() <= span(best_fit.bounds()),
        ensures
            final(self).wf(),
            final(self).full() == old(self).full(),
            r.start == best_fit.bounds().start,
            span(r) == len.value(),
            lo(old(self).full()) <= lo(r) <= hi(r) <= hi(old(self).full()),
            final(self).free() == carve(
                old(self).free(),
                best_fit.position(),
                len.value() as int,
                (Range { start: r.end, end: best_fit.bounds().end }),
            ),
            allocation_step(*old(self), *final(self), r),
            is_canonical(old(self).free()) && len.value() > 0 ==> is_canonical(final(self).free()),
    {
        let BestFit { index, range } = best_fit;
        let ghost old_rs = self.free();
        let ghost i = index as int;
        proof {
            range.end.value_bounded();
        }
        let range_len = range.end.minus(range.start);
        let end = range.start.plus(len);
        let r = Range { start: range.start, end };
        let ghost rest = Range { start: end, end: range.end };
        if len.same(&range_len) {
            self.free_ranges.remove(index);
            proof {
                assert(span(old_rs[i]) == len.value());
                lemma_carve_points(old_rs, i, len.value() as int, rest);
            }
            return r;
        }
        let new_range = Range { start: end, end: range.end };
        self.free_ranges.set(index, new_range);
        proof {
            lemma_carve_points(old_rs, i, len.value() as int, rest);
        }
        r
    }

    /// Allocates `len` points with best fit; fails when `len` exceeds the end of the full range
    /// or no free range is large enough, leaving the allocator unchanged.
    pub fn allocate(&mut self, len: T) -> (r: Result<Range<T>, RangeAllocError>)
        requires
            old(self).wf(),
            len.value() > 0,
        ensures
            final(self).wf(),
            final(self).full() == old(self).full(),
            r is Err <==> (len.value() > hi(old(self).full()) || !any_fit(
                old(self).free(),
                len.value() as int,
            )),
            r is Err ==> *final(self) == *old(self),
            r matches Ok(rg) ==> {
                let i = best_fit_index(old(self).free(), len.value() as int);
                &&& is_best_fit(old(self).free(), len.value() as int, i)
                &&& rg.start == old(self).free()[i].start
                &&& span(rg) == len.value()
                &&& final(self).free() == carve(
                    old(self).free(),
                    i,
                    len.value() as int,
                    (Range { start: rg.end, end: old(self).free()[i].end }),
                )
                &&& lo(old(self).full()) <= lo(rg) <= hi(rg) <= hi(old(self).full())
                &&& allocation_step(*old(self), *final(self), rg)
                &&& is_canonical(old(self).free()) ==> is_canonical(final(self).free())
            },
    {
        match self.find_best_fit(len) {
            Some(best_fit) => {
                proof {
                    lemma_best_fit_exists(self.free(), len.value() as int);
                    lemma_best_fit_unique(
                        self.free(),
                        len.value() as int,
                        best_fit.position(),
                        best_fit_index(self.free(), len.value() as int),
                    );
                }
                Ok(self.allocate_best_fit(len, best_fit))
            },
            None => Err(RangeAllocError),
        }
    }

    /// Sorts the free list by start and merges every free range that ends exactly where its
    /// successor starts.
    fn defragment_free_ranges(&mut self)
        requires
            old(self).wf(),
            old(self).free().len() > 0,
        ensures
            final(self).wf(),
            final(self).full() == old(self).full(),
            final(self).free().len() > 0,
            is_defragmented(final(self).free()),
            final(self).free_points() == old(self).free_points(),
            old(self).disjoint() ==> final(self).disjoint(),
            all_nonempty(old(self).free()) ==> all_nonempty(final(self).free()),
    {
        let ghost was_nonempty = all_nonempty(self.free());
        let sorted = sort_by_start(&self.free_ranges);
        proof {
            let perm = choose|perm: Seq<int>| is_reordering(self.free(), sorted@, perm);
            lemma_reordering_keeps(self.free(), sorted@, perm, self.full());
        }
        self.free_ranges = sorted;
        let ghost pts = self.free_points();
        let ghost was_disjoint = self.disjoint();
        let mut i: usize = 0;
        while i < self.free_ranges.len() - 1
            invariant
                self.wf(),
                self.free().len() > 0,
                i < self.free().len(),
                self.full() == old(self).full(),
                pts == self.free_points(),
                was_disjoint ==> self.disjoint(),
                was_nonempty ==> all_nonempty(self.free()),
                forall|a: int, b: int|
                    0 <= a <= b < self.free().len() ==> lo(self.free()[a]) <= lo(self.free()[b]),
                forall|a: int| 0 <= a < i ==> hi(#[trigger] self.free()[a]) != lo(self.free()[a + 1]),
            decreases 2 * self.free().len() - i,
        {
            if self.free_ranges[i].end.same(&self.free_ranges[i + 1].start) {
                let ghost before = self.free();
                let next = self.free_ranges.remove(i + 1);
                let merged = Range { start: self.free_ranges[i].start, end: next.end };
                self.free_ranges.set(i, merged);
                proof {
                    lemma_merge_neighbours(before, i as int, self.free());
                    if was_nonempty {
                        assert forall|k: int| 0 <= k < self.free().len() implies lo(#[trigger] self.free()[k]) < hi(self.free()[k]) by {
                            if k < i {
                                assert(self.free()[k] == before[k]);
                            } else if k > i {
                                assert(self.free()[k] == before[k + 1]);
                            } else {
                                assert(lo(before[i + 1]) < hi(before[i + 1]));
                            }
                        }
                    }
                }
            } else {
                i += 1;
            }
        }
    }

    /// Returns `range` to the free list, extending the first free range it touches (one ending
    /// where it starts or starting where it ends) or appending it, then defragments the list.
    pub fn deallocate(&mut self, range: Range<T>)
        requires
            old(self).wf(),
            lo(range) < hi(range),
            lo(old(self).full()) <= lo(range),
            hi(range) <= hi(old(self).full()),
        ensures
            final(self).wf(),
            final(self).full() == old(self).full(),
            deallocation_step(*old(self), *final(self), range),
            is_defragmented(final(self).free()),
            all_nonempty(old(self).free()) ==> all_nonempty(final(self).free()),
            is_canonical(old(self).free()) && old(self).free_points().disjoint(points(range))
                ==> is_canonical(final(self).free()),
    {
        let ghost old_rs = self.free();
        let mut did_grow_side = false;
        let mut i: usize = 0;
        while i < self.free_ranges.len()
            invariant_except_break
                self.wf(),
                self.free() == old_rs,
                self.full() == old(self).full(),
                lo(range) < hi(range),
                lo(self.full()) <= lo(range),
                hi(range) <= hi(self.full()),
                !did_grow_side,
                i <= old_rs.len(),
            ensures
                self.wf(),
                did_grow_side ==> i < old_rs.len() && self.free() == old_rs.update(
                    i as int,
                    self.free()[i as int],
                ) && (self.free()[i as int] == (Range { start: old_rs[i as int].start, end: range.end })
                    && hi(old_rs[i as int]) == lo(range) || self.free()[i as int] == (Range {
                    start: range.start,
                    end: old_rs[i as int].end,
                }) && lo(old_rs[i as int]) == hi(range)),
                !did_grow_side ==> self.free() == old_rs,
                self.full() == old(self).full(),
            decreases old_rs.len() - i,
        {
            let can_grow_right = self.free_ranges[i].end.same(&range.start);
            if can_grow_right {
                let grown = Range { start: self.free_ranges[i].start, end: range.end };
                self.free_ranges.set(i, grown);
                did_grow_side = true;
                assert(forall|k: int| 0 <= k < old_rs.len() && k != i ==> self.free()[k] == old_rs[k]);
                break;
            }
            let can_grow_left = self.free_ranges[i].start.same(&range.end);
            if can_grow_left {
                let grown = Range { start: range.start, end: self.free_ranges[i].end };
                self.free_ranges.set(i, grown);
                did_grow_side = true;
                assert(forall|k: int| 0 <= k < old_rs.len() && k != i ==> self.free()[k] == old_rs[k]);
                break;
            }
            i += 1;
        }
        let ghost mid = self.free();
        if !did_grow_side {
            let copy = Range { start: range.start, end: range.end };
            self.free_ranges.push(copy);
            proof {
                lemma_push_points(old_rs, range);
                if pairwise_disjoint(old_rs) && covered(old_rs).disjoint(points(range)) {
                    assert forall|a: int, b: int|
                        0 <= a < self.free().len() && 0 <= b < self.free().len() && a != b implies ranges_disjoint(
                        self.free()[a],
                        self.free()[b],
                    ) by {
                        if a < old_rs.len() && b < old_rs.len() {
                            assert(ranges_disjoint(old_rs[a], old_rs[b]));
                        } else {
                            let k = if a < old_rs.len() { a } else { b };
                            lemma_points_disjoint(old_rs, k, range);
                        }
                    }
                }
            }
        } else {
            proof {
                lemma_extend_points(old_rs, i as int, range, mid);
                if pairwise_disjoint(old_rs) && covered(old_rs).disjoint(points(range)) {
                    assert forall|a: int, b: int|
                        0 <= a < mid.len() && 0 <= b < mid.len() && a != b implies ranges_disjoint(
                        mid[a],
                        mid[b],
                    ) by {
                        if a != i && b != i {
                            assert(ranges_disjoint(old_rs[a], old_rs[b]));
                        } else {
                            let k = if a == i { b } else { a };
                            lemma_points_disjoint(old_rs, k, range);
                            assert(ranges_disjoint(old_rs[i as int], old_rs[k]));
                            if hi(old_rs[i as int]) == lo(range) {
                                lemma_join_disjoint(old_rs[i as int], range, old_rs[k], mid[i as int]);
                            } else {
                                lemma_join_disjoint(range, old_rs[i as int], old_rs[k], mid[i as int]);
                            }
                        }
                    }
                }
            }
        }
        proof {
            if all_nonempty(old_rs) {
                assert forall|k: int| 0 <= k < self.free().len() implies lo(#[trigger] self.free()[k]) < hi(self.free()[k]) by {
                    if k < old_rs.len() && (!did_grow_side || k != i) {
                        assert(self.free()[k] == old_rs[k]);
                    }
                }
            }
            if is_canonical(old_rs) {
                lemma_canonical_disjoint(old_rs);
            }
        }
        self.defragment_free_ranges();
        proof {
            if is_canonical(old_rs) && old(self).free_points().disjoint(points(range)) {
                lemma_defragmented_canonical(self.free());
            }
        }
    }

    /// Moves the end of the full range to `new_end`, handing the new points to the last free
    /// range when it ends at the old end, and to a new free range otherwise.
    pub fn grow(&mut self, new_end: T)
        requires
            old(self).wf(),
            new_end.value() > hi(old(self).full()),
        ensures
            final(self).wf(),
            final(self).full() == (Range { start: old(self).full().start, end: new_end }),
            ({
                let rs = old(self).free();
                let n = rs.len() as int;
                if n > 0 && hi(rs[n - 1]) == hi(old(self).full()) {
                    final(self).free() == rs.update(n - 1, (Range { start: rs[n - 1].start, end: new_end }))
                } else {
                    final(self).free() == rs.push((Range { start: old(self).full().end, end: new_end }))
                }
            }),
            final(self).free_points() == old(self).free_points().union(
                interval(hi(old(self).full()), new_end.value() as int),
            ),
            old(self).disjoint() ==> final(self).disjoint(),
            is_canonical(old(self).free()) ==> is_canonical(final(self).free()),
    {
        let ghost old_rs = self.free();
        let old_end = self.full_range.end;
        self.full_range.end = new_end;
        let n = self.free_ranges.len();
        if n > 0 && self.free_ranges[n - 1].end.same(&old_end) {
            let grown = Range { start: self.free_ranges[n - 1].start, end: new_end };
            self.free_ranges.set(n - 1, grown);
            proof {
                let r = Range { start: old_end, end: new_end };
                lemma_extend_points(old_rs, n - 1, r, self.free());
                assert(points(r) =~= interval(old_end.value() as int, new_end.value() as int));
                assert forall|a: int, b: int|
                    0 <= a < self.free().len() && 0 <= b < self.free().len() && a != b
                        && old(self).disjoint() implies ranges_disjoint(self.free()[a], self.free()[b]) by {
                    assert(ranges_disjoint(old_rs[a], old_rs[b]));
                }
            }
        } else {
            self.free_ranges.push(Range { start: old_end, end: new_end });
            proof {
                let r = Range { start: old_end, end: new_end };
                lemma_push_points(old_rs, r);
                assert(points(r) =~= interval(old_end.value() as int, new_end.value() as int));
                assert forall|a: int, b: int|
                    0 <= a < self.free().len() && 0 <= b < self.free().len() && a != b
                        && old(self).disjoint() implies ranges_disjoint(self.free()[a], self.free()[b]) by {
                    if a < old_rs.len() && b < old_rs.len() {
                        assert(ranges_disjoint(old_rs[a], old_rs[b]));
                    }
                }
            }
        }
    }

    /// Frees everything: the free list becomes the full range alone.
    pub fn clear(&mut self)
        requires
            old(self).wf(),
        ensures
            final(self).wf(),
            final(self).disjoint(),
            final(self).full() == old(self).full(),
            final(self).free() == seq![old(self).full()],
            lo(old(self).full()) < hi(old(self).full()) ==> is_canonical(final(self).free()),
    {
        self.free_ranges.clear();
        let copy = Range { start: self.full_range.start, end: self.full_range.end };
        self.free_ranges.push(copy);
        assert(self.free() =~= seq![self.full()]);
    }

    /// Nothing is allocated: the free list is exactly the full range.
    pub fn is_empty(&self) -> (r: bool)
        ensures
            r == (self.free().len() == 1 && self.free()[0] == self.full()),
    {
        if self.free_ranges.len() != 1 {
            return false;
        }
        let f = &self.free_ranges[0];
        let r = f.start.same(&self.full_range.start) && f.end.same(&self.full_range.end);
        proof {
            f.start.value_injective(self.full_range.start);
            f.end.value_injective(self.full_range.end);
        }
        r
    }
}

/// What an allocation of `r` does to the free points: `r` was free, every other free point
/// stays free, nothing becomes free; on a disjoint free list exactly `r` leaves and the list
/// stays disjoint.
pub open spec fn allocation_step<T: RangeUnit>(before: RangeAlloc<T>, after: RangeAlloc<T>, r: Range<T>) -> bool {
    &&& points(r).subset_of(before.free_points())
    &&& before.free_points().difference(points(r)).subset_of(after.free_points())
    &&& after.free_points().subset_of(before.free_points())
    &&& before.disjoint() ==> after.disjoint() && after.free_points() =~= before.free_points().difference(
        points(r),
    )
}

/// What a deallocation of `r` does to the free points: they gain the points of `r`; a free
/// list stays disjoint when `r` was not free.
pub open spec fn deallocation_step<T: RangeUnit>(before: RangeAlloc<T>, after: RangeAlloc<T>, r: Range<T>) -> bool {
    &&& after.free_points() == before.free_points().union(points(r))
    &&& before.disjoint() && before.free_points().disjoint(points(r)) ==> after.disjoint()
}

/// Deallocating a range that was just allocated gives back exactly the free points the
/// allocator had before the allocation.
pub proof fn law_deallocate_undoes_allocate<T: RangeUnit>(
    a0: RangeAlloc<T>,
    a1: RangeAlloc<T>,
    a2: RangeAlloc<T>,
    r: Range<T>,
)
    requires
        allocation_step(a0, a1, r),
        deallocation_step(a1, a2, r),
    ensures
        a2.free_points() == a0.free_points(),
        a0.disjoint() ==> a2.disjoint(),
{
    assert(a2.free_points() =~= a0.free_points());
    if a0.disjoint() {
        assert(a1.free_points().disjoint(points(r)));
    }
}

/// Allocating a range and deallocating it again gives back exactly the free list the
/// allocator had, range for range, when the lists are canonical (as `allocate` and
/// `deallocate` keep them).
pub proof fn law_deallocate_restores_free_list<T: RangeUnit>(
    a0: RangeAlloc<T>,
    a1: RangeAlloc<T>,
    a2: RangeAlloc<T>,
    r: Range<T>,
)
    requires
        is_canonical(a0.free()),
        is_canonical(a1.free()),
        is_canonical(a2.free()),
        allocation_step(a0, a1, r),
        deallocation_step(a1, a2, r),
    ensures
        a2.free() == a0.free(),
{
    law_deallocate_undoes_allocate(a0, a1, a2, r);
    law_canonical_unique(a2.free(), a0.free());
}

/// Once every point of a non-empty full range is free again, a canonical free list is the full
/// range alone, so the allocator reports itself empty.
pub proof fn law_all_free_is_empty<T: RangeUnit>(a: RangeAlloc<T>)
    requires
        is_canonical(a.free()),
        lo(a.full()) < hi(a.full()),
        a.free_points() == points(a.full()),
    ensures
        a.free() == seq![a.full()],
{
    let one = seq![a.full()];
    assert(covered(one) =~= points(a.full())) by {
        assert forall|p: int| points(a.full()).contains(p) implies covered(one).contains(p) by {
            assert(lo(one[0]) <= p < hi(one[0]));
        }
    }
    law_canonical_unique(a.free(), one);
}

/// Two successive allocations from an allocator whose free ranges do not overlap hand out
/// ranges that share no point.
pub proof fn law_allocations_do_not_overlap<T: RangeUnit>(
    a0: RangeAlloc<T>,
    a1: RangeAlloc<T>,
    a2: RangeAlloc<T>,
    r1: Range<T>,
    r2: Range<T>,
)
    requires
        a0.disjoint(),
        allocation_step(a0, a1, r1),
        allocation_step(a1, a2, r2),
    ensures
        points(r1).disjoint(points(r2)),
        a2.disjoint(),
{
    assert forall|p: int| points(r2).contains(p) implies !points(r1).contains(p) by {
        assert(a1.free_points().contains(p));
    }
}

/// `sorted` is `rs` reordered: `perm` maps each position of `sorted` to the position of `rs`
/// it came from, one to one and onto.
pub open spec fn is_reordering<T>(rs: Seq<Range<T>>, sorted: Seq<Range<T>>, perm: Seq<int>) -> bool {
    &&& perm.len() == sorted.len() == rs.len()
    &&& forall|a: int| 0 <= a < perm.len() ==> 0 <= #[trigger] perm[a] < rs.len() && sorted[a] == rs[perm[a]]
    &&& forall|a: int, b: int| 0 <= a < perm.len() && 0 <= b < perm.len() && a != b ==> perm[a] != perm[b]
    &&& forall|j: int| 0 <= j < rs.len() ==> #[trigger] hits(perm, j)
}

/// Some position of `perm` maps to `j`.
pub open spec fn hits(perm: Seq<int>, j: int) -> bool {
    exists|a: int| 0 <= a < perm.len() && #[trigger] perm[a] == j
}

/// Stable insertion sort of ranges by their start.
fn sort_by_start<T: RangeUnit>(v: &Vec<Range<T>>) -> (r: Vec<Range<T>>)
    ensures
        forall|a: int, b: int| 0 <= a <= b < r@.len() ==> lo(r@[a]) <= lo(r@[b]),
        exists|perm: Seq<int>| is_reordering(v@, r@, perm),
{
    let mut sorted: Vec<Range<T>> = Vec::new();
    let ghost mut perm: Seq<int> = Seq::empty();
    let mut i: usize = 0;
    while i < v.len()
        invariant
            i <= v@.len(),
            sorted@.len() == i,
            perm.len() == i,
            forall|a: int, b: int| 0 <= a <= b < sorted@.len() ==> lo(sorted@[a]) <= lo(sorted@[b]),
            forall|a: int| 0 <= a < i ==> 0 <= #[trigger] perm[a] < i && sorted@[a] == v@[perm[a]],
            forall|a: int, b: int| 0 <= a < i && 0 <= b < i && a != b ==> perm[a] != perm[b],
            forall|j: int| 0 <= j < i ==> #[trigger] hits(perm, j),
        decreases v@.len() - i,
    {
        let x = Range { start: v[i].start, end: v[i].end };
        let mut k = sorted.len();
        while k > 0 && x.start.less(&sorted[k - 1].start)
            invariant
                k <= sorted@.len(),
                forall|a: int| k <= a < sorted@.len() ==> lo(x) < lo(#[trigger] sorted@[a]),
            decreases k,
        {
            k -= 1;
        }
        let ghost old_sorted = sorted@;
        let ghost old_perm = perm;
        sorted.insert(k, x);
        proof {
            perm = perm.insert(k as int, i as int);
            assert forall|a: int, b: int| 0 <= a <= b < sorted@.len() implies lo(sorted@[a]) <= lo(sorted@[b]) by {
                if a < k && b > k {
                    assert(sorted@[b] == old_sorted[b - 1]);
                    assert(old_sorted[a] == sorted@[a]);
                }
            }
            assert forall|j: int| 0 <= j < i + 1 implies #[trigger] hits(perm, j) by {
                if j == i {
                    assert(perm[k as int] == j);
                } else {
                    assert(hits(old_perm, j));
                    let a0 = choose|a: int| 0 <= a < i && #[trigger] old_perm[a] == j;
                    if a0 < k {
                        assert(perm[a0] == j);
                    } else {
                        assert(perm[a0 + 1] == j);
                    }
                }
            }
        }
        i += 1;
    }
    proof {
        assert(is_reordering(v@, sorted@, perm));
    }
    sorted
}

/// A reordering keeps the covered points, the per-range bounds and pairwise disjointness.
proof fn lemma_reordering_keeps<T: RangeUnit>(rs: Seq<Range<T>>, sorted: Seq<Range<T>>, perm: Seq<int>, full: Range<T>)
    requires
        is_reordering(rs, sorted, perm),
    ensures
        covered(sorted) == covered(rs),
        (forall|i: int| 0 <= i < rs.len() ==> lo(full) <= lo(#[trigger] rs[i]) <= hi(rs[i]) <= hi(full))
            ==> (forall|i: int| 0 <= i < sorted.len() ==> lo(full) <= lo(#[trigger] sorted[i]) <= hi(sorted[i]) <= hi(full)),
        pairwise_disjoint(rs) ==> pairwise_disjoint(sorted),
        all_nonempty(rs) ==> all_nonempty(sorted),
{
    assert forall|p: int| covered(sorted).contains(p) implies covered(rs).contains(p) by {
        let a = choose|a: int| 0 <= a < sorted.len() && lo(#[trigger] sorted[a]) <= p < hi(sorted[a]);
        assert(lo(rs[perm[a]]) <= p < hi(rs[perm[a]]));
    }
    assert forall|p: int| covered(rs).contains(p) implies covered(sorted).contains(p) by {
        let j = choose|j: int| 0 <= j < rs.len() && lo(#[trigger] rs[j]) <= p < hi(rs[j]);
        assert(hits(perm, j));
        let a = choose|a: int| 0 <= a < perm.len() && #[trigger] perm[a] == j;
        assert(lo(sorted[a]) <= p < hi(sorted[a]));
    }
    assert(covered(sorted) =~= covered(rs));
    if forall|i: int| 0 <= i < rs.len() ==> lo(full) <= lo(#[trigger] rs[i]) <= hi(rs[i]) <= hi(full) {
        assert forall|i: int| 0 <= i < sorted.len() implies lo(full) <= lo(#[trigger] sorted[i]) <= hi(sorted[i]) <= hi(full) by {
            assert(sorted[i] == rs[perm[i]]);
        }
    }
    if pairwise_disjoint(rs) {
        assert forall|a: int, b: int| 0 <= a < sorted.len() && 0 <= b < sorted.len() && a != b implies ranges_disjoint(sorted[a], sorted[b]) by {
            assert(ranges_disjoint(rs[perm[a]], rs[perm[b]]));
        }
    }
    if all_nonempty(rs) {
        assert forall|a: int| 0 <= a < sorted.len() implies lo(#[trigger] sorted[a]) < hi(sorted[a]) by {
            assert(sorted[a] == rs[perm[a]]);
        }
    }
}

/// Merging range `i` with its touching successor keeps the covered points and disjointness.
proof fn lemma_merge_neighbours<T: RangeUnit>(before: Seq<Range<T>>, i: int, after: Seq<Range<T>>)
    requires
        0 <= i < before.len() - 1,
        hi(before[i]) == lo(before[i + 1]),
        forall|k: int| 0 <= k < before.len() ==> lo(#[trigger] before[k]) <= hi(before[k]),
        forall|a: int, b: int| 0 <= a <= b < before.len() ==> lo(before[a]) <= lo(before[b]),
        after == before.remove(i + 1).update(i, (Range { start: before[i].start, end: before[i + 1].end })),
    ensures
        covered(after) == covered(before),
        pairwise_disjoint(before) ==> pairwise_disjoint(after),
{
    assert forall|k: int| 0 <= k < after.len() && k != i implies #[trigger] after[k] == (if k < i { before[k] } else { before[k + 1] }) by {}
    assert forall|p: int| covered(after).contains(p) implies covered(before).contains(p) by {
        let k = choose|k: int| 0 <= k < after.len() && lo(#[trigger] after[k]) <= p < hi(after[k]);
        if k == i {
            if p < hi(before[i]) {
                assert(lo(before[i]) <= p < hi(before[i]));
            } else {
                assert(lo(before[i + 1]) <= p < hi(before[i + 1]));
            }
        } else if k < i {
            assert(lo(before[k]) <= p < hi(before[k]));
        } else {
            assert(lo(before[k + 1]) <= p < hi(before[k + 1]));
        }
    }
    assert forall|p: int| covered(before).contains(p) implies covered(after).contains(p) by {
        let j = choose|j: int| 0 <= j < before.len() && lo(#[trigger] before[j]) <= p < hi(before[j]);
        if j == i || j == i + 1 {
            assert(lo(after[i]) <= p < hi(after[i]));
        } else if j < i {
            assert(lo(after[j]) <= p < hi(after[j]));
        } else {
            assert(lo(after[j - 1]) <= p < hi(after[j - 1]));
        }
    }
    assert(covered(after) =~= covered(before));
    if pairwise_disjoint(before) {
        assert forall|a: int, b: int| 0 <= a < after.len() && 0 <= b < after.len() && a != b implies ranges_disjoint(after[a], after[b]) by {
            let sa = if a <= i { a } else { a + 1 };
            let sb = if b <= i { b } else { b + 1 };
            if a != i && b != i {
                assert(ranges_disjoint(before[sa], before[sb]));
            } else {
                let o = if a == i { b } else { a };
                let so = if o < i { o } else { o + 1 };
                assert(ranges_disjoint(before[i], before[so]));
                assert(ranges_disjoint(before[i + 1], before[so]));
                if so < i {
                    assert(lo(before[so]) <= lo(before[i]));
                } else {
                    assert(lo(before[i + 1]) <= lo(before[so]));
                }
            }
        }
    }
}

/// A range whose points no listed range covers is disjoint from each listed range.
proof fn lemma_points_disjoint<T: RangeUnit>(rs: Seq<Range<T>>, k: int, r: Range<T>)
    requires
        0 <= k < rs.len(),
        covered(rs).disjoint(points(r)),
    ensures
        ranges_disjoint(rs[k], r),
{
    if !ranges_disjoint(rs[k], r) {
        let p = if lo(rs[k]) < lo(r) { lo(r) } else { lo(rs[k]) };
        assert(covered(rs).contains(p));
        assert(points(r).contains(p));
    }
}

/// Joining two touching ranges keeps disjointness from a third range.
proof fn lemma_join_disjoint<T: RangeUnit>(a: Range<T>, b: Range<T>, c: Range<T>, joined: Range<T>)
    requires
        lo(a) <= hi(a),
        lo(b) <= hi(b),
        hi(a) == lo(b),
        lo(joined) == lo(a),
        hi(joined) == hi(b),
        ranges_disjoint(a, c),
        ranges_disjoint(b, c),
    ensures
        ranges_disjoint(joined, c),
{
}

/// Appending a range adds its points.
proof fn lemma_push_points<T: RangeUnit>(rs: Seq<Range<T>>, r: Range<T>)
    ensures
        covered(rs.push(r)) == covered(rs).union(points(r)),
{
    let n = rs.push(r);
    assert forall|p: int| covered(n).contains(p) implies covered(rs).union(points(r)).contains(p) by {
        let k = choose|k: int| 0 <= k < n.len() && lo(#[trigger] n[k]) <= p < hi(n[k]);
        if k < rs.len() {
            assert(lo(rs[k]) <= p < hi(rs[k]));
        }
    }
    assert forall|p: int| covered(rs).union(points(r)).contains(p) implies covered(n).contains(p) by {
        if covered(rs).contains(p) {
            let j = choose|j: int| 0 <= j < rs.len() && lo(#[trigger] rs[j]) <= p < hi(rs[j]);
            assert(lo(n[j]) <= p < hi(n[j]));
        } else {
            assert(lo(n[rs.len() as int]) <= p < hi(n[rs.len() as int]));
        }
    }
    assert(covered(n) =~= covered(rs).union(points(r)));
}

/// Extending range `i` over a touching range adds the touching range's points.
proof fn lemma_extend_points<T: RangeUnit>(rs: Seq<Range<T>>, i: int, r: Range<T>, after: Seq<Range<T>>)
    requires
        0 <= i < rs.len(),
        lo(rs[i]) <= hi(rs[i]),
        lo(r) <= hi(r),
        after.len() == rs.len(),
        forall|k: int| 0 <= k < rs.len() && k != i ==> after[k] == rs[k],
        (lo(after[i]) == lo(rs[i]) && hi(after[i]) == hi(r) && hi(rs[i]) == lo(r))
            || (lo(after[i]) == lo(r) && hi(after[i]) == hi(rs[i]) && lo(rs[i]) == hi(r)),
    ensures
        covered(after) == covered(rs).union(points(r)),
{
    assert forall|p: int| covered(after).contains(p) implies covered(rs).union(points(r)).contains(p) by {
        let k = choose|k: int| 0 <= k < after.len() && lo(#[trigger] after[k]) <= p < hi(after[k]);
        if k != i {
            assert(lo(rs[k]) <= p < hi(rs[k]));
        } else if lo(rs[i]) <= p < hi(rs[i]) {
            assert(covered(rs).contains(p));
        }
    }
    assert forall|p: int| covered(rs).union(points(r)).contains(p) implies covered(after).contains(p) by {
        if covered(rs).contains(p) {
            let j = choose|j: int| 0 <= j < rs.len() && lo(#[trigger] rs[j]) <= p < hi(rs[j]);
            assert(lo(after[j]) <= p < hi(after[j]));
        } else {
            assert(lo(after[i]) <= p < hi(after[i]));
        }
    }
    assert(covered(after) =~= covered(rs).union(points(r)));
}

/// Points of the list after carving: the carved points leave, everything else stays.
proof fn lemma_carve_points<T: RangeUnit>(rs: Seq<Range<T>>, i: int, len: int, rest: Range<T>)
    requires
        0 <= i < rs.len(),
        0 <= len <= span(rs[i]),
        lo(rest) == lo(rs[i]) + len,
        hi(rest) == hi(rs[i]),
        forall|k: int| 0 <= k < rs.len() ==> lo(#[trigger] rs[k]) <= hi(rs[k]),
    ensures
        ({
            let new_rs = carve(rs, i, len, rest);
            let taken = Set::new(|p: int| lo(rs[i]) <= p < lo(rs[i]) + len);
            &&& taken.subset_of(covered(rs))
            &&& covered(rs).difference(taken).subset_of(covered(new_rs))
            &&& covered(new_rs).subset_of(covered(rs))
            &&& pairwise_disjoint(rs) ==> pairwise_disjoint(new_rs) && covered(new_rs)
                =~= covered(rs).difference(taken)
            &&& is_canonical(rs) && len > 0 ==> is_canonical(new_rs)
        }),
{
    let new_rs = carve(rs, i, len, rest);
    if is_canonical(rs) && len > 0 {
        if span(rs[i]) == len {
            assert forall|a: int, b: int| 0 <= a < b < new_rs.len() implies hi(#[trigger] new_rs[a]) < lo(#[trigger] new_rs[b]) by {
                let sa = if a >= i { a + 1 } else { a };
                let sb = if b >= i { b + 1 } else { b };
                assert(new_rs[a] == rs[sa] && new_rs[b] == rs[sb]);
                assert(hi(rs[sa]) < lo(rs[sb]));
            }
            assert forall|a: int| 0 <= a < new_rs.len() implies lo(#[trigger] new_rs[a]) < hi(new_rs[a]) by {
                let sa = if a >= i { a + 1 } else { a };
                assert(new_rs[a] == rs[sa]);
            }
        } else {
            assert forall|a: int, b: int| 0 <= a < b < new_rs.len() implies hi(#[trigger] new_rs[a]) < lo(#[trigger] new_rs[b]) by {
                assert(hi(rs[a]) < lo(rs[b]));
            }
            assert forall|a: int| 0 <= a < new_rs.len() implies lo(#[trigger] new_rs[a]) < hi(new_rs[a]) by {
                assert(lo(rs[a]) < hi(rs[a]));
            }
        }
    }
    let taken = Set::new(|p: int| lo(rs[i]) <= p < lo(rs[i]) + len);
    assert forall|p: int| taken.contains(p) implies covered(rs).contains(p) by {
        assert(lo(rs[i]) <= p < hi(rs[i]));
    }
    // each surviving list entry comes from an entry of the old list
    let src = |k: int| if span(rs[i]) == len && k >= i { k + 1 } else { k };
    assert forall|k: int| 0 <= k < new_rs.len() implies 0 <= #[trigger] src(k) < rs.len() && (
    src(k) != i ==> new_rs[k] == rs[src(k)]) && (src(k) == i ==> new_rs[k] == rest) by {}
    assert forall|p: int| covered(rs).difference(taken).contains(p) implies covered(
        new_rs,
    ).contains(p) by {
        let j = choose|j: int| 0 <= j < rs.len() && lo(#[trigger] rs[j]) <= p < hi(rs[j]);
        if j == i {
            assert(span(rs[i]) != len);
            assert(new_rs[i] == rest);
            assert(lo(new_rs[i]) <= p < hi(new_rs[i]));
        } else if span(rs[i]) == len && j > i {
            assert(new_rs[j - 1] == rs[j]);
            assert(lo(new_rs[j - 1]) <= p < hi(new_rs[j - 1]));
        } else {
            assert(new_rs[j] == rs[j]);
            assert(lo(new_rs[j]) <= p < hi(new_rs[j]));
        }
    }
    assert forall|p: int| covered(new_rs).contains(p) implies covered(rs).contains(p) by {
        let k = choose|k: int| 0 <= k < new_rs.len() && lo(#[trigger] new_rs[k]) <= p < hi(new_rs[k]);
        let j = src(k);
        assert(lo(rs[j]) <= p < hi(rs[j]));
    }
    if pairwise_disjoint(rs) {
        assert forall|a: int, b: int|
            0 <= a < new_rs.len() && 0 <= b < new_rs.len() && a != b implies ranges_disjoint(
            new_rs[a],
            new_rs[b],
        ) by {
            let sa = src(a);
            let sb = src(b);
            assert(ranges_disjoint(rs[sa], rs[sb]));
        }
        assert forall|p: int| covered(new_rs).contains(p) implies !taken.contains(p) by {
            let k = choose|k: int| 0 <= k < new_rs.len() && lo(#[trigger] new_rs[k]) <= p < hi(new_rs[k]);
            let j = src(k);
            if j != i {
                assert(ranges_disjoint(rs[i], rs[j]));
            }
        }
    }
}

} // verus!
