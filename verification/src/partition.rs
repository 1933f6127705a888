//! Cutting a one-dimensional extent into contiguous ranges.

use crate::error::RushError;
use vstd::prelude::*;

verus! {

/// A half-open interval `[start, end)` of indices along one axis.
#[derive(Debug, Clone, Copy, PartialEq, Eq, Structural)]
pub struct Range {
    pub start: usize,
    pub end: usize,
}

impl Range {
    /// The bounds are in order.
    pub open spec fn wf(self) -> bool {
        self.start <= self.end
    }

    /// Number of indices in the interval.
    pub open spec fn spec_len(self) -> nat {
        if self.start <= self.end {
            (self.end - self.start) as nat
        } else {
            0
        }
    }

    /// Whether index `x` lies in the interval.
    pub open spec fn contains(self, x: int) -> bool {
        self.start <= x < self.end
    }

    /// Number of indices in the interval.
    pub fn len(&self) -> (n: usize)
        ensures
            n == self.spec_len(),
    {
        if self.start <= self.end {
            self.end - self.start
        } else {
            0
        }
    }

    /// Whether the interval holds no index at all.
    pub fn is_empty(&self) -> (b: bool)
        ensures
            b == (self.spec_len() == 0),
    {
        self.start >= self.end
    }
}

/// Where piece `i` begins when `extent` is cut into `n` near-equal pieces,
/// the longer pieces first. Boundary `n` is the end of the last piece.
pub open spec fn count_boundary(extent: nat, n: nat, i: nat) -> nat {
    i * (extent / n) + if i < extent % n {
        i
    } else {
        extent % n
    }
}

/// Piece `i` of `extent` cut into `n` near-equal pieces.
pub open spec fn count_piece(extent: nat, n: nat, i: nat) -> Range {
    Range {
        start: count_boundary(extent, n, i) as usize,
        end: count_boundary(extent, n, i + 1) as usize,
    }
}

/// The `n` pieces of `extent`, in order.
pub open spec fn count_partition(extent: nat, n: nat) -> Seq<Range> {
    Seq::new(n, |i: int| count_piece(extent, n, i as nat))
}

/// The ranges follow one another from 0 to `extent`: each starts where the
/// one before it ended, the first at 0, and the last ends at `extent`.
pub open spec fn tiles_extent(ranges: Seq<Range>, extent: nat) -> bool {
    &&& forall|i: int| 0 <= i < ranges.len() ==> (#[trigger] ranges[i]).wf()
    &&& forall|i: int|
        0 <= i < ranges.len() - 1 ==> (#[trigger] ranges[i]).end == ranges[i + 1].start
    &&& if ranges.len() == 0 {
        extent == 0
    } else {
        ranges[0].start == 0 && ranges[ranges.len() - 1].end == extent
    }
}

/// Whether index `x` lies in one of the ranges.
pub open spec fn covered(ranges: Seq<Range>, x: int) -> bool {
    exists|i: int| 0 <= i < ranges.len() && (#[trigger] ranges[i]).contains(x)
}

/// No two ranges differ in length by more than one.
pub open spec fn near_equal(ranges: Seq<Range>) -> bool {
    forall|i: int, j: int|
        0 <= i < ranges.len() && 0 <= j < ranges.len() ==> (#[trigger] ranges[i]).spec_len() - (
        #[trigger] ranges[j]).spec_len() <= 1
}

/// One step along the boundaries: piece `i` has the base length, and one
/// more if it is among the first `extent % n`.
pub proof fn lemma_count_boundary_step(extent: nat, n: nat, i: nat)
    requires
        n >= 1,
    ensures
        count_boundary(extent, n, i + 1) == count_boundary(extent, n, i) + extent / n + if i
            < extent % n {
            1nat
        } else {
            0nat
        },
{
    let base = extent / n;
    assert((i + 1) * base == i * base + base) by (nonlinear_arith);
}

/// The boundaries never go back, and the last one is `extent`.
pub proof fn lemma_count_boundary_ordered(extent: nat, n: nat, i: nat, j: nat)
    requires
        n >= 1,
        i <= j <= n,
    ensures
        count_boundary(extent, n, 0) == 0,
        count_boundary(extent, n, i) <= count_boundary(extent, n, j),
        count_boundary(extent, n, n) == extent,
        count_boundary(extent, n, j) <= extent,
    decreases n - i,
{
    let base = extent / n;
    assert(0 * base == 0) by (nonlinear_arith);
    assert(count_boundary(extent, n, n) == extent) by {
        vstd::arithmetic::div_mod::lemma_fundamental_div_mod(extent as int, n as int);
        vstd::arithmetic::div_mod::lemma_mod_bound(extent as int, n as int);
        assert(n * base == (n as int) * (extent as int / n as int));
    }
    if i < n {
        lemma_count_boundary_step(extent, n, i);
        lemma_count_boundary_ordered(extent, n, i + 1, if j < i + 1 {
            i + 1
        } else {
            j
        });
        lemma_count_boundary_ordered(extent, n, i + 1, n);
    }
}

/// Cuts `[0, extent)` into exactly `n` contiguous ranges whose lengths differ
/// by at most one, the longer ones first. A count of zero is turned down.
pub fn partition_by_count(extent: usize, n: usize) -> (r: Result<Vec<Range>, RushError>)
    ensures
        n == 0 ==> r == Err::<Vec<Range>, RushError>(RushError::InvalidArgument),
        n >= 1 ==> r is Ok,
        r matches Ok(ranges) ==> {
            &&& ranges@ == count_partition(extent as nat, n as nat)
            &&& ranges@.len() == n
            &&& tiles_extent(ranges@, extent as nat)
            &&& near_equal(ranges@)
        },
{
    if n == 0 {
        return Err(RushError::InvalidArgument);
    }
    let base = extent / n;
    let remainder = extent % n;
    let mut ranges: Vec<Range> = Vec::new();
    let mut start: usize = 0;
    let mut i: usize = 0;
    proof {
        lemma_count_boundary_ordered(extent as nat, n as nat, 0, 0);
    }
    while i < n
        invariant
            n >= 1,
            i <= n,
            base == extent / n,
            remainder == extent % n,
            start == count_boundary(extent as nat, n as nat, i as nat),
            ranges@.len() == i,
            forall|k: int|
                0 <= k < i ==> #[trigger] ranges@[k] == count_piece(
                    extent as nat,
                    n as nat,
                    k as nat,
                ),
        decreases n - i,
    {
        proof {
            lemma_count_boundary_step(extent as nat, n as nat, i as nat);
            lemma_count_boundary_ordered(extent as nat, n as nat, i as nat, (i + 1) as nat);
        }
        let len = if i < remainder {
            base + 1
        } else {
            base
        };
        let end = start + len;
        ranges.push(Range { start, end });
        start = end;
        i += 1;
    }
    proof {
        assert(ranges@ =~= count_partition(extent as nat, n as nat));
        lemma_count_partition_tiles(extent as nat, n as nat);
        lemma_count_partition_near_equal(extent as nat, n as nat);
    }
    Ok(ranges)
}

/// The pieces of a count partition follow one another from 0 to `extent`.
pub proof fn lemma_count_partition_tiles(extent: nat, n: nat)
    requires
        n >= 1,
        extent <= usize::MAX,
    ensures
        count_partition(extent, n).len() == n,
        tiles_extent(count_partition(extent, n), extent),
{
    let p = count_partition(extent, n);
    assert forall|i: int| 0 <= i < p.len() implies (#[trigger] p[i]).wf() && p[i].start
        == count_boundary(extent, n, i as nat) && p[i].end == count_boundary(
        extent,
        n,
        (i + 1) as nat,
    ) by {
        lemma_count_boundary_ordered(extent, n, i as nat, (i + 1) as nat);
    }
    lemma_count_boundary_ordered(extent, n, 0, n);
}

/// The pieces of a count partition differ in length by at most one.
pub proof fn lemma_count_partition_near_equal(extent: nat, n: nat)
    requires
        n >= 1,
        extent <= usize::MAX,
    ensures
        near_equal(count_partition(extent, n)),
        forall|i: int|
            0 <= i < n ==> (#[trigger] count_partition(extent, n)[i]).spec_len() == extent / n
                + if i < extent % n {
                1nat
            } else {
                0nat
            },
{
    let p = count_partition(extent, n);
    assert forall|i: int| 0 <= i < n implies (#[trigger] p[i]).spec_len() == extent / n + if i
        < extent % n {
        1nat
    } else {
        0nat
    } by {
        lemma_count_boundary_ordered(extent, n, i as nat, (i + 1) as nat);
        lemma_count_boundary_step(extent, n, i as nat);
    }
}

/// In a run of ranges that follow one another, an earlier range ends no later
/// than a later one starts, and all of them stay inside `[0, extent]`.
pub proof fn lemma_tiling_ordered(ranges: Seq<Range>, extent: nat, i: int, j: int)
    requires
        tiles_extent(ranges, extent),
        0 <= i <= j < ranges.len(),
    ensures
        ranges[i].start <= ranges[j].start,
        ranges[i].end <= ranges[j].end,
        i < j ==> ranges[i].end <= ranges[j].start,
        0 <= ranges[i].start,
        ranges[j].end <= extent,
    decreases j - i, ranges.len() - j,
{
    assert(ranges[i].wf());
    assert(ranges[j].wf());
    if i < j {
        assert(ranges[i].end == ranges[i + 1].start);
        lemma_tiling_ordered(ranges, extent, i + 1, j);
    }
    if j < ranges.len() - 1 {
        assert(ranges[j].end == ranges[j + 1].start);
        lemma_tiling_ordered(ranges, extent, j + 1, j + 1);
    }
}

/// An index below the end of range `k - 1` lies in one of the first `k` ranges.
proof fn lemma_tiling_find(ranges: Seq<Range>, extent: nat, x: int, k: int)
    requires
        tiles_extent(ranges, extent),
        1 <= k <= ranges.len(),
        0 <= x < ranges[k - 1].end,
    ensures
        exists|i: int| 0 <= i < k && (#[trigger] ranges[i]).contains(x),
    decreases k,
{
    if ranges[k - 1].start <= x {
        assert(ranges[k - 1].contains(x));
    } else {
        if k == 1 {
            assert(ranges[0].start == 0);
        } else {
            assert(ranges[k - 2].end == ranges[k - 2 + 1].start);
            lemma_tiling_find(ranges, extent, x, k - 1);
        }
    }
}

/// Ranges that follow one another from 0 to `extent` cover `[0, extent)`
/// without gap or overlap: the indices that lie in some range are exactly
/// those below `extent`, and no index lies in two ranges.
pub proof fn lemma_tiling_covers(ranges: Seq<Range>, extent: nat)
    requires
        tiles_extent(ranges, extent),
    ensures
        forall|x: int| 0 <= x < extent <==> #[trigger] covered(ranges, x),
        forall|i: int, j: int, x: int|
            0 <= i < ranges.len() && 0 <= j < ranges.len() && #[trigger] ranges[i].contains(x)
                && #[trigger] ranges[j].contains(x) ==> i == j,
{
    assert forall|x: int| 0 <= x < extent implies #[trigger] covered(ranges, x) by {
        assert(ranges.len() > 0);
        lemma_tiling_find(ranges, extent, x, ranges.len() as int);
    }
    assert forall|x: int| #[trigger] covered(ranges, x) implies 0 <= x < extent by {
        let i = choose|i: int| 0 <= i < ranges.len() && (#[trigger] ranges[i]).contains(x);
        lemma_tiling_ordered(ranges, extent, i, i);
    }
    assert forall|i: int, j: int, x: int|
        0 <= i < ranges.len() && 0 <= j < ranges.len() && #[trigger] ranges[i].contains(x)
            && #[trigger] ranges[j].contains(x) implies i == j by {
        if i < j {
            lemma_tiling_ordered(ranges, extent, i, j);
        } else if j < i {
            lemma_tiling_ordered(ranges, extent, j, i);
        }
    }
}

/// A count partition covers `[0, extent)` without gap or overlap, has
/// exactly `n` pieces, and its pieces differ in length by at most one.
pub proof fn lemma_count_partition_covers(extent: nat, n: nat)
    requires
        n >= 1,
        extent <= usize::MAX,
    ensures
        count_partition(extent, n).len() == n,
        near_equal(count_partition(extent, n)),
        forall|x: int| 0 <= x < extent <==> #[trigger] covered(count_partition(extent, n), x),
        forall|i: int, j: int, x: int|
            0 <= i < n && 0 <= j < n && #[trigger] count_partition(extent, n)[i].contains(x)
                && #[trigger] count_partition(extent, n)[j].contains(x) ==> i == j,
{
    lemma_count_partition_tiles(extent, n);
    lemma_count_partition_near_equal(extent, n);
    lemma_tiling_covers(count_partition(extent, n), extent);
}

/// How many pieces of length `size` it takes to hold `extent` indices.
pub open spec fn size_piece_count(extent: nat, size: nat) -> nat {
    extent / size + if extent % size == 0 {
        0nat
    } else {
        1nat
    }
}

/// Piece `i` of `extent` cut into pieces of length `size`: it starts at
/// `i * size` and stops after `size` indices or at `extent`, whichever comes
/// first.
pub open spec fn size_piece(extent: nat, size: nat, i: nat) -> Range {
    Range {
        start: (i * size) as usize,
        end: (if (i + 1) * size <= extent {
            (i + 1) * size
        } else {
            extent
        }) as usize,
    }
}

/// The pieces of `extent` cut by `size`, in order.
pub open spec fn size_partition(extent: nat, size: nat) -> Seq<Range> {
    Seq::new(size_piece_count(extent, size), |i: int| size_piece(extent, size, i as nat))
}

/// Where the pieces of a size partition lie: piece `i` starts at `i * size`
/// inside the extent; all but the last are full, and the last is not empty.
pub proof fn lemma_size_piece_bounds(extent: nat, size: nat, i: nat)
    requires
        size >= 1,
        i < size_piece_count(extent, size),
    ensures
        i * size < extent,
        i + 1 < size_piece_count(extent, size) ==> (i + 1) * size < extent,
        i + 1 == size_piece_count(extent, size) ==> extent <= (i + 1) * size,
        (i + 1) * size == i * size + size,
{
    let full = extent / size;
    vstd::arithmetic::div_mod::lemma_fundamental_div_mod(extent as int, size as int);
    vstd::arithmetic::div_mod::lemma_mod_bound(extent as int, size as int);
    assert(size * full == (size as int) * (extent as int / size as int));
    assert((i + 1) * size == i * size + size) by (nonlinear_arith);
    assert((full + 1) * size == full * size + size) by (nonlinear_arith);
    assert(full * size == size * full) by (nonlinear_arith);
    if i < full {
        assert((i + 1) * size <= full * size) by (nonlinear_arith)
            requires
                i + 1 <= full,
        ;
    }
    if i + 1 < size_piece_count(extent, size) && i + 1 >= full {
        assert(i + 1 == full);
    }
    if i + 1 < full {
        assert((i + 1) * size < full * size) by (nonlinear_arith)
            requires
                i + 1 < full,
                size >= 1,
        ;
    }
}

/// The pieces of a size partition follow one another from 0 to `extent`;
/// every piece but the last has length `size`, and the last has at least one
/// index and at most `size`.
pub proof fn lemma_size_partition_tiles(extent: nat, size: nat)
    requires
        size >= 1,
        extent <= usize::MAX,
    ensures
        tiles_extent(size_partition(extent, size), extent),
        forall|i: int|
            0 <= i < size_partition(extent, size).len() - 1 ==> (#[trigger] size_partition(
                extent,
                size,
            )[i]).spec_len() == size,
        size_partition(extent, size).len() > 0 ==> 1 <= size_partition(extent, size).last().spec_len()
            <= size,
{
    let p = size_partition(extent, size);
    let count = size_piece_count(extent, size);
    assert forall|i: int| 0 <= i < count implies (#[trigger] p[i]).wf() && p[i].start == i * size
        && (i + 1 < count ==> p[i].end == (i + 1) * size && p[i].spec_len() == size) && (i + 1
        == count ==> p[i].end == extent && 1 <= p[i].spec_len() <= size) by {
        lemma_size_piece_bounds(extent, size, i as nat);
    }
    if count == 0 {
        vstd::arithmetic::div_mod::lemma_fundamental_div_mod(extent as int, size as int);
        assert(size * 0 == 0) by (nonlinear_arith);
    } else {
        assert(0 * size == 0) by (nonlinear_arith);
        assert(p[0].start == 0);
        assert(p[count - 1].end == extent);
    }
    assert forall|i: int| 0 <= i < p.len() - 1 implies (#[trigger] p[i]).end == p[i + 1].start by {
        assert(p[i + 1].start == (i + 1) * size);
    }
}

/// Cuts `[0, extent)` into consecutive ranges of length `size`; the last
/// range stops at `extent` and may be shorter. An extent of zero gives no
/// range at all. A size of zero is turned down.
pub fn partition_by_size(extent: usize, size: usize) -> (r: Result<Vec<Range>, RushError>)
    ensures
        size == 0 ==> r == Err::<Vec<Range>, RushError>(RushError::InvalidArgument),
        size >= 1 ==> r is Ok,
        r matches Ok(ranges) ==> {
            &&& ranges@ == size_partition(extent as nat, size as nat)
            &&& ranges@.len() == size_piece_count(extent as nat, size as nat)
            &&& tiles_extent(ranges@, extent as nat)
            &&& forall|i: int|
                0 <= i < ranges@.len() - 1 ==> (#[trigger] ranges@[i]).spec_len() == size
            &&& ranges@.len() > 0 ==> 1 <= ranges@.last().spec_len() <= size
        },
{
    if size == 0 {
        return Err(RushError::InvalidArgument);
    }
    let full = extent / size;
    proof {
        vstd::arithmetic::div_mod::lemma_fundamental_div_mod(extent as int, size as int);
        assert(size * full == (size as int) * (extent as int / size as int));
        assert(extent % size != 0 ==> full < extent) by (nonlinear_arith)
            requires
                extent == size * full + extent % size,
                size >= 1,
        ;
        assert(full == 0 ==> size * full == 0) by (nonlinear_arith);
        assert(0 * size == 0) by (nonlinear_arith);
    }
    let count = if extent % size == 0 {
        full
    } else {
        full + 1
    };
    let mut ranges: Vec<Range> = Vec::new();
    let mut start: usize = 0;
    let mut i: usize = 0;
    while i < count
        invariant
            size >= 1,
            i <= count,
            count == size_piece_count(extent as nat, size as nat),
            start == if i < count {
                i * size
            } else {
                extent as int
            },
            ranges@.len() == i,
            forall|k: int|
                0 <= k < i ==> #[trigger] ranges@[k] == size_piece(
                    extent as nat,
                    size as nat,
                    k as nat,
                ),
        decreases count - i,
    {
        proof {
            lemma_size_piece_bounds(extent as nat, size as nat, i as nat);
        }
        let end = if extent - start <= size {
            extent
        } else {
            start + size
        };
        ranges.push(Range { start, end });
        start = end;
        i += 1;
    }
    proof {
        assert(ranges@ =~= size_partition(extent as nat, size as nat));
        lemma_size_partition_tiles(extent as nat, size as nat);
    }
    Ok(ranges)
}

/// How an extent is to be cut: into a number of pieces, or into pieces of a
/// length.
#[derive(Debug, Clone, Copy, PartialEq, Eq, Structural)]
pub enum PieceSpec {
    /// Exactly this many near-equal pieces.
    Count(usize),
    /// Pieces of this length, the last one possibly shorter.
    Size(usize),
}

impl PieceSpec {
    /// A count or a size of at least one.
    pub open spec fn valid(self) -> bool {
        match self {
            PieceSpec::Count(n) => n >= 1,
            PieceSpec::Size(size) => size >= 1,
        }
    }
}

/// The ranges that `spec` asks for on `extent`.
pub open spec fn partition_of(extent: nat, spec: PieceSpec) -> Seq<Range> {
    match spec {
        PieceSpec::Count(n) => count_partition(extent, n as nat),
        PieceSpec::Size(size) => size_partition(extent, size as nat),
    }
}

/// Cuts `[0, extent)` as `spec` asks. Either way the ranges follow one
/// another from 0 to `extent`.
pub fn partition(extent: usize, spec: PieceSpec) -> (r: Result<Vec<Range>, RushError>)
    ensures
        !spec.valid() ==> r == Err::<Vec<Range>, RushError>(RushError::InvalidArgument),
        spec.valid() ==> r is Ok,
        r matches Ok(ranges) ==> {
            &&& ranges@ == partition_of(extent as nat, spec)
            &&& tiles_extent(ranges@, extent as nat)
        },
{
    match spec {
        PieceSpec::Count(n) => partition_by_count(extent, n),
        PieceSpec::Size(size) => partition_by_size(extent, size),
    }
}

} // verus!
