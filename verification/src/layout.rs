use vstd::arithmetic::div_mod::{
    lemma_div_by_multiple, lemma_div_is_ordered, lemma_div_pos_is_pos,
    lemma_fundamental_div_mod, lemma_small_div_converse,
};
use vstd::arithmetic::mul::{
    lemma_mul_inequality, lemma_mul_is_distributive_sub_other_way, lemma_mul_nonnegative,
    lemma_mul_upper_bound,
};
use vstd::prelude::*;

verus! {

/// An axis-aligned rectangle given by its two corners, in whole pixels.
#[derive(Clone, Copy, PartialEq, Eq, Structural, Debug)]
pub struct Rect {
    pub x0: u32,
    pub y0: u32,
    pub x1: u32,
    pub y1: u32,
}

impl Rect {
    /// The corners are ordered.
    pub open spec fn wf(self) -> bool {
        self.x0 <= self.x1 && self.y0 <= self.y1
    }

    pub open spec fn width(self) -> int {
        self.x1 - self.x0
    }

    pub open spec fn height(self) -> int {
        self.y1 - self.y0
    }

    pub open spec fn area(self) -> int {
        self.width() * self.height()
    }

    /// The zero-area rectangle sitting at this rectangle's origin.
    pub open spec fn collapsed(self) -> Rect {
        Rect { x0: self.x0, y0: self.y0, x1: self.x0, y1: self.y0 }
    }

    /// The rectangle with no extent at the origin; partitions carry it until
    /// a layout assigns them their slice.
    pub open spec fn zero_spec() -> Rect {
        Rect { x0: 0, y0: 0, x1: 0, y1: 0 }
    }

    /// The rectangle with no extent at the origin.
    pub fn zero() -> (r: Rect)
        ensures
            r == Rect::zero_spec(),
    {
        Rect { x0: 0, y0: 0, x1: 0, y1: 0 }
    }

    /// The number of pixels this rectangle covers.
    pub fn area_px(&self) -> (r: u64)
        requires
            self.wf(),
        ensures
            r == self.area(),
    {
        proof {
            lemma_mul_upper_bound(
                self.x1 - self.x0,
                u32::MAX as int,
                self.y1 - self.y0,
                u32::MAX as int,
            );
        }
        ((self.x1 - self.x0) as u64) * ((self.y1 - self.y0) as u64)
    }
}

/// The total of a sequence of counts.
pub open spec fn sum(s: Seq<u64>) -> int
    decreases s.len(),
{
    if s.len() == 0 {
        0
    } else {
        sum(s.drop_last()) + s.last()
    }
}

/// The total of the first `i` counts.
pub open spec fn prefix_sum(s: Seq<u64>, i: int) -> int {
    sum(s.take(i))
}

/// Extending a prefix by one element adds that element's count.
pub proof fn lemma_prefix_sum_succ(s: Seq<u64>, i: int)
    requires
        0 <= i < s.len(),
    ensures
        prefix_sum(s, i + 1) == prefix_sum(s, i) + s[i],
{
    assert(s.take(i + 1).drop_last() =~= s.take(i));
    assert(s.take(i + 1).last() == s[i]);
}

/// A sum of counts is never negative.
pub proof fn lemma_sum_nonneg(s: Seq<u64>)
    ensures
        sum(s) >= 0,
    decreases s.len(),
{
    if s.len() > 0 {
        lemma_sum_nonneg(s.drop_last());
    }
}

/// Prefix totals are monotone and bounded by the total.
pub proof fn lemma_prefix_sum_bounds(s: Seq<u64>, i: int)
    requires
        0 <= i <= s.len(),
    ensures
        0 <= prefix_sum(s, i) <= sum(s),
    decreases s.len() - i,
{
    lemma_sum_nonneg(s.take(i));
    if i == s.len() {
        assert(s.take(i) =~= s);
    } else {
        lemma_prefix_sum_succ(s, i);
        lemma_prefix_sum_bounds(s, i + 1);
    }
}

/// Where the boundary of a share of `total` falls inside a width: the exact
/// integer division `width * share / total`.
pub open spec fn share_offset(width: int, total: int, share: int) -> int {
    width * share / total
}

/// A share's offset lies inside the width.
pub proof fn lemma_share_offset_bounds(width: int, total: int, share: int)
    requires
        0 <= width,
        0 < total,
        0 <= share <= total,
    ensures
        0 <= share_offset(width, total, share) <= width,
{
    lemma_mul_nonnegative(width, share);
    lemma_div_pos_is_pos(width * share, total);
    lemma_mul_inequality(share, total, width);
    assert(width * share == share * width) by (nonlinear_arith);
    assert(width * total == total * width) by (nonlinear_arith);
    lemma_div_is_ordered(width * share, width * total, total);
    lemma_div_by_multiple(width, total);
}

/// Offsets grow with the share.
pub proof fn lemma_share_offset_monotone(width: int, total: int, a: int, b: int)
    requires
        0 <= width,
        0 < total,
        a <= b,
    ensures
        share_offset(width, total, a) <= share_offset(width, total, b),
{
    lemma_mul_inequality(a, b, width);
    assert(width * a == a * width) by (nonlinear_arith);
    assert(width * b == b * width) by (nonlinear_arith);
    lemma_div_is_ordered(width * a, width * b, total);
}

/// The defining bounds of the rounded-down division inside a share offset.
pub proof fn lemma_share_offset_floor(width: int, total: int, share: int)
    requires
        0 < total,
    ensures
        total * share_offset(width, total, share) <= width * share,
        width * share < total * (share_offset(width, total, share) + 1),
{
    lemma_fundamental_div_mod(width * share, total);
    let q = share_offset(width, total, share);
    assert(total * (q + 1) == total * q + total) by (nonlinear_arith);
}

/// The slice of `rect` spanning the shares `lo..hi` of `total`: a vertical
/// band of the full height whose horizontal extent is the rounded-down
/// proportional offsets of the two shares. A total of zero collapses
/// everything to the rectangle's origin.
pub open spec fn slice_rect(rect: Rect, total: int, lo: int, hi: int) -> Rect {
    if total <= 0 {
        rect.collapsed()
    } else {
        Rect {
            x0: (rect.x0 + share_offset(rect.width(), total, lo)) as u32,
            y0: rect.y0,
            x1: (rect.x0 + share_offset(rect.width(), total, hi)) as u32,
            y1: rect.y1,
        }
    }
}

/// Assign each count a slice of `rect`, in order, proportional to its share
/// of the total. Recomputed from scratch on every call; zero counts get
/// zero-width slices, and a zero total collapses every slice.
pub fn layout_rects(rect: Rect, counts: &Vec<u64>) -> (r: Vec<Rect>)
    requires
        rect.wf(),
        sum(counts@) <= u64::MAX,
    ensures
        r@.len() == counts@.len(),
        forall|i: int| 0 <= i < counts@.len() ==> r@[i] == slice_rect(
            rect,
            sum(counts@),
            prefix_sum(counts@, i),
            prefix_sum(counts@, i + 1),
        ),
        forall|i: int| 0 <= i < counts@.len() ==> (#[trigger] r@[i]).wf(),
{
    let n = counts.len();
    proof {
        assert(counts@.take(0) =~= Seq::<u64>::empty());
    }
    let mut total: u64 = 0;
    let mut i: usize = 0;
    while i < n
        invariant
            n == counts@.len(),
            i <= n,
            total == prefix_sum(counts@, i as int),
            sum(counts@) <= u64::MAX,
        decreases n - i,
    {
        proof {
            lemma_prefix_sum_succ(counts@, i as int);
            lemma_prefix_sum_bounds(counts@, i as int + 1);
            lemma_sum_nonneg(counts@.take(i as int));
        }
        total = total + counts[i];
        i += 1;
    }
    proof {
        assert(counts@.take(n as int) =~= counts@);
    }
    let mut r: Vec<Rect> = Vec::new();
    if total == 0 {
        let mut i: usize = 0;
        while i < n
            invariant
                n == counts@.len(),
                i <= n,
                r@.len() == i as int,
                total == 0,
                total == sum(counts@),
                forall|k: int| 0 <= k < i as int ==> r@[k] == slice_rect(
                    rect,
                    sum(counts@),
                    prefix_sum(counts@, k),
                    prefix_sum(counts@, k + 1),
                ),
                forall|k: int| 0 <= k < i as int ==> (#[trigger] r@[k]).wf(),
            decreases n - i,
        {
            r.push(Rect { x0: rect.x0, y0: rect.y0, x1: rect.x0, y1: rect.y0 });
            i += 1;
        }
        r
    } else {
        let w: u32 = rect.x1 - rect.x0;
        proof {
            lemma_small_div_converse(0, total as int);
            assert(w as int * 0 == 0) by (nonlinear_arith);
        }
        let mut acc: u64 = 0;
        let mut lo_off: u32 = 0;
        let mut i: usize = 0;
        while i < n
            invariant
                n == counts@.len(),
                i <= n,
                r@.len() == i as int,
                rect.wf(),
                w == rect.width(),
                0 < total,
                total == sum(counts@),
                acc == prefix_sum(counts@, i as int),
                0 <= acc <= total,
                lo_off == share_offset(w as int, total as int, acc as int),
                lo_off <= w,
                forall|k: int| 0 <= k < i as int ==> r@[k] == slice_rect(
                    rect,
                    sum(counts@),
                    prefix_sum(counts@, k),
                    prefix_sum(counts@, k + 1),
                ),
                forall|k: int| 0 <= k < i as int ==> (#[trigger] r@[k]).wf(),
            decreases n - i,
        {
            proof {
                lemma_prefix_sum_succ(counts@, i as int);
                lemma_prefix_sum_bounds(counts@, i as int + 1);
            }
            let acc2: u64 = acc + counts[i];
            proof {
                lemma_share_offset_bounds(w as int, total as int, acc2 as int);
                lemma_share_offset_monotone(w as int, total as int, acc as int, acc2 as int);
                lemma_mul_upper_bound(w as int, u32::MAX as int, acc2 as int, u64::MAX as int);
            }
            let hi_wide: u128 = (w as u128) * (acc2 as u128) / (total as u128);
            let hi_off: u32 = hi_wide as u32;
            r.push(Rect { x0: rect.x0 + lo_off, y0: rect.y0, x1: rect.x0 + hi_off, y1: rect.y1 });
            acc = acc2;
            lo_off = hi_off;
            i += 1;
        }
        r
    }
}

/// The summed area of the first `k` slices of a layout.
pub open spec fn slices_area(rect: Rect, counts: Seq<u64>, k: int) -> int
    decreases k,
{
    if k <= 0 {
        0
    } else {
        slices_area(rect, counts, k - 1) + slice_rect(
            rect,
            sum(counts),
            prefix_sum(counts, k - 1),
            prefix_sum(counts, k),
        ).area()
    }
}

/// A slice's area is its offset span times the full height.
proof fn lemma_slice_area(rect: Rect, counts: Seq<u64>, i: int)
    requires
        rect.wf(),
        0 < sum(counts) <= u64::MAX,
        0 <= i < counts.len(),
    ensures
        slice_rect(rect, sum(counts), prefix_sum(counts, i), prefix_sum(counts, i + 1)).area()
            == (share_offset(rect.width(), sum(counts), prefix_sum(counts, i + 1))
                - share_offset(rect.width(), sum(counts), prefix_sum(counts, i)))
                * rect.height(),
{
    let total = sum(counts);
    lemma_prefix_sum_bounds(counts, i);
    lemma_prefix_sum_bounds(counts, i + 1);
    lemma_share_offset_bounds(rect.width(), total, prefix_sum(counts, i));
    lemma_share_offset_bounds(rect.width(), total, prefix_sum(counts, i + 1));
    let o1 = share_offset(rect.width(), total, prefix_sum(counts, i));
    let o2 = share_offset(rect.width(), total, prefix_sum(counts, i + 1));
    lemma_mul_is_distributive_sub_other_way(rect.height(), o2, o1);
}

/// The area of a layout's first `k` slices telescopes to the offset of the
/// `k`-th boundary times the height.
proof fn lemma_slices_area_telescopes(rect: Rect, counts: Seq<u64>, k: int)
    requires
        rect.wf(),
        0 < sum(counts) <= u64::MAX,
        0 <= k <= counts.len(),
    ensures
        slices_area(rect, counts, k) == share_offset(
            rect.width(),
            sum(counts),
            prefix_sum(counts, k),
        ) * rect.height(),
    decreases k,
{
    let total = sum(counts);
    if k == 0 {
        assert(counts.take(0) =~= Seq::<u64>::empty());
        lemma_small_div_converse(0, total);
        assert(rect.width() * 0 == 0) by (nonlinear_arith);
        assert(0 * rect.height() == 0) by (nonlinear_arith);
    } else {
        lemma_slices_area_telescopes(rect, counts, k - 1);
        lemma_slice_area(rect, counts, k - 1);
        let o1 = share_offset(rect.width(), total, prefix_sum(counts, k - 1));
        let o2 = share_offset(rect.width(), total, prefix_sum(counts, k));
        assert(o1 * rect.height() + (o2 - o1) * rect.height() == o2 * rect.height())
            by (nonlinear_arith);
    }
}

/// Law: with a positive total, the slices of a layout tile the bounding
/// rectangle exactly — their areas add up to the rectangle's own area.
pub proof fn lemma_layout_total_area(rect: Rect, counts: Seq<u64>)
    requires
        rect.wf(),
        0 < sum(counts) <= u64::MAX,
    ensures
        slices_area(rect, counts, counts.len() as int) == rect.area(),
{
    let total = sum(counts);
    lemma_slices_area_telescopes(rect, counts, counts.len() as int);
    assert(counts.take(counts.len() as int) =~= counts);
    lemma_div_by_multiple(rect.width(), total);
    assert(rect.width() * total == total * rect.width()) by (nonlinear_arith);
}

/// Law: each slice's extent is proportional to its count, up to one rounding
/// unit: the slice width, scaled by the total, differs from the count's exact
/// share of the width by less than one total; scaled areas follow.
pub proof fn lemma_layout_proportional(rect: Rect, counts: Seq<u64>, i: int)
    requires
        rect.wf(),
        0 < sum(counts) <= u64::MAX,
        0 <= i < counts.len(),
    ensures
        ({
            let s = slice_rect(rect, sum(counts), prefix_sum(counts, i), prefix_sum(counts, i + 1));
            let total = sum(counts);
            &&& counts[i] * rect.width() - total < (s.x1 - s.x0) * total
            &&& (s.x1 - s.x0) * total < counts[i] * rect.width() + total
            &&& counts[i] * rect.area() - total * rect.height() <= s.area() * total
            &&& s.area() * total <= counts[i] * rect.area() + total * rect.height()
        }),
{
    let total = sum(counts);
    let w = rect.width();
    let h = rect.height();
    let p1 = prefix_sum(counts, i);
    let p2 = prefix_sum(counts, i + 1);
    lemma_prefix_sum_succ(counts, i);
    lemma_prefix_sum_bounds(counts, i);
    lemma_prefix_sum_bounds(counts, i + 1);
    let o1 = share_offset(w, total, p1);
    let o2 = share_offset(w, total, p2);
    lemma_share_offset_bounds(w, total, p1);
    lemma_share_offset_bounds(w, total, p2);
    lemma_share_offset_floor(w, total, p1);
    lemma_share_offset_floor(w, total, p2);
    let s = slice_rect(rect, total, p1, p2);
    assert(s.x1 - s.x0 == o2 - o1);
    // total * o2 <= w * p2, w * p1 < total * (o1 + 1), and p2 - p1 == counts[i]
    assert(counts[i] * w - total < (o2 - o1) * total && (o2 - o1) * total < counts[i] * w + total)
        by (nonlinear_arith)
        requires
            total * o2 <= w * p2,
            w * p2 < total * (o2 + 1),
            total * o1 <= w * p1,
            w * p1 < total * (o1 + 1),
            p2 - p1 == counts[i],
            0 < total,
    ;
    lemma_slice_area(rect, counts, i);
    assert(s.area() == (o2 - o1) * h);
    assert({
        &&& counts[i] * (w * h) - total * h <= ((o2 - o1) * h) * total
        &&& ((o2 - o1) * h) * total <= counts[i] * (w * h) + total * h
    })
        by (nonlinear_arith)
        requires
            counts[i] * w - total < (o2 - o1) * total,
            (o2 - o1) * total < counts[i] * w + total,
            h >= 0,
            0 < total,
    ;
}

/// Law: a partition with count zero is assigned a slice of zero area (and a
/// zero total collapses every slice), so it never covers any pixels while
/// still keeping its place in the laid-out list.
pub proof fn lemma_zero_count_zero_area(rect: Rect, counts: Seq<u64>, i: int)
    requires
        rect.wf(),
        sum(counts) <= u64::MAX,
        0 <= i < counts.len(),
        counts[i] == 0,
    ensures
        slice_rect(rect, sum(counts), prefix_sum(counts, i), prefix_sum(counts, i + 1)).area()
            == 0,
{
    let total = sum(counts);
    lemma_sum_nonneg(counts);
    if total == 0 {
        let s = slice_rect(rect, total, prefix_sum(counts, i), prefix_sum(counts, i + 1));
        assert(s.x1 == s.x0);
        assert(s.area() == 0 * s.height());
        assert(0 * s.height() == 0) by (nonlinear_arith);
    } else {
        lemma_prefix_sum_succ(counts, i);
        let s = slice_rect(rect, total, prefix_sum(counts, i), prefix_sum(counts, i + 1));
        assert(s.x1 == s.x0);
        assert(s.area() == 0 * s.height());
        assert(0 * s.height() == 0) by (nonlinear_arith);
    }
}

} // verus!
