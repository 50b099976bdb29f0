//! Nearest-colour lookup: a k-d tree over a palette's colours in RGB space.

use crate::color::{lemma_sq_dist_bounded, lemma_sq_dist_zero, sq_dist, Palette, Rgb, MAX_SQ_DIST};
use vstd::prelude::*;

verus! {

/// The palette index nearest to `color`: the entry at the least squared
/// distance, and among equally near entries the one that comes first.
/// It is 0 for an empty palette.
pub open spec fn nearest_index(palette: Seq<Rgb>, color: Rgb) -> int
    decreases palette.len(),
{
    if palette.len() <= 1 {
        0
    } else {
        let best = nearest_index(palette.drop_last(), color);
        if sq_dist(palette.last(), color) < sq_dist(palette[best], color) {
            palette.len() - 1
        } else {
            best
        }
    }
}

/// `index` is the first of the palette entries nearest to `color`.
pub open spec fn is_first_nearest(palette: Seq<Rgb>, color: Rgb, index: int) -> bool {
    &&& 0 <= index < palette.len()
    &&& forall|j: int|
        0 <= j < palette.len() ==> sq_dist(palette[index], color) <= sq_dist(
            #[trigger] palette[j],
            color,
        )
    &&& forall|j: int|
        0 <= j < index ==> sq_dist(palette[index], color) < sq_dist(#[trigger] palette[j], color)
}

/// In a palette that is not empty, `nearest_index` is the first of the
/// nearest entries.
pub proof fn lemma_nearest_index_is_first_nearest(palette: Seq<Rgb>, color: Rgb)
    requires
        palette.len() > 0,
    ensures
        is_first_nearest(palette, color, nearest_index(palette, color)),
    decreases palette.len(),
{
    if palette.len() > 1 {
        let rest = palette.drop_last();
        lemma_nearest_index_is_first_nearest(rest, color);
        let k = nearest_index(palette, color);
        assert forall|j: int| 0 <= j < palette.len() implies sq_dist(palette[k], color) <= sq_dist(
            #[trigger] palette[j],
            color,
        ) by {
            if j < rest.len() {
                assert(rest[j] == palette[j]);
            }
        }
        assert forall|j: int| 0 <= j < k implies sq_dist(palette[k], color) < sq_dist(
            #[trigger] palette[j],
            color,
        ) by {
            assert(rest[j] == palette[j]);
        }
    }
}

/// There is only one first nearest entry.
pub proof fn lemma_first_nearest_unique(palette: Seq<Rgb>, color: Rgb, index: int)
    requires
        is_first_nearest(palette, color, index),
    ensures
        index == nearest_index(palette, color),
{
    lemma_nearest_index_is_first_nearest(palette, color);
}

/// A colour of the palette is its own nearest colour.
pub proof fn lemma_nearest_of_member(palette: Seq<Rgb>, color: Rgb)
    requires
        palette.contains(color),
    ensures
        0 <= nearest_index(palette, color) < palette.len(),
        palette[nearest_index(palette, color)] == color,
{
    lemma_nearest_index_is_first_nearest(palette, color);
    let k = nearest_index(palette, color);
    let i = choose|i: int| 0 <= i < palette.len() && palette[i] == color;
    lemma_sq_dist_zero(palette[i], color);
    lemma_sq_dist_zero(palette[k], color);
}

/// A box in RGB space: the least and the greatest value of each channel.
struct Bounds {
    min: Rgb,
    max: Rgb,
}

/// The best entry seen so far in a search: its squared distance and its
/// palette index.
#[derive(Clone, Copy)]
struct Candidate {
    dist: u32,
    index: usize,
}

/// A colour's coordinate along an axis: 0 is red, 1 green, 2 blue.
spec fn coord(color: Rgb, axis: u8) -> int {
    if axis == 0 {
        color.r as int
    } else if axis == 1 {
        color.g as int
    } else {
        color.b as int
    }
}

/// `color` with its coordinate along `axis` replaced.
spec fn with_coord(color: Rgb, axis: u8, value: u8) -> Rgb {
    if axis == 0 {
        Rgb { r: value, g: color.g, b: color.b }
    } else if axis == 1 {
        Rgb { r: color.r, g: value, b: color.b }
    } else {
        Rgb { r: color.r, g: color.g, b: value }
    }
}

/// `color` lies in the box.
spec fn inside(color: Rgb, bounds: Bounds) -> bool {
    &&& bounds.min.r <= color.r <= bounds.max.r
    &&& bounds.min.g <= color.g <= bounds.max.g
    &&& bounds.min.b <= color.b <= bounds.max.b
}

/// The axis that the level below `axis` splits on.
spec fn next_axis(axis: u8) -> u8 {
    if axis >= 2 {
        0
    } else {
        (axis + 1) as u8
    }
}

/// The coordinate along `axis` of the entry at position `k` of the layout.
spec fn key(colors: Seq<Rgb>, order: Seq<usize>, k: int, axis: u8) -> int {
    coord(colors[order[k] as int], axis)
}

/// Every position of the layout holds a palette index.
spec fn entries_valid(order: Seq<usize>, n: nat) -> bool {
    forall|k: int| 0 <= k < order.len() ==> #[trigger] order[k] < n
}

/// Palette index `i` stands somewhere in the layout.
spec fn holds(order: Seq<usize>, i: int) -> bool {
    exists|k: int| 0 <= k < order.len() && #[trigger] order[k] == i
}

/// `after` is `before` with the positions from `lo` up to `hi` rearranged:
/// nothing moved elsewhere, and no entry was lost.
spec fn rearranged(before: Seq<usize>, after: Seq<usize>, lo: int, hi: int) -> bool {
    &&& after.len() == before.len()
    &&& forall|k: int| 0 <= k < before.len() && !(lo <= k < hi) ==> #[trigger] after[k] == before[k]
    &&& forall|i: int| #[trigger] holds(before, i) ==> holds(after, i)
}

/// The entry at `mid` splits the positions from `lo` up to `hi` along
/// `axis`: no entry before it has a greater coordinate, none after it a
/// smaller one.
spec fn split_at(colors: Seq<Rgb>, order: Seq<usize>, lo: int, mid: int, hi: int, axis: u8) -> bool {
    &&& forall|k: int|
        lo <= k < mid ==> #[trigger] key(colors, order, k, axis) <= key(colors, order, mid, axis)
    &&& forall|k: int|
        mid < k < hi ==> #[trigger] key(colors, order, k, axis) >= key(colors, order, mid, axis)
}

/// The positions from `lo` up to `hi` form a balanced k-d tree: the middle
/// entry is the root and splits the others along `axis`; the entries before
/// it and those after it form such trees on the next axis.
spec fn kd_ok(colors: Seq<Rgb>, order: Seq<usize>, lo: int, hi: int, axis: u8) -> bool
    decreases hi - lo,
{
    if hi - lo <= 1 {
        true
    } else {
        let mid = lo + (hi - lo) / 2;
        &&& split_at(colors, order, lo, mid, hi, axis)
        &&& kd_ok(colors, order, lo, mid, next_axis(axis))
        &&& kd_ok(colors, order, mid + 1, hi, next_axis(axis))
    }
}

/// Entry `j` is nearer to `query` than `best`, or as near and earlier.
spec fn beats(colors: Seq<Rgb>, query: Rgb, j: int, best: Candidate) -> bool {
    let d = sq_dist(colors[j], query);
    d < best.dist || (d == best.dist && j < best.index)
}

/// `a` is at least as good a candidate as `b`.
spec fn no_worse(a: Candidate, b: Candidate) -> bool {
    a.dist < b.dist || (a.dist == b.dist && a.index <= b.index)
}

/// A tree is a tree whatever stands outside its positions.
proof fn lemma_kd_ok_frame(
    colors: Seq<Rgb>,
    first: Seq<usize>,
    second: Seq<usize>,
    lo: int,
    hi: int,
    axis: u8,
)
    requires
        forall|k: int| lo <= k < hi ==> #[trigger] second[k] == first[k],
        kd_ok(colors, first, lo, hi, axis),
    ensures
        kd_ok(colors, second, lo, hi, axis),
    decreases hi - lo,
{
    if hi - lo > 1 {
        let mid = lo + (hi - lo) / 2;
        assert(second[mid] == first[mid]);
        assert forall|k: int| lo <= k < mid implies #[trigger] key(colors, second, k, axis) <= key(
            colors,
            second,
            mid,
            axis,
        ) by {
            assert(second[k] == first[k]);
            assert(key(colors, first, k, axis) <= key(colors, first, mid, axis));
        }
        assert forall|k: int| mid < k < hi implies #[trigger] key(colors, second, k, axis) >= key(
            colors,
            second,
            mid,
            axis,
        ) by {
            assert(second[k] == first[k]);
            assert(key(colors, first, k, axis) >= key(colors, first, mid, axis));
        }
        lemma_kd_ok_frame(colors, first, second, lo, mid, next_axis(axis));
        lemma_kd_ok_frame(colors, first, second, mid + 1, hi, next_axis(axis));
    }
}

/// Exchanging two entries among the positions from `lo` up to `hi`
/// rearranges those positions.
proof fn lemma_swap_rearranged(before: Seq<usize>, after: Seq<usize>, lo: int, hi: int, i: int, j: int)
    requires
        0 <= lo <= i < hi <= before.len(),
        lo <= j < hi,
        after == before.update(i, before[j]).update(j, before[i]),
    ensures
        rearranged(before, after, lo, hi),
{
    assert forall|v: int| #[trigger] holds(before, v) implies holds(after, v) by {
        let k = choose|k: int| 0 <= k < before.len() && #[trigger] before[k] == v;
        let moved = if k == i {
            j
        } else if k == j {
            i
        } else {
            k
        };
        assert(after[moved] == v);
    }
}

/// A colour across the plane through `pivot` from `query` is at least as
/// far from `query` as the plane is.
proof fn lemma_plane_bound(color: Rgb, query: Rgb, axis: u8, pivot: int)
    requires
        (coord(color, axis) >= pivot && coord(query, axis) < pivot) || (coord(color, axis) <= pivot
            && coord(query, axis) >= pivot),
    ensures
        sq_dist(color, query) >= (coord(query, axis) - pivot) * (coord(query, axis) - pivot),
{
    let dr = color.r - query.r;
    let dg = color.g - query.g;
    let db = color.b - query.b;
    assert(dr * dr >= 0) by (nonlinear_arith);
    assert(dg * dg >= 0) by (nonlinear_arith);
    assert(db * db >= 0) by (nonlinear_arith);
    let gap = coord(query, axis) - pivot;
    let d = coord(color, axis) - coord(query, axis);
    assert(d * d >= gap * gap) by (nonlinear_arith)
        requires
            (d + gap >= 0 && gap < 0) || (d + gap <= 0 && gap >= 0),
    ;
}

/// A colour's coordinate along `axis`.
fn coordinate(color: Rgb, axis: u8) -> (c: u8)
    ensures
        c == coord(color, axis),
{
    if axis == 0 {
        color.r
    } else if axis == 1 {
        color.g
    } else {
        color.b
    }
}

/// Exchanges the entries at positions `i` and `j`.
fn swap_entries(order: &mut Vec<usize>, i: usize, j: usize)
    requires
        i < old(order)@.len(),
        j < old(order)@.len(),
    ensures
        final(order)@ == old(order)@.update(i as int, old(order)@[j as int]).update(
            j as int,
            old(order)@[i as int],
        ),
{
    let first = order[i];
    let second = order[j];
    order.set(i, second);
    order.set(j, first);
}

/// Rearranges the positions from `a` up to `b` into three runs: entries
/// below `pivot` along `axis`, entries at `pivot`, entries above it.
/// Returns where the middle run starts and where it ends.
fn partition(
    palette: &Vec<Rgb>,
    order: &mut Vec<usize>,
    a: usize,
    b: usize,
    axis: u8,
    pivot: u8,
    Ghost(witness): Ghost<int>,
    Ghost(bounds): Ghost<Bounds>,
    Ghost(low): Ghost<int>,
    Ghost(high): Ghost<int>,
) -> (cut: (usize, usize))
    requires
        a <= witness < b <= old(order)@.len(),
        axis < 3,
        entries_valid(old(order)@, palette@.len()),
        key(palette@, old(order)@, witness, axis) == pivot,
        forall|k: int|
            a <= k < b ==> inside(palette@[#[trigger] old(order)@[k] as int], bounds) && low <= key(
                palette@,
                old(order)@,
                k,
                axis,
            ) <= high,
    ensures
        a <= cut.0 < cut.1 <= b,
        rearranged(old(order)@, final(order)@, a as int, b as int),
        entries_valid(final(order)@, palette@.len()),
        forall|k: int|
            a <= k < b ==> inside(palette@[#[trigger] final(order)@[k] as int], bounds) && low
                <= key(palette@, final(order)@, k, axis) <= high,
        forall|k: int| a <= k < cut.0 ==> #[trigger] key(palette@, final(order)@, k, axis) < pivot,
        forall|k: int|
            cut.0 <= k < cut.1 ==> #[trigger] key(palette@, final(order)@, k, axis) == pivot,
        forall|k: int| cut.1 <= k < b ==> #[trigger] key(palette@, final(order)@, k, axis) > pivot,
{
    let mut lt: usize = a;
    let mut i: usize = a;
    let mut gt: usize = b;
    let ghost mut w: int = witness;
    while i < gt
        invariant
            a <= lt <= i <= gt <= b <= order@.len(),
            a <= w < b,
            axis < 3,
            key(palette@, order@, w, axis) == pivot,
            rearranged(old(order)@, order@, a as int, b as int),
            entries_valid(order@, palette@.len()),
            forall|k: int|
                a <= k < b ==> inside(palette@[#[trigger] order@[k] as int], bounds) && low <= key(
                    palette@,
                    order@,
                    k,
                    axis,
                ) <= high,
            forall|k: int| a <= k < lt ==> #[trigger] key(palette@, order@, k, axis) < pivot,
            forall|k: int| lt <= k < i ==> #[trigger] key(palette@, order@, k, axis) == pivot,
            forall|k: int| gt <= k < b ==> #[trigger] key(palette@, order@, k, axis) > pivot,
        decreases gt - i,
    {
        let ghost before = order@;
        let entry = order[i];
        let k = coordinate(palette[entry], axis);
        if k < pivot {
            swap_entries(order, lt, i);
            proof {
                lemma_swap_rearranged(before, order@, a as int, b as int, lt as int, i as int);
                if w == lt {
                    w = i as int;
                } else if w == i {
                    w = lt as int;
                }
            }
            lt += 1;
            i += 1;
        } else if k > pivot {
            gt -= 1;
            swap_entries(order, i, gt);
            proof {
                lemma_swap_rearranged(before, order@, a as int, b as int, i as int, gt as int);
                if w == gt {
                    w = i as int;
                } else if w == i {
                    w = gt as int;
                }
            }
        } else {
            i += 1;
        }
    }
    (lt, gt)
}

/// Rearranges the positions from `lo` up to `hi` so that the entry at
/// `mid` splits them along `axis`.
fn select(
    palette: &Vec<Rgb>,
    order: &mut Vec<usize>,
    lo: usize,
    mid: usize,
    hi: usize,
    axis: u8,
    Ghost(bounds): Ghost<Bounds>,
)
    requires
        lo <= mid < hi <= old(order)@.len(),
        axis < 3,
        entries_valid(old(order)@, palette@.len()),
        forall|k: int| lo <= k < hi ==> inside(palette@[#[trigger] old(order)@[k] as int], bounds),
    ensures
        rearranged(old(order)@, final(order)@, lo as int, hi as int),
        entries_valid(final(order)@, palette@.len()),
        forall|k: int| lo <= k < hi ==> inside(palette@[#[trigger] final(order)@[k] as int], bounds),
        split_at(palette@, final(order)@, lo as int, mid as int, hi as int, axis),
{
    let mut a: usize = lo;
    let mut b: usize = hi;
    let ghost mut low: int = 0;
    let ghost mut high: int = 255;
    loop
        invariant
            lo <= a <= mid < b <= hi <= order@.len(),
            axis < 3,
            rearranged(old(order)@, order@, lo as int, hi as int),
            entries_valid(order@, palette@.len()),
            forall|k: int| lo <= k < hi ==> inside(palette@[#[trigger] order@[k] as int], bounds),
            forall|k: int| lo <= k < a ==> #[trigger] key(palette@, order@, k, axis) <= low,
            forall|k: int| a <= k < b ==> low <= #[trigger] key(palette@, order@, k, axis) <= high,
            forall|k: int| b <= k < hi ==> #[trigger] key(palette@, order@, k, axis) >= high,
        decreases b - a,
    {
        let ghost before = order@;
        let pivot = coordinate(palette[order[mid]], axis);
        assert(low <= key(palette@, order@, mid as int, axis) <= high);
        let (p, q) = partition(
            palette,
            order,
            a,
            b,
            axis,
            pivot,
            Ghost(mid as int),
            Ghost(bounds),
            Ghost(low),
            Ghost(high),
        );
        proof {
            assert forall|k: int| lo <= k < hi implies inside(
                palette@[#[trigger] order@[k] as int],
                bounds,
            ) by {
                if !(a <= k < b) {
                    assert(order@[k] == before[k]);
                }
            }
            assert forall|k: int| lo <= k < a implies #[trigger] key(palette@, order@, k, axis)
                <= low by {
                assert(order@[k] == before[k]);
                assert(key(palette@, before, k, axis) <= low);
            }
            assert forall|k: int| b <= k < hi implies #[trigger] key(palette@, order@, k, axis)
                >= high by {
                assert(order@[k] == before[k]);
                assert(key(palette@, before, k, axis) >= high);
            }
        }
        if mid < p {
            b = p;
            proof {
                high = pivot as int;
            }
        } else if mid >= q {
            a = q;
            proof {
                low = pivot as int;
            }
        } else {
            return ;
        }
    }
}

/// Rearranges the positions from `lo` up to `hi` into a balanced k-d tree
/// that splits on `axis` first.
fn arrange(
    palette: &Vec<Rgb>,
    order: &mut Vec<usize>,
    lo: usize,
    hi: usize,
    axis: u8,
    Ghost(bounds): Ghost<Bounds>,
)
    requires
        lo <= hi <= old(order)@.len(),
        axis < 3,
        entries_valid(old(order)@, palette@.len()),
        forall|k: int| lo <= k < hi ==> inside(palette@[#[trigger] old(order)@[k] as int], bounds),
    ensures
        rearranged(old(order)@, final(order)@, lo as int, hi as int),
        entries_valid(final(order)@, palette@.len()),
        forall|k: int| lo <= k < hi ==> inside(palette@[#[trigger] final(order)@[k] as int], bounds),
        kd_ok(palette@, final(order)@, lo as int, hi as int, axis),
    decreases hi - lo,
{
    if hi - lo <= 1 {
        return ;
    }
    let mid: usize = lo + (hi - lo) / 2;
    select(palette, order, lo, mid, hi, axis, Ghost(bounds));
    let pivot = coordinate(palette[order[mid]], axis);
    let next: u8 = if axis >= 2 {
        0
    } else {
        axis + 1
    };
    let ghost split = order@;
    let ghost lower = Bounds { min: bounds.min, max: with_coord(bounds.max, axis, pivot) };
    let ghost upper = Bounds { min: with_coord(bounds.min, axis, pivot), max: bounds.max };
    proof {
        assert(inside(palette@[split[mid as int] as int], bounds));
        assert forall|k: int| lo <= k < mid implies inside(
            palette@[#[trigger] split[k] as int],
            lower,
        ) by {
            assert(key(palette@, split, k, axis) <= key(palette@, split, mid as int, axis));
        }
    }
    arrange(palette, order, lo, mid, next, Ghost(lower));
    let ghost left = order@;
    proof {
        assert forall|k: int| mid < k < hi implies inside(
            palette@[#[trigger] left[k] as int],
            upper,
        ) by {
            assert(left[k] == split[k]);
            assert(key(palette@, split, k, axis) >= key(palette@, split, mid as int, axis));
        }
    }
    arrange(palette, order, mid + 1, hi, next, Ghost(upper));
    proof {
        let done = order@;
        assert(done[mid as int] == split[mid as int]);
        assert forall|k: int| lo <= k < mid implies #[trigger] key(palette@, done, k, axis) <= key(
            palette@,
            done,
            mid as int,
            axis,
        ) by {
            assert(done[k] == left[k]);
            assert(inside(palette@[left[k] as int], lower));
        }
        assert forall|k: int| mid < k < hi implies #[trigger] key(palette@, done, k, axis) >= key(
            palette@,
            done,
            mid as int,
            axis,
        ) by {
            assert(inside(palette@[done[k] as int], upper));
        }
        assert forall|k: int| lo <= k < hi implies inside(
            palette@[#[trigger] done[k] as int],
            bounds,
        ) by {
            if k < mid {
                assert(done[k] == left[k]);
                assert(inside(palette@[left[k] as int], lower));
            } else if k > mid {
                assert(inside(palette@[done[k] as int], upper));
            }
        }
        lemma_kd_ok_frame(palette@, left, done, lo as int, mid as int, next);
    }
}

/// Searches the tree in the positions from `lo` up to `hi` for an entry
/// better than `best`.
fn search(
    palette: &Vec<Rgb>,
    order: &Vec<usize>,
    lo: usize,
    hi: usize,
    axis: u8,
    query: Rgb,
    best: Candidate,
) -> (found: Candidate)
    requires
        lo <= hi <= order@.len(),
        axis < 3,
        entries_valid(order@, palette@.len()),
        kd_ok(palette@, order@, lo as int, hi as int, axis),
    ensures
        no_worse(found, best),
        found == best || (found.index < palette@.len() && found.dist == sq_dist(
            palette@[found.index as int],
            query,
        )),
        forall|k: int| lo <= k < hi ==> !beats(palette@, query, #[trigger] order@[k] as int, found),
    decreases hi - lo,
{
    if lo >= hi {
        return best;
    }
    let mid: usize = lo + (hi - lo) / 2;
    let entry = order[mid];
    let color = palette[entry];
    let dist = color.sq_distance(query);
    let mut found = best;
    if dist < best.dist || (dist == best.dist && entry < best.index) {
        found = Candidate { dist, index: entry };
    }
    let next: u8 = if axis >= 2 {
        0
    } else {
        axis + 1
    };
    let pivot = coordinate(color, axis);
    let gap: i32 = coordinate(query, axis) as i32 - pivot as i32;
    assert(0 <= gap * gap <= 65025) by (nonlinear_arith)
        requires
            -255 <= gap <= 255,
    ;
    if gap < 0 {
        found = search(palette, order, lo, mid, next, query, found);
        if (gap * gap) as u32 <= found.dist {
            found = search(palette, order, mid + 1, hi, next, query, found);
        } else {
            assert forall|k: int| mid < k < hi implies !beats(
                palette@,
                query,
                #[trigger] order@[k] as int,
                found,
            ) by {
                assert(key(palette@, order@, k, axis) >= key(palette@, order@, mid as int, axis));
                lemma_plane_bound(palette@[order@[k] as int], query, axis, pivot as int);
            }
        }
    } else {
        found = search(palette, order, mid + 1, hi, next, query, found);
        if (gap * gap) as u32 <= found.dist {
            found = search(palette, order, lo, mid, next, query, found);
        } else {
            assert forall|k: int| lo <= k < mid implies !beats(
                palette@,
                query,
                #[trigger] order@[k] as int,
                found,
            ) by {
                assert(key(palette@, order@, k, axis) <= key(palette@, order@, mid as int, axis));
                lemma_plane_bound(palette@[order@[k] as int], query, axis, pivot as int);
            }
        }
    }
    found
}

/// A balanced k-d tree over the colours of a palette, for finding the entry
/// nearest to a colour. Its view is the palette it was built from.
///
/// The tree is an arrangement of the palette indices: the middle position
/// is the root, the positions before it hold its left subtree, those after
/// it its right subtree, and so on within each part.
pub struct SpatialIndex {
    colors: Vec<Rgb>,
    order: Vec<usize>,
}

impl View for SpatialIndex {
    type V = Seq<Rgb>;

    closed spec fn view(&self) -> Seq<Rgb> {
        self.colors@
    }
}

impl SpatialIndex {
    /// Every palette index stands in the tree, and the tree splits space
    /// along red, green and blue in turn.
    #[verifier::type_invariant]
    pub closed spec fn well_formed(&self) -> bool {
        &&& self.order@.len() == self.colors@.len()
        &&& entries_valid(self.order@, self.colors@.len())
        &&& forall|i: int| 0 <= i < self.colors@.len() ==> #[trigger] holds(self.order@, i)
        &&& kd_ok(self.colors@, self.order@, 0, self.order@.len() as int, 0)
    }

    /// Indexes `palette`. Each colour is tagged with its palette index, so
    /// that colours which occur twice stay apart.
    pub fn build(palette: &Palette) -> (index: SpatialIndex)
        ensures
            index.well_formed(),
            index@ == palette@,
    {
        let n: usize = palette.len();
        let mut colors: Vec<Rgb> = Vec::new();
        let mut order: Vec<usize> = Vec::new();
        let mut i: usize = 0;
        while i < n
            invariant
                i <= n,
                n == palette@.len(),
                colors@ == palette@.take(i as int),
                order@.len() == i,
                forall|k: int| 0 <= k < i ==> #[trigger] order@[k] == k,
            decreases n - i,
        {
            colors.push(palette[i]);
            order.push(i);
            i += 1;
            assert(colors@ =~= palette@.take(i as int));
        }
        assert(palette@.take(n as int) =~= palette@);
        let ghost everything = Bounds {
            min: Rgb { r: 0, g: 0, b: 0 },
            max: Rgb { r: 255, g: 255, b: 255 },
        };
        let ghost identity = order@;
        assert forall|v: int| 0 <= v < n implies #[trigger] holds(identity, v) by {
            assert(identity[v] == v);
        }
        arrange(&colors, &mut order, 0, n, 0, Ghost(everything));
        assert forall|v: int| 0 <= v < colors@.len() implies #[trigger] holds(order@, v) by {
            assert(holds(identity, v));
        }
        SpatialIndex { colors, order }
    }

    /// Number of indexed colours.
    pub fn len(&self) -> (n: usize)
        ensures
            n == self@.len(),
    {
        self.colors.len()
    }

    /// The palette index of the entry nearest to `color` by squared
    /// Euclidean distance; of equally near entries, the first.
    pub fn nearest(&self, color: Rgb) -> (index: usize)
        requires
            self@.len() > 0,
        ensures
            index == nearest_index(self@, color),
            index < self@.len(),
    {
        proof {
            use_type_invariant(self);
        }
        let n: usize = self.colors.len();
        let start = Candidate { dist: MAX_SQ_DIST + 1, index: n };
        let found = search(&self.colors, &self.order, 0, n, 0, color, start);
        proof {
            let colors = self.colors@;
            assert forall|j: int| 0 <= j < n implies !beats(colors, color, j, found) by {
                assert(holds(self.order@, j));
                let k = choose|k: int| 0 <= k < self.order@.len() && #[trigger] self.order@[k] == j;
                assert(!beats(colors, color, self.order@[k] as int, found));
            }
            lemma_sq_dist_bounded(colors[0], color);
            assert(!beats(colors, color, 0, found));
            assert forall|j: int| 0 <= j < colors.len() implies sq_dist(
                colors[found.index as int],
                color,
            ) <= sq_dist(#[trigger] colors[j], color) by {
                assert(!beats(colors, color, j, found));
            }
            assert forall|j: int| 0 <= j < found.index implies sq_dist(
                colors[found.index as int],
                color,
            ) < sq_dist(#[trigger] colors[j], color) by {
                assert(!beats(colors, color, j, found));
            }
            lemma_first_nearest_unique(colors, color, found.index as int);
        }
        found.index
    }

    /// The indexed colour nearest to `color`.
    pub fn nearest_color(&self, color: Rgb) -> (nearest: Rgb)
        requires
            self@.len() > 0,
        ensures
            nearest == self@[nearest_index(self@, color)],
    {
        let index = self.nearest(color);
        self.colors[index]
    }
}

} // verus!
