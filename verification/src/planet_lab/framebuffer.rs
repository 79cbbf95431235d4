//! The planet lab's framebuffer: a row-major grid of ARGB8 words with a
//! depth buffer beside it.
//!
//! Depths are held as order keys (`u32`, see [`crate::depth::depth_key`]):
//! a smaller key is nearer, keys order as the depths themselves do, and
//! [`FAR_DEPTH`] is the key of the farthest depth, positive infinity, which
//! a cleared buffer holds everywhere.
use vstd::prelude::*;

verus! {

/// The order key of positive infinity: every depth but infinity itself
/// (and an undefined one) has a smaller key.
pub const FAR_DEPTH: u32 = 0xFF80_0000u32;

#[verifier::external_type_specification]
#[verifier::external_body]
pub struct ExUVec2(glam::UVec2);

/// The two components `x`, `y` of a `glam::UVec2`, in that order.
pub uninterp spec fn uvec2_components(v: glam::UVec2) -> Seq<u32>;

/// `glam::UVec2::new`, which builds the vector `(x, y)` from its components.
#[verifier::external_body]
fn uvec2_new(x: u32, y: u32) -> (v: glam::UVec2)
    ensures
        uvec2_components(v) == seq![x, y],
{
    glam::UVec2::new(x, y)
}

/// A `w` by `h` grid of ARGB8 colours and depth keys, row by row.
pub struct Framebuffer {
    pub w: usize,
    pub h: usize,
    pub color: Vec<u32>,
    pub depth: Vec<u32>,
}

/// Depth buffer `depth` after a fragment at depth key `z` is tested at
/// pixel `i`: it is kept when it is nearer than what the pixel holds.
pub open spec fn depth_after(depth: Seq<u32>, i: int, z: u32) -> Seq<u32> {
    if z < depth[i] {
        depth.update(i, z)
    } else {
        depth
    }
}

/// Colour buffer `color` after a fragment of colour `argb` at depth key `z`
/// is tested against `depth` at pixel `i`.
pub open spec fn color_after(color: Seq<u32>, depth: Seq<u32>, i: int, z: u32, argb: u32) -> Seq<u32> {
    if z < depth[i] {
        color.update(i, argb)
    } else {
        color
    }
}

impl Framebuffer {
    /// Both buffers hold one entry per pixel.
    pub open spec fn wf(&self) -> bool {
        &&& self.color@.len() == self.w * self.h
        &&& self.depth@.len() == self.w * self.h
    }

    /// The index of pixel `(x, y)`, when it lies on the grid.
    pub open spec fn pixel_index(&self, x: i32, y: i32) -> Option<usize> {
        if 0 <= x && 0 <= y && x < self.w && y < self.h {
            Some((y * self.w + x) as usize)
        } else {
            None
        }
    }

    /// A `w` by `h` framebuffer, all black (0) and all at [`FAR_DEPTH`].
    pub fn new(w: usize, h: usize) -> (fb: Self)
        requires
            w * h <= usize::MAX,
        ensures
            fb.w == w,
            fb.h == h,
            fb.wf(),
            forall|i: int| 0 <= i < w * h ==> fb.color@[i] == 0 && fb.depth@[i] == FAR_DEPTH,
    {
        let n = w * h;
        let mut color: Vec<u32> = Vec::new();
        let mut depth: Vec<u32> = Vec::new();
        let mut i: usize = 0;
        while i < n
            invariant
                i <= n,
                n == w * h,
                color@.len() == i,
                depth@.len() == i,
                forall|j: int| 0 <= j < i ==> color@[j] == 0 && depth@[j] == FAR_DEPTH,
            decreases n - i,
        {
            color.push(0);
            depth.push(FAR_DEPTH);
            i = i + 1;
        }
        Framebuffer { w, h, color, depth }
    }

    /// Paints every pixel `argb` and sets every depth to [`FAR_DEPTH`].
    pub fn clear(&mut self, argb: u32)
        requires
            old(self).wf(),
        ensures
            final(self).wf(),
            final(self).w == old(self).w,
            final(self).h == old(self).h,
            forall|i: int|
                0 <= i < final(self).w * final(self).h ==> final(self).color@[i] == argb
                    && final(self).depth@[i] == FAR_DEPTH,
    {
        let n = self.color.len();
        let mut i: usize = 0;
        while i < n
            invariant
                i <= n,
                n == self.w * self.h,
                self.w == old(self).w,
                self.h == old(self).h,
                self.color@.len() == n,
                self.depth@.len() == n,
                forall|j: int| 0 <= j < i ==> self.color@[j] == argb && self.depth@[j] == FAR_DEPTH,
            decreases n - i,
        {
            self.color.set(i, argb);
            self.depth.set(i, FAR_DEPTH);
            i = i + 1;
        }
    }

    /// The index of pixel `(x, y)` in both buffers, or `None` off the grid.
    pub fn idx(&self, x: i32, y: i32) -> (r: Option<usize>)
        requires
            self.wf(),
        ensures
            r == self.pixel_index(x, y),
    {
        let _n = self.color.len();
        if x >= 0 && y >= 0 && (x as usize) < self.w && (y as usize) < self.h {
            proof {
                lemma_index_below(x as int, y as int, self.w as int, self.h as int);
            }
            Some(y as usize * self.w + x as usize)
        } else {
            None
        }
    }

    /// Draws a fragment of colour `argb` at depth key `z` on pixel `(x, y)`:
    /// on the grid and nearer than what the pixel holds, it replaces both
    /// the pixel's colour and its depth; otherwise nothing changes.
    pub fn put(&mut self, x: i32, y: i32, z: u32, argb: u32)
        requires
            old(self).wf(),
        ensures
            final(self).wf(),
            final(self).w == old(self).w,
            final(self).h == old(self).h,
            match old(self).pixel_index(x, y) {
                Some(i) => {
                    &&& final(self).depth@ == depth_after(old(self).depth@, i as int, z)
                    &&& final(self).color@ == color_after(
                        old(self).color@,
                        old(self).depth@,
                        i as int,
                        z,
                        argb,
                    )
                },
                None => final(self).depth@ == old(self).depth@ && final(self).color@ == old(
                    self,
                ).color@,
            },
    {
        if let Some(i) = self.idx(x, y) {
            proof {
                lemma_index_below(x as int, y as int, self.w as int, self.h as int);
            }
            if z < self.depth[i] {
                self.depth.set(i, z);
                self.color.set(i, argb);
            }
        }
    }

    /// The size of the grid as a `UVec2` `(w, h)`, each converted with `as u32`.
    pub fn size(&self) -> (s: glam::UVec2)
        ensures
            uvec2_components(s) == seq![self.w as u32, self.h as u32],
    {
        uvec2_new(self.w as u32, self.h as u32)
    }
}

/// A pixel on a `w` by `h` grid has a row-major index below `w * h`.
pub proof fn lemma_index_below(x: int, y: int, w: int, h: int)
    requires
        0 <= x < w,
        0 <= y < h,
    ensures
        0 <= y * w + x < w * h,
{
    assert(0 <= y * w + x < w * h) by (nonlinear_arith)
        requires
            0 <= x < w,
            0 <= y < h,
    ;
}

/// Distinct pixels of the grid have distinct indices: no two pixels share
/// an entry of the buffers.
pub proof fn lemma_index_injective(fb: Framebuffer, x1: i32, y1: i32, x2: i32, y2: i32)
    requires
        fb.w * fb.h <= usize::MAX,
        fb.pixel_index(x1, y1) is Some,
        fb.pixel_index(x1, y1) == fb.pixel_index(x2, y2),
    ensures
        x1 == x2 && y1 == y2,
{
    let w = fb.w as int;
    lemma_index_below(x1 as int, y1 as int, w, fb.h as int);
    lemma_index_below(x2 as int, y2 as int, w, fb.h as int);
    assert(y1 * w + x1 == y2 * w + x2);
    assert(y1 == y2 && x1 == x2) by (nonlinear_arith)
        requires
            0 <= x1 < w,
            0 <= x2 < w,
            0 <= y1,
            0 <= y2,
            y1 * w + x1 == y2 * w + x2,
    {
        if y1 < y2 {
            assert(y1 * w + w <= y2 * w);
        } else if y2 < y1 {
            assert(y2 * w + w <= y1 * w);
        }
    }
}

/// The depth buffer does not depend on the order in which fragments are
/// drawn: testing `a` at pixel `i` and then `b` at pixel `j` leaves the same
/// depths as the other way round.
pub proof fn lemma_depth_order_independent(depth: Seq<u32>, i: int, a: u32, j: int, b: u32)
    requires
        0 <= i < depth.len(),
        0 <= j < depth.len(),
    ensures
        depth_after(depth_after(depth, i, a), j, b) == depth_after(depth_after(depth, j, b), i, a),
{
    let l = depth_after(depth_after(depth, i, a), j, b);
    let r = depth_after(depth_after(depth, j, b), i, a);
    assert(l =~= r);
}

/// A depth test never moves a pixel farther away: each pixel's depth key
/// after a test is at most its key before, and at most the fragment's key
/// at the tested pixel.
pub proof fn lemma_depth_never_recedes(depth: Seq<u32>, i: int, z: u32)
    requires
        0 <= i < depth.len(),
    ensures
        forall|p: int| 0 <= p < depth.len() ==> #[trigger] depth_after(depth, i, z)[p] <= depth[p],
        depth_after(depth, i, z)[i] <= z,
        depth_after(depth, i, z).len() == depth.len(),
{
}

/// The depth buffer after fragments `frags` (each a pixel index and a depth
/// key) are tested one after another.
pub open spec fn depth_after_all(depth: Seq<u32>, frags: Seq<(int, u32)>) -> Seq<u32>
    decreases frags.len(),
{
    if frags.len() == 0 {
        depth
    } else {
        depth_after(depth_after_all(depth, frags.drop_last()), frags.last().0, frags.last().1)
    }
}

/// Nearest fragment wins: after any fragments are drawn, each pixel holds
/// the nearest of its starting depth and the depths of the fragments drawn
/// on it.
pub proof fn lemma_nearest_fragment_wins(depth: Seq<u32>, frags: Seq<(int, u32)>)
    requires
        forall|k: int| 0 <= k < frags.len() ==> 0 <= #[trigger] frags[k].0 < depth.len(),
    ensures
        depth_after_all(depth, frags).len() == depth.len(),
        forall|p: int|
            0 <= p < depth.len() ==> {
                &&& #[trigger] depth_after_all(depth, frags)[p] <= depth[p]
                &&& forall|k: int|
                    0 <= k < frags.len() && frags[k].0 == p ==> depth_after_all(depth, frags)[p]
                        <= #[trigger] frags[k].1
                &&& depth_after_all(depth, frags)[p] == depth[p] || exists|k: int|
                    0 <= k < frags.len() && frags[k].0 == p && depth_after_all(depth, frags)[p]
                        == #[trigger] frags[k].1
            },
    decreases frags.len(),
{
    if frags.len() > 0 {
        let prev = frags.drop_last();
        assert forall|k: int| 0 <= k < prev.len() implies 0 <= #[trigger] prev[k].0 < depth.len() by {
            assert(prev[k] == frags[k]);
        }
        lemma_nearest_fragment_wins(depth, prev);
        let d = depth_after_all(depth, prev);
        let last = frags.last();
        let n = frags.len() - 1;
        assert(last == frags[n]);
        let r = depth_after_all(depth, frags);
        assert(r == depth_after(d, last.0, last.1));
        assert forall|p: int| 0 <= p < depth.len() implies {
            &&& #[trigger] r[p] <= depth[p]
            &&& forall|k: int| 0 <= k < frags.len() && frags[k].0 == p ==> r[p] <= #[trigger] frags[k].1
            &&& r[p] == depth[p] || exists|k: int|
                0 <= k < frags.len() && frags[k].0 == p && r[p] == #[trigger] frags[k].1
        } by {
            assert(r[p] <= d[p]);
            assert forall|k: int| 0 <= k < frags.len() && frags[k].0 == p implies r[p] <= #[trigger] frags[k].1 by {
                if k < n {
                    assert(prev[k] == frags[k]);
                    assert(d[p] <= prev[k].1);
                }
            }
            if r[p] != depth[p] {
                if p == last.0 && last.1 < d[p] {
                    assert(r[p] == frags[n].1);
                } else {
                    assert(r[p] == d[p]);
                    let k = choose|k: int| 0 <= k < prev.len() && prev[k].0 == p && d[p] == #[trigger] prev[k].1;
                    assert(prev[k] == frags[k]);
                    assert(r[p] == frags[k].1);
                }
            }
        }
    }
}

} // verus!
