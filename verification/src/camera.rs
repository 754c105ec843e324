//! The render coordinator's bookkeeping: how the image is cut into vertical
//! strips, one per view worker, and how the wanted pass count advances once
//! every worker reports the current pass finished.
//!
//! The strip layout is the exact integer partition `i*w/n .. (i+1)*w/n`:
//! strips are contiguous, cover the image, and differ in width by at most one
//! column. Both facts are proved below.

use vstd::arithmetic::div_mod::{
    lemma_div_by_multiple, lemma_div_by_self, lemma_div_is_ordered, lemma_fundamental_div_mod,
    lemma_fundamental_div_mod_converse_div, lemma_mod_bound,
};
use vstd::arithmetic::mul::{
    lemma_mul_basics, lemma_mul_inequality, lemma_mul_is_commutative,
    lemma_mul_is_distributive_add_other_way, lemma_mul_nonnegative, lemma_mul_upper_bound,
};
use vstd::prelude::*;

verus! {

/// The first column of strip `i` when `w` columns are split into `n` strips.
pub open spec fn strip_x(w: int, n: int, i: int) -> int {
    i * w / n
}

/// The width of strip `i` when `w` columns are split into `n` strips.
pub open spec fn strip_width(w: int, n: int, i: int) -> int {
    (i + 1) * w / n - i * w / n
}

/// The coordinator's immutable strip layout and its moving pass target.
pub struct Camera {
    pub image_width: usize,
    pub image_height: usize,
    pub view_xs: Vec<usize>,
    pub view_widths: Vec<usize>,
    pub passes_wanted: usize,
}

impl Camera {
    /// The layout is a well-formed strip partition: at least one strip, no
    /// more strips than columns, and every recorded offset and width is the
    /// one the partition formula gives.
    pub open spec fn wf(&self) -> bool {
        &&& 1 <= self.view_xs@.len()
        &&& self.view_widths@.len() == self.view_xs@.len()
        &&& self.view_xs@.len() <= self.image_width
        &&& self.image_width <= 0xffff
        &&& 1 <= self.image_height
        &&& forall|i: int|
            0 <= i < self.view_xs@.len() ==> self.view_xs@[i] == strip_x(
                self.image_width as int,
                self.view_xs@.len() as int,
                i,
            )
        &&& forall|i: int|
            0 <= i < self.view_xs@.len() ==> self.view_widths@[i] == strip_width(
                self.image_width as int,
                self.view_xs@.len() as int,
                i,
            )
    }

    /// Builds the coordinator state: cuts `image_width` columns into
    /// `num_views` contiguous strips and starts with no passes wanted.
    pub fn new(image_width: u16, image_height: usize, num_views: u8) -> (cam: Camera)
        requires
            1 <= num_views as int <= image_width as int,
            1 <= image_height,
        ensures
            cam.wf(),
            cam.image_width == image_width,
            cam.image_height == image_height,
            cam.view_xs@.len() == num_views,
            cam.passes_wanted == 0,
    {
        let w: usize = image_width as usize;
        let n: usize = num_views as usize;

        let mut view_xs: Vec<usize> = Vec::new();
        let mut view_widths: Vec<usize> = Vec::new();
        let mut i: usize = 0;
        while i < n
            invariant
                1 <= n <= w <= 0xffff,
                i <= n,
                view_xs@.len() == i,
                view_widths@.len() == i,
                forall|j: int| 0 <= j < i ==> view_xs@[j] == strip_x(w as int, n as int, j),
                forall|j: int|
                    0 <= j < i ==> view_widths@[j] == strip_width(w as int, n as int, j),
            decreases n - i,
        {
            proof {
                lemma_mul_nonnegative(i as int, w as int);
                lemma_mul_inequality(i as int, i + 1, w as int);
                lemma_mul_inequality(i + 1, n as int, w as int);
                lemma_mul_upper_bound(n as int, 0xffff, w as int, 0xffff);
                lemma_div_is_ordered(i as int * w as int, (i + 1) * w as int, n as int);
                lemma_div_is_ordered((i + 1) * w as int, n as int * w as int, n as int);
            }
            let view_x: usize = i * w / n;
            let next_x: usize = (i + 1) * w / n;
            view_xs.push(view_x);
            view_widths.push(next_x - view_x);
            i = i + 1;
        }

        Camera {
            image_width: w,
            image_height,
            view_xs,
            view_widths,
            passes_wanted: 0,
        }
    }

    /// The rendered image width in pixels.
    pub fn get_width(&self) -> (w: usize)
        ensures
            w == self.image_width,
    {
        self.image_width
    }

    /// The rendered image height in pixels.
    pub fn get_height(&self) -> (h: usize)
        ensures
            h == self.image_height,
    {
        self.image_height
    }

    /// How many vertical strips the image is cut into.
    pub fn num_views(&self) -> (n: usize)
        ensures
            n == self.view_xs@.len(),
    {
        self.view_xs.len()
    }

    /// The first column of strip `i`.
    pub fn view_x(&self, i: usize) -> (x: usize)
        requires
            self.wf(),
            i < self.view_xs@.len(),
        ensures
            x == strip_x(self.image_width as int, self.view_xs@.len() as int, i as int),
    {
        self.view_xs[i]
    }

    /// The width in columns of strip `i`.
    pub fn view_width(&self, i: usize) -> (w: usize)
        requires
            self.wf(),
            i < self.view_xs@.len(),
        ensures
            w == strip_width(self.image_width as int, self.view_xs@.len() as int, i as int),
    {
        self.view_widths[i]
    }

    /// The number of render passes currently asked of every view worker.
    pub fn passes_wanted(&self) -> (p: usize)
        ensures
            p == self.passes_wanted,
    {
        self.passes_wanted
    }

    /// The coordinator's decision at the end of a render tick: given the
    /// pass counts the workers reported back, the wanted pass count advances
    /// by one exactly when every worker has reached it, and nothing else
    /// changes.
    pub fn finish_tick(&mut self, passes_done: &Vec<usize>) -> (advanced: bool)
        requires
            old(self).wf(),
            passes_done@.len() == old(self).view_xs@.len(),
            old(self).passes_wanted < usize::MAX,
        ensures
            final(self).wf(),
            advanced == (forall|i: int|
                0 <= i < passes_done@.len() ==> passes_done@[i] >= old(self).passes_wanted),
            final(self).passes_wanted == if advanced {
                old(self).passes_wanted + 1
            } else {
                old(self).passes_wanted as int
            },
            final(self).image_width == old(self).image_width,
            final(self).image_height == old(self).image_height,
            final(self).view_xs == old(self).view_xs,
            final(self).view_widths == old(self).view_widths,
    {
        let wanted: usize = self.passes_wanted;
        let mut all_done: bool = true;
        let mut i: usize = 0;
        while i < passes_done.len()
            invariant
                i <= passes_done@.len(),
                all_done == (forall|j: int| 0 <= j < i ==> passes_done@[j] >= wanted),
            decreases passes_done@.len() - i,
        {
            if passes_done[i] < wanted {
                all_done = false;
            }
            i = i + 1;
        }
        if all_done {
            self.passes_wanted = self.passes_wanted + 1;
        }
        all_done
    }
}


/// Dividing a sum moves at most one carry across the division: for
/// nonnegative `a` and `b`, `(a + b) / d` is `a / d + b / d`, or one more.
proof fn lemma_div_add_cases(a: int, b: int, d: int)
    requires
        0 <= a,
        0 <= b,
        0 < d,
    ensures
        (a + b) / d == a / d + b / d || (a + b) / d == a / d + b / d + 1,
{
    lemma_fundamental_div_mod(a, d);
    lemma_fundamental_div_mod(b, d);
    lemma_mod_bound(a, d);
    lemma_mod_bound(b, d);
    let q1 = a / d;
    let r1 = a % d;
    let q2 = b / d;
    let r2 = b % d;
    lemma_mul_is_commutative(d, q1);
    lemma_mul_is_commutative(d, q2);
    if r1 + r2 < d {
        lemma_mul_is_distributive_add_other_way(d, q1, q2);
        assert(a + b == (q1 + q2) * d + (r1 + r2));
        lemma_fundamental_div_mod_converse_div(a + b, d, q1 + q2, r1 + r2);
    } else {
        lemma_mul_is_distributive_add_other_way(d, q1 + q2, 1);
        lemma_mul_is_distributive_add_other_way(d, q1, q2);
        lemma_mul_basics(d);
        assert(a + b == (q1 + q2 + 1) * d + (r1 + r2 - d));
        lemma_fundamental_div_mod_converse_div(a + b, d, q1 + q2 + 1, r1 + r2 - d);
    }
}

/// The strips tile the image: the first strip starts at column zero, each
/// strip ends exactly where its successor starts, and the last strip ends at
/// the right edge of the image.
pub proof fn lemma_strips_tile(cam: Camera, i: int)
    requires
        cam.wf(),
        0 <= i < cam.view_xs@.len(),
    ensures
        cam.view_xs@[0] == 0,
        i + 1 < cam.view_xs@.len() ==> cam.view_xs@[i] + cam.view_widths@[i] == cam.view_xs@[i
            + 1],
        i + 1 == cam.view_xs@.len() ==> cam.view_xs@[i] + cam.view_widths@[i]
            == cam.image_width,
{
    let w = cam.image_width as int;
    let n = cam.view_xs@.len() as int;
    assert(cam.view_xs@[0] == strip_x(w, n, 0));
    assert(strip_x(w, n, 0) == 0) by {
        lemma_mul_basics(w);
        vstd::arithmetic::div_mod::lemma_div_of0(n);
    }
    if i + 1 == n {
        assert(strip_x(w, n, n) == w) by {
            lemma_mul_is_commutative(n, w);
            lemma_div_by_multiple(w, n);
        }
    }
}

/// The strip widths are balanced: every strip is `w / n` or `w / n + 1`
/// columns wide — so strips differ by at most one column — and, because
/// there are no more strips than columns, no strip is empty.
pub proof fn lemma_strip_widths_balanced(cam: Camera, i: int)
    requires
        cam.wf(),
        0 <= i < cam.view_xs@.len(),
    ensures
        cam.view_widths@[i] == cam.image_width as int / cam.view_xs@.len() as int
            || cam.view_widths@[i] == cam.image_width as int / cam.view_xs@.len() as int + 1,
        1 <= cam.view_widths@[i],
{
    let w = cam.image_width as int;
    let n = cam.view_xs@.len() as int;
    lemma_mul_nonnegative(i, w);
    assert((i + 1) * w == i * w + w) by {
        lemma_mul_is_distributive_add_other_way(w, i, 1);
        lemma_mul_basics(w);
    }
    lemma_div_add_cases(i * w, w, n);
    assert(1 <= w / n) by {
        lemma_div_is_ordered(n, w, n);
        lemma_div_by_self(n);
    }
}

} // verus!
