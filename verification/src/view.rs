//! One view worker's bookkeeping: the row cursor and pass counter that make
//! a render pass resumable, and the layout of the strip's RGBA byte buffer.
//!
//! A worker renders its strip row by row; after every row the cursor
//! advances, and when the last row is done the pass counter goes up and the
//! cursor returns to the top. Because the pause flag is only honoured at row
//! boundaries, a pause can never lose a finished row or leave a pixel with
//! channels from different passes; the contracts below pin both facts down.

use vstd::arithmetic::mul::{
    lemma_mul_basics, lemma_mul_inequality, lemma_mul_is_commutative,
    lemma_mul_is_distributive_add_other_way, lemma_mul_nonnegative,
};
use vstd::prelude::*;

verus! {

/// The resumable render state of one view worker's strip.
pub struct ViewState {
    pub width: usize,
    pub height: usize,
    pub start_row: usize,
    pub render_passes: usize,
}

/// Where the cursor stands after one more row is finished: the next row
/// down or, when the pass's last row was just done, the top row of the next
/// pass.
pub open spec fn row_step(v: ViewState) -> ViewState {
    if v.start_row + 1 == v.height {
        ViewState {
            width: v.width,
            height: v.height,
            start_row: 0,
            render_passes: (v.render_passes + 1) as usize,
        }
    } else {
        ViewState {
            width: v.width,
            height: v.height,
            start_row: (v.start_row + 1) as usize,
            render_passes: v.render_passes,
        }
    }
}

/// The cursor after `k` rows are finished.
pub open spec fn row_step_n(v: ViewState, k: nat) -> ViewState
    decreases k,
{
    if k == 0 {
        v
    } else {
        row_step(row_step_n(v, (k - 1) as nat))
    }
}

impl ViewState {
    /// A non-empty strip whose cursor points at a real row, small enough
    /// that its RGBA buffer length fits the address space.
    pub open spec fn wf(&self) -> bool {
        &&& 1 <= self.width
        &&& 1 <= self.height
        &&& self.start_row < self.height
        &&& 4 * self.width * self.height <= usize::MAX
    }

    /// The rows finished since the worker started, counted across passes:
    /// the measure that every finished row advances by exactly one.
    pub open spec fn progress(&self) -> int {
        self.render_passes * self.height + self.start_row
    }

    /// A fresh worker state for a strip of `width` by `height` pixels: the
    /// cursor at the top row, no passes finished.
    pub fn new(width: usize, height: usize) -> (v: ViewState)
        requires
            1 <= width,
            1 <= height,
            4 * width * height <= usize::MAX,
        ensures
            v.wf(),
            v.width == width,
            v.height == height,
            v.start_row == 0,
            v.render_passes == 0,
            v.progress() == 0,
    {
        proof {
            lemma_mul_basics(height as int);
        }
        ViewState { width, height, start_row: 0, render_passes: 0 }
    }

    /// Whether the worker still owes rendering for the current request:
    /// true exactly when fewer passes are finished than are wanted.
    pub fn needs_render(&self, passes_wanted: usize) -> (b: bool)
        ensures
            b == (self.render_passes < passes_wanted),
    {
        self.render_passes < passes_wanted
    }

    /// The length in bytes of the strip's RGBA buffer: four per pixel.
    pub fn buf_len(&self) -> (len: usize)
        requires
            self.wf(),
        ensures
            len == 4 * self.width * self.height,
    {
        proof {
            lemma_mul_inequality(1, self.height as int, 4 * self.width);
            lemma_mul_basics(4 * self.width as int);
        }
        4 * self.width * self.height
    }

    /// The byte offset of pixel `(x, y)` in the strip's row-major RGBA
    /// buffer; its four channels lie inside the buffer.
    pub fn pixel_index(&self, x: usize, y: usize) -> (idx: usize)
        requires
            self.wf(),
            x < self.width,
            y < self.height,
        ensures
            idx == 4 * (y * self.width + x),
            idx + 4 <= 4 * self.width * self.height,
    {
        proof {
            lemma_pixel_in_buffer(*self, x as int, y as int);
        }
        4 * (y * self.width + x)
    }

    /// Marks the row under the cursor finished: the cursor moves one row
    /// down, and finishing the last row of a pass increments the pass count
    /// and returns the cursor to the top. Progress always advances by
    /// exactly one row, and the strip's shape never changes.
    pub fn complete_row(&mut self)
        requires
            old(self).wf(),
            old(self).render_passes < usize::MAX,
        ensures
            final(self).wf(),
            *final(self) == row_step(*old(self)),
            final(self).progress() == old(self).progress() + 1,
            final(self).width == old(self).width,
            final(self).height == old(self).height,
    {
        proof {
            lemma_mul_is_distributive_add_other_way(
                old(self).height as int,
                old(self).render_passes as int,
                1,
            );
            lemma_mul_basics(old(self).height as int);
        }
        self.start_row = self.start_row + 1;
        if self.start_row >= self.height {
            self.render_passes = self.render_passes + 1;
            self.start_row = 0;
        }
    }

    /// Writes one finished pixel into the strip's RGBA byte buffer: red,
    /// green, blue and an alpha of 255, all four channels in one call, and
    /// no other byte of the buffer changes.
    pub fn write_pixel(
        &self,
        buf: &mut Vec<u8>,
        x: usize,
        y: usize,
        red: u8,
        green: u8,
        blue: u8,
    )
        requires
            self.wf(),
            x < self.width,
            y < self.height,
            old(buf)@.len() == 4 * self.width * self.height,
        ensures
            final(buf)@.len() == old(buf)@.len(),
            final(buf)@[4 * (y * self.width + x)] == red,
            final(buf)@[4 * (y * self.width + x) + 1] == green,
            final(buf)@[4 * (y * self.width + x) + 2] == blue,
            final(buf)@[4 * (y * self.width + x) + 3] == 255,
            forall|j: int|
                0 <= j < old(buf)@.len() && !(4 * (y * self.width + x) <= j <= 4 * (y
                    * self.width + x) + 3) ==> final(buf)@[j] == old(buf)@[j],
    {
        let idx: usize = self.pixel_index(x, y);
        buf[idx] = red;
        buf[idx + 1] = green;
        buf[idx + 2] = blue;
        buf[idx + 3] = 255;
    }
}

/// The four channel bytes of a pixel inside the strip lie inside its RGBA
/// buffer.
proof fn lemma_pixel_in_buffer(v: ViewState, x: int, y: int)
    requires
        v.wf(),
        0 <= x < v.width,
        0 <= y < v.height,
    ensures
        0 <= 4 * (y * v.width + x),
        4 * (y * v.width + x) + 4 <= 4 * v.width * v.height,
{
    let w = v.width as int;
    let h = v.height as int;
    lemma_mul_nonnegative(y, w);
    lemma_mul_inequality(y, h - 1, w);
    assert((h - 1) * w == h * w - w) by {
        vstd::arithmetic::mul::lemma_mul_is_distributive_sub_other_way(w, h, 1);
        lemma_mul_basics(w);
    }
    lemma_mul_is_commutative(h, w);
    assert(y * w + x <= w * h - 1);
    assert(4 * (y * w + x) + 4 <= 4 * (w * h)) by {
        vstd::arithmetic::mul::lemma_mul_is_distributive_add(4, y * w + x, 1);
        lemma_mul_inequality(y * w + x + 1, w * h, 4);
        lemma_mul_is_commutative(y * w + x + 1, 4);
        lemma_mul_is_commutative(w * h, 4);
    }
    assert(4 * (w * h) == 4 * w * h) by {
        vstd::arithmetic::mul::lemma_mul_is_associative(4, w, h);
    }
}

/// Pausing costs nothing and corrupts nothing: a worker that still owes a
/// pass finishes the row under its cursor before the pause flag is honoured,
/// and that row step advances the pass/row progress measure by exactly one
/// while keeping the cursor well formed and the strip's shape unchanged —
/// even when the pause was requested before the row began.
pub proof fn lemma_pause_preserves_progress(v: ViewState, passes_wanted: usize)
    requires
        v.wf(),
        v.render_passes < passes_wanted,
    ensures
        row_step(v).wf(),
        row_step(v).progress() == v.progress() + 1,
        row_step(v).width == v.width,
        row_step(v).height == v.height,
{
    lemma_mul_is_distributive_add_other_way(v.height as int, v.render_passes as int, 1);
    lemma_mul_basics(v.height as int);
}

/// Finishing exactly the rows that remain below the cursor completes the
/// pass: the pass counter goes up by one and the cursor returns to the top
/// row, ready to resume from where a pause left off.
pub proof fn lemma_pass_completion(v: ViewState)
    requires
        v.wf(),
        v.render_passes < usize::MAX,
    ensures
        row_step_n(v, (v.height - v.start_row) as nat).render_passes == v.render_passes + 1,
        row_step_n(v, (v.height - v.start_row) as nat).start_row == 0,
        row_step_n(v, (v.height - v.start_row) as nat).wf(),
    decreases v.height - v.start_row,
{
    if v.start_row + 1 == v.height {
        assert(row_step_n(v, 1) == row_step(row_step_n(v, 0)));
    } else {
        let v1 = row_step(v);
        lemma_pass_completion(v1);
        let k = (v.height - v.start_row) as nat;
        assert(row_step_n(v1, (k - 1) as nat) == row_step_n(v, k)) by {
            lemma_row_step_n_shift(v, (k - 1) as nat);
        }
    }
}

/// Stepping `k + 1` rows from `v` is stepping `k` rows from `row_step(v)`.
proof fn lemma_row_step_n_shift(v: ViewState, k: nat)
    ensures
        row_step_n(v, k + 1) == row_step_n(row_step(v), k),
    decreases k,
{
    assert(row_step_n(v, k + 1) == row_step(row_step_n(v, k)));
    if k == 0 {
        assert(row_step_n(v, 0) == v);
        assert(row_step_n(row_step(v), 0) == row_step(v));
    } else {
        lemma_row_step_n_shift(v, (k - 1) as nat);
        assert(row_step_n(row_step(v), k) == row_step(row_step_n(row_step(v), (k - 1) as nat)));
    }
}

} // verus!
