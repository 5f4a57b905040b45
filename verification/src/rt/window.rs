//! The window of samples that one cleaning pass works on.
//!
//! The samples lie in an `ndarray::Array2`, one row per time step and one column per channel.
//! What is stated of the array itself is trusted.

use crate::rt::detect_worker::DETECT_ANALYSIS_SAMPLES;
use crate::rt::samples::{Sample, SILENCE};
use ndarray::Array2;
use vstd::prelude::*;

verus! {

/// Overlap-add clean window (about 170 ms at 48 kHz).
pub const RT_WINDOW: usize = DETECT_ANALYSIS_SAMPLES;

/// The most channels that are cleaned together.
pub const MAX_CHANNELS: usize = 2;

/// A two-dimensional array of samples.
#[verifier::external_body]
pub struct SampleGrid {
    cells: Array2<Sample>,
}

/// The rows of a grid, each the samples of its columns.
pub uninterp spec fn grid_rows(grid: SampleGrid) -> Seq<Seq<Sample>>;

/// Trusted: `Array2::zeros` gives an array of the given shape in which every element is zero. It
/// panics when the number of elements overflows, which the bound rules out.
#[verifier::external_body]
pub(crate) fn grid_zeros(rows: usize, columns: usize) -> (grid: SampleGrid)
    requires
        rows <= 0xffff,
        columns <= 0xff,
    ensures
        grid_rows(grid) == Seq::new(
            rows as nat,
            |i: int| Seq::new(columns as nat, |c: int| 0u32),
        ),
{
    SampleGrid { cells: Array2::zeros((rows, columns)) }
}

/// Trusted: indexing an `Array2` with `[[row, column]]` reads that element. It panics outside the
/// array.
#[verifier::external_body]
pub(crate) fn grid_get(grid: &SampleGrid, row: usize, column: usize) -> (sample: Sample)
    requires
        row < grid_rows(*grid).len(),
        column < grid_rows(*grid)[row as int].len(),
    ensures
        sample == grid_rows(*grid)[row as int][column as int],
    no_unwind
{
    grid.cells[[row, column]]
}

/// Trusted: assigning through `[[row, column]]` replaces that element of an `Array2` and no other.
/// It panics outside the array.
#[verifier::external_body]
pub(crate) fn grid_set(grid: &mut SampleGrid, row: usize, column: usize, sample: Sample)
    requires
        row < grid_rows(*old(grid)).len(),
        column < grid_rows(*old(grid))[row as int].len(),
    ensures
        grid_rows(*final(grid)) == grid_rows(*old(grid)).update(
            row as int,
            grid_rows(*old(grid))[row as int].update(column as int, sample),
        ),
    no_unwind
{
    grid.cells[[row, column]] = sample;
}

/// What an [`AudioWindow`] stands for.
#[verifier::ext_equal]
pub struct WindowView {
    pub sample_rate: u32,
    /// One row per time step, one sample per channel in it.
    pub rows: Seq<Seq<Sample>>,
}

/// `rows` has the shape of a window: [`RT_WINDOW`] time steps of [`MAX_CHANNELS`] channels.
pub open spec fn window_shaped(rows: Seq<Seq<Sample>>) -> bool {
    &&& rows.len() == RT_WINDOW
    &&& forall|i: int| 0 <= i < RT_WINDOW ==> (#[trigger] rows[i]).len() == MAX_CHANNELS
}

/// A silent window.
pub open spec fn silent_rows() -> Seq<Seq<Sample>> {
    Seq::new(RT_WINDOW as nat, |i: int| Seq::new(MAX_CHANNELS as nat, |c: int| SILENCE))
}

/// Channel `ch` of a window, in time order.
pub open spec fn column(rows: Seq<Seq<Sample>>, ch: int) -> Seq<Sample> {
    Seq::new(rows.len(), |i: int| rows[i][ch])
}

/// A window whose channel `ch` is replaced by `samples`.
pub open spec fn with_column(rows: Seq<Seq<Sample>>, ch: int, samples: Seq<Sample>) -> Seq<
    Seq<Sample>,
> {
    Seq::new(rows.len(), |i: int| rows[i].update(ch, samples[i]))
}

/// A window of [`RT_WINDOW`] samples in [`MAX_CHANNELS`] channels, at a sample rate.
pub struct AudioWindow {
    samples: SampleGrid,
    sample_rate: u32,
}

impl View for AudioWindow {
    type V = WindowView;

    closed spec fn view(&self) -> WindowView {
        WindowView { sample_rate: self.sample_rate, rows: grid_rows(self.samples) }
    }
}

impl AudioWindow {
    #[verifier::type_invariant]
    closed spec fn shaped(&self) -> bool {
        window_shaped(grid_rows(self.samples))
    }

    /// A silent window.
    pub fn new(sample_rate: u32) -> (window: AudioWindow)
        ensures
            window@ == (WindowView { sample_rate, rows: silent_rows() }),
            window@.sample_rate == sample_rate,
            forall|i: int, c: int|
                0 <= i < 8192 && 0 <= c < 2 ==> #[trigger] window@.rows[i][c] == 0,
    {
        let samples = grid_zeros(RT_WINDOW, MAX_CHANNELS);
        assert(grid_rows(samples) =~~= silent_rows());
        AudioWindow { samples, sample_rate }
    }

    /// The rate of the window.
    pub fn sample_rate(&self) -> (sample_rate: u32)
        ensures
            sample_rate == self@.sample_rate,
    {
        self.sample_rate
    }

    /// The sample at time step `i` of channel `ch`.
    pub fn sample(&self, i: usize, ch: usize) -> (sample: Sample)
        requires
            i < RT_WINDOW,
            ch < MAX_CHANNELS,
        ensures
            sample == self@.rows[i as int][ch as int],
    {
        proof {
            use_type_invariant(self);
        }
        grid_get(&self.samples, i, ch)
    }

    /// Replaces the sample at time step `i` of channel `ch`.
    pub fn set_sample(&mut self, i: usize, ch: usize, sample: Sample)
        requires
            i < RT_WINDOW,
            ch < MAX_CHANNELS,
        ensures
            final(self)@ == (WindowView {
                rows: old(self)@.rows.update(
                    i as int,
                    old(self)@.rows[i as int].update(ch as int, sample),
                ),
                ..old(self)@
            }),
    {
        proof {
            use_type_invariant(&*self);
        }
        grid_set(&mut self.samples, i, ch, sample);
    }

    /// Takes over the samples of another window; the rate stays.
    pub fn replace_samples(&mut self, other: AudioWindow)
        ensures
            final(self)@ == (WindowView { rows: other@.rows, ..old(self)@ }),
            window_shaped(final(self)@.rows),
    {
        proof {
            use_type_invariant(&other);
        }
        self.samples = other.samples;
    }

    /// Replaces channel `ch` by the first [`RT_WINDOW`] of `samples`.
    pub fn load_channel(&mut self, ch: usize, samples: &Vec<Sample>)
        requires
            ch < MAX_CHANNELS,
            samples@.len() >= RT_WINDOW,
        ensures
            final(self)@ == (WindowView {
                rows: with_column(old(self)@.rows, ch as int, samples@.take(RT_WINDOW as int)),
                ..old(self)@
            }),
            window_shaped(final(self)@.rows),
            final(self)@.sample_rate == old(self)@.sample_rate,
            forall|i: int, c: int|
                0 <= i < 8192 && 0 <= c < 2 ==> #[trigger] final(self)@.rows[i][c] == if c == ch {
                    samples@[i]
                } else {
                    old(self)@.rows[i][c]
                },
    {
        proof {
            use_type_invariant(&*self);
        }
        let ghost before = self@.rows;
        let ghost loaded = with_column(before, ch as int, samples@.take(RT_WINDOW as int));
        let mut i: usize = 0;
        while i < RT_WINDOW
            invariant
                i <= RT_WINDOW,
                ch < MAX_CHANNELS,
                samples@.len() >= RT_WINDOW,
                before == old(self)@.rows,
                window_shaped(before),
                loaded == with_column(before, ch as int, samples@.take(RT_WINDOW as int)),
                self@.sample_rate == old(self)@.sample_rate,
                self@.rows.len() == RT_WINDOW,
                forall|j: int| 0 <= j < i ==> self@.rows[j] == loaded[j],
                forall|j: int| i <= j < RT_WINDOW ==> self@.rows[j] == before[j],
            decreases RT_WINDOW - i,
        {
            self.set_sample(i, ch, samples[i]);
            i += 1;
        }
        assert(self@.rows =~= loaded);
    }

    /// Copies channel `ch` over `out`, sample by sample.
    pub fn store_channel(&self, ch: usize, out: &mut Vec<Sample>)
        requires
            ch < MAX_CHANNELS,
            old(out)@.len() == RT_WINDOW,
        ensures
            final(out)@ == column(self@.rows, ch as int),
            final(out)@.len() == 8192,
            forall|i: int| 0 <= i < 8192 ==> #[trigger] final(out)@[i] == self@.rows[i][ch as int],
    {
        proof {
            use_type_invariant(self);
        }
        let mut i: usize = 0;
        while i < RT_WINDOW
            invariant
                i <= RT_WINDOW,
                ch < MAX_CHANNELS,
                out@.len() == RT_WINDOW,
                forall|j: int| 0 <= j < i ==> out@[j] == self@.rows[j][ch as int],
            decreases RT_WINDOW - i,
        {
            let sample: Sample = self.sample(i, ch);
            out.set(i, sample);
            i += 1;
        }
        assert(out@ =~= column(self@.rows, ch as int));
    }
}

} // verus!
