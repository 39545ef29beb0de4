//! What additive synthesis is to render: how many samples, at what rate,
//! and which voices at what share of the amplitude. The sines themselves
//! are summed by whoever renders the plan.

use crate::pitch::Note;
use vstd::prelude::*;

verus! {

/// The sample rate of playback, in samples per second.
pub const SAMPLE_RATE: u32 = 44_100;

/// The amplitude that all voices together stay under, in thousandths of
/// full scale.
pub const PEAK_MILLIS: u32 = 300;

/// What to render: a mono buffer of `samples` samples at `sample_rate`, the
/// sum of one sine for each voice, each at one `share`-th of the peak
/// amplitude.
#[derive(Debug)]
pub struct RenderPlan {
    /// Number of samples in the buffer.
    pub samples: usize,
    /// Samples per second.
    pub sample_rate: u32,
    /// Number of channels: always one.
    pub channels: u16,
    /// The frequency of each voice, as a position on the logarithmic scale.
    pub voices: Vec<i64>,
    /// The number by which the peak amplitude is divided for each voice.
    pub share: usize,
}

/// Number of samples that `millis` milliseconds take at `sample_rate`
/// samples per second, rounded to the nearest whole sample.
pub open spec fn sample_total(millis: int, sample_rate: int) -> int {
    (sample_rate * millis + 500) / 1000
}

/// The frequencies of `notes`, in order.
pub open spec fn frequencies(notes: Seq<Note>) -> Seq<i64> {
    Seq::new(notes.len(), |i: int| notes[i].frequency() as i64)
}

/// Number of samples that `millis` milliseconds take at `sample_rate`
/// samples per second, limited to what a buffer can hold.
pub fn sample_count(millis: u64, sample_rate: u32) -> (samples: usize)
    ensures
        samples == if sample_total(millis as int, sample_rate as int) > usize::MAX {
            usize::MAX as int
        } else {
            sample_total(millis as int, sample_rate as int)
        },
{
    assert(sample_rate * millis <= 0xffff_ffff * 0xffff_ffff_ffff_ffff) by (nonlinear_arith)
        requires
            sample_rate <= 0xffff_ffff,
            millis <= 0xffff_ffff_ffff_ffff,
    ;
    let total: u128 = (sample_rate as u128 * millis as u128 + 500) / 1000;
    if total > usize::MAX as u128 {
        usize::MAX
    } else {
        total as usize
    }
}

/// The plan for rendering `notes` for `millis` milliseconds at
/// `sample_rate`: one voice for each note, and the amplitude shared out
/// among them, among at least one.
pub fn plan_render(notes: &[Note], millis: u64, sample_rate: u32) -> (plan: RenderPlan)
    ensures
        plan.samples == if sample_total(millis as int, sample_rate as int) > usize::MAX {
            usize::MAX as int
        } else {
            sample_total(millis as int, sample_rate as int)
        },
        plan.sample_rate == sample_rate,
        plan.channels == 1,
        plan.voices@ == frequencies(notes@),
        plan.share == if notes.len() == 0 {
            1
        } else {
            notes.len() as int
        },
        plan.voices.len() <= plan.share,
{
    let n = notes.len();
    let mut voices: Vec<i64> = Vec::new();
    let mut i: usize = 0;
    while i < n
        invariant
            n == notes.len(),
            i <= n,
            voices.len() == i,
            forall|j: int| 0 <= j < i ==> voices[j] == (#[trigger] notes[j]).frequency(),
        decreases n - i,
    {
        voices.push(notes[i].to_frequency());
        i += 1;
    }
    assert(voices@ =~= frequencies(notes@));
    RenderPlan {
        samples: sample_count(millis, sample_rate),
        sample_rate,
        channels: 1,
        voices,
        share: if n == 0 {
            1
        } else {
            n
        },
    }
}

} // verus!
