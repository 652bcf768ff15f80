//! The bookkeeping of automatic encoder calibration: which revolutions
//! count, when a run of consistent phase estimates starts over, and when
//! enough of them have been seen to settle the correction.

use vstd::prelude::*;

verus! {

/// How a revolution's phase estimate compares with the previous one.
#[derive(Debug, Clone, Copy, PartialEq, Eq, Structural)]
pub enum PhaseCheck {
    /// There is no previous estimate.
    First,
    /// Close enough to the previous estimate.
    Converged,
    /// Too far from the previous estimate.
    Diverged,
}

/// What becomes of the collected estimates after a revolution.
#[derive(Debug, Clone, Copy, PartialEq, Eq, Structural)]
pub enum SampleAction {
    /// Add the new estimate to those collected.
    Keep,
    /// Drop those collected and start again from the new estimate.
    Restart,
}

/// Counts kept while calibrating: consistent estimates in the current run,
/// complete and incomplete revolutions, and runs broken by divergence.
#[derive(Debug, Clone, Copy, PartialEq, Eq, Structural)]
pub struct CalibrationTally {
    pub required_samples: usize,
    pub valid_samples: usize,
    pub complete_frames: usize,
    pub incomplete_frames: usize,
    pub divergent_phase_values: usize,
}

impl CalibrationTally {
    /// Nothing counted yet; `required_samples` consistent estimates must
    /// be exceeded before the correction is settled.
    pub fn new(required_samples: usize) -> (r: Self)
        ensures
            r == (CalibrationTally {
                required_samples,
                valid_samples: 0,
                complete_frames: 0,
                incomplete_frames: 0,
                divergent_phase_values: 0,
            }),
    {
        CalibrationTally {
            required_samples,
            valid_samples: 0,
            complete_frames: 0,
            incomplete_frames: 0,
            divergent_phase_values: 0,
        }
    }

    /// Counts a revolution that was not usable.
    pub fn on_incomplete(&mut self)
        requires
            old(self).incomplete_frames < usize::MAX,
        ensures
            *final(self) == (CalibrationTally { incomplete_frames: (old(self).incomplete_frames + 1) as usize, ..*old(self) }),
    {
        self.incomplete_frames = self.incomplete_frames + 1;
    }

    /// Counts a complete revolution whose phase estimate compared to the
    /// previous one as `check`: a consistent estimate extends the run, a
    /// divergent one restarts it. The flag tells whether the run now
    /// exceeds the required number of estimates.
    pub fn on_complete(&mut self, check: PhaseCheck) -> (r: (SampleAction, bool))
        requires
            old(self).complete_frames < usize::MAX,
            old(self).valid_samples < usize::MAX,
            old(self).divergent_phase_values < usize::MAX,
        ensures
            final(self).complete_frames == old(self).complete_frames + 1,
            final(self).incomplete_frames == old(self).incomplete_frames,
            final(self).required_samples == old(self).required_samples,
            check == PhaseCheck::First ==> r == (SampleAction::Keep, false)
                && final(self).valid_samples == old(self).valid_samples
                && final(self).divergent_phase_values == old(self).divergent_phase_values,
            check == PhaseCheck::Converged ==> final(self).valid_samples == old(self).valid_samples + 1
                && r == (SampleAction::Keep, final(self).valid_samples > final(self).required_samples)
                && final(self).divergent_phase_values == old(self).divergent_phase_values,
            check == PhaseCheck::Diverged ==> r == (SampleAction::Restart, false)
                && final(self).valid_samples == 0
                && final(self).divergent_phase_values == old(self).divergent_phase_values + 1,
            old(self).valid_samples <= old(self).complete_frames ==> final(self).valid_samples <= final(self).complete_frames,
    {
        self.complete_frames = self.complete_frames + 1;
        match check {
            PhaseCheck::First => (SampleAction::Keep, false),
            PhaseCheck::Converged => {
                self.valid_samples = self.valid_samples + 1;
                (SampleAction::Keep, self.valid_samples > self.required_samples)
            },
            PhaseCheck::Diverged => {
                self.valid_samples = 0;
                self.divergent_phase_values = self.divergent_phase_values + 1;
                (SampleAction::Restart, false)
            },
        }
    }
}

} // verus!
