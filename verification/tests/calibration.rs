use quanergy_client::calibration::{CalibrationTally, PhaseCheck, SampleAction};

#[test]
fn tally_counts_incomplete_revolutions() {
    let mut tally = CalibrationTally::new(3);
    tally.on_incomplete();
    tally.on_incomplete();
    assert_eq!(tally.incomplete_frames, 2);
    assert_eq!(tally.complete_frames, 0);
    assert_eq!(tally.valid_samples, 0);
}

#[test]
fn tally_settles_after_exceeding_required_samples() {
    let mut tally = CalibrationTally::new(2);
    assert_eq!(tally.on_complete(PhaseCheck::First), (SampleAction::Keep, false));
    assert_eq!(tally.on_complete(PhaseCheck::Converged), (SampleAction::Keep, false));
    assert_eq!(tally.on_complete(PhaseCheck::Converged), (SampleAction::Keep, false));
    assert_eq!(tally.on_complete(PhaseCheck::Converged), (SampleAction::Keep, true));
    assert_eq!(tally.valid_samples, 3);
    assert_eq!(tally.complete_frames, 4);
}

#[test]
fn tally_divergence_restarts_the_run() {
    let mut tally = CalibrationTally::new(5);
    tally.on_complete(PhaseCheck::First);
    tally.on_complete(PhaseCheck::Converged);
    tally.on_complete(PhaseCheck::Converged);
    assert_eq!(tally.on_complete(PhaseCheck::Diverged), (SampleAction::Restart, false));
    assert_eq!(tally.valid_samples, 0);
    assert_eq!(tally.divergent_phase_values, 1);
    assert_eq!(tally.complete_frames, 4);
    assert!(tally.valid_samples <= tally.complete_frames);
}
