use lowpass_analysis::frame_pair::{after_pair_step, first_pair_step, PairStep, StepOutcome};

fn run(outcomes: &[StepOutcome]) -> Vec<PairStep> {
    let mut steps = vec![first_pair_step()];
    for outcome in outcomes {
        let step = after_pair_step(*steps.last().unwrap(), *outcome);
        steps.push(step);
    }
    steps
}

#[test]
fn pair_steps_in_order_when_all_go_well() {
    assert_eq!(
        run(&[StepOutcome::Done; 5]),
        vec![
            PairStep::DecodeClean,
            PairStep::DecodeLowpassed,
            PairStep::ImportClean,
            PairStep::ImportLowpassed,
            PairStep::ReturnTextures,
            PairStep::Finish,
        ]
    );
}

#[test]
fn pair_end_of_stream_finishes_quietly() {
    assert_eq!(run(&[StepOutcome::StreamEnded]), vec![PairStep::DecodeClean, PairStep::Finish]);
    assert_eq!(
        run(&[StepOutcome::Done, StepOutcome::StreamEnded]),
        vec![PairStep::DecodeClean, PairStep::DecodeLowpassed, PairStep::Finish]
    );
}

#[test]
fn pair_failures_are_reported() {
    assert_eq!(after_pair_step(PairStep::DecodeClean, StepOutcome::Failed), PairStep::ReportDecodeError);
    assert_eq!(after_pair_step(PairStep::DecodeLowpassed, StepOutcome::Failed), PairStep::ReportDecodeError);
    assert_eq!(after_pair_step(PairStep::ImportClean, StepOutcome::Failed), PairStep::ReportImportError);
    assert_eq!(after_pair_step(PairStep::ImportLowpassed, StepOutcome::Failed), PairStep::ReportImportError);
    assert_eq!(after_pair_step(PairStep::ReportImportError, StepOutcome::Done), PairStep::Finish);
    assert_eq!(after_pair_step(PairStep::ReportDecodeError, StepOutcome::Done), PairStep::Finish);
    assert_eq!(after_pair_step(PairStep::Finish, StepOutcome::Done), PairStep::Finish);
}
