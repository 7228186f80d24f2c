//! The steps of processing one pair of frames: a frame of the clean and of
//! the lowpassed video are decoded, mapped into libplacebo on cached
//! textures, and their textures are kept again for the next pair.
use vstd::prelude::*;

verus! {

/// A step of processing a pair of frames.
#[derive(Debug, Clone, Copy, PartialEq, Eq, Structural)]
pub enum PairStep {
    /// Decode the next frame of the clean video.
    DecodeClean,
    /// Decode the next frame of the lowpassed video.
    DecodeLowpassed,
    /// Map the clean frame into libplacebo, on a cached texture of its shape
    /// if there is one.
    ImportClean,
    /// Map the lowpassed frame likewise.
    ImportLowpassed,
    /// Both frames are mapped: report it and keep both frames' textures.
    ReturnTextures,
    /// Report that a frame could not be decoded.
    ReportDecodeError,
    /// Report that a frame could not be mapped.
    ReportImportError,
    /// The pair is done.
    Finish,
}

/// How a step went.
#[derive(Debug, Clone, Copy, PartialEq, Eq, Structural)]
pub enum StepOutcome {
    /// It did its work.
    Done,
    /// The video has no more frames.
    StreamEnded,
    /// It failed.
    Failed,
}

/// The first step of a pair.
pub fn first_pair_step() -> (r: PairStep)
    ensures
        r == PairStep::DecodeClean,
{
    PairStep::DecodeClean
}

/// The step after `step` went as `outcome`: the steps run in order while they
/// work; the end of either video ends the pair quietly; a failed decode or
/// mapping is reported, which ends the pair; once the textures are kept, or
/// an error is reported, the pair is done.
pub open spec fn after_pair_step_spec(step: PairStep, outcome: StepOutcome) -> PairStep {
    match step {
        PairStep::DecodeClean => match outcome {
            StepOutcome::Done => PairStep::DecodeLowpassed,
            StepOutcome::StreamEnded => PairStep::Finish,
            StepOutcome::Failed => PairStep::ReportDecodeError,
        },
        PairStep::DecodeLowpassed => match outcome {
            StepOutcome::Done => PairStep::ImportClean,
            StepOutcome::StreamEnded => PairStep::Finish,
            StepOutcome::Failed => PairStep::ReportDecodeError,
        },
        PairStep::ImportClean => if outcome == StepOutcome::Done {
            PairStep::ImportLowpassed
        } else {
            PairStep::ReportImportError
        },
        PairStep::ImportLowpassed => if outcome == StepOutcome::Done {
            PairStep::ReturnTextures
        } else {
            PairStep::ReportImportError
        },
        _ => PairStep::Finish,
    }
}

/// Decides the next step of a pair after `step` went as `outcome`.
pub fn after_pair_step(step: PairStep, outcome: StepOutcome) -> (r: PairStep)
    ensures
        r == after_pair_step_spec(step, outcome),
{
    match step {
        PairStep::DecodeClean => match outcome {
            StepOutcome::Done => PairStep::DecodeLowpassed,
            StepOutcome::StreamEnded => PairStep::Finish,
            StepOutcome::Failed => PairStep::ReportDecodeError,
        },
        PairStep::DecodeLowpassed => match outcome {
            StepOutcome::Done => PairStep::ImportClean,
            StepOutcome::StreamEnded => PairStep::Finish,
            StepOutcome::Failed => PairStep::ReportDecodeError,
        },
        PairStep::ImportClean => match outcome {
            StepOutcome::Done => PairStep::ImportLowpassed,
            _ => PairStep::ReportImportError,
        },
        PairStep::ImportLowpassed => match outcome {
            StepOutcome::Done => PairStep::ReturnTextures,
            _ => PairStep::ReportImportError,
        },
        _ => PairStep::Finish,
    }
}

/// Textures are kept again only when both frames were decoded and mapped: a
/// pair reaches `ReturnTextures` from `DecodeClean` only through all four
/// steps going well.
pub proof fn textures_return_only_after_full_pair(outcomes: Seq<StepOutcome>)
    requires
        outcomes.len() == 4,
    ensures
        ({
            let s1 = after_pair_step_spec(PairStep::DecodeClean, outcomes[0]);
            let s2 = after_pair_step_spec(s1, outcomes[1]);
            let s3 = after_pair_step_spec(s2, outcomes[2]);
            let s4 = after_pair_step_spec(s3, outcomes[3]);
            s4 == PairStep::ReturnTextures <==> forall|i: int| 0 <= i < 4 ==> outcomes[i] == StepOutcome::Done
        }),
{
}

} // verus!
