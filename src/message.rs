//! The messages that travel through the pipeline and the per-message work of
//! the square and merge stages.
use vstd::prelude::*;

verus! {

/// A message of the pipeline: each stage accepts exactly one variant.
#[derive(Clone, Copy, Debug, PartialEq, Eq, Structural)]
pub enum PipelineMsg {
    /// A value produced by the generator.
    Generated(u8),
    /// The square of a generated value, produced by a worker.
    Squared(u16),
    /// A squared value republished by the merge stage.
    Merged(u16),
}

/// The stages that receive messages.
#[derive(Clone, Copy, Debug, PartialEq, Eq, Structural)]
pub enum StageKind {
    Distributor,
    Square,
    Merge,
    Drain,
}

/// A stage received a variant that its protocol does not accept: a wiring
/// defect, which the runtime treats as fatal.
#[derive(Clone, Copy, Debug, PartialEq, Eq, Structural)]
pub struct ProtocolViolation {
    pub stage: StageKind,
    pub received: PipelineMsg,
}

/// The square of a generated value, computed without truncation.
pub open spec fn square_of(v: u8) -> int {
    v as int * v as int
}

/// What a square worker makes of one message.
pub open spec fn square_step(msg: PipelineMsg) -> Result<PipelineMsg, ProtocolViolation> {
    match msg {
        PipelineMsg::Generated(v) => Ok(PipelineMsg::Squared(square_of(v) as u16)),
        _ => Err(ProtocolViolation { stage: StageKind::Square, received: msg }),
    }
}

/// What the merge stage makes of one message.
pub open spec fn merge_step(msg: PipelineMsg) -> Result<PipelineMsg, ProtocolViolation> {
    match msg {
        PipelineMsg::Squared(v) => Ok(PipelineMsg::Merged(v)),
        _ => Err(ProtocolViolation { stage: StageKind::Merge, received: msg }),
    }
}

/// What the final drain takes from one message.
pub open spec fn drain_step(msg: PipelineMsg) -> Result<u16, ProtocolViolation> {
    match msg {
        PipelineMsg::Merged(v) => Ok(v),
        _ => Err(ProtocolViolation { stage: StageKind::Drain, received: msg }),
    }
}

/// The square of any `u8` fits in a `u16`.
pub proof fn lemma_square_fits(v: u8)
    ensures
        0 <= square_of(v) <= u16::MAX,
{
    assert(0 <= v as int * v as int <= 255 * 255) by (nonlinear_arith)
        requires
            0 <= v <= 255,
    ;
}

/// A generated value that passes a worker, the merge stage and the drain
/// comes out as its exact square.
pub proof fn lemma_transform_round_trip(v: u8)
    ensures
        square_step(PipelineMsg::Generated(v)) matches Ok(sq) && merge_step(sq) matches Ok(mg)
            && drain_step(mg) matches Ok(w) && w as int == v as int * v as int,
{
    lemma_square_fits(v);
}

/// Work of one square worker on one message: `Generated(v)` becomes
/// `Squared(v * v)`; any other variant is a protocol violation.
pub fn square(msg: PipelineMsg) -> (r: Result<PipelineMsg, ProtocolViolation>)
    ensures
        r == square_step(msg),
{
    match msg {
        PipelineMsg::Generated(v) => {
            let w: u16 = v as u16;
            proof {
                lemma_square_fits(v);
            }
            Ok(PipelineMsg::Squared(w * w))
        },
        _ => Err(ProtocolViolation { stage: StageKind::Square, received: msg }),
    }
}

/// Work of the merge stage on one message: `Squared(v)` is republished as
/// `Merged(v)`; any other variant is a protocol violation.
pub fn merge(msg: PipelineMsg) -> (r: Result<PipelineMsg, ProtocolViolation>)
    ensures
        r == merge_step(msg),
{
    match msg {
        PipelineMsg::Squared(v) => Ok(PipelineMsg::Merged(v)),
        _ => Err(ProtocolViolation { stage: StageKind::Merge, received: msg }),
    }
}

/// What the final drain loop takes from one message: the value of a
/// `Merged` message; any other variant is a protocol violation.
pub fn drain(msg: PipelineMsg) -> (r: Result<u16, ProtocolViolation>)
    ensures
        r == drain_step(msg),
{
    match msg {
        PipelineMsg::Merged(v) => Ok(v),
        _ => Err(ProtocolViolation { stage: StageKind::Drain, received: msg }),
    }
}

} // verus!
