//! The steps by which a session comes into being.

use vstd::prelude::*;

use crate::ident;
use crate::ident::new_session_id;
use crate::text;

verus! {

/// A step on the way to a running session.
#[derive(Clone, Copy, Debug, PartialEq, Eq, Structural)]
pub enum SpawnStage {
    /// Open a pseudo-terminal.
    OpenPty,
    /// Run the command in it.
    SpawnCommand,
    /// Obtain a handle to read the command's output.
    CloneReader,
    /// Obtain a handle to write the command's input.
    TakeWriter,
}

/// What to do after a step.
#[derive(Debug)]
pub enum SpawnNext {
    /// Take this step.
    Go(SpawnStage),
    /// Nothing is left to do: the session runs, and this is its identifier.
    Ready { session_id: String },
    /// Give up for the reason given.
    Fail(String),
}

/// All steps, in their order.
pub open spec fn stages() -> Seq<SpawnStage> {
    seq![
        SpawnStage::OpenPty,
        SpawnStage::SpawnCommand,
        SpawnStage::CloneReader,
        SpawnStage::TakeWriter,
    ]
}

/// The step after `stage`, if there is one.
pub open spec fn stage_after(stage: SpawnStage) -> Option<SpawnStage> {
    match stage {
        SpawnStage::OpenPty => Some(SpawnStage::SpawnCommand),
        SpawnStage::SpawnCommand => Some(SpawnStage::CloneReader),
        SpawnStage::CloneReader => Some(SpawnStage::TakeWriter),
        SpawnStage::TakeWriter => None,
    }
}

/// How the failure of a step is reported.
pub open spec fn failure_text(stage: SpawnStage, cause: Seq<char>) -> Seq<char> {
    match stage {
        SpawnStage::OpenPty => "failed to open PTY: "@ + cause,
        SpawnStage::SpawnCommand => "failed to spawn: "@ + cause,
        SpawnStage::CloneReader => "reader: "@ + cause,
        SpawnStage::TakeWriter => "writer: "@ + cause,
    }
}

impl SpawnStage {
    /// The step to begin with.
    pub fn first() -> (stage: SpawnStage)
        ensures
            stage == stages()[0],
            stage == SpawnStage::OpenPty,
    {
        SpawnStage::OpenPty
    }

    /// What to do after this step has succeeded, or has failed for the cause given.
    ///
    /// The identifier of a session that runs is made from the time of this call.
    pub fn advance(self, outcome: Result<(), String>) -> (next: SpawnNext)
        ensures
            match outcome {
                Ok(_) => match stage_after(self) {
                    Some(stage) => next == SpawnNext::Go(stage),
                    None => {
                        &&& next matches SpawnNext::Ready { session_id }
                        &&& exists|millis: u128|
                            session_id@ == #[trigger] ident::session_id_text(millis as int)
                    },
                },
                Err(cause) => next matches SpawnNext::Fail(reason) && reason@ == failure_text(
                    self,
                    cause@,
                ),
            },
            match (self, outcome) {
                (SpawnStage::OpenPty, Ok(_)) => next == SpawnNext::Go(SpawnStage::SpawnCommand),
                (SpawnStage::SpawnCommand, Ok(_)) => next == SpawnNext::Go(SpawnStage::CloneReader),
                (SpawnStage::CloneReader, Ok(_)) => next == SpawnNext::Go(SpawnStage::TakeWriter),
                (SpawnStage::TakeWriter, Ok(_)) => {
                    &&& next matches SpawnNext::Ready { session_id }
                    &&& exists|reading: Option<u128>| #[trigger]
                        ident::clock_showed(reading) && session_id@ == "pty-"@ + ident::hex_text(
                            match reading {
                                Some(millis) => millis as nat % 0x1_0000_0000,
                                None => 0,
                            },
                        )
                },
                (SpawnStage::OpenPty, Err(cause)) => {
                    &&& next matches SpawnNext::Fail(reason)
                    &&& reason@ == "failed to open PTY: "@ + cause@
                },
                (SpawnStage::SpawnCommand, Err(cause)) => {
                    &&& next matches SpawnNext::Fail(reason)
                    &&& reason@ == "failed to spawn: "@ + cause@
                },
                (SpawnStage::CloneReader, Err(cause)) => {
                    &&& next matches SpawnNext::Fail(reason)
                    &&& reason@ == "reader: "@ + cause@
                },
                (SpawnStage::TakeWriter, Err(cause)) => {
                    &&& next matches SpawnNext::Fail(reason)
                    &&& reason@ == "writer: "@ + cause@
                },
            },
    {
        match outcome {
            Ok(_) => match self {
                SpawnStage::OpenPty => SpawnNext::Go(SpawnStage::SpawnCommand),
                SpawnStage::SpawnCommand => SpawnNext::Go(SpawnStage::CloneReader),
                SpawnStage::CloneReader => SpawnNext::Go(SpawnStage::TakeWriter),
                SpawnStage::TakeWriter => SpawnNext::Ready { session_id: new_session_id() },
            },
            Err(cause) => {
                let label = match self {
                    SpawnStage::OpenPty => "failed to open PTY: ",
                    SpawnStage::SpawnCommand => "failed to spawn: ",
                    SpawnStage::CloneReader => "reader: ",
                    SpawnStage::TakeWriter => "writer: ",
                };
                SpawnNext::Fail(text::join(label, cause.as_str()))
            },
        }
    }
}

/// The reason for which the steps from `stage` on come to nothing, or `None` where they succeed.
/// Each step that fails does so for the cause that `causes` has in its place.
pub open spec fn spawn_failure(stage: SpawnStage, causes: Seq<Option<Seq<char>>>) -> Option<
    Seq<char>,
>
    decreases causes.len(),
{
    if causes.len() == 0 {
        None
    } else {
        match causes[0] {
            Some(cause) => Some(failure_text(stage, cause)),
            None => match stage_after(stage) {
                Some(next) => spawn_failure(next, causes.drop_first()),
                None => None,
            },
        }
    }
}

/// A session comes into being exactly when all steps succeed, and the reason reported otherwise is
/// that of the first step that failed.
pub proof fn law_first_failure_is_reported(causes: Seq<Option<Seq<char>>>)
    requires
        causes.len() == stages().len(),
    ensures
        spawn_failure(stages()[0], causes) is None <==> forall|i: int|
            0 <= i < causes.len() ==> (#[trigger] causes[i]) is None,
        forall|k: int|
            0 <= k < causes.len() && (#[trigger] causes[k]) is Some && (forall|i: int|
                0 <= i < k ==> (#[trigger] causes[i]) is None) ==> spawn_failure(
                stages()[0],
                causes,
            ) == Some(failure_text(stages()[k], causes[k]->0)),
{
    reveal_with_fuel(spawn_failure, 5);
    let c1 = causes.drop_first();
    let c2 = c1.drop_first();
    let c3 = c2.drop_first();
    assert(c1[0] == causes[1]);
    assert(c2[0] == causes[2]);
    assert(c3[0] == causes[3]);
}

/// A failure is told by the words for its step, and its cause is handed on whole.
pub proof fn law_failures_name_step_and_cause(cause: Seq<char>)
    ensures
        failure_text(SpawnStage::OpenPty, cause) == "failed to open PTY: "@ + cause,
        failure_text(SpawnStage::SpawnCommand, cause) == "failed to spawn: "@ + cause,
        failure_text(SpawnStage::CloneReader, cause) == "reader: "@ + cause,
        failure_text(SpawnStage::TakeWriter, cause) == "writer: "@ + cause,
{
}

/// The terminal is opened first, then the command is run in it, then its output and at last its
/// input is taken.
pub proof fn law_steps_follow_in_order()
    ensures
        stages() == seq![
            SpawnStage::OpenPty,
            SpawnStage::SpawnCommand,
            SpawnStage::CloneReader,
            SpawnStage::TakeWriter,
        ],
        forall|i: int|
            0 <= i < 3 ==> stage_after(#[trigger] stages()[i]) == Some(stages()[i + 1]),
        stage_after(SpawnStage::TakeWriter) is None,
{
}

/// Two failures of a step are reported alike only if their causes are the same.
pub proof fn law_failure_reports_tell_causes_apart(
    stage: SpawnStage,
    cause: Seq<char>,
    other: Seq<char>,
)
    requires
        failure_text(stage, cause) == failure_text(stage, other),
    ensures
        cause == other,
{
    let label = match stage {
        SpawnStage::OpenPty => "failed to open PTY: "@,
        SpawnStage::SpawnCommand => "failed to spawn: "@,
        SpawnStage::CloneReader => "reader: "@,
        SpawnStage::TakeWriter => "writer: "@,
    };
    assert((label + cause).skip(label.len() as int) == cause);
    assert((label + other).skip(label.len() as int) == other);
}

} // verus!
