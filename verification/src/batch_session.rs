//! One conversation with `git cat-file --batch`: when it goes on, when Git is stopped, and what is
//! made of its end.

use crate::errors::{io_error, io_failure, IoErrorKind, RepositoryGitOperation, RepositoryImportError, RepositoryIoOperation};
use crate::git_output::{require_sha1_oid, sha1_text};
use crate::git_runner::{conclude_unstarted, ReadOutputError, RunnerProfile};
use crate::hex::hex_bytes;
use crate::object_batch::BatchReadError;
use crate::target_objects::TargetObjectExpectation;
use crate::text_map::TextMap;
use crate::tree_body::{decode_sha1_oid, named_kind, object_kind_named, validate_target_object_stream_length, MAX_TARGET_OBJECT_BYTES};
use vstd::prelude::*;
use vstd::string::*;

verus! {

/// Git did not do what it was asked for.
pub open spec fn audit_command_failure() -> RepositoryImportError {
    RepositoryImportError::GitCommandFailed { operation: RepositoryGitOperation::AuditTarget }
}

fn audit_command_failed() -> (error: RepositoryImportError)
    ensures
        error == audit_command_failure(),
{
    RepositoryImportError::GitCommandFailed { operation: RepositoryGitOperation::AuditTarget }
}

/// Why an object is not asked for, if it is not.
pub open spec fn request_error(oid: Seq<u8>, expected: TargetObjectExpectation) -> Option<RepositoryImportError> {
    if !sha1_text(oid) || named_kind(expected.object_type@) is None {
        Some(RepositoryImportError::TargetAuditFailed)
    } else if expected.size > MAX_TARGET_OBJECT_BYTES {
        Some(RepositoryImportError::ResourceLimit)
    } else {
        None
    }
}

/// Prepare the request for an object: its id must be one, its type known and its size within bounds.
pub fn prepare_request(oid: &str, expected: TargetObjectExpectation) -> (r: Result<[u8; 20], RepositoryImportError>)
    ensures
        match request_error(oid.spec_bytes(), expected) {
            Some(error) => r matches Err(e) && e == error,
            None => r matches Ok(raw_oid) && raw_oid@ == hex_bytes(oid.spec_bytes()),
        },
{
    if require_sha1_oid(oid).is_err() {
        return Err(RepositoryImportError::TargetAuditFailed);
    }
    if object_kind_named(expected.object_type).is_none() {
        return Err(RepositoryImportError::TargetAuditFailed);
    }
    validate_target_object_stream_length(expected.size)?;
    decode_sha1_oid(oid)
}

/// A request that could not be sent. What the runner holds is looked at first.
pub fn conclude_unsent(bindings: Result<(), RepositoryImportError>, kind: IoErrorKind) -> (error: RepositoryImportError)
    ensures
        error == match bindings {
            Err(changed) => changed,
            Ok(()) => io_failure(RepositoryIoOperation::CommunicateGit, kind),
        },
{
    match bindings {
        Err(changed) => changed,
        Ok(()) => io_error(RepositoryIoOperation::CommunicateGit, kind),
    }
}

/// What one look at the conversation showed.
#[derive(Clone, Copy)]
pub struct BatchSighting {
    pub diagnostics_too_large: bool,
    /// The reader met something else than the expected response.
    pub reading_failed: bool,
    /// Whether Git ended, and then whether it succeeded.
    pub ended: Result<Option<bool>, IoErrorKind>,
    /// The response is whole.
    pub response_whole: bool,
    pub deadline_passed: bool,
}

/// What to do about the conversation.
#[derive(Clone, Copy, Debug, PartialEq, Eq, Structural)]
pub enum BatchStep {
    /// Stop Git; this is the failure, unless stopping fails.
    Stop(RepositoryImportError),
    /// Git ended.
    Ended { success: bool },
    /// The response is whole; the conversation goes on.
    Answered,
    /// Look again later.
    Wait,
}

/// What to do while the response for an object comes in.
pub open spec fn prove_step_of(seen: BatchSighting) -> BatchStep {
    if seen.diagnostics_too_large {
        BatchStep::Stop(RepositoryImportError::ResourceLimit)
    } else if seen.reading_failed {
        BatchStep::Stop(RepositoryImportError::TargetAuditFailed)
    } else {
        match seen.ended {
            Ok(Some(success)) => BatchStep::Ended { success },
            Err(kind) => BatchStep::Stop(io_failure(RepositoryIoOperation::CommunicateGit, kind)),
            Ok(None) => if seen.response_whole {
                BatchStep::Answered
            } else if seen.deadline_passed {
                BatchStep::Stop(audit_command_failure())
            } else {
                BatchStep::Wait
            },
        }
    }
}

/// Decide what to do while the response for an object comes in.
pub fn prove_step(seen: BatchSighting) -> (step: BatchStep)
    ensures
        step == prove_step_of(seen),
{
    if seen.diagnostics_too_large {
        return BatchStep::Stop(RepositoryImportError::ResourceLimit);
    }
    if seen.reading_failed {
        return BatchStep::Stop(RepositoryImportError::TargetAuditFailed);
    }
    match seen.ended {
        Ok(Some(success)) => BatchStep::Ended { success },
        Err(kind) => BatchStep::Stop(io_error(RepositoryIoOperation::CommunicateGit, kind)),
        Ok(None) => {
            if seen.response_whole {
                BatchStep::Answered
            } else if seen.deadline_passed {
                BatchStep::Stop(audit_command_failed())
            } else {
                BatchStep::Wait
            }
        },
    }
}

/// What to do while the end of the conversation is awaited.
pub open spec fn finish_step_of(seen: BatchSighting) -> BatchStep {
    if seen.diagnostics_too_large {
        BatchStep::Stop(RepositoryImportError::ResourceLimit)
    } else if seen.reading_failed {
        BatchStep::Stop(RepositoryImportError::TargetAuditFailed)
    } else {
        match seen.ended {
            Ok(Some(success)) => BatchStep::Ended { success },
            Err(kind) => BatchStep::Stop(io_failure(RepositoryIoOperation::CommunicateGit, kind)),
            Ok(None) => if seen.deadline_passed {
                BatchStep::Stop(audit_command_failure())
            } else {
                BatchStep::Wait
            },
        }
    }
}

/// Decide what to do while the end of the conversation is awaited.
pub fn finish_step(seen: BatchSighting) -> (step: BatchStep)
    ensures
        step == finish_step_of(seen),
{
    let waiting = BatchSighting { response_whole: false, ..seen };
    prove_step(waiting)
}

/// What one look at Git, while it is being stopped, showed.
#[derive(Clone, Copy)]
pub struct TerminationSighting {
    pub ended: Result<Option<bool>, IoErrorKind>,
    /// It was told to end in this round.
    pub killed: bool,
    pub deadline_passed: bool,
}

/// What to do while Git is being stopped.
#[derive(Clone, Copy, Debug, PartialEq, Eq, Structural)]
pub enum TerminationStep {
    Ended { success: bool },
    Fail(RepositoryImportError),
    /// Tell it to end, and look again at once.
    Kill,
    /// Look again later, in a new round.
    Wait,
}

/// Decide what to do while Git is being stopped. Each round looks, tells it to end, and looks again;
/// only then does the deadline count.
pub fn kill_and_wait_step(seen: TerminationSighting) -> (step: TerminationStep)
    ensures
        step == match seen.ended {
            Err(kind) => TerminationStep::Fail(io_failure(RepositoryIoOperation::CommunicateGit, kind)),
            Ok(Some(success)) => TerminationStep::Ended { success },
            Ok(None) => if !seen.killed {
                TerminationStep::Kill
            } else if seen.deadline_passed {
                TerminationStep::Fail(audit_command_failure())
            } else {
                TerminationStep::Wait
            },
        },
{
    match seen.ended {
        Err(kind) => TerminationStep::Fail(io_error(RepositoryIoOperation::CommunicateGit, kind)),
        Ok(Some(success)) => TerminationStep::Ended { success },
        Ok(None) => {
            if !seen.killed {
                TerminationStep::Kill
            } else if seen.deadline_passed {
                TerminationStep::Fail(audit_command_failed())
            } else {
                TerminationStep::Wait
            }
        },
    }
}

/// The failure to report once Git was to be stopped, and whether it ended: a failure to stop it comes
/// before the reason for stopping it.
pub fn shutdown_batch_child(stopped: Result<bool, RepositoryImportError>, preferred: RepositoryImportError) -> (r: (
    RepositoryImportError,
    bool,
))
    ensures
        r == match stopped {
            Ok(_) => (preferred, true),
            Err(error) => (error, false),
        },
{
    match stopped {
        Ok(_) => (preferred, true),
        Err(error) => (error, false),
    }
}

/// What the reader of the diagnostics left behind.
#[derive(Clone, Copy)]
pub enum DiagnosticsOutcome {
    /// It was asked before.
    Taken,
    /// It broke down.
    Lost,
    Read(Result<(), ReadOutputError>),
}

/// What the diagnostics say about the conversation.
pub open spec fn diagnostics_verdict(git_ended: bool, outcome: DiagnosticsOutcome) -> Result<(), RepositoryImportError> {
    if !git_ended {
        Err(RepositoryImportError::TargetAuditFailed)
    } else {
        match outcome {
            DiagnosticsOutcome::Taken => Ok(()),
            DiagnosticsOutcome::Lost => Err(io_failure(RepositoryIoOperation::CommunicateGit, IoErrorKind::Other)),
            DiagnosticsOutcome::Read(Ok(())) => Ok(()),
            DiagnosticsOutcome::Read(Err(ReadOutputError::TooLarge)) => Err(RepositoryImportError::ResourceLimit),
            DiagnosticsOutcome::Read(Err(ReadOutputError::Io(kind))) => Err(
                io_failure(RepositoryIoOperation::CommunicateGit, kind),
            ),
        }
    }
}

/// Judge the diagnostics, which can only be done once Git ended.
pub fn join_stderr(git_ended: bool, outcome: DiagnosticsOutcome) -> (r: Result<(), RepositoryImportError>)
    ensures
        r == diagnostics_verdict(git_ended, outcome),
{
    if !git_ended {
        return Err(RepositoryImportError::TargetAuditFailed);
    }
    match outcome {
        DiagnosticsOutcome::Taken => Ok(()),
        DiagnosticsOutcome::Lost => Err(io_error(RepositoryIoOperation::CommunicateGit, IoErrorKind::Other)),
        DiagnosticsOutcome::Read(Ok(())) => Ok(()),
        DiagnosticsOutcome::Read(Err(ReadOutputError::TooLarge)) => Err(RepositoryImportError::ResourceLimit),
        DiagnosticsOutcome::Read(Err(ReadOutputError::Io(kind))) => Err(
            io_error(RepositoryIoOperation::CommunicateGit, kind),
        ),
    }
}

/// What a reading says about the audit.
pub open spec fn reading_verdict(read: Result<(), BatchReadError>) -> Result<(), RepositoryImportError> {
    match read {
        Ok(()) => Ok(()),
        Err(BatchReadError::Mismatch) => Err(RepositoryImportError::TargetAuditFailed),
        Err(BatchReadError::Io(kind)) => Err(io_failure(RepositoryIoOperation::CommunicateGit, kind)),
    }
}

fn judge_reading(read: Result<(), BatchReadError>) -> (r: Result<(), RepositoryImportError>)
    ensures
        r == reading_verdict(read),
{
    match read {
        Ok(()) => Ok(()),
        Err(BatchReadError::Mismatch) => Err(RepositoryImportError::TargetAuditFailed),
        Err(BatchReadError::Io(kind)) => Err(io_error(RepositoryIoOperation::CommunicateGit, kind)),
    }
}

/// How one request went.
#[derive(Clone, Copy)]
pub struct BatchTurn {
    pub read: Result<(), BatchReadError>,
    /// Why the conversation was broken off, if it was.
    pub control_error: Option<RepositoryImportError>,
    /// Git ended.
    pub reaped: bool,
}

/// Whether Git must be stopped after a request: the response was refused, but nothing has stopped
/// Git so far.
pub fn must_terminate(turn: &BatchTurn, git_ended: bool) -> (r: bool)
    ensures
        r == (turn.control_error is None && turn.read is Err && !git_ended && !turn.reaped),
{
    turn.control_error.is_none() && turn.read.is_err() && !git_ended && !turn.reaped
}

/// What a request proves: the object is the expected one if the runner still holds what it held,
/// nothing broke the conversation off, the diagnostics are fine and the response was the expected one.
pub fn conclude_prove(
    turn: &BatchTurn,
    diagnostics: Result<(), RepositoryImportError>,
    bindings: Result<(), RepositoryImportError>,
) -> (r: Result<(), RepositoryImportError>)
    ensures
        r == match bindings {
            Err(changed) => Err::<(), RepositoryImportError>(changed),
            Ok(()) => match turn.control_error {
                Some(error) => Err(error),
                None => match diagnostics {
                    Err(error) => Err(error),
                    Ok(()) => reading_verdict(turn.read),
                },
            },
        },
{
    bindings?;
    if let Some(error) = turn.control_error {
        return Err(error);
    }
    diagnostics?;
    judge_reading(turn.read)
}

/// How the conversation ended.
#[derive(Clone, Copy)]
pub struct BatchEnding {
    pub read: Result<(), BatchReadError>,
    /// Whether Git succeeded, if it ended.
    pub status: Option<bool>,
    /// Why the conversation was broken off, if it was.
    pub control_error: Option<RepositoryImportError>,
}

/// What the end of the conversation proves: Git ended by itself, with success, without more output
/// and without complaints.
pub fn conclude_finish(
    ending: &BatchEnding,
    diagnostics: Result<(), RepositoryImportError>,
    bindings: Result<(), RepositoryImportError>,
) -> (r: Result<(), RepositoryImportError>)
    ensures
        r == match bindings {
            Err(changed) => Err::<(), RepositoryImportError>(changed),
            Ok(()) => match ending.control_error {
                Some(error) => Err(error),
                None => match diagnostics {
                    Err(error) => Err(error),
                    Ok(()) => match ending.status {
                        None => Err(RepositoryImportError::TargetAuditFailed),
                        Some(false) => Err(audit_command_failure()),
                        Some(true) => reading_verdict(ending.read),
                    },
                },
            },
        },
{
    bindings?;
    if let Some(error) = ending.control_error {
        return Err(error);
    }
    diagnostics?;
    match ending.status {
        None => Err(RepositoryImportError::TargetAuditFailed),
        Some(success) => {
            if !success {
                return Err(audit_command_failed());
            }
            judge_reading(ending.read)
        },
    }
}

/// What the start of the conversation showed.
#[derive(Clone, Copy)]
pub struct BatchStart {
    pub bindings_before: Result<(), RepositoryImportError>,
    pub started: Result<(), IoErrorKind>,
    pub bindings_after: Result<(), RepositoryImportError>,
    /// Its input, its output and its diagnostics can be reached.
    pub piped: bool,
}

/// Why the conversation does not begin, if it does not.
pub open spec fn start_error(profile: RunnerProfile, timeout_milliseconds: u64, start: BatchStart) -> Option<
    RepositoryImportError,
> {
    if start.bindings_before is Err {
        Some(start.bindings_before->Err_0)
    } else if !profile.target || timeout_milliseconds == 0 {
        Some(RepositoryImportError::TargetAuditFailed)
    } else if start.bindings_after is Err {
        Some(start.bindings_after->Err_0)
    } else if start.started is Err {
        Some(io_failure(RepositoryIoOperation::SpawnGit, start.started->Err_0))
    } else if !start.piped {
        Some(io_failure(RepositoryIoOperation::CommunicateGit, IoErrorKind::BrokenPipe))
    } else {
        None
    }
}

/// What one request showed, from before it was sent to after its answer was judged.
#[derive(Clone, Copy)]
pub struct ProofRun {
    pub bindings_before: Result<(), RepositoryImportError>,
    pub sent: Result<(), IoErrorKind>,
    /// The look that ended the waiting.
    pub last: BatchSighting,
    /// Where Git was to be stopped while the response came in: whether it had succeeded.
    pub stopped: Result<bool, RepositoryImportError>,
    /// What the reader of the response left behind, unless it broke down.
    pub read: Option<Result<(), BatchReadError>>,
    pub bindings_after: Result<(), RepositoryImportError>,
    /// Where Git was to be stopped after the response, or because the request could not be sent: it ended.
    pub terminated: bool,
    pub diagnostics: DiagnosticsOutcome,
    pub bindings_at_end: Result<(), RepositoryImportError>,
}

/// How the wait for a response was broken off, if it was, and whether Git ended.
pub open spec fn turn_control(run: ProofRun) -> (Option<RepositoryImportError>, bool) {
    match prove_step_of(run.last) {
        BatchStep::Stop(preferred) => match run.stopped {
            Ok(_) => (Some(preferred), true),
            Err(error) => (Some(error), false),
        },
        BatchStep::Ended { .. } => (Some(audit_command_failure()), true),
        BatchStep::Answered | BatchStep::Wait => (None, false),
    }
}

/// Git is to be stopped because the response was refused after it was whole.
pub open spec fn refused_late(run: ProofRun) -> bool {
    turn_control(run).0 is None && (run.read matches Some(read) && read is Err)
}

/// Git ended in the course of a request that was sent.
pub open spec fn ended_in_turn(run: ProofRun) -> bool {
    turn_control(run).1 || (refused_late(run) && run.terminated)
}

/// What comes of a request that was sent.
pub open spec fn turn_verdict(run: ProofRun) -> Result<(), RepositoryImportError> {
    if run.bindings_after is Err {
        run.bindings_after
    } else if run.read is None {
        Err(io_failure(RepositoryIoOperation::CommunicateGit, IoErrorKind::Other))
    } else if run.bindings_at_end is Err {
        run.bindings_at_end
    } else {
        match turn_control(run).0 {
            Some(error) => Err(error),
            None => {
                let diagnostics = if ended_in_turn(run) {
                    diagnostics_verdict(true, run.diagnostics)
                } else {
                    Ok(())
                };
                if diagnostics is Err {
                    diagnostics
                } else {
                    reading_verdict(run.read->Some_0)
                }
            },
        }
    }
}

/// What comes of a request.
pub open spec fn prove_verdict(open: bool, oid: Seq<u8>, expected: TargetObjectExpectation, run: ProofRun) -> Result<
    (),
    RepositoryImportError,
> {
    if request_error(oid, expected) is Some {
        Err(request_error(oid, expected)->Some_0)
    } else if run.bindings_before is Err {
        run.bindings_before
    } else if !open {
        Err(RepositoryImportError::TargetAuditFailed)
    } else if run.sent is Err {
        match run.bindings_at_end {
            Err(changed) => Err(changed),
            Ok(()) => Err(io_failure(RepositoryIoOperation::CommunicateGit, run.sent->Err_0)),
        }
    } else {
        turn_verdict(run)
    }
}

/// A request goes out: it is in order, what the runner holds is what it was, and Git still takes requests.
pub open spec fn goes_out(open: bool, oid: Seq<u8>, expected: TargetObjectExpectation, run: ProofRun) -> bool {
    request_error(oid, expected) is None && run.bindings_before is Ok && open
}

/// What the end of the conversation showed.
#[derive(Clone, Copy)]
pub struct FinishRun {
    pub bindings_before: Result<(), RepositoryImportError>,
    /// The look that ended the waiting.
    pub last: BatchSighting,
    /// Where Git was to be stopped: whether it had succeeded.
    pub stopped: Result<bool, RepositoryImportError>,
    /// What the reader of the rest left behind, unless it broke down.
    pub read: Option<Result<(), BatchReadError>>,
    pub bindings_after: Result<(), RepositoryImportError>,
    pub diagnostics: DiagnosticsOutcome,
    pub bindings_at_end: Result<(), RepositoryImportError>,
}

/// Whether Git succeeded, if it ended, and why it was stopped, if it was.
pub open spec fn finish_control(run: FinishRun) -> (Option<bool>, Option<RepositoryImportError>) {
    match finish_step_of(run.last) {
        BatchStep::Stop(preferred) => match run.stopped {
            Ok(success) => (Some(success), Some(preferred)),
            Err(error) => (None, Some(error)),
        },
        BatchStep::Ended { success } => (Some(success), None),
        BatchStep::Answered | BatchStep::Wait => (None, None),
    }
}

/// What comes of the end of the conversation.
pub open spec fn finish_verdict(run: FinishRun) -> Result<(), RepositoryImportError> {
    if run.bindings_before is Err {
        run.bindings_before
    } else if run.bindings_after is Err {
        run.bindings_after
    } else if run.read is None {
        Err(io_failure(RepositoryIoOperation::CommunicateGit, IoErrorKind::Other))
    } else if run.bindings_at_end is Err {
        run.bindings_at_end
    } else {
        let (status, stopped) = finish_control(run);
        match stopped {
            Some(error) => Err(error),
            None => match status {
                None => Err(RepositoryImportError::TargetAuditFailed),
                Some(success) => if diagnostics_verdict(true, run.diagnostics) is Err {
                    diagnostics_verdict(true, run.diagnostics)
                } else if !success {
                    Err(audit_command_failure())
                } else {
                    reading_verdict(run.read->Some_0)
                },
            },
        }
    }
}

/// A conversation with Git about the objects of a target.
pub struct TargetObjectBatch {
    /// Git takes requests.
    pub open: bool,
    /// Git ended.
    pub finished: bool,
}

impl TargetObjectBatch {
    /// Begin the conversation.
    pub fn begin(profile: RunnerProfile, timeout_milliseconds: u64, start: BatchStart) -> (r: Result<
        TargetObjectBatch,
        RepositoryImportError,
    >)
        ensures
            match start_error(profile, timeout_milliseconds, start) {
                Some(failure) => r matches Err(error) && error == failure,
                None => r matches Ok(batch) && batch.open && !batch.finished,
            },
    {
        start.bindings_before?;
        if !profile.target || timeout_milliseconds == 0 {
            return Err(RepositoryImportError::TargetAuditFailed);
        }
        match start.started {
            Ok(()) => {},
            Err(kind) => {
                return Err(conclude_unstarted(start.bindings_after, kind));
            },
        }
        start.bindings_after?;
        if !start.piped {
            return Err(io_error(RepositoryIoOperation::CommunicateGit, IoErrorKind::BrokenPipe));
        }
        Ok(TargetObjectBatch { open: true, finished: false })
    }

    /// Prove one object: judge all that was seen of the request. The object is proved only if the response
    /// was the expected one and nothing else went wrong.
    pub fn prove(&mut self, oid: &str, expected: TargetObjectExpectation, run: ProofRun) -> (r: Result<
        (),
        RepositoryImportError,
    >)
        requires
            old(self).open ==> !old(self).finished,
            run.sent is Ok ==> prove_step_of(run.last) != BatchStep::Wait,
        ensures
            r == prove_verdict(old(self).open, oid.spec_bytes(), expected, run),
            if !goes_out(old(self).open, oid.spec_bytes(), expected, run) {
                *final(self) == *old(self)
            } else if run.sent is Err {
                !final(self).open && final(self).finished == run.terminated
            } else if run.bindings_after is Err || run.read is None {
                final(self).open == (turn_control(run).0 is None) && final(self).finished == old(self).finished
            } else {
                final(self).open == (turn_control(run).0 is None && !refused_late(run)) && final(self).finished
                    == ended_in_turn(run)
            },
            final(self).open ==> !final(self).finished,
    {
        prepare_request(oid, expected)?;
        run.bindings_before?;
        if !self.open {
            return Err(RepositoryImportError::TargetAuditFailed);
        }
        match run.sent {
            Ok(()) => {},
            Err(kind) => {
                self.open = false;
                self.finished = run.terminated;
                return Err(conclude_unsent(run.bindings_at_end, kind));
            },
        }
        let (control_error, reaped): (Option<RepositoryImportError>, bool) = match prove_step(run.last) {
            BatchStep::Stop(preferred) => {
                let (error, ended) = shutdown_batch_child(run.stopped, preferred);
                (Some(error), ended)
            },
            BatchStep::Ended { .. } => (Some(audit_command_failed()), true),
            BatchStep::Answered | BatchStep::Wait => (None, false),
        };
        if control_error.is_some() {
            self.open = false;
        }
        run.bindings_after?;
        let read = match run.read {
            Some(read) => read,
            None => {
                return Err(io_error(RepositoryIoOperation::CommunicateGit, IoErrorKind::Other));
            },
        };
        let turn = BatchTurn { read, control_error, reaped };
        if reaped {
            self.open = false;
            self.finished = true;
        }
        if must_terminate(&turn, self.finished) {
            self.open = false;
            self.finished = run.terminated;
        }
        let diagnostics = if self.finished {
            join_stderr(true, run.diagnostics)
        } else {
            Ok(())
        };
        conclude_prove(&turn, diagnostics, run.bindings_at_end)
    }

    /// End the conversation: judge all that was seen of its end.
    pub fn finish(self, run: FinishRun) -> (r: Result<(), RepositoryImportError>)
        requires
            finish_step_of(run.last) != BatchStep::Wait,
        ensures
            r == finish_verdict(run),
    {
        run.bindings_before?;
        let (status, control_error): (Option<bool>, Option<RepositoryImportError>) = match finish_step(run.last) {
            BatchStep::Stop(preferred) => match run.stopped {
                Ok(success) => (Some(success), Some(preferred)),
                Err(error) => (None, Some(error)),
            },
            BatchStep::Ended { success } => (Some(success), None),
            BatchStep::Answered | BatchStep::Wait => (None, None),
        };
        run.bindings_after?;
        let read = match run.read {
            Some(read) => read,
            None => {
                return Err(io_error(RepositoryIoOperation::CommunicateGit, IoErrorKind::Other));
            },
        };
        let diagnostics = if status.is_some() {
            join_stderr(true, run.diagnostics)
        } else {
            Ok(())
        };
        conclude_finish(&BatchEnding { read, status, control_error }, diagnostics, run.bindings_at_end)
    }
}

/// An object that is proved was answered for whole and as expected while Git went on, and what the runner
/// holds was the same all the time.
pub proof fn proved_object_was_answered(open: bool, oid: Seq<u8>, expected: TargetObjectExpectation, run: ProofRun)
    requires
        prove_verdict(open, oid, expected, run) is Ok,
        prove_step_of(run.last) != BatchStep::Wait,
    ensures
        open,
        request_error(oid, expected) is None,
        run.sent is Ok,
        prove_step_of(run.last) == BatchStep::Answered,
        run.read matches Some(read) && read is Ok,
        run.bindings_before is Ok && run.bindings_after is Ok && run.bindings_at_end is Ok,
        !ended_in_turn(run),
{
}

/// A conversation that ended well was ended by Git itself, with success, without more output and without
/// complaints.
pub proof fn finished_conversation_ended_well(run: FinishRun)
    requires
        finish_verdict(run) is Ok,
    ensures
        finish_step_of(run.last) == (BatchStep::Ended { success: true }),
        run.read matches Some(read) && read is Ok,
        diagnostics_verdict(true, run.diagnostics) is Ok,
        run.bindings_before is Ok && run.bindings_after is Ok && run.bindings_at_end is Ok,
{
}

/// The first verdict from `i` on that is a failure.
pub open spec fn first_failure(verdicts: Seq<Result<(), RepositoryImportError>>, i: int) -> Result<(), RepositoryImportError>
    decreases verdicts.len() - i,
{
    if i >= verdicts.len() {
        Ok(())
    } else if verdicts[i] is Err {
        verdicts[i]
    } else {
        first_failure(verdicts, i + 1)
    }
}

/// Judge the objects that were asked for, in the order of their ids: one verdict for each, up to the
/// first failure.
pub fn prove_expected_target_objects(
    expected: &TextMap<TargetObjectExpectation>,
    verdicts: &Vec<Result<(), RepositoryImportError>>,
) -> (r: Result<(), RepositoryImportError>)
    ensures
        r == match first_failure(verdicts@, 0) {
            Err(error) => Err::<(), RepositoryImportError>(error),
            Ok(()) => if verdicts@.len() == expected.entries@.len() {
                Ok(())
            } else {
                Err(RepositoryImportError::TargetAuditFailed)
            },
        },
{
    let mut i: usize = 0;
    while i < verdicts.len()
        invariant
            i <= verdicts@.len(),
            first_failure(verdicts@, 0) == first_failure(verdicts@, i as int),
        decreases verdicts@.len() - i,
    {
        match verdicts[i] {
            Ok(()) => {},
            Err(error) => {
                return Err(error);
            },
        }
        i = i + 1;
    }
    if verdicts.len() == expected.entries.len() {
        Ok(())
    } else {
        Err(RepositoryImportError::TargetAuditFailed)
    }
}

/// A set of objects is proved only if each of them is.
pub proof fn every_object_is_proved(verdicts: Seq<Result<(), RepositoryImportError>>, i: int, k: int)
    requires
        0 <= i <= k < verdicts.len(),
        first_failure(verdicts, i) is Ok,
    ensures
        verdicts[k] is Ok,
    decreases k - i,
{
    if i < k {
        every_object_is_proved(verdicts, i + 1, k);
    }
}

} // verus!
