//! How Git is run: its arguments and environment, and what is made of what a run showed.

use crate::errors::{io_error, io_failure, IoErrorKind, RepositoryGitOperation, RepositoryImportError, RepositoryIoOperation};
use crate::source_checks::CommandOutput;
use crate::source_endpoints::texts;
use crate::target_config::HostPlatform;
use crate::wiped::WipedBytes;
use vstd::prelude::*;
use vstd::string::*;

verus! {

/// Longest configuration, in bytes.
pub const MAX_CONFIG_BYTES: usize = 1_048_576;

/// Most bytes of diagnostics that Git may print.
pub const MAX_GIT_STDERR_BYTES: usize = 65_536;

/// How long one Git command may take, in milliseconds.
pub const GIT_TIMEOUT_MILLISECONDS: u64 = 60_000;

/// How long Git may take to end once it is told to, in milliseconds.
pub const GIT_TERMINATION_TIMEOUT_MILLISECONDS: u64 = 2_000;

/// The file that holds nothing and keeps nothing.
pub open spec fn null_device_text(platform: HostPlatform) -> Seq<char> {
    match platform {
        HostPlatform::Windows => "NUL"@,
        HostPlatform::Unix => "/dev/null"@,
    }
}

/// The file that holds nothing and keeps nothing.
pub fn null_device(platform: HostPlatform) -> (path: &'static str)
    ensures
        path@ == null_device_text(platform),
{
    match platform {
        HostPlatform::Windows => "NUL",
        HostPlatform::Unix => "/dev/null",
    }
}

/// Which repository a runner works on.
#[derive(Clone, Copy, Debug, PartialEq, Eq, Structural)]
pub struct RunnerProfile {
    /// The repository is a target, not a source.
    pub target: bool,
    /// The empty hooks directory of the target is held.
    pub hooks_held: bool,
    pub platform: HostPlatform,
}

/// The settings that go before every command.
pub open spec fn prefix_texts(profile: RunnerProfile) -> Seq<Seq<char>> {
    seq!["-c"@, "core.fsmonitor=false"@, "-c"@, "protocol.allow=never"@, "-c"@, "submodule.recurse=false"@] + if profile.target {
        seq!["-c"@, "core.splitIndex=false"@] + (if profile.hooks_held {
            seq!["-c"@, "core.hooksPath=.git/inex-empty-hooks"@]
        } else {
            Seq::empty()
        }) + (if profile.platform == HostPlatform::Windows {
            seq!["-c"@, "core.longPaths=true"@]
        } else {
            Seq::empty()
        })
    } else {
        Seq::empty()
    }
}

/// The settings that go before every command.
pub fn prefix_arguments(profile: RunnerProfile) -> (arguments: Vec<&'static str>)
    ensures
        texts(arguments@) == prefix_texts(profile),
{
    let mut arguments: Vec<&'static str> = vec![
        "-c",
        "core.fsmonitor=false",
        "-c",
        "protocol.allow=never",
        "-c",
        "submodule.recurse=false",
    ];
    if profile.target {
        arguments.push("-c");
        arguments.push("core.splitIndex=false");
        if profile.hooks_held {
            arguments.push("-c");
            arguments.push("core.hooksPath=.git/inex-empty-hooks");
        }
        if profile.platform == HostPlatform::Windows {
            arguments.push("-c");
            arguments.push("core.longPaths=true");
        }
    }
    assert(texts(arguments@) =~= prefix_texts(profile));
    arguments
}

/// The arguments of the command that prints objects.
pub open spec fn batch_texts(profile: RunnerProfile) -> Seq<Seq<char>> {
    prefix_texts(profile) + seq!["cat-file"@, "--batch"@]
}

/// The arguments of the command that prints objects, which only a target is asked for. The time that
/// an object may take must not be zero.
pub fn batch_arguments(profile: RunnerProfile, timeout_milliseconds: u64) -> (r: Result<
    Vec<&'static str>,
    RepositoryImportError,
>)
    ensures
        if profile.target && timeout_milliseconds > 0 {
            r matches Ok(arguments) && texts(arguments@) == batch_texts(profile)
        } else {
            r matches Err(error) && error == RepositoryImportError::TargetAuditFailed
        },
{
    if !profile.target || timeout_milliseconds == 0 {
        return Err(RepositoryImportError::TargetAuditFailed);
    }
    let mut arguments = prefix_arguments(profile);
    arguments.push("cat-file");
    arguments.push("--batch");
    assert(texts(arguments@) =~= batch_texts(profile));
    Ok(arguments)
}

/// One variable of an environment.
pub struct Variable {
    pub name: &'static str,
    pub value: String,
}

/// The names and values of an environment.
pub open spec fn variables(list: Seq<Variable>) -> Seq<(Seq<char>, Seq<char>)> {
    list.map_values(|variable: Variable| (variable.name@, variable.value@))
}

/// Who commits, and when.
pub struct GitIdentityEnvironment<'a> {
    pub author_name: &'a str,
    pub author_email: &'a str,
    pub author_date: &'a str,
    pub committer_name: &'a str,
    pub committer_email: &'a str,
    pub committer_date: &'a str,
}

/// The variables that keep Git from the settings of the machine, from the network and from prompts.
pub open spec fn fixed_environment(platform: HostPlatform) -> Seq<(Seq<char>, Seq<char>)> {
    seq![
        ("GIT_CONFIG_NOSYSTEM"@, "1"@),
        ("GIT_CONFIG_SYSTEM"@, null_device_text(platform)),
        ("GIT_CONFIG_GLOBAL"@, null_device_text(platform)),
        ("GIT_ATTR_NOSYSTEM"@, "1"@),
        ("GIT_NO_LAZY_FETCH"@, "1"@),
        ("GIT_TERMINAL_PROMPT"@, "0"@),
        ("GIT_OPTIONAL_LOCKS"@, "0"@),
        ("GIT_NO_REPLACE_OBJECTS"@, "1"@),
        ("GIT_PROTOCOL_FROM_USER"@, "0"@),
        ("GIT_PAGER"@, "cat"@),
        ("PAGER"@, "cat"@),
        ("LC_ALL"@, "C"@),
        ("LANG"@, "C"@),
    ]
}

/// The variables that name the parts of a target, whose root has no slash at its end.
pub open spec fn repository_environment_of(root: Seq<char>) -> Seq<(Seq<char>, Seq<char>)> {
    seq![
        ("GIT_DIR"@, root + "/.git"@),
        ("GIT_WORK_TREE"@, root),
        ("GIT_INDEX_FILE"@, root + "/.git/index"@),
    ]
}

/// The variables that say who commits.
pub open spec fn identity_environment(identity: GitIdentityEnvironment<'_>) -> Seq<(Seq<char>, Seq<char>)> {
    seq![
        ("GIT_AUTHOR_NAME"@, identity.author_name@),
        ("GIT_AUTHOR_EMAIL"@, identity.author_email@),
        ("GIT_AUTHOR_DATE"@, identity.author_date@),
        ("GIT_COMMITTER_NAME"@, identity.committer_name@),
        ("GIT_COMMITTER_EMAIL"@, identity.committer_email@),
        ("GIT_COMMITTER_DATE"@, identity.committer_date@),
    ]
}

fn push_variable(list: &mut Vec<Variable>, name: &'static str, value: &str)
    ensures
        variables(final(list)@) == variables(old(list)@).push((name@, value@)),
{
    let ghost before = list@;
    list.push(Variable { name, value: value.to_owned() });
    assert(variables(list@) =~= variables(before).push((name@, value@)));
}

fn push_fixed(list: &mut Vec<Variable>, platform: HostPlatform)
    ensures
        variables(final(list)@) == variables(old(list)@) + fixed_environment(platform),
{
    let ghost before = variables(list@);
    push_variable(list, "GIT_CONFIG_NOSYSTEM", "1");
    push_variable(list, "GIT_CONFIG_SYSTEM", null_device(platform));
    push_variable(list, "GIT_CONFIG_GLOBAL", null_device(platform));
    push_variable(list, "GIT_ATTR_NOSYSTEM", "1");
    push_variable(list, "GIT_NO_LAZY_FETCH", "1");
    push_variable(list, "GIT_TERMINAL_PROMPT", "0");
    push_variable(list, "GIT_OPTIONAL_LOCKS", "0");
    push_variable(list, "GIT_NO_REPLACE_OBJECTS", "1");
    push_variable(list, "GIT_PROTOCOL_FROM_USER", "0");
    push_variable(list, "GIT_PAGER", "cat");
    push_variable(list, "PAGER", "cat");
    push_variable(list, "LC_ALL", "C");
    push_variable(list, "LANG", "C");
    assert(variables(list@) =~= before + fixed_environment(platform));
}

fn push_repository(list: &mut Vec<Variable>, root: &str)
    ensures
        variables(final(list)@) == variables(old(list)@) + repository_environment_of(root@),
{
    let ghost before = variables(list@);
    let mut git = root.to_owned();
    git.append("/.git");
    let mut index = root.to_owned();
    index.append("/.git/index");
    push_variable(list, "GIT_DIR", git.as_str());
    push_variable(list, "GIT_WORK_TREE", root);
    push_variable(list, "GIT_INDEX_FILE", index.as_str());
    assert(variables(list@) =~= before + repository_environment_of(root@));
}

/// How one command is run.
pub struct CommandPlan<'a> {
    /// The settings go before the arguments.
    pub prefix: bool,
    /// The parts of a target are named to Git.
    pub repository_environment: bool,
    /// Git finds no repository at all.
    pub isolate_repository_discovery: bool,
    pub identity: Option<GitIdentityEnvironment<'a>>,
}

/// The environment of a command.
pub open spec fn command_environment_of(profile: RunnerProfile, root: Seq<char>, plan: CommandPlan<'_>) -> Seq<
    (Seq<char>, Seq<char>),
> {
    fixed_environment(profile.platform) + (if plan.isolate_repository_discovery {
        seq![("GIT_DIR"@, null_device_text(profile.platform))]
    } else {
        Seq::empty()
    }) + (if profile.target && plan.repository_environment {
        repository_environment_of(root)
    } else {
        Seq::empty()
    }) + (match plan.identity {
        Some(identity) => identity_environment(identity),
        None => Seq::empty(),
    })
}

/// The environment of a command. A repository cannot be named to Git and hidden from it at once.
pub fn command_environment(profile: RunnerProfile, root: &str, plan: &CommandPlan<'_>) -> (r: Result<
    Vec<Variable>,
    RepositoryImportError,
>)
    ensures
        if plan.isolate_repository_discovery && plan.repository_environment {
            r matches Err(error) && error == RepositoryImportError::UnsafeTarget
        } else {
            r matches Ok(environment) && variables(environment@) == command_environment_of(profile, root@, *plan)
        },
{
    if plan.isolate_repository_discovery && plan.repository_environment {
        return Err(RepositoryImportError::UnsafeTarget);
    }
    let mut list: Vec<Variable> = Vec::new();
    assert(variables(list@) =~= Seq::<(Seq<char>, Seq<char>)>::empty());
    push_fixed(&mut list, profile.platform);
    if plan.isolate_repository_discovery {
        push_variable(&mut list, "GIT_DIR", null_device(profile.platform));
    }
    if profile.target && plan.repository_environment {
        push_repository(&mut list, root);
    }
    match &plan.identity {
        Some(identity) => {
            push_variable(&mut list, "GIT_AUTHOR_NAME", identity.author_name);
            push_variable(&mut list, "GIT_AUTHOR_EMAIL", identity.author_email);
            push_variable(&mut list, "GIT_AUTHOR_DATE", identity.author_date);
            push_variable(&mut list, "GIT_COMMITTER_NAME", identity.committer_name);
            push_variable(&mut list, "GIT_COMMITTER_EMAIL", identity.committer_email);
            push_variable(&mut list, "GIT_COMMITTER_DATE", identity.committer_date);
        },
        None => {},
    }
    assert(variables(list@) =~= command_environment_of(profile, root@, *plan));
    Ok(list)
}

/// The environment of the command that prints objects.
pub fn batch_environment(profile: RunnerProfile, root: &str) -> (environment: Vec<Variable>)
    ensures
        variables(environment@) == fixed_environment(profile.platform) + repository_environment_of(root@),
{
    let mut list: Vec<Variable> = Vec::new();
    push_fixed(&mut list, profile.platform);
    push_repository(&mut list, root);
    assert(variables(list@) =~= fixed_environment(profile.platform) + repository_environment_of(root@));
    list
}

/// The arguments that read a configuration from the input, without any repository.
pub open spec fn stdin_config_texts() -> Seq<Seq<char>> {
    seq!["config"@, "--file"@, "-"@, "--no-includes"@, "--null"@, "--list"@]
}

/// The arguments that read a configuration from the input, within the bounds for it and its output.
pub fn isolated_stdin_config(input: &[u8], maximum_output: usize) -> (r: Result<Vec<&'static str>, RepositoryImportError>)
    ensures
        if input@.len() > MAX_CONFIG_BYTES || maximum_output == 0 || maximum_output > 2 * MAX_CONFIG_BYTES {
            r matches Err(error) && error == RepositoryImportError::ResourceLimit
        } else {
            r matches Ok(arguments) && texts(arguments@) == stdin_config_texts()
        },
{
    if input.len() > MAX_CONFIG_BYTES || maximum_output == 0 || maximum_output > 2 * MAX_CONFIG_BYTES {
        return Err(RepositoryImportError::ResourceLimit);
    }
    let arguments: Vec<&'static str> = vec!["config", "--file", "-", "--no-includes", "--null", "--list"];
    assert(texts(arguments@) =~= stdin_config_texts());
    Ok(arguments)
}

/// What was seen of the held hooks directory.
#[derive(Clone, Copy)]
pub struct HooksSighting {
    pub binding_before: bool,
    /// Whether it is empty, if it could be read.
    pub empty: Option<bool>,
    pub binding_after: bool,
}

/// What a runner holds is still what it was.
pub open spec fn bindings_verdict(source: Option<Result<(), RepositoryImportError>>, hooks: Option<HooksSighting>) -> Result<
    (),
    RepositoryImportError,
> {
    match source {
        Some(Err(error)) => Err(error),
        _ => if hooks matches Some(seen) && !(seen.binding_before && seen.empty == Some(true) && seen.binding_after) {
            Err(RepositoryImportError::TargetAuditFailed)
        } else {
            Ok(())
        },
    }
}

/// Require what a runner holds to be what it was: the bound source, and an empty hooks directory.
pub fn verify_runtime_bindings(source: Option<Result<(), RepositoryImportError>>, hooks: Option<HooksSighting>) -> (r: Result<
    (),
    RepositoryImportError,
>)
    ensures
        r == bindings_verdict(source, hooks),
{
    if let Some(verdict) = source {
        verdict?;
    }
    if let Some(seen) = hooks {
        let empty = match seen.empty {
            Some(empty) => empty,
            None => false,
        };
        if !seen.binding_before || !empty || !seen.binding_after {
            return Err(RepositoryImportError::TargetAuditFailed);
        }
    }
    Ok(())
}

/// Why an output was not read to its end.
#[derive(Clone, Copy, Debug, PartialEq, Eq, Structural)]
pub enum ReadOutputError {
    TooLarge,
    Io(IoErrorKind),
}

/// Take in the next bytes of an output, within its bound; a read that gave nothing ends it.
pub fn read_output_bounded(output: &mut WipedBytes, maximum: usize, read: Result<&[u8], IoErrorKind>) -> (r: Result<
    bool,
    ReadOutputError,
>)
    ensures
        match read {
            Err(kind) => r matches Err(error) && error == ReadOutputError::Io(kind) && final(output)@ == old(output)@,
            Ok(chunk) => if chunk@.len() == 0 {
                r matches Ok(more) && !more && final(output)@ == old(output)@
            } else if old(output)@.len() + chunk@.len() > maximum {
                r matches Err(error) && error == ReadOutputError::TooLarge && final(output)@ == old(output)@
            } else {
                r matches Ok(more) && more && final(output)@ == old(output)@ + chunk@
            },
        },
{
    let chunk = match read {
        Ok(chunk) => chunk,
        Err(kind) => {
            return Err(ReadOutputError::Io(kind));
        },
    };
    if chunk.len() == 0 {
        return Ok(false);
    }
    if output.len() > maximum || chunk.len() > maximum - output.len() {
        return Err(ReadOutputError::TooLarge);
    }
    output.append(chunk);
    Ok(true)
}

/// What one look at a running command showed.
#[derive(Clone, Copy)]
pub struct CommandSighting {
    pub output_too_large: bool,
    /// Whether it ended, and then whether it succeeded.
    pub ended: Result<Option<bool>, IoErrorKind>,
    pub deadline_passed: bool,
}

/// What to do about a running command.
#[derive(Clone, Copy, Debug, PartialEq, Eq, Structural)]
pub enum CommandStep {
    /// Kill it and wait for its end.
    Kill { timed_out: bool },
    /// It ended.
    Ended { success: bool },
    /// Give up.
    Fail(RepositoryImportError),
    /// Look again later.
    Wait,
}

/// What to do about a running command: too much output comes first, then its end, then the deadline.
pub open spec fn command_step_of(seen: CommandSighting) -> CommandStep {
    if seen.output_too_large {
        CommandStep::Kill { timed_out: false }
    } else {
        match seen.ended {
            Err(kind) => CommandStep::Fail(io_failure(RepositoryIoOperation::CommunicateGit, kind)),
            Ok(Some(success)) => CommandStep::Ended { success },
            Ok(None) => if seen.deadline_passed {
                CommandStep::Kill { timed_out: true }
            } else {
                CommandStep::Wait
            },
        }
    }
}

/// Decide what to do about a running command.
pub fn command_step(seen: CommandSighting) -> (step: CommandStep)
    ensures
        step == command_step_of(seen),
{
    if seen.output_too_large {
        return CommandStep::Kill { timed_out: false };
    }
    match seen.ended {
        Err(kind) => CommandStep::Fail(io_error(RepositoryIoOperation::CommunicateGit, kind)),
        Ok(Some(success)) => CommandStep::Ended { success },
        Ok(None) => {
            if seen.deadline_passed {
                CommandStep::Kill { timed_out: true }
            } else {
                CommandStep::Wait
            }
        },
    }
}

/// What became of the input of a command.
#[derive(Clone, Copy, Debug, PartialEq, Eq, Structural)]
pub enum InputOutcome {
    /// There was none.
    NoInput,
    /// The writer broke down.
    Lost,
    Written,
    Failed(IoErrorKind),
}

/// A command that ended.
pub struct CommandConversation {
    pub read: Result<(), ReadOutputError>,
    pub output: WipedBytes,
    pub input: InputOutcome,
    pub success: bool,
    pub timed_out: bool,
}

/// Why the output of an ended command is not used, if it is not.
pub open spec fn conversation_error(conversation: CommandConversation, operation: RepositoryGitOperation) -> Option<
    RepositoryImportError,
> {
    if conversation.timed_out {
        Some(RepositoryImportError::GitCommandFailed { operation })
    } else {
        match conversation.read {
            Err(ReadOutputError::TooLarge) => Some(RepositoryImportError::ResourceLimit),
            Err(ReadOutputError::Io(kind)) => Some(io_failure(RepositoryIoOperation::CommunicateGit, kind)),
            Ok(()) => match conversation.input {
                InputOutcome::Lost => Some(io_failure(RepositoryIoOperation::CommunicateGit, IoErrorKind::Other)),
                InputOutcome::Failed(kind) => Some(io_failure(RepositoryIoOperation::CommunicateGit, kind)),
                InputOutcome::NoInput | InputOutcome::Written => if conversation.success {
                    None
                } else {
                    Some(RepositoryImportError::GitCommandFailed { operation })
                },
            },
        }
    }
}

/// The output of a command, if what the runner holds is what it was and the command did its work.
pub fn conclude_command(
    bindings: Result<(), RepositoryImportError>,
    communication: Result<CommandConversation, RepositoryImportError>,
    operation: RepositoryGitOperation,
) -> (r: CommandOutput)
    ensures
        match bindings {
            Err(changed) => r matches Err(error) && error == changed,
            Ok(()) => match communication {
                Err(failure) => r matches Err(error) && error == failure,
                Ok(conversation) => match conversation_error(conversation, operation) {
                    Some(failure) => r matches Err(error) && error == failure,
                    None => r matches Ok(output) && output == conversation.output,
                },
            },
        },
{
    bindings?;
    let conversation = communication?;
    if conversation.timed_out {
        return Err(RepositoryImportError::GitCommandFailed { operation });
    }
    match conversation.read {
        Ok(()) => {},
        Err(ReadOutputError::TooLarge) => {
            return Err(RepositoryImportError::ResourceLimit);
        },
        Err(ReadOutputError::Io(kind)) => {
            return Err(io_error(RepositoryIoOperation::CommunicateGit, kind));
        },
    }
    match conversation.input {
        InputOutcome::NoInput | InputOutcome::Written => {},
        InputOutcome::Lost => {
            return Err(io_error(RepositoryIoOperation::CommunicateGit, IoErrorKind::Other));
        },
        InputOutcome::Failed(kind) => {
            return Err(io_error(RepositoryIoOperation::CommunicateGit, kind));
        },
    }
    if !conversation.success {
        return Err(RepositoryImportError::GitCommandFailed { operation });
    }
    Ok(conversation.output)
}

/// A command that did not start. What the runner holds is looked at first.
pub fn conclude_unstarted(bindings: Result<(), RepositoryImportError>, kind: IoErrorKind) -> (error: RepositoryImportError)
    ensures
        error == match bindings {
            Err(changed) => changed,
            Ok(()) => io_failure(RepositoryIoOperation::SpawnGit, kind),
        },
{
    match bindings {
        Err(changed) => changed,
        Ok(()) => io_error(RepositoryIoOperation::SpawnGit, kind),
    }
}

/// What one command showed, from before its start to after its end.
pub struct CommandRun {
    pub bindings_before: Result<(), RepositoryImportError>,
    pub started: Result<(), IoErrorKind>,
    /// Its output can be read.
    pub output_piped: bool,
    /// The look that ended the waiting.
    pub last: CommandSighting,
    /// Where it was killed: whether it had succeeded, if it could be waited for.
    pub killed: Result<bool, IoErrorKind>,
    /// What the reader of its output left behind, unless it broke down.
    pub read: Option<Result<(), ReadOutputError>>,
    pub output: WipedBytes,
    pub input: InputOutcome,
    pub bindings_after: Result<(), RepositoryImportError>,
}

/// How a command ended: whether it succeeded, and whether its time was up.
pub open spec fn command_end(last: CommandSighting, killed: Result<bool, IoErrorKind>) -> Result<
    (bool, bool),
    RepositoryImportError,
> {
    match command_step_of(last) {
        CommandStep::Kill { timed_out } => match killed {
            Ok(success) => Ok((success, timed_out)),
            Err(kind) => Err(io_failure(RepositoryIoOperation::CommunicateGit, kind)),
        },
        CommandStep::Ended { success } => Ok((success, false)),
        CommandStep::Fail(error) => Err(error),
        CommandStep::Wait => Err(io_failure(RepositoryIoOperation::CommunicateGit, IoErrorKind::Other)),
    }
}

/// Why the output of a started command is not used, if it is not, apart from what the runner holds.
pub open spec fn communication_error(run: CommandRun, operation: RepositoryGitOperation) -> Option<RepositoryImportError> {
    match command_end(run.last, run.killed) {
        Err(error) => Some(error),
        Ok((success, timed_out)) => match run.read {
            None => Some(io_failure(RepositoryIoOperation::CommunicateGit, IoErrorKind::Other)),
            Some(read) => conversation_error(
                (CommandConversation { read, output: run.output, input: run.input, success, timed_out }),
                operation,
            ),
        },
    }
}

/// Why a command gives no output, if it gives none: what is seen first decides, and before a failure of
/// the command is reported, what the runner holds must be what it was.
pub open spec fn run_error(plan: CommandPlan<'_>, run: CommandRun, operation: RepositoryGitOperation) -> Option<
    RepositoryImportError,
> {
    if plan.isolate_repository_discovery && plan.repository_environment {
        Some(RepositoryImportError::UnsafeTarget)
    } else if run.bindings_before is Err {
        Some(run.bindings_before->Err_0)
    } else if run.started is Ok && !run.output_piped {
        Some(io_failure(RepositoryIoOperation::CommunicateGit, IoErrorKind::BrokenPipe))
    } else if run.bindings_after is Err {
        Some(run.bindings_after->Err_0)
    } else if run.started is Err {
        Some(io_failure(RepositoryIoOperation::SpawnGit, run.started->Err_0))
    } else {
        communication_error(run, operation)
    }
}

/// The conversation with a command that was started, as far as it went.
fn conclude_conversation(
    last: CommandSighting,
    killed: Result<bool, IoErrorKind>,
    read: Option<Result<(), ReadOutputError>>,
    output: WipedBytes,
    input: InputOutcome,
) -> (r: Result<CommandConversation, RepositoryImportError>)
    ensures
        match command_end(last, killed) {
            Err(failure) => r matches Err(error) && error == failure,
            Ok((success, timed_out)) => match read {
                None => r matches Err(error) && error == io_failure(RepositoryIoOperation::CommunicateGit, IoErrorKind::Other),
                Some(outcome) => r matches Ok(conversation) && conversation == (CommandConversation {
                    read: outcome,
                    output,
                    input,
                    success,
                    timed_out,
                }),
            },
        },
{
    let (success, timed_out) = match command_step(last) {
        CommandStep::Kill { timed_out } => match killed {
            Ok(success) => (success, timed_out),
            Err(kind) => {
                return Err(io_error(RepositoryIoOperation::CommunicateGit, kind));
            },
        },
        CommandStep::Ended { success } => (success, false),
        CommandStep::Fail(error) => {
            return Err(error);
        },
        CommandStep::Wait => {
            return Err(io_error(RepositoryIoOperation::CommunicateGit, IoErrorKind::Other));
        },
    };
    match read {
        Some(outcome) => Ok(CommandConversation { read: outcome, output, input, success, timed_out }),
        None => Err(io_error(RepositoryIoOperation::CommunicateGit, IoErrorKind::Other)),
    }
}

/// Run one command: judge all that was seen of it, and give its output if nothing went wrong.
pub fn run_inner(plan: &CommandPlan<'_>, run: CommandRun, operation: RepositoryGitOperation) -> (r: CommandOutput)
    requires
        !(plan.isolate_repository_discovery && plan.repository_environment) && run.bindings_before is Ok && run.started is Ok
            && run.output_piped ==> command_step_of(run.last) != CommandStep::Wait,
    ensures
        match run_error(*plan, run, operation) {
            Some(failure) => r matches Err(error) && error == failure,
            None => r matches Ok(output) && output == run.output,
        },
{
    if plan.isolate_repository_discovery && plan.repository_environment {
        return Err(RepositoryImportError::UnsafeTarget);
    }
    run.bindings_before?;
    match run.started {
        Ok(()) => {},
        Err(kind) => {
            return Err(conclude_unstarted(run.bindings_after, kind));
        },
    }
    if !run.output_piped {
        return Err(io_error(RepositoryIoOperation::CommunicateGit, IoErrorKind::BrokenPipe));
    }
    let communication = conclude_conversation(run.last, run.killed, run.read, run.output, run.input);
    conclude_command(run.bindings_after, communication, operation)
}

/// A command that gave an output ran to a good end in time, its output was read whole, and what the
/// runner holds was the same before and after.
pub proof fn output_means_a_whole_run(plan: CommandPlan<'_>, run: CommandRun, operation: RepositoryGitOperation)
    requires
        run_error(plan, run, operation) is None,
    ensures
        run.bindings_before is Ok,
        run.bindings_after is Ok,
        run.started is Ok,
        run.read matches Some(read) && read is Ok,
        command_end(run.last, run.killed) matches Ok((success, timed_out)) && success && !timed_out,
{
}

} // verus!
