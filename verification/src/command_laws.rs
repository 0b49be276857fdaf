//! What holds of every command that is run: what it is shut off from, what it is asked, and when its output
//! is used.

use crate::errors::{IoErrorKind, RepositoryGitOperation, RepositoryImportError, RepositoryIoOperation};
use crate::git_runner::{
    batch_texts, bindings_verdict, command_environment_of, command_step_of, fixed_environment, prefix_texts,
    repository_environment_of, run_error, stdin_config_texts, CommandPlan, CommandRun, CommandSighting, CommandStep,
    HooksSighting, InputOutcome, ReadOutputError, RunnerProfile, GIT_TERMINATION_TIMEOUT_MILLISECONDS,
    GIT_TIMEOUT_MILLISECONDS, MAX_CONFIG_BYTES, MAX_GIT_STDERR_BYTES,
};
use crate::repository_commands::{SourceCommand, TargetCommand, MAX_GIT_OUTPUT};
use crate::target_config::HostPlatform;
use vstd::prelude::*;
use vstd::string::*;

verus! {

/// A variable has a value in an environment.
pub open spec fn is_set(environment: Seq<(Seq<char>, Seq<char>)>, name: Seq<char>, value: Seq<char>) -> bool {
    exists|i: int| 0 <= i < environment.len() && #[trigger] environment[i] == (name, value)
}

/// A setting is given on the command line, behind its flag.
pub open spec fn is_given(arguments: Seq<Seq<char>>, setting: Seq<char>) -> bool {
    exists|i: int| 0 < i < arguments.len() && arguments[i - 1] == "-c"@ && #[trigger] arguments[i] == setting
}

/// Every command is shut off from the system's and the user's configuration and attributes, fetches nothing,
/// asks nobody, takes no optional locks, replaces no objects, pages nothing, and speaks plain English.
pub proof fn every_command_is_shut_off(profile: RunnerProfile, root: Seq<char>, plan: CommandPlan<'_>)
    ensures
        ({
            let environment = command_environment_of(profile, root, plan);
            let nothing = if profile.platform == HostPlatform::Windows {
                "NUL"@
            } else {
                "/dev/null"@
            };
            &&& is_set(environment, "GIT_CONFIG_NOSYSTEM"@, "1"@)
            &&& is_set(environment, "GIT_CONFIG_SYSTEM"@, nothing)
            &&& is_set(environment, "GIT_CONFIG_GLOBAL"@, nothing)
            &&& is_set(environment, "GIT_ATTR_NOSYSTEM"@, "1"@)
            &&& is_set(environment, "GIT_NO_LAZY_FETCH"@, "1"@)
            &&& is_set(environment, "GIT_TERMINAL_PROMPT"@, "0"@)
            &&& is_set(environment, "GIT_OPTIONAL_LOCKS"@, "0"@)
            &&& is_set(environment, "GIT_NO_REPLACE_OBJECTS"@, "1"@)
            &&& is_set(environment, "GIT_PROTOCOL_FROM_USER"@, "0"@)
            &&& is_set(environment, "GIT_PAGER"@, "cat"@)
            &&& is_set(environment, "PAGER"@, "cat"@)
            &&& is_set(environment, "LC_ALL"@, "C"@)
            &&& is_set(environment, "LANG"@, "C"@)
        }),
{
    let environment = command_environment_of(profile, root, plan);
    let fixed = fixed_environment(profile.platform);
    assert(fixed.len() == 13);
    assert forall|i: int| 0 <= i < 13 implies environment[i] == #[trigger] fixed[i] by {}
    let nothing = if profile.platform == HostPlatform::Windows {
        "NUL"@
    } else {
        "/dev/null"@
    };
    assert(environment[0] == fixed[0]);
    assert(environment[1] == fixed[1]);
    assert(environment[2] == fixed[2]);
    assert(environment[3] == fixed[3]);
    assert(environment[4] == fixed[4]);
    assert(environment[5] == fixed[5]);
    assert(environment[6] == fixed[6]);
    assert(environment[7] == fixed[7]);
    assert(environment[8] == fixed[8]);
    assert(environment[9] == fixed[9]);
    assert(environment[10] == fixed[10]);
    assert(environment[11] == fixed[11]);
    assert(environment[12] == fixed[12]);
}

/// A command on the repository of a target is told where all three parts of it are; a command that is to find
/// no repository is told that there is none.
pub proof fn commands_find_their_repository(profile: RunnerProfile, root: Seq<char>, plan: CommandPlan<'_>)
    ensures
        profile.target && plan.repository_environment ==> {
            &&& is_set(command_environment_of(profile, root, plan), "GIT_DIR"@, root + "/.git"@)
            &&& is_set(command_environment_of(profile, root, plan), "GIT_WORK_TREE"@, root)
            &&& is_set(command_environment_of(profile, root, plan), "GIT_INDEX_FILE"@, root + "/.git/index"@)
        },
        plan.isolate_repository_discovery ==> is_set(
            command_environment_of(profile, root, plan),
            "GIT_DIR"@,
            if profile.platform == HostPlatform::Windows {
                "NUL"@
            } else {
                "/dev/null"@
            },
        ),
        !plan.isolate_repository_discovery && !(profile.target && plan.repository_environment) && plan.identity is None
            ==> command_environment_of(profile, root, plan) == fixed_environment(profile.platform),
{
    let environment = command_environment_of(profile, root, plan);
    let fixed = fixed_environment(profile.platform);
    let at: int = if plan.isolate_repository_discovery {
        14
    } else {
        13
    };
    assert(fixed.len() == 13);
    if plan.isolate_repository_discovery {
        assert(environment[13].0 == "GIT_DIR"@);
    }
    if profile.target && plan.repository_environment {
        let parts = repository_environment_of(root);
        assert(environment[at] == parts[0]);
        assert(environment[at + 1] == parts[1]);
        assert(environment[at + 2] == parts[2]);
    }
    if !plan.isolate_repository_discovery && !(profile.target && plan.repository_environment) && plan.identity is None {
        assert(environment =~= fixed);
    }
}

/// The one who makes a commit is named to Git: the author and the committer, each by name, address and date.
pub proof fn makers_are_named(profile: RunnerProfile, root: Seq<char>, plan: CommandPlan<'_>)
    requires
        plan.identity is Some,
    ensures
        is_set(command_environment_of(profile, root, plan), "GIT_AUTHOR_NAME"@, plan.identity->Some_0.author_name@),
        is_set(command_environment_of(profile, root, plan), "GIT_AUTHOR_EMAIL"@, plan.identity->Some_0.author_email@),
        is_set(command_environment_of(profile, root, plan), "GIT_AUTHOR_DATE"@, plan.identity->Some_0.author_date@),
        is_set(command_environment_of(profile, root, plan), "GIT_COMMITTER_NAME"@, plan.identity->Some_0.committer_name@),
        is_set(command_environment_of(profile, root, plan), "GIT_COMMITTER_EMAIL"@, plan.identity->Some_0.committer_email@),
        is_set(command_environment_of(profile, root, plan), "GIT_COMMITTER_DATE"@, plan.identity->Some_0.committer_date@),
{
    let environment = command_environment_of(profile, root, plan);
    let n = environment.len() - 6;
    assert(environment[n].0 == "GIT_AUTHOR_NAME"@);
    assert(environment[n + 1].0 == "GIT_AUTHOR_EMAIL"@);
    assert(environment[n + 2].0 == "GIT_AUTHOR_DATE"@);
    assert(environment[n + 3].0 == "GIT_COMMITTER_NAME"@);
    assert(environment[n + 4].0 == "GIT_COMMITTER_EMAIL"@);
    assert(environment[n + 5].0 == "GIT_COMMITTER_DATE"@);
}

/// Every command runs without a file monitor, without any protocol, and without submodules; one on a target
/// also without a split index, with the empty hooks directory that is held, and on Windows with long paths.
pub proof fn every_command_is_restrained(profile: RunnerProfile)
    ensures
        is_given(prefix_texts(profile), "core.fsmonitor=false"@),
        is_given(prefix_texts(profile), "protocol.allow=never"@),
        is_given(prefix_texts(profile), "submodule.recurse=false"@),
        profile.target ==> is_given(prefix_texts(profile), "core.splitIndex=false"@),
        profile.target && profile.hooks_held ==> is_given(prefix_texts(profile), "core.hooksPath=.git/inex-empty-hooks"@),
        profile.target && profile.platform == HostPlatform::Windows ==> is_given(prefix_texts(profile), "core.longPaths=true"@),
        prefix_texts(profile).len() == 2 * (3 + if profile.target {
            1 + (if profile.hooks_held {
                1int
            } else {
                0
            }) + if profile.platform == HostPlatform::Windows {
                1int
            } else {
                0
            }
        } else {
            0
        }),
        batch_texts(profile).len() == prefix_texts(profile).len() + 2,
        batch_texts(profile)[prefix_texts(profile).len() as int] == "cat-file"@,
        batch_texts(profile).last() == "--batch"@,
        forall|i: int| 0 <= i < prefix_texts(profile).len() ==> batch_texts(profile)[i] == #[trigger] prefix_texts(profile)[i],
{
    let arguments = prefix_texts(profile);
    assert(arguments[0] == "-c"@ && arguments[1] == "core.fsmonitor=false"@);
    assert(arguments[2] == "-c"@ && arguments[3] == "protocol.allow=never"@);
    assert(arguments[4] == "-c"@ && arguments[5] == "submodule.recurse=false"@);
    if profile.target {
        assert(arguments[6] == "-c"@ && arguments[7] == "core.splitIndex=false"@);
        let at: int = if profile.hooks_held {
            10
        } else {
            8
        };
        if profile.hooks_held {
            assert(arguments[8] == "-c"@ && arguments[9] == "core.hooksPath=.git/inex-empty-hooks"@);
        }
        if profile.platform == HostPlatform::Windows {
            assert(arguments[at] == "-c"@ && arguments[at + 1] == "core.longPaths=true"@);
        }
    }
}

/// A configuration is read from the input alone: no other file is included, and its records end in zero
/// bytes.
pub proof fn configurations_are_read_from_the_input()
    ensures
        stdin_config_texts()[0] == "config"@,
        exists|i: int|
            0 <= i < stdin_config_texts().len() - 1 && #[trigger] stdin_config_texts()[i] == "--file"@ && stdin_config_texts()[i + 1]
                == "-"@,
        stdin_config_texts().contains("--no-includes"@),
        stdin_config_texts().contains("--null"@),
        stdin_config_texts().contains("--list"@),
        stdin_config_texts().len() == 6,
{
    let arguments = stdin_config_texts();
    assert(arguments[1] == "--file"@ && arguments[2] == "-"@);
    assert(arguments[3] == "--no-includes"@);
    assert(arguments[4] == "--null"@);
    assert(arguments[5] == "--list"@);
}

/// What is asked of a source. Each listing is of records that end in zero bytes; those of the index give full
/// names; a tree is listed in full, with sizes, for the commit that is named; a body is hashed without
/// filters and is not written; a blob is read by its id; and the attributes that are asked for are the three
/// that change content.
pub proof fn what_a_source_is_asked<'a>(commit: &'a str, oid: &'a str, size: usize)
    ensures
        SourceCommand::Head.argument_texts() == seq!["rev-parse"@, "--verify"@, "HEAD^{commit}"@],
        (SourceCommand::Tree { commit }).argument_texts().first() == "ls-tree"@,
        (SourceCommand::Tree { commit }).argument_texts().last() == commit@,
        (SourceCommand::Tree { commit }).argument_texts().drop_last() == seq!["ls-tree"@, "-r"@, "-z"@, "--full-tree"@, "-l"@],
        SourceCommand::Index.argument_texts() == seq!["ls-files"@, "-s"@, "-z"@, "--full-name"@],
        SourceCommand::Tags.argument_texts() == SourceCommand::Index.argument_texts().update(1, "-v"@),
        SourceCommand::MonitorTags.argument_texts() == SourceCommand::Index.argument_texts().update(1, "-f"@),
        SourceCommand::Attributes.argument_texts().take(4) == seq!["check-attr"@, "--cached"@, "-z"@, "--stdin"@],
        SourceCommand::Attributes.argument_texts().skip(4) == seq!["filter"@, "working-tree-encoding"@, "ident"@],
        TargetCommand::WriteBlob.argument_texts() == SourceCommand::HashBody.argument_texts().insert(1, "-w"@),
        SourceCommand::HashBody.argument_texts() == seq!["hash-object"@, "--stdin"@, "--no-filters"@],
        (SourceCommand::ReadBlob { oid, size }).argument_texts() == seq!["cat-file"@, "blob"@, oid@],
        SourceCommand::Version.argument_texts() == seq!["version"@],
{
    assert((SourceCommand::Tree { commit }).argument_texts().drop_last() =~= seq![
        "ls-tree"@,
        "-r"@,
        "-z"@,
        "--full-tree"@,
        "-l"@,
    ]);
    assert(SourceCommand::Tags.argument_texts() =~= SourceCommand::Index.argument_texts().update(1, "-v"@));
    assert(SourceCommand::MonitorTags.argument_texts() =~= SourceCommand::Index.argument_texts().update(1, "-f"@));
    assert(SourceCommand::Attributes.argument_texts().take(4) =~= seq!["check-attr"@, "--cached"@, "-z"@, "--stdin"@]);
    assert(SourceCommand::Attributes.argument_texts().skip(4) =~= seq!["filter"@, "working-tree-encoding"@, "ident"@]);
    assert(TargetCommand::WriteBlob.argument_texts() =~= SourceCommand::HashBody.argument_texts().insert(1, "-w"@));
}

/// A target is made by commands without a choice: the index is filled from records that end in zero bytes,
/// and a commit names the tree that was written and no parent.
pub proof fn what_a_target_is_told<'a>(tree: &'a str)
    ensures
        TargetCommand::FillIndex.argument_texts() == seq!["update-index"@, "-z"@, "--index-info"@],
        TargetCommand::WriteTree.argument_texts() == seq!["write-tree"@],
        (TargetCommand::WriteCommit { tree }).argument_texts() == seq!["commit-tree"@, tree@],
{
}

/// How much and how long: at most 64 MiB of an output, 64 KiB of complaints, 1 MiB of a configuration, a
/// minute for a command, and two seconds for its end.
pub proof fn commands_are_bounded()
    ensures
        MAX_GIT_OUTPUT == 64 * 1024 * 1024,
        MAX_GIT_STDERR_BYTES == 64 * 1024,
        MAX_CONFIG_BYTES == 1024 * 1024,
        GIT_TIMEOUT_MILLISECONDS == 60 * 1000,
        GIT_TERMINATION_TIMEOUT_MILLISECONDS == 2 * 1000,
{
}

/// A command is killed exactly where its output is too large or it runs past its deadline, and only the
/// latter counts as time that is up. It is waited for exactly where nothing is known against it yet.
pub proof fn commands_are_killed_for_size_or_time(seen: CommandSighting)
    ensures
        command_step_of(seen) is Kill <==> seen.output_too_large || (seen.ended == Ok::<_, IoErrorKind>(None::<bool>)
            && seen.deadline_passed),
        command_step_of(seen) == (CommandStep::Kill { timed_out: true }) <==> !seen.output_too_large && seen.ended == Ok::<
            _,
            IoErrorKind,
        >(None::<bool>) && seen.deadline_passed,
        command_step_of(seen) is Wait <==> !seen.output_too_large && seen.ended == Ok::<_, IoErrorKind>(None::<bool>)
            && !seen.deadline_passed,
        !seen.output_too_large ==> (seen.ended matches Ok(Some(success)) ==> command_step_of(seen) == (CommandStep::Ended {
            success,
        })),
        !seen.output_too_large ==> (seen.ended matches Err(kind) ==> command_step_of(seen) == CommandStep::Fail(
            RepositoryImportError::Io { operation: RepositoryIoOperation::CommunicateGit, kind },
        )),
{
}

/// What a runner holds is found unchanged exactly where the source is not found changed and the hooks
/// directory, if one is held, is the same before and after and is empty.
pub proof fn held_things_are_unchanged(source: Option<Result<(), RepositoryImportError>>, hooks: Option<HooksSighting>)
    ensures
        bindings_verdict(source, hooks) is Ok <==> !(source matches Some(Err(_))) && (hooks matches Some(seen) ==> seen.binding_before
            && seen.binding_after && seen.empty == Some(true)),
        (source matches Some(Err(error)) ==> bindings_verdict(source, hooks) == Err::<(), RepositoryImportError>(error)),
        !(source matches Some(Err(_))) && bindings_verdict(source, hooks) is Err ==> bindings_verdict(source, hooks) == Err::<
            (),
            RepositoryImportError,
        >(RepositoryImportError::TargetAuditFailed),
{
}

/// How a run ends that was neither killed nor broken: by the success that Git reported, within its time and
/// its bound.
pub open spec fn ended_well(run: CommandRun) -> bool {
    !run.last.output_too_large && run.last.ended == Ok::<_, IoErrorKind>(Some(true))
}

/// The output of a command is used wherever the repository is not both named and hidden, what the runner
/// holds is the same before and after, Git started and ended by its own success, its output was read to its
/// end, and its input was written.
pub proof fn whole_runs_give_their_output(plan: CommandPlan<'_>, run: CommandRun, operation: RepositoryGitOperation)
    requires
        !(plan.isolate_repository_discovery && plan.repository_environment),
        run.bindings_before is Ok,
        run.bindings_after is Ok,
        run.started is Ok,
        run.output_piped,
        ended_well(run),
        run.read == Some(Ok::<(), ReadOutputError>(())),
        run.input is NoInput || run.input is Written,
    ensures
        run_error(plan, run, operation) is None,
{
}

/// No output is used of a command that failed, whose input did not arrive, whose output was too large, that
/// was not started, or around which something changed.
pub proof fn broken_runs_give_nothing(plan: CommandPlan<'_>, run: CommandRun, operation: RepositoryGitOperation)
    requires
        ({
            ||| plan.isolate_repository_discovery && plan.repository_environment
            ||| run.bindings_before is Err
            ||| run.bindings_after is Err
            ||| run.started is Err
            ||| !run.output_piped
            ||| !(run.read matches Some(Ok(_)))
            ||| run.input is Lost
            ||| run.input is Failed
            ||| run.last.ended == Ok::<_, IoErrorKind>(Some(false)) && !run.last.output_too_large
            ||| run.last.ended is Err && !run.last.output_too_large
            ||| run.last.ended == Ok::<_, IoErrorKind>(None::<bool>) && !run.last.output_too_large
        }),
    ensures
        run_error(plan, run, operation) is Some,
{
}

/// What is said of a run in which one thing went wrong: the change that was found, that Git did not start,
/// that its output was too large, or that it failed or took too long.
pub proof fn one_trouble_of_a_run(plan: CommandPlan<'_>, run: CommandRun, operation: RepositoryGitOperation)
    requires
        !(plan.isolate_repository_discovery && plan.repository_environment),
        run.bindings_before is Ok,
        run.output_piped,
    ensures
        run.bindings_after is Err ==> run_error(plan, run, operation) == Some(run.bindings_after->Err_0),
        run.bindings_after is Ok ==> (run.started matches Err(kind) ==> run_error(plan, run, operation) == Some(
            RepositoryImportError::Io { operation: RepositoryIoOperation::SpawnGit, kind },
        )),
        run.bindings_after is Ok && run.started is Ok && ended_well(run) && run.read == Some(
            Err::<(), ReadOutputError>(ReadOutputError::TooLarge),
        ) ==> run_error(plan, run, operation) == Some(RepositoryImportError::ResourceLimit),
        run.bindings_after is Ok && run.started is Ok && !run.last.output_too_large && run.last.ended == Ok::<_, IoErrorKind>(
            Some(false),
        ) && run.read == Some(Ok::<(), ReadOutputError>(())) && (run.input is NoInput || run.input is Written) ==> run_error(
            plan,
            run,
            operation,
        ) == Some(RepositoryImportError::GitCommandFailed { operation }),
        run.bindings_after is Ok && run.started is Ok && !run.last.output_too_large && run.last.ended == Ok::<_, IoErrorKind>(
            None::<bool>,
        ) && run.last.deadline_passed && run.killed is Ok && run.read is Some ==> run_error(plan, run, operation) == Some(
            RepositoryImportError::GitCommandFailed { operation },
        ),
        run.bindings_after is Ok && run.started is Ok && ended_well(run) && run.read == Some(Ok::<(), ReadOutputError>(()))
            ==> (run.input matches InputOutcome::Failed(kind) ==> run_error(plan, run, operation) == Some(
            RepositoryImportError::Io { operation: RepositoryIoOperation::CommunicateGit, kind },
        )),
{
}

} // verus!
