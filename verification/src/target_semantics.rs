//! What Git says about a target: its format, its one branch, its configuration.

use crate::bytes::{bytes_equal, find_byte, next_index, slices_view};
use crate::errors::RepositoryImportError;
use crate::git_control::HEAD_BODY;
use crate::git_object::NEWLINE;
use crate::git_output::{is_one_line, nul_pieces, nul_records, nul_terminated, one_line, without_line_end};
use crate::source_checks::{lowered, to_lowercase, CommandOutput};
use crate::source_endpoints::texts;
use crate::target_config::{HostPlatform, TargetConfigProfile};
use crate::text::utf8_text;
use vstd::prelude::*;
use vstd::slice::slice_subrange;
use vstd::string::*;
use vstd::utf8::{encode_utf8, valid_utf8};

verus! {

/// What stands before the first newline of a setting, in lower case.
pub open spec fn setting_key(record: Seq<u8>) -> Seq<u8> {
    lowered(record.subrange(0, next_index(record, NEWLINE, 0)))
}

/// What stands behind the first newline of a setting.
pub open spec fn setting_value(record: Seq<u8>) -> Seq<u8> {
    record.subrange(next_index(record, NEWLINE, 0) + 1, record.len() as int)
}

/// A key that the configuration of a target may have.
pub open spec fn target_key(key: Seq<u8>, platform: HostPlatform) -> bool {
    ||| key == encode_utf8("core.repositoryformatversion"@)
    ||| key == encode_utf8("core.filemode"@)
    ||| key == encode_utf8("core.bare"@)
    ||| key == encode_utf8("core.logallrefupdates"@)
    ||| key == encode_utf8("merge.inex.name"@)
    ||| key == encode_utf8("merge.inex.driver"@)
    ||| platform == HostPlatform::Windows && (key == encode_utf8("core.longpaths"@) || key == encode_utf8("core.symlinks"@)
        || key == encode_utf8("core.ignorecase"@))
}

/// A setting in text, under a key that the configuration of a target may have.
pub open spec fn target_setting(record: Seq<u8>, platform: HostPlatform) -> bool {
    let newline = next_index(record, NEWLINE, 0);
    newline < record.len() && valid_utf8(record.subrange(0, newline)) && valid_utf8(setting_value(record)) && target_key(
        setting_key(record),
        platform,
    )
}

fn is_target_key(key: &[u8], platform: HostPlatform) -> (r: bool)
    ensures
        r == target_key(key@, platform),
{
    bytes_equal(key, "core.repositoryformatversion".as_bytes()) || bytes_equal(key, "core.filemode".as_bytes()) || bytes_equal(
        key,
        "core.bare".as_bytes(),
    ) || bytes_equal(key, "core.logallrefupdates".as_bytes()) || bytes_equal(key, "merge.inex.name".as_bytes()) || bytes_equal(
        key,
        "merge.inex.driver".as_bytes(),
    ) || (platform == HostPlatform::Windows && (bytes_equal(key, "core.longpaths".as_bytes()) || bytes_equal(
        key,
        "core.symlinks".as_bytes(),
    ) || bytes_equal(key, "core.ignorecase".as_bytes())))
}

/// Whether a record is a setting that the configuration of a target may have.
fn is_target_setting(record: &[u8], platform: HostPlatform) -> (r: bool)
    ensures
        r == target_setting(record@, platform),
{
    let newline = find_byte(record, NEWLINE, 0);
    if newline == record.len() {
        return false;
    }
    let key = slice_subrange(record, 0, newline);
    let value = slice_subrange(record, newline + 1, record.len());
    assert(value@ == setting_value(record@));
    if utf8_text(key).is_none() || utf8_text(value).is_none() {
        return false;
    }
    let lower = to_lowercase(key);
    is_target_key(lower.as_slice(), platform)
}

/// The setting at `i` has this key.
pub open spec fn keyed_at(records: Seq<Seq<u8>>, key: Seq<char>, i: int) -> bool {
    0 <= i < records.len() && setting_key(records[i]) == encode_utf8(key)
}

/// The setting at `i` is the only one of its key.
pub open spec fn alone_at(records: Seq<Seq<u8>>, key: Seq<char>, i: int) -> bool {
    keyed_at(records, key, i) && forall|k: int| #[trigger] keyed_at(records, key, k) ==> k == i
}

/// A key is set once, to this value.
pub open spec fn set_once_to(records: Seq<Seq<u8>>, key: Seq<char>, value: Seq<char>) -> bool {
    exists|i: int| #[trigger] alone_at(records, key, i) && setting_value(records[i]) == encode_utf8(value)
}

/// How often a key is set, as far as that matters.
enum Occurrence {
    Never,
    Once(usize),
    Often,
}

fn occurrence(records: &Vec<&[u8]>, key: &str) -> (found: Occurrence)
    requires
        forall|k: int| 0 <= k < records@.len() ==> next_index(#[trigger] records@[k]@, NEWLINE, 0) < records@[k]@.len(),
    ensures
        match found {
            Occurrence::Never => forall|k: int| !#[trigger] keyed_at(slices_view(records@), key@, k),
            Occurrence::Once(i) => i < records@.len() && alone_at(slices_view(records@), key@, i as int),
            Occurrence::Often => (exists|k: int| #[trigger] keyed_at(slices_view(records@), key@, k)) && forall|k: int|
                !#[trigger] alone_at(slices_view(records@), key@, k),
        },
{
    let ghost all = slices_view(records@);
    let mut found: Option<usize> = None;
    let mut i: usize = 0;
    while i < records.len()
        invariant
            all == slices_view(records@),
            i <= records@.len(),
            forall|k: int| 0 <= k < records@.len() ==> next_index(#[trigger] records@[k]@, NEWLINE, 0) < records@[k]@.len(),
            found is None ==> forall|k: int| k < i ==> !#[trigger] keyed_at(all, key@, k),
            found matches Some(at) ==> at < i && keyed_at(all, key@, at as int) && forall|k: int|
                k < i && #[trigger] keyed_at(all, key@, k) ==> k == at,
        decreases records@.len() - i,
    {
        let record = records[i];
        assert(all[i as int] == record@);
        let newline = find_byte(record, NEWLINE, 0);
        let lower = to_lowercase(slice_subrange(record, 0, newline));
        if bytes_equal(lower.as_slice(), key.as_bytes()) {
            assert(keyed_at(all, key@, i as int));
            if let Some(at) = found {
                proof {
                    assert forall|k: int| !#[trigger] alone_at(all, key@, k) by {
                        if alone_at(all, key@, k) {
                            assert(keyed_at(all, key@, at as int) && keyed_at(all, key@, i as int));
                        }
                    }
                }
                return Occurrence::Often;
            }
            found = Some(i);
        } else {
            assert(!keyed_at(all, key@, i as int));
        }
        i = i + 1;
    }
    match found {
        None => {
            assert forall|k: int| !#[trigger] keyed_at(all, key@, k) by {}
            Occurrence::Never
        },
        Some(at) => {
            assert forall|k: int| #[trigger] keyed_at(all, key@, k) implies k == at by {}
            assert(alone_at(all, key@, at as int));
            Occurrence::Once(at)
        },
    }
}

fn value_at_is(records: &Vec<&[u8]>, i: usize, value: &str) -> (r: bool)
    requires
        i < records@.len(),
        next_index(records@[i as int]@, NEWLINE, 0) < records@[i as int]@.len(),
    ensures
        r == (setting_value(slices_view(records@)[i as int]) == encode_utf8(value@)),
{
    let record = records[i];
    let newline = find_byte(record, NEWLINE, 0);
    bytes_equal(slice_subrange(record, newline + 1, record.len()), value.as_bytes())
}

/// Require a key to be set once, to a given value. Every record is a setting.
pub fn require_single_config(values: &Vec<&[u8]>, key: &str, expected: &str) -> (r: Result<(), RepositoryImportError>)
    requires
        forall|k: int| 0 <= k < values@.len() ==> next_index(#[trigger] values@[k]@, NEWLINE, 0) < values@[k]@.len(),
    ensures
        r == if set_once_to(slices_view(values@), key@, expected@) {
            Ok::<(), RepositoryImportError>(())
        } else {
            Err(RepositoryImportError::TargetAuditFailed)
        },
{
    let ghost all = slices_view(values@);
    match occurrence(values, key) {
        Occurrence::Once(i) => {
            proof {
                assert forall|k: int| #[trigger] alone_at(all, key@, k) implies k == i by {
                    assert(keyed_at(all, key@, i as int));
                }
            }
            if value_at_is(values, i, expected) {
                assert(alone_at(all, key@, i as int));
                Ok(())
            } else {
                Err(RepositoryImportError::TargetAuditFailed)
            }
        },
        Occurrence::Never => {
            assert forall|k: int| !#[trigger] alone_at(all, key@, k) by {}
            Err(RepositoryImportError::TargetAuditFailed)
        },
        Occurrence::Often => Err(RepositoryImportError::TargetAuditFailed),
    }
}

/// A key is not set, or set once, to a boolean.
pub open spec fn unset_or_boolean(records: Seq<Seq<u8>>, key: Seq<char>) -> bool {
    (forall|k: int| !#[trigger] keyed_at(records, key, k)) || set_once_to(records, key, "true"@) || set_once_to(
        records,
        key,
        "false"@,
    )
}

fn require_optional_boolean(values: &Vec<&[u8]>, key: &str) -> (r: Result<(), RepositoryImportError>)
    requires
        forall|k: int| 0 <= k < values@.len() ==> next_index(#[trigger] values@[k]@, NEWLINE, 0) < values@[k]@.len(),
    ensures
        r == if unset_or_boolean(slices_view(values@), key@) {
            Ok::<(), RepositoryImportError>(())
        } else {
            Err(RepositoryImportError::TargetAuditFailed)
        },
{
    let ghost all = slices_view(values@);
    match occurrence(values, key) {
        Occurrence::Never => {
            return Ok(());
        },
        Occurrence::Once(i) => {
            assert(keyed_at(all, key@, i as int));
        },
        Occurrence::Often => {},
    }
    if require_single_config(values, key, "true").is_ok() {
        return Ok(());
    }
    require_single_config(values, key, "false")
}

/// What a target configuration must be.
pub open spec fn config_as_expected(records: Seq<Seq<u8>>, profile: TargetConfigProfile<'_>) -> bool {
    let windows = profile.platform == HostPlatform::Windows;
    &&& forall|i: int| 0 <= i < records.len() ==> target_setting(#[trigger] records[i], profile.platform)
    &&& set_once_to(records, "core.repositoryformatversion"@, "0"@)
    &&& set_once_to(
        records,
        "core.filemode"@,
        if windows {
            "false"@
        } else {
            "true"@
        },
    )
    &&& set_once_to(records, "core.bare"@, "false"@)
    &&& set_once_to(records, "core.logallrefupdates"@, "true"@)
    &&& set_once_to(records, "merge.inex.name"@, profile.driver_name@)
    &&& profile.driver_command matches Some(command) && set_once_to(records, "merge.inex.driver"@, command@)
    &&& windows ==> set_once_to(records, "core.longpaths"@, "true"@)
    &&& windows ==> unset_or_boolean(records, "core.symlinks"@)
    &&& windows ==> unset_or_boolean(records, "core.ignorecase"@)
}

/// Require the configuration of a target to be what it must.
pub fn validate_target_config(output: &[u8], profile: &TargetConfigProfile<'_>) -> (r: Result<(), RepositoryImportError>)
    ensures
        r == if !nul_terminated(output@) {
            Err::<(), RepositoryImportError>(RepositoryImportError::MalformedGitOutput)
        } else if config_as_expected(nul_pieces(output@), *profile) {
            Ok(())
        } else {
            Err(RepositoryImportError::TargetAuditFailed)
        },
{
    let records = nul_records(output)?;
    let ghost all = nul_pieces(output@);
    let mut i: usize = 0;
    while i < records.len()
        invariant
            all == nul_pieces(output@),
            slices_view(records@) == all,
            i <= records@.len(),
            nul_terminated(output@),
            forall|k: int| 0 <= k < i ==> target_setting(#[trigger] all[k], profile.platform),
        decreases records@.len() - i,
    {
        assert(all[i as int] == records@[i as int]@);
        if !is_target_setting(records[i], profile.platform) {
            assert(!target_setting(all[i as int], profile.platform));
            return Err(RepositoryImportError::TargetAuditFailed);
        }
        i = i + 1;
    }
    assert forall|k: int| 0 <= k < records@.len() implies next_index(#[trigger] records@[k]@, NEWLINE, 0)
        < records@[k]@.len() by {
        assert(all[k] == records@[k]@);
        assert(target_setting(all[k], profile.platform));
    }
    let windows = profile.platform == HostPlatform::Windows;
    require_single_config(&records, "core.repositoryformatversion", "0")?;
    if windows {
        require_single_config(&records, "core.filemode", "false")?;
    } else {
        require_single_config(&records, "core.filemode", "true")?;
    }
    require_single_config(&records, "core.bare", "false")?;
    require_single_config(&records, "core.logallrefupdates", "true")?;
    require_single_config(&records, "merge.inex.name", profile.driver_name)?;
    match profile.driver_command {
        Some(command) => require_single_config(&records, "merge.inex.driver", command)?,
        None => {
            return Err(RepositoryImportError::TargetAuditFailed);
        },
    }
    if windows {
        require_single_config(&records, "core.longpaths", "true")?;
        require_optional_boolean(&records, "core.symlinks")?;
        require_optional_boolean(&records, "core.ignorecase")?;
    }
    Ok(())
}

/// One question about a target.
#[derive(Clone, Copy, Debug, PartialEq, Eq, Structural)]
pub enum SemanticsQuery {
    ObjectFormat,
    Head,
    Refs,
    Config,
}

impl SemanticsQuery {
    /// The arguments of the Git command that answers the question.
    pub open spec fn argument_texts(self) -> Seq<Seq<char>> {
        match self {
            SemanticsQuery::ObjectFormat => seq!["rev-parse"@, "--show-object-format"@],
            SemanticsQuery::Head => seq!["rev-parse"@, "--verify"@, "HEAD^{commit}"@],
            SemanticsQuery::Refs => seq!["for-each-ref"@, "--format=%(refname)"@],
            SemanticsQuery::Config => seq!["config"@, "--local"@, "--null"@, "--list"@],
        }
    }

    /// The arguments of the Git command that answers the question.
    pub fn arguments(self) -> (arguments: Vec<&'static str>)
        ensures
            texts(arguments@) == self.argument_texts(),
    {
        let arguments: Vec<&'static str> = match self {
            SemanticsQuery::ObjectFormat => vec!["rev-parse", "--show-object-format"],
            SemanticsQuery::Head => vec!["rev-parse", "--verify", "HEAD^{commit}"],
            SemanticsQuery::Refs => vec!["for-each-ref", "--format=%(refname)"],
            SemanticsQuery::Config => vec!["config", "--local", "--null", "--list"],
        };
        assert(texts(arguments@) =~= self.argument_texts());
        arguments
    }

    /// Longest answer that is read, in bytes.
    pub fn maximum_output(self) -> (maximum: usize)
        ensures
            maximum == match self {
                SemanticsQuery::ObjectFormat => 32usize,
                SemanticsQuery::Head => 128,
                SemanticsQuery::Refs => 4096,
                SemanticsQuery::Config => 1_048_576,
            },
    {
        match self {
            SemanticsQuery::ObjectFormat => 32,
            SemanticsQuery::Head => 128,
            SemanticsQuery::Refs => 4096,
            SemanticsQuery::Config => 1_048_576,
        }
    }
}

/// Why a one-line answer is refused, if it is.
pub open spec fn line_answer_error(output: CommandOutput, expected: Seq<char>) -> Option<RepositoryImportError> {
    match output {
        Err(error) => Some(error),
        Ok(bytes) => if !is_one_line(bytes@) {
            Some(RepositoryImportError::MalformedGitOutput)
        } else if without_line_end(bytes@) != encode_utf8(expected) {
            Some(RepositoryImportError::TargetAuditFailed)
        } else {
            None
        },
    }
}

/// Require an answer to be one given line.
pub fn require_line_answer(output: &CommandOutput, expected: &str) -> (r: Result<(), RepositoryImportError>)
    ensures
        match line_answer_error(*output, expected@) {
            Some(error) => r matches Err(e) && e == error,
            None => r is Ok,
        },
{
    match output {
        Err(error) => Err(*error),
        Ok(bytes) => {
            let line = one_line(bytes.as_slice())?;
            if bytes_equal(line.as_bytes(), expected.as_bytes()) {
                Ok(())
            } else {
                Err(RepositoryImportError::TargetAuditFailed)
            }
        },
    }
}

/// Why bytes are refused, if they are.
pub open spec fn exact_answer_error(output: CommandOutput, expected: Seq<char>) -> Option<RepositoryImportError> {
    match output {
        Err(error) => Some(error),
        Ok(bytes) => if bytes@ != encode_utf8(expected) {
            Some(RepositoryImportError::TargetAuditFailed)
        } else {
            None
        },
    }
}

/// Require exact bytes.
pub fn require_exact_answer(output: &CommandOutput, expected: &str) -> (r: Result<(), RepositoryImportError>)
    ensures
        match exact_answer_error(*output, expected@) {
            Some(error) => r matches Err(e) && e == error,
            None => r is Ok,
        },
{
    match output {
        Err(error) => Err(*error),
        Ok(bytes) => {
            if bytes_equal(bytes.as_slice(), expected.as_bytes()) {
                Ok(())
            } else {
                Err(RepositoryImportError::TargetAuditFailed)
            }
        },
    }
}

/// The only reference of a target, as Git lists it.
pub const MAIN_REF_LINE: &'static str = "refs/heads/main\n";

/// What Git and the control directory of a target answered.
pub struct SemanticsAnswers {
    pub object_format: CommandOutput,
    pub head: CommandOutput,
    /// The bytes of the file that names the branch.
    pub head_file: CommandOutput,
    pub refs: CommandOutput,
    /// Something is where a reference log would be.
    pub logs_present: bool,
    pub config: CommandOutput,
}

/// Why the answers are refused, if they are: the first that is not as it must be decides.
pub open spec fn answers_error(
    answers: SemanticsAnswers,
    root_commit_oid: Seq<char>,
    profile: TargetConfigProfile<'_>,
) -> Option<RepositoryImportError> {
    if line_answer_error(answers.object_format, "sha1"@) is Some {
        line_answer_error(answers.object_format, "sha1"@)
    } else if line_answer_error(answers.head, root_commit_oid) is Some {
        line_answer_error(answers.head, root_commit_oid)
    } else if exact_answer_error(answers.head_file, HEAD_BODY@) is Some {
        exact_answer_error(answers.head_file, HEAD_BODY@)
    } else if exact_answer_error(answers.refs, MAIN_REF_LINE@) is Some {
        exact_answer_error(answers.refs, MAIN_REF_LINE@)
    } else if answers.logs_present {
        Some(RepositoryImportError::TargetAuditFailed)
    } else {
        match answers.config {
            Err(error) => Some(error),
            Ok(bytes) => if !nul_terminated(bytes@) {
                Some(RepositoryImportError::MalformedGitOutput)
            } else if !config_as_expected(nul_pieces(bytes@), profile) {
                Some(RepositoryImportError::TargetAuditFailed)
            } else {
                None
            },
        }
    }
}

/// Require what Git says about a target: SHA-1 objects, the one commit at the one branch, no logs,
/// and the exact configuration.
pub fn judge_answers(answers: &SemanticsAnswers, root_commit_oid: &str, profile: &TargetConfigProfile<'_>) -> (r: Result<
    (),
    RepositoryImportError,
>)
    ensures
        match answers_error(*answers, root_commit_oid@, *profile) {
            Some(error) => r matches Err(e) && e == error,
            None => r is Ok,
        },
{
    require_line_answer(&answers.object_format, "sha1")?;
    require_line_answer(&answers.head, root_commit_oid)?;
    require_exact_answer(&answers.head_file, HEAD_BODY)?;
    require_exact_answer(&answers.refs, MAIN_REF_LINE)?;
    if answers.logs_present {
        return Err(RepositoryImportError::TargetAuditFailed);
    }
    match &answers.config {
        Err(error) => Err(*error),
        Ok(bytes) => validate_target_config(bytes.as_slice(), profile),
    }
}

} // verus!
