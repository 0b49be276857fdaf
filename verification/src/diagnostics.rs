//! How values appear in diagnostics: counts and sizes are shown, and paths, ids, digests and identities
//! are not.

use crate::git_evidence::FreshGitManifest;
use crate::git_object::{append, FreshRootCommitEvidence, StreamingObjectVerifier};
use crate::hex::{decimal_text, decimal_u64};
use crate::initial_authority::{InitialCandidateAuthority, InitialCandidateAuthorityError};
use crate::manifest::MarkerFreePhysicalManifest;
use crate::source_snapshot::{BoundControlFile, SourceCommandBinding, SourceSnapshot, SourceSnapshotEntry};
use crate::target_audit::TargetRepository;
use crate::target_control::TargetRawIndexEvidence;
use vstd::prelude::*;
use vstd::string::*;
use vstd::utf8::encode_utf8;

verus! {

/// A label and the number behind it.
pub open spec fn counted_text(label: Seq<char>, number: nat) -> Seq<u8> {
    encode_utf8(label) + decimal_text(number)
}

/// A label and the truth value behind it.
pub open spec fn flagged_text(label: Seq<char>, flag: bool) -> Seq<u8> {
    encode_utf8(label) + encode_utf8(
        if flag {
            "true"@
        } else {
            "false"@
        },
    )
}

fn push_counted(text: &mut Vec<u8>, label: &str, number: u64)
    ensures
        final(text)@ == old(text)@ + counted_text(label@, number as nat),
{
    let ghost before = text@;
    append(text, label.as_bytes());
    append(text, decimal_u64(number).as_slice());
    assert(text@ =~= before + counted_text(label@, number as nat));
}

fn push_flagged(text: &mut Vec<u8>, label: &str, flag: bool)
    ensures
        final(text)@ == old(text)@ + flagged_text(label@, flag),
{
    let ghost before = text@;
    append(text, label.as_bytes());
    append(
        text,
        if flag {
            "true".as_bytes()
        } else {
            "false".as_bytes()
        },
    );
    assert(text@ =~= before + flagged_text(label@, flag));
}

impl SourceSnapshotEntry {
    /// The entry in diagnostics: its size and its kind.
    pub open spec fn redacted_text(self) -> Seq<u8> {
        counted_text("SourceSnapshotEntry { path: \"[REDACTED]\", size: "@, self.size as nat) + flagged_text(
            ", markdown: "@,
            self.markdown,
        ) + encode_utf8(", .. }"@)
    }

    /// The entry in diagnostics: its size and its kind.
    pub fn redacted(&self) -> (text: Vec<u8>)
        ensures
            text@ == self.redacted_text(),
    {
        let mut text: Vec<u8> = Vec::new();
        push_counted(&mut text, "SourceSnapshotEntry { path: \"[REDACTED]\", size: ", self.size);
        push_flagged(&mut text, ", markdown: ", self.markdown);
        append(&mut text, ", .. }".as_bytes());
        assert(text@ =~= self.redacted_text());
        text
    }
}

impl SourceSnapshot {
    /// The snapshot in diagnostics: how many files, directories and changed names it has.
    pub open spec fn redacted_text(self) -> Seq<u8> {
        counted_text("SourceSnapshot { root: \"[REDACTED]\", entries: "@, self.entries@.len()) + counted_text(
            ", directories: "@,
            self.directories@.len(),
        ) + counted_text(", normalized_path_entries: "@, self.normalized_path_entries as nat) + encode_utf8(", .. }"@)
    }

    /// The snapshot in diagnostics: how many files, directories and changed names it has.
    pub fn redacted(&self) -> (text: Vec<u8>)
        ensures
            text@ == self.redacted_text(),
    {
        let mut text: Vec<u8> = Vec::new();
        push_counted(&mut text, "SourceSnapshot { root: \"[REDACTED]\", entries: ", self.entries.len() as u64);
        push_counted(&mut text, ", directories: ", self.directories.len() as u64);
        push_counted(&mut text, ", normalized_path_entries: ", self.normalized_path_entries as u64);
        append(&mut text, ", .. }".as_bytes());
        assert(text@ =~= self.redacted_text());
        text
    }
}

impl BoundControlFile {
    /// The control file in diagnostics: its size.
    pub open spec fn redacted_text(self) -> Seq<u8> {
        counted_text("BoundControlFile { path: \"[REDACTED]\", size: "@, self.size as nat) + encode_utf8(", .. }"@)
    }

    /// The control file in diagnostics: its size.
    pub fn redacted(&self) -> (text: Vec<u8>)
        ensures
            text@ == self.redacted_text(),
    {
        let mut text: Vec<u8> = Vec::new();
        push_counted(&mut text, "BoundControlFile { path: \"[REDACTED]\", size: ", self.size);
        append(&mut text, ", .. }".as_bytes());
        assert(text@ =~= self.redacted_text());
        text
    }
}

impl SourceCommandBinding {
    /// The binding in diagnostics, where nothing of it appears.
    pub fn redacted(&self) -> (text: &'static str)
        ensures
            text@ == "SourceCommandBinding { root: [REDACTED], .. }"@,
    {
        "SourceCommandBinding { root: [REDACTED], .. }"
    }
}

impl TargetRepository {
    /// The target in diagnostics: how many files and objects it has.
    pub open spec fn redacted_text(self) -> Seq<u8> {
        counted_text(
            "TargetRepository { root: \"[REDACTED]\", root_commit: \"[REDACTED]\", root_tree: \"[REDACTED]\", tracked_entries: "@,
            self.entries@.len(),
        ) + counted_text(", objects: "@, self.object_ids.entries@.len()) + encode_utf8(", .. }"@)
    }

    /// The target in diagnostics: how many files and objects it has.
    pub fn redacted(&self) -> (text: Vec<u8>)
        ensures
            text@ == self.redacted_text(),
    {
        let mut text: Vec<u8> = Vec::new();
        push_counted(
            &mut text,
            "TargetRepository { root: \"[REDACTED]\", root_commit: \"[REDACTED]\", root_tree: \"[REDACTED]\", tracked_entries: ",
            self.entries.len() as u64,
        );
        push_counted(&mut text, ", objects: ", self.object_ids.entries.len() as u64);
        append(&mut text, ", .. }".as_bytes());
        assert(text@ =~= self.redacted_text());
        text
    }
}

impl TargetRawIndexEvidence {
    /// The evidence in diagnostics: the version of the index and how many files it lists.
    pub open spec fn redacted_text(self) -> Seq<u8> {
        counted_text("TargetRawIndexEvidence { version: "@, self.summary.version as nat) + counted_text(
            ", entry_count: "@,
            self.summary.oids@.len(),
        ) + encode_utf8(", control: \"[REDACTED]\", .. }"@)
    }

    /// The evidence in diagnostics: the version of the index and how many files it lists.
    pub fn redacted(&self) -> (text: Vec<u8>)
        ensures
            text@ == self.redacted_text(),
    {
        let mut text: Vec<u8> = Vec::new();
        push_counted(&mut text, "TargetRawIndexEvidence { version: ", self.summary.version as u64);
        push_counted(&mut text, ", entry_count: ", self.summary.oids.len() as u64);
        append(&mut text, ", control: \"[REDACTED]\", .. }".as_bytes());
        assert(text@ =~= self.redacted_text());
        text
    }
}

impl MarkerFreePhysicalManifest {
    /// The manifest in diagnostics: how many records it has.
    pub open spec fn redacted_text(self) -> Seq<u8> {
        counted_text(
            "MarkerFreePhysicalManifest { root_identity: \"[REDACTED]\", local_identity: \"[REDACTED]\", lock_identity: \"[REDACTED]\", records: "@,
            self.records@.len(),
        ) + encode_utf8(" }"@)
    }

    /// The manifest in diagnostics: how many records it has.
    pub fn redacted(&self) -> (text: Vec<u8>)
        ensures
            text@ == self.redacted_text(),
    {
        let mut text: Vec<u8> = Vec::new();
        push_counted(
            &mut text,
            "MarkerFreePhysicalManifest { root_identity: \"[REDACTED]\", local_identity: \"[REDACTED]\", lock_identity: \"[REDACTED]\", records: ",
            self.records.len() as u64,
        );
        append(&mut text, " }".as_bytes());
        assert(text@ =~= self.redacted_text());
        text
    }
}

impl FreshRootCommitEvidence {
    /// The commit in diagnostics: its size.
    pub open spec fn redacted_text(self) -> Seq<u8> {
        counted_text(
            "FreshRootCommitEvidence { commit_oid: \"[REDACTED]\", tree_oid: \"[REDACTED]\", raw_size: "@,
            self.raw_size as nat,
        ) + encode_utf8(", raw_sha256: \"[REDACTED]\" }"@)
    }

    /// The commit in diagnostics: its size.
    pub fn redacted(&self) -> (text: Vec<u8>)
        ensures
            text@ == self.redacted_text(),
    {
        let mut text: Vec<u8> = Vec::new();
        push_counted(
            &mut text,
            "FreshRootCommitEvidence { commit_oid: \"[REDACTED]\", tree_oid: \"[REDACTED]\", raw_size: ",
            self.raw_size,
        );
        append(&mut text, ", raw_sha256: \"[REDACTED]\" }".as_bytes());
        assert(text@ =~= self.redacted_text());
        text
    }
}

impl<'physical> FreshGitManifest<'physical> {
    /// The evidence in diagnostics: how many objects and control records it has.
    pub open spec fn redacted_text(self) -> Seq<u8> {
        counted_text(
            "FreshGitManifest { physical: \"[BOUND MANIFEST]\", root_commit: \"[REDACTED]\", objects: "@,
            self.objects@.len(),
        ) + counted_text(", git_control: "@, self.git_control@.len()) + encode_utf8(" }"@)
    }

    /// The evidence in diagnostics: how many objects and control records it has.
    pub fn redacted(&self) -> (text: Vec<u8>)
        ensures
            text@ == self.redacted_text(),
    {
        let mut text: Vec<u8> = Vec::new();
        push_counted(
            &mut text,
            "FreshGitManifest { physical: \"[BOUND MANIFEST]\", root_commit: \"[REDACTED]\", objects: ",
            self.objects.len() as u64,
        );
        push_counted(&mut text, ", git_control: ", self.git_control.len() as u64);
        append(&mut text, " }".as_bytes());
        assert(text@ =~= self.redacted_text());
        text
    }
}

impl StreamingObjectVerifier {
    /// The verifier in diagnostics: how much is still to come, and whether it failed.
    pub open spec fn redacted_text(self) -> Seq<u8> {
        counted_text("StreamingObjectVerifier { expected: \"[REDACTED]\", remaining: "@, self.remaining as nat)
            + flagged_text(", failed: "@, self.failed) + encode_utf8(", .. }"@)
    }

    /// The verifier in diagnostics: how much is still to come, and whether it failed.
    pub fn redacted(&self) -> (text: Vec<u8>)
        ensures
            text@ == self.redacted_text(),
    {
        let mut text: Vec<u8> = Vec::new();
        push_counted(&mut text, "StreamingObjectVerifier { expected: \"[REDACTED]\", remaining: ", self.remaining);
        push_flagged(&mut text, ", failed: ", self.failed);
        append(&mut text, ", .. }".as_bytes());
        assert(text@ =~= self.redacted_text());
        text
    }
}

/// The authority in diagnostics, where nothing of it appears.
pub const INITIAL_AUTHORITY_TEXT: &'static str = "InitialCandidateAuthority { root: \"[REDACTED]\", physical: \"[REDACTED]\", held_root: \"[REDACTED]\", context: \"[REDACTED]\", root_commit: \"[REDACTED]\", content_seal: \"[REDACTED]\", mutation_lock: \"[HELD]\", .. }";

impl<'physical, H, L> InitialCandidateAuthority<'physical, H, L> {
    /// The authority in diagnostics, where nothing of it appears.
    pub fn redacted(&self) -> (text: &'static str)
        ensures
            text@ == INITIAL_AUTHORITY_TEXT@,
    {
        INITIAL_AUTHORITY_TEXT
    }
}

impl<K> InitialCandidateAuthorityError<K> {
    /// The scrubbed diagnostic of a failure: of a lock its cause is kept apart, and any other failure
    /// speaks for itself.
    pub open spec fn message_text(self) -> Seq<char> {
        match self {
            InitialCandidateAuthorityError::Lock(_) => "initial repository candidate mutation lock failed"@,
            InitialCandidateAuthorityError::Candidate(error) => error.message_text(),
            InitialCandidateAuthorityError::Repository(error) => error.message_text(),
        }
    }

    /// The scrubbed diagnostic of a failure.
    pub fn message(&self) -> (text: String)
        ensures
            text@ == self.message_text(),
    {
        match self {
            InitialCandidateAuthorityError::Lock(_) => "initial repository candidate mutation lock failed".to_owned(),
            InitialCandidateAuthorityError::Candidate(error) => error.message().to_owned(),
            InitialCandidateAuthorityError::Repository(error) => error.message(),
        }
    }
}

/// Diagnostics of a snapshot show three counts and nothing else: two snapshots with the same counts
/// cannot be told apart by them, whatever their paths, ids and digests are.
pub proof fn snapshot_diagnostics_show_counts_only(a: SourceSnapshot, b: SourceSnapshot)
    requires
        a.entries@.len() == b.entries@.len(),
        a.directories@.len() == b.directories@.len(),
        a.normalized_path_entries == b.normalized_path_entries,
    ensures
        a.redacted_text() == b.redacted_text(),
{
}

/// Diagnostics of a target show two counts and nothing else.
pub proof fn target_diagnostics_show_counts_only(a: TargetRepository, b: TargetRepository)
    requires
        a.entries@.len() == b.entries@.len(),
        a.object_ids.entries@.len() == b.object_ids.entries@.len(),
    ensures
        a.redacted_text() == b.redacted_text(),
{
}

/// Diagnostics of a manifest show how many records it has and nothing else.
pub proof fn manifest_diagnostics_show_counts_only(a: MarkerFreePhysicalManifest, b: MarkerFreePhysicalManifest)
    requires
        a.records@.len() == b.records@.len(),
    ensures
        a.redacted_text() == b.redacted_text(),
{
}

} // verus!
