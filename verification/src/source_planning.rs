//! The plan of a source: one judgement over everything that was seen of it, in the order in which
//! it was seen.

use crate::bytes::bytes_equal;
use crate::digest::sha256_of;
use crate::errors::{io_error, io_failure, map_raw_index_error, IoErrorKind, RepositoryImportError, RepositoryIoOperation};
use crate::git_object::raw_sha256;
use crate::git_output::{nul_pieces, nul_terminated, without_line_end};
use crate::git_runner::MAX_CONFIG_BYTES;
use crate::held_reading::HeldFile;
use crate::identity::FilesystemDirectoryIdentity;
use crate::manifest::NamespaceSeal;
use crate::namespace::{require_same_filesystem, DirectorySeal};
use crate::portable_source::{canonical_map_holds, canonical_portable_source_paths, portable_together, SourcePathFacts};
use crate::sorting::{keys_in_order, reordered_items, sort_keyed};
use crate::source_checks::{
    harmless_config, index_tags_error, require_normal_index_tags, same_text_maps, tree_has_texts, validate_source_config,
    CommandOutput,
};
use crate::source_content::{attributes_error, forbidden_control, reject_forbidden_source_control, reject_source_attributes};
use crate::source_endpoints::{endpoints_error, prove_source_endpoints, EndpointAnswers};
use crate::source_plan::{
    accept_head, accept_index, accept_tree, accept_worktree, entry_bytes, entry_error_after, entry_says, head_error,
    markdown_name, normalized_before, semantic_map_digest, SourceEntries,
};
use crate::source_snapshot::{
    binding_says, capture_refusal, holds_entry, namespaces_same, read_entry_error, same_namespace, same_reading,
    BindingCapture, BoundControlFile, SourceCommandBinding, SourceSnapshot, SourceSnapshotEntry,
};
use crate::source_tree::{
    index_map_holds, raw_entries_listable, raw_map_holds, source_index_error, source_tree_error, tree_map_holds, RawIndex,
    SourceTreeEntry,
};
use crate::text_map::{TextEntry, TextMap};
use vstd::prelude::*;
use vstd::string::*;
use vstd::utf8::encode_utf8;

verus! {

/// What was seen of a source up to its files, in the order in which it was seen.
pub struct SourceSurvey {
    /// The root in canonical form.
    pub root: Result<String, RepositoryImportError>,
    pub root_identity: Result<FilesystemDirectoryIdentity, IoErrorKind>,
    pub git_identity: Option<FilesystemDirectoryIdentity>,
    /// The devices of the root and of the Git directory.
    pub root_device: Option<u64>,
    pub git_device: Option<u64>,
    pub control: Result<Vec<NamespaceSeal>, RepositoryImportError>,
    pub config: Result<HeldFile, RepositoryImportError>,
    /// The control state that commands depend on.
    pub capture: BindingCapture,
    /// The listing of the configuration.
    pub settings: CommandOutput,
    /// The version of Git is one that can be used.
    pub version: Result<(), RepositoryImportError>,
    pub endpoints: EndpointAnswers,
    pub head: CommandOutput,
    pub tree: CommandOutput,
    pub index: CommandOutput,
    /// The tags of the index, and the tags that a file monitor sets.
    pub tags: CommandOutput,
    pub monitor_tags: CommandOutput,
    pub attributes: CommandOutput,
    /// The files and the directories of the worktree.
    pub worktree: Result<(TextMap<()>, Vec<DirectorySeal>), RepositoryImportError>,
}

impl SourceSurvey {
    /// The files of the worktree are kept in order.
    pub open spec fn wf(self) -> bool {
        self.worktree matches Ok(found) ==> found.0.wf()
    }
}

/// Something forbidden stands among the control files.
pub open spec fn control_forbidden(control: Seq<NamespaceSeal>) -> bool {
    exists|i: int| 0 <= i < control.len() && forbidden_control(encode_utf8((#[trigger] control[i]).relative_path@))
}

/// Why a source is refused for its root and its control state, if it is.
pub open spec fn ground_error(survey: SourceSurvey) -> Option<RepositoryImportError> {
    if survey.root is Err {
        Some(survey.root->Err_0)
    } else if survey.root_identity is Err {
        Some(
            io_failure(RepositoryIoOperation::InspectRoot, survey.root_identity->Err_0),
        )
    } else if survey.git_identity is None {
        Some(RepositoryImportError::UnsupportedSourceRepository)
    } else if !(survey.root_device is Some && survey.root_device == survey.git_device) {
        Some(RepositoryImportError::UnsafeSourceControl)
    } else if survey.control is Err {
        Some(survey.control->Err_0)
    } else if control_forbidden(survey.control->Ok_0@) {
        Some(RepositoryImportError::UnsafeSourceControl)
    } else if survey.config is Err {
        Some(survey.config->Err_0)
    } else if capture_refusal(survey.root_identity->Ok_0, survey.git_identity->Some_0, survey.capture) is Some {
        capture_refusal(survey.root_identity->Ok_0, survey.git_identity->Some_0, survey.capture)
    } else if !same_reading(survey.config->Ok_0, survey.capture.config->Ok_0) {
        Some(RepositoryImportError::SourceChanged)
    } else {
        None
    }
}

/// Why the configuration of a source is refused, if it is.
pub open spec fn settings_error(settings: CommandOutput) -> Option<RepositoryImportError> {
    match settings {
        Err(error) => Some(error),
        Ok(bytes) => if !nul_terminated(bytes@) {
            Some(RepositoryImportError::MalformedGitOutput)
        } else if harmless_config(nul_pieces(bytes@)) {
            None
        } else {
            Some(RepositoryImportError::UnsafeSourceControl)
        },
    }
}

/// Why a source is refused before its tree is read, if it is.
pub open spec fn opening_error(survey: SourceSurvey) -> Option<RepositoryImportError> {
    let root = survey.root->Ok_0@;
    let git = root + "/.git"@;
    if ground_error(survey) is Some {
        ground_error(survey)
    } else if settings_error(survey.settings) is Some {
        settings_error(survey.settings)
    } else if survey.version is Err {
        Some(survey.version->Err_0)
    } else if endpoints_error(survey.endpoints, root, git, git + "/index"@, git + "/objects"@) is Some {
        endpoints_error(survey.endpoints, root, git, git + "/index"@, git + "/objects"@)
    } else {
        head_error(survey.head)
    }
}

fn judge_ground(survey: &SourceSurvey) -> (r: Result<(), RepositoryImportError>)
    ensures
        match ground_error(*survey) {
            Some(error) => r matches Err(e) && e == error,
            None => r is Ok,
        },
{
    match &survey.root {
        Ok(_) => {},
        Err(error) => {
            return Err(*error);
        },
    }
    let root_identity = match &survey.root_identity {
        Ok(identity) => identity,
        Err(kind) => {
            return Err(io_error(RepositoryIoOperation::InspectRoot, *kind));
        },
    };
    let git_identity = match &survey.git_identity {
        Some(identity) => identity,
        None => {
            return Err(RepositoryImportError::UnsupportedSourceRepository);
        },
    };
    require_same_filesystem(survey.root_device, survey.git_device, RepositoryImportError::UnsafeSourceControl)?;
    match &survey.control {
        Ok(control) => {
            reject_forbidden_source_control(control.as_slice())?;
        },
        Err(error) => {
            return Err(*error);
        },
    }
    let config = match &survey.config {
        Ok(config) => config,
        Err(error) => {
            return Err(*error);
        },
    };
    SourceCommandBinding::judge_capture(root_identity, git_identity, &survey.capture)?;
    match &survey.capture.config {
        Ok(bound) => BoundControlFile::capture(MAX_CONFIG_BYTES as u64, bound).verify(config),
        Err(error) => Err(*error),
    }
}

/// Judge everything about a source that comes before its tree, and give the id of its commit.
fn judge_opening(survey: &SourceSurvey) -> (r: Result<String, RepositoryImportError>)
    ensures
        match opening_error(*survey) {
            Some(error) => r matches Err(e) && e == error,
            None => r matches Ok(oid) && encode_utf8(oid@) == without_line_end(survey.head->Ok_0@),
        },
{
    judge_ground(survey)?;
    match &survey.settings {
        Ok(settings) => {
            validate_source_config(settings.as_slice())?;
        },
        Err(error) => {
            return Err(*error);
        },
    }
    survey.version?;
    match &survey.root {
        Ok(root) => {
            let mut git = root.as_str().to_owned();
            git.append("/.git");
            let mut index = git.as_str().to_owned();
            index.append("/index");
            let mut objects = git.as_str().to_owned();
            objects.append("/objects");
            prove_source_endpoints(&survey.endpoints, root.as_str(), git.as_str(), index.as_str(), objects.as_str())?;
        },
        Err(error) => {
            return Err(*error);
        },
    }
    accept_head(&survey.head)
}

/// A tree is what the listing of a commit gives; an empty one is refused.
pub open spec fn listed(tree: Result<TextMap<SourceTreeEntry>, RepositoryImportError>, output: CommandOutput) -> bool {
    match output {
        Err(error) => tree matches Err(e) && e == error,
        Ok(bytes) => match source_tree_error(bytes@) {
            Some(error) => tree matches Err(e) && e == error,
            None => if nul_pieces(bytes@).len() == 0 {
                tree matches Err(e) && e == RepositoryImportError::UnsafeSourceEntry
            } else {
                tree matches Ok(map) && map.wf() && tree_map_holds(map@, nul_pieces(bytes@), nul_pieces(bytes@).len() as int)
            },
        },
    }
}

/// A verdict is the one on the index and the raw index of a tree.
pub open spec fn indexed(
    verdict: Result<(), RepositoryImportError>,
    tree: TextMap<SourceTreeEntry>,
    output: CommandOutput,
    raw_index: RawIndex,
) -> bool {
    match output {
        Err(error) => verdict matches Err(e) && e == error,
        Ok(bytes) => match source_index_error(bytes@) {
            Some(error) => verdict matches Err(e) && e == error,
            None => if !raw_entries_listable(raw_index.entries@) {
                verdict matches Err(e) && e == RepositoryImportError::UnsafeSourceEntry
            } else {
                exists|index: Map<Seq<char>, String>, raw: Map<Seq<char>, String>|
                    {
                        &&& #[trigger] index_map_holds(index, nul_pieces(bytes@), nul_pieces(bytes@).len() as int)
                        &&& #[trigger] raw_map_holds(raw, raw_index.entries@, raw_index.entries@.len() as int)
                        &&& verdict == if same_text_maps(raw, index) && tree_has_texts(tree@, index) {
                            Ok::<(), RepositoryImportError>(())
                        } else {
                            Err(RepositoryImportError::SourceChanged)
                        }
                    }
            },
        },
    }
}

/// Why tags are refused, if they are.
pub open spec fn tags_refused(output: CommandOutput, tree: TextMap<SourceTreeEntry>) -> Option<RepositoryImportError> {
    match output {
        Err(error) => Some(error),
        Ok(bytes) => index_tags_error(bytes@, tree@.dom()),
    }
}

/// Why attributes are refused, if they are.
pub open spec fn attributes_refused(output: CommandOutput, tree: TextMap<SourceTreeEntry>) -> Option<RepositoryImportError> {
    match output {
        Err(error) => Some(error),
        Ok(bytes) => attributes_error(bytes@, tree.entries@.len()),
    }
}

/// Why the index, the attributes or the worktree of a source are refused, if they are.
pub open spec fn listing_error(
    survey: SourceSurvey,
    tree: TextMap<SourceTreeEntry>,
    verdict: Result<(), RepositoryImportError>,
) -> Option<RepositoryImportError> {
    if verdict is Err {
        Some(verdict->Err_0)
    } else if tags_refused(survey.tags, tree) is Some {
        tags_refused(survey.tags, tree)
    } else if tags_refused(survey.monitor_tags, tree) is Some {
        tags_refused(survey.monitor_tags, tree)
    } else if attributes_refused(survey.attributes, tree) is Some {
        attributes_refused(survey.attributes, tree)
    } else if survey.worktree is Err {
        Some(survey.worktree->Err_0)
    } else if survey.worktree->Ok_0.0@.dom() != tree@.dom() {
        Some(RepositoryImportError::UnsafeSourceEntry)
    } else {
        None
    }
}

/// The commit of a source and its files.
pub struct SourceListing {
    pub head_oid: String,
    pub tree: TextMap<SourceTreeEntry>,
}

/// A result is what a survey gives.
pub open spec fn surveyed(r: Result<SourceListing, RepositoryImportError>, survey: SourceSurvey) -> bool {
    match opening_error(survey) {
        Some(error) => r matches Err(e) && e == error,
        None => exists|tree: Result<TextMap<SourceTreeEntry>, RepositoryImportError>|
            {
                &&& #[trigger] listed(tree, survey.tree)
                &&& match tree {
                    Err(error) => r matches Err(e) && e == error,
                    Ok(map) => tree_surveyed(r, survey, map),
                }
            },
    }
}

/// A result is what a survey gives on the tree that it listed.
pub open spec fn tree_surveyed(
    r: Result<SourceListing, RepositoryImportError>,
    survey: SourceSurvey,
    tree: TextMap<SourceTreeEntry>,
) -> bool {
    exists|verdict: Result<(), RepositoryImportError>|
        {
            &&& #[trigger] indexed(verdict, tree, survey.index, survey.capture.raw_index->Ok_0)
            &&& match listing_error(survey, tree, verdict) {
                Some(error) => r matches Err(e) && e == error,
                None => r matches Ok(listing) && listing.tree == tree && encode_utf8(listing.head_oid@) == without_line_end(
                    survey.head->Ok_0@,
                ),
            }
        }
}

fn judge_tags(output: &CommandOutput, tree: &TextMap<SourceTreeEntry>) -> (r: Result<(), RepositoryImportError>)
    requires
        tree.wf(),
    ensures
        match tags_refused(*output, *tree) {
            Some(error) => r matches Err(e) && e == error,
            None => r is Ok,
        },
{
    match output {
        Ok(bytes) => require_normal_index_tags(bytes.as_slice(), tree),
        Err(error) => Err(*error),
    }
}

/// Judge the tags, the attributes and the worktree of a source.
fn judge_listing(survey: &SourceSurvey, tree: &TextMap<SourceTreeEntry>) -> (r: Result<(), RepositoryImportError>)
    requires
        survey.wf(),
        tree.wf(),
    ensures
        match listing_error(*survey, *tree, Ok(())) {
            Some(error) => r matches Err(e) && e == error,
            None => r is Ok,
        },
{
    judge_tags(&survey.tags, tree)?;
    judge_tags(&survey.monitor_tags, tree)?;
    match &survey.attributes {
        Ok(bytes) => {
            reject_source_attributes(bytes.as_slice(), tree.len())?;
        },
        Err(error) => {
            return Err(*error);
        },
    }
    match &survey.worktree {
        Ok(found) => accept_worktree(tree, &found.0),
        Err(error) => Err(*error),
    }
}

/// Judge a source up to its files, and give its commit and the files that the commit lists.
pub fn survey_source(survey: &SourceSurvey) -> (r: Result<SourceListing, RepositoryImportError>)
    requires
        survey.wf(),
    ensures
        surveyed(r, *survey),
        r matches Ok(listing) ==> listing.tree.wf(),
{
    let head_oid = judge_opening(survey)?;
    let listing = accept_tree(&survey.tree);
    assert(listed(listing, survey.tree));
    match listing {
        Err(error) => Err(error),
        Ok(tree) => {
            match &survey.capture.raw_index {
                Ok(raw_index) => {
                    let verdict = accept_index(&tree, &survey.index, raw_index);
                    assert(indexed(verdict, tree, survey.index, survey.capture.raw_index->Ok_0));
                    verdict?;
                },
                Err(failure) => {
                    return Err(map_raw_index_error(*failure));
                },
            }
            judge_listing(survey, &tree)?;
            Ok(SourceListing { head_oid, tree })
        },
    }
}

/// What was read of one file, and what Git says of it.
pub struct SourceReading {
    pub held: Result<HeldFile, RepositoryImportError>,
    pub hash: CommandOutput,
    pub raw: CommandOutput,
}

/// The bytes of the first `n` files together, or of the Markdown files among them.
pub open spec fn listed_bytes(tree: Seq<TextEntry<SourceTreeEntry>>, n: int, markdown_only: bool) -> nat
    decreases n,
{
    if n <= 0 {
        0
    } else {
        listed_bytes(tree, n - 1, markdown_only) + if !markdown_only || markdown_name(tree[n - 1].key@) {
            tree[n - 1].value.size as nat
        } else {
            0nat
        }
    }
}

/// Why file `i` is refused, if it is. A file without a canonical form, or that was not read, is
/// refused.
pub open spec fn file_error(
    tree: Seq<TextEntry<SourceTreeEntry>>,
    canonical: Map<Seq<char>, String>,
    readings: Seq<SourceReading>,
    i: int,
) -> Option<RepositoryImportError> {
    if !canonical.dom().contains(tree[i].key@) || i >= readings.len() {
        Some(RepositoryImportError::UnsafeSourceEntry)
    } else if readings[i].held is Err {
        Some(readings[i].held->Err_0)
    } else {
        entry_error_after(
            listed_bytes(tree, i, false),
            listed_bytes(tree, i, true),
            tree[i].key@,
            tree[i].value,
            readings[i].held->Ok_0,
            readings[i].hash,
            readings[i].raw,
        )
    }
}

/// The first refusal among the files from `i` on.
pub open spec fn files_error(
    tree: Seq<TextEntry<SourceTreeEntry>>,
    canonical: Map<Seq<char>, String>,
    readings: Seq<SourceReading>,
    i: int,
) -> Option<RepositoryImportError>
    decreases tree.len() - i,
{
    if i >= tree.len() {
        None
    } else if file_error(tree, canonical, readings, i) is Some {
        file_error(tree, canonical, readings, i)
    } else {
        files_error(tree, canonical, readings, i + 1)
    }
}

/// The first `n` entries say what was listed and read of the first `n` files.
pub open spec fn entries_say(
    entries: Seq<SourceSnapshotEntry>,
    tree: Seq<TextEntry<SourceTreeEntry>>,
    canonical: Map<Seq<char>, String>,
    readings: Seq<SourceReading>,
    n: int,
) -> bool {
    &&& entries.len() == n
    &&& forall|i: int| 0 <= i < n ==> entry_says_at(#[trigger] entries[i], tree, canonical, readings, i)
}

/// An entry says what was listed and read of file `i`.
pub open spec fn entry_says_at(
    entry: SourceSnapshotEntry,
    tree: Seq<TextEntry<SourceTreeEntry>>,
    canonical: Map<Seq<char>, String>,
    readings: Seq<SourceReading>,
    i: int,
) -> bool {
    entry_says(entry, tree[i].key@, canonical[tree[i].key@]@, tree[i].value, readings[i].held->Ok_0)
}

proof fn entry_sums_are_listed(
    entries: Seq<SourceSnapshotEntry>,
    tree: Seq<TextEntry<SourceTreeEntry>>,
    canonical: Map<Seq<char>, String>,
    readings: Seq<SourceReading>,
    n: int,
)
    requires
        0 <= n <= entries.len() <= tree.len(),
        entries_say(entries, tree, canonical, readings, entries.len() as int),
    ensures
        entry_bytes(entries, n, false) == listed_bytes(tree, n, false),
        entry_bytes(entries, n, true) == listed_bytes(tree, n, true),
    decreases n,
{
    if n > 0 {
        entry_sums_are_listed(entries, tree, canonical, readings, n - 1);
        assert(entry_says_at(entries[n - 1], tree, canonical, readings, n - 1));
    }
}

/// Judge the files of a source one after the other, in the order of their paths.
pub fn read_source_files(
    tree: &TextMap<SourceTreeEntry>,
    canonical: &TextMap<String>,
    readings: &Vec<SourceReading>,
) -> (r: Result<SourceEntries, RepositoryImportError>)
    requires
        tree.wf(),
        canonical.wf(),
    ensures
        match files_error(tree.entries@, canonical@, readings@, 0) {
            Some(error) => r matches Err(e) && e == error,
            None => r matches Ok(files) && files.wf() && entries_say(
                files.entries@,
                tree.entries@,
                canonical@,
                readings@,
                tree.entries@.len() as int,
            ),
        },
{
    let mut files = SourceEntries::begin();
    let mut i: usize = 0;
    while i < tree.entries.len()
        invariant
            i <= tree.entries@.len(),
            canonical.wf(),
            files.wf(),
            entries_say(files.entries@, tree.entries@, canonical@, readings@, i as int),
            files_error(tree.entries@, canonical@, readings@, 0) == files_error(
                tree.entries@,
                canonical@,
                readings@,
                i as int,
            ),
        decreases tree.entries@.len() - i,
    {
        let entry = &tree.entries[i];
        let name = match canonical.get(entry.key.as_str()) {
            Some(name) => name,
            None => {
                return Err(RepositoryImportError::UnsafeSourceEntry);
            },
        };
        if i >= readings.len() {
            return Err(RepositoryImportError::UnsafeSourceEntry);
        }
        let reading = &readings[i];
        let held = match &reading.held {
            Ok(held) => held,
            Err(error) => {
                return Err(*error);
            },
        };
        let ghost before = files.entries@;
        proof {
            entry_sums_are_listed(before, tree.entries@, canonical@, readings@, i as int);
        }
        files.accept(entry.key.as_str(), name.as_str(), &entry.value, held, &reading.hash, &reading.raw)?;
        proof {
            assert forall|k: int| 0 <= k < i + 1 implies entry_says_at(
                #[trigger] files.entries@[k],
                tree.entries@,
                canonical@,
                readings@,
                k,
            ) by {
                if k < i {
                    assert(files.entries@[k] == files.entries@.drop_last()[k]);
                    assert(entry_says_at(before[k], tree.entries@, canonical@, readings@, k));
                }
            }
        }
        i = i + 1;
    }
    Ok(files)
}

/// What was seen of a source after its files were read, in the order in which it was seen.
pub struct SourceReview {
    pub control: Result<Vec<NamespaceSeal>, RepositoryImportError>,
    pub root_identity: Option<FilesystemDirectoryIdentity>,
    pub git_identity: Option<FilesystemDirectoryIdentity>,
    pub config: Result<HeldFile, RepositoryImportError>,
}

/// Why a source is not after the reading what it was before, if it is not.
pub open spec fn review_error(survey: SourceSurvey, review: SourceReview) -> Option<RepositoryImportError> {
    if review.control is Err {
        Some(review.control->Err_0)
    } else if !namespaces_same(review.control->Ok_0@, survey.control->Ok_0@) || !(review.root_identity matches Some(root)
        && root.same(survey.root_identity->Ok_0)) || !(review.git_identity matches Some(git) && git.same(
        survey.git_identity->0,
    )) {
        Some(RepositoryImportError::SourceChanged)
    } else if review.config is Err {
        Some(review.config->Err_0)
    } else if !review.config->Ok_0.identity.same(survey.config->Ok_0.identity) || sha256_of(review.config->Ok_0.bytes@)
        != sha256_of(survey.config->Ok_0.bytes@) {
        Some(RepositoryImportError::SourceChanged)
    } else {
        None
    }
}

fn judge_review(survey: &SourceSurvey, review: &SourceReview) -> (r: Result<(), RepositoryImportError>)
    requires
        ground_error(*survey) is None,
    ensures
        match review_error(*survey, *review) {
            Some(error) => r matches Err(e) && e == error,
            None => r is Ok,
        },
{
    let control = match &review.control {
        Ok(control) => control,
        Err(error) => {
            return Err(*error);
        },
    };
    let same_control = match &survey.control {
        Ok(before) => same_namespace(control.as_slice(), before.as_slice()),
        Err(_) => false,
    };
    let same_root = match (&review.root_identity, &survey.root_identity) {
        (Some(root), Ok(before)) => root.matches(before),
        _ => false,
    };
    let same_git = match (&review.git_identity, &survey.git_identity) {
        (Some(git), Some(before)) => git.matches(before),
        _ => false,
    };
    if !same_control || !same_root || !same_git {
        return Err(RepositoryImportError::SourceChanged);
    }
    let config = match &review.config {
        Ok(config) => config,
        Err(error) => {
            return Err(*error);
        },
    };
    match &survey.config {
        Ok(before) => {
            let digest = raw_sha256(config.bytes.as_slice());
            let digest_before = raw_sha256(before.bytes.as_slice());
            if !config.identity.matches(&before.identity) || !bytes_equal(digest.as_slice(), digest_before.as_slice()) {
                return Err(RepositoryImportError::SourceChanged);
            }
            Ok(())
        },
        Err(error) => Err(*error),
    }
}

/// A snapshot says what was seen of a source and of its files.
pub open spec fn snapshot_holds(
    snapshot: SourceSnapshot,
    git_executable: String,
    survey: SourceSurvey,
    listing: SourceListing,
    entries: Seq<SourceSnapshotEntry>,
    review: SourceReview,
) -> bool {
    &&& snapshot.root == survey.root->Ok_0
    &&& snapshot.root_identity == survey.root_identity->Ok_0
    &&& snapshot.git_identity == survey.git_identity->0
    &&& snapshot.git_executable == git_executable
    &&& snapshot.head_oid == listing.head_oid
    &&& snapshot.entries@.to_multiset() == entries.to_multiset()
    &&& keys_in_order(snapshot.entries@)
    &&& snapshot.normalized_path_entries == normalized_before(entries, entries.len() as int)
    &&& snapshot.directories == survey.worktree->Ok_0.1
    &&& snapshot.git_control == review.control->Ok_0
    &&& snapshot.config_sha256@ == sha256_of(survey.config->Ok_0.bytes@)
    &&& snapshot.tree_sha256@ == sha256_of(survey.tree->Ok_0@)
    &&& snapshot.index_sha256@ == sha256_of(survey.index->Ok_0@)
    &&& binding_says(
        snapshot.command_binding,
        survey.root->Ok_0@,
        survey.root_identity->Ok_0,
        survey.git_identity->Some_0,
        survey.capture,
    )
}

/// A snapshot says what was seen of a source, with the names that its files get.
pub open spec fn snapshot_says(
    snapshot: SourceSnapshot,
    git_executable: String,
    survey: SourceSurvey,
    listing: SourceListing,
    canonical: Map<Seq<char>, String>,
    readings: Seq<SourceReading>,
    review: SourceReview,
) -> bool {
    exists|entries: Seq<SourceSnapshotEntry>|
        {
            &&& #[trigger] entries_say(
                entries,
                listing.tree.entries@,
                canonical,
                readings,
                listing.tree.entries@.len() as int,
            )
            &&& snapshot_holds(snapshot, git_executable, survey, listing, entries, review)
        }
}

/// Names are what the path rules give for all files together.
pub open spec fn named(names: Result<TextMap<String>, RepositoryImportError>, facts: Seq<SourcePathFacts>) -> bool {
    match names {
        Ok(map) => portable_together(facts) && map.wf() && canonical_map_holds(map@, facts, facts.len() as int),
        Err(error) => !portable_together(facts) && error == RepositoryImportError::UnsafeSourceEntry,
    }
}

/// A result is what the files of a listing and the review after them give.
pub open spec fn files_planned(
    r: Result<SourceSnapshot, RepositoryImportError>,
    git_executable: String,
    survey: SourceSurvey,
    listing: SourceListing,
    facts: Seq<SourcePathFacts>,
    readings: Seq<SourceReading>,
    review: SourceReview,
) -> bool {
    exists|names: Result<TextMap<String>, RepositoryImportError>|
        {
            &&& #[trigger] named(names, facts)
            &&& match names {
                Err(error) => r matches Err(e) && e == error,
                Ok(map) => match files_error(listing.tree.entries@, map@, readings, 0) {
                    Some(error) => r matches Err(e) && e == error,
                    None => match review_error(survey, review) {
                        Some(error) => r matches Err(e) && e == error,
                        None => r matches Ok(snapshot) && snapshot_says(
                            snapshot,
                            git_executable,
                            survey,
                            listing,
                            map@,
                            readings,
                            review,
                        ),
                    },
                },
            }
        }
}

/// A result is what everything that was seen of a source gives.
pub open spec fn planned(
    r: Result<SourceSnapshot, RepositoryImportError>,
    git_executable: String,
    survey: SourceSurvey,
    facts: Seq<SourcePathFacts>,
    readings: Seq<SourceReading>,
    review: SourceReview,
) -> bool {
    exists|listing: Result<SourceListing, RepositoryImportError>|
        {
            &&& #[trigger] surveyed(listing, survey)
            &&& match listing {
                Err(error) => r matches Err(e) && e == error,
                Ok(found) => files_planned(r, git_executable, survey, found, facts, readings, review),
            }
        }
}

/// Plan a source: judge everything that was seen of it, and make its snapshot. The facts are those
/// of the files that the commit lists, and the readings follow the order of their paths.
pub fn plan_source_repository(
    git_executable: String,
    survey: SourceSurvey,
    facts: &Vec<SourcePathFacts>,
    readings: &Vec<SourceReading>,
    review: SourceReview,
) -> (r: Result<SourceSnapshot, RepositoryImportError>)
    requires
        survey.wf(),
    ensures
        planned(r, git_executable, survey, facts@, readings@, review),
{
    let surveying = survey_source(&survey);
    match surveying {
        Err(error) => Err(error),
        Ok(listing) => plan_listed_files(git_executable, survey, listing, facts, readings, review),
    }
}

/// Judge the files of a listing and the review after them, and make the snapshot.
fn plan_listed_files(
    git_executable: String,
    survey: SourceSurvey,
    listing: SourceListing,
    facts: &Vec<SourcePathFacts>,
    readings: &Vec<SourceReading>,
    review: SourceReview,
) -> (r: Result<SourceSnapshot, RepositoryImportError>)
    requires
        listing.tree.wf(),
        surveyed(Ok(listing), survey),
    ensures
        files_planned(r, git_executable, survey, listing, facts@, readings@, review),
{
    let naming = canonical_portable_source_paths(facts);
    assert(named(naming, facts@));
    let names = match naming {
        Ok(names) => names,
        Err(error) => {
            return Err(error);
        },
    };
    let files = read_source_files(&listing.tree, &names, readings)?;
    let ghost all = files.entries@;
    assert(entries_say(all, listing.tree.entries@, names@, readings@, listing.tree.entries@.len() as int));
    conclude_plan(git_executable, survey, listing, files, review)
}

/// Make the snapshot of a source whose files were accepted, if the source is after the reading what it
/// was before.
pub fn conclude_plan(
    git_executable: String,
    survey: SourceSurvey,
    listing: SourceListing,
    files: SourceEntries,
    review: SourceReview,
) -> (r: Result<SourceSnapshot, RepositoryImportError>)
    requires
        surveyed(Ok(listing), survey),
        files.wf(),
    ensures
        match review_error(survey, review) {
            Some(error) => r matches Err(e) && e == error,
            None => r matches Ok(snapshot) && snapshot_holds(
                snapshot,
                git_executable,
                survey,
                listing,
                files.entries@,
                review,
            ),
        },
{
    judge_review(&survey, &review)?;
    let mut entries = files.entries;
    sort_keyed(&mut entries);
    match (
        survey.root,
        survey.root_identity,
        survey.git_identity,
        survey.config,
        survey.tree,
        survey.index,
        survey.worktree,
        review.control,
    ) {
        (
            Ok(root),
            Ok(root_identity),
            Some(git_identity),
            Ok(config),
            Ok(tree),
            Ok(index),
            Ok((_, directories)),
            Ok(git_control),
        ) => {
            let command_binding = SourceCommandBinding::capture(
                root.clone(),
                root_identity,
                git_identity,
                survey.capture,
            )?;
            let snapshot = SourceSnapshot {
                root,
                root_identity,
                git_identity,
                git_executable,
                head_oid: listing.head_oid,
                entries,
                directories,
                git_control,
                config_sha256: raw_sha256(config.bytes.as_slice()),
                tree_sha256: semantic_map_digest(tree.as_slice()),
                index_sha256: semantic_map_digest(index.as_slice()),
                normalized_path_entries: files.normalized,
                command_binding,
            };
            Ok(snapshot)
        },
        _ => Err(RepositoryImportError::SourceChanged),
    }
}

/// A snapshot is made only of a source that was accepted as a whole and that did not change while it
/// was read.
pub proof fn planned_source_did_not_change(
    snapshot: SourceSnapshot,
    git_executable: String,
    survey: SourceSurvey,
    facts: Seq<SourcePathFacts>,
    readings: Seq<SourceReading>,
    review: SourceReview,
)
    requires
        planned(Ok::<SourceSnapshot, RepositoryImportError>(snapshot), git_executable, survey, facts, readings, review),
    ensures
        opening_error(survey) is None,
        review_error(survey, review) is None,
        portable_together(facts),
        snapshot.root == survey.root->Ok_0,
        binding_says(
            snapshot.command_binding,
            survey.root->Ok_0@,
            survey.root_identity->Ok_0,
            survey.git_identity->Some_0,
            survey.capture,
        ),
        keys_in_order(snapshot.entries@),
{
    let r = Ok::<SourceSnapshot, RepositoryImportError>(snapshot);
    let listing = choose|listing: Result<SourceListing, RepositoryImportError>|
        {
            &&& #[trigger] surveyed(listing, survey)
            &&& match listing {
                Err(error) => r matches Err(e) && e == error,
                Ok(found) => files_planned(r, git_executable, survey, found, facts, readings, review),
            }
        };
    assert(files_planned(r, git_executable, survey, listing->Ok_0, facts, readings, review));
}

proof fn every_file_passes(
    tree: Seq<TextEntry<SourceTreeEntry>>,
    canonical: Map<Seq<char>, String>,
    readings: Seq<SourceReading>,
    from: int,
    i: int,
)
    requires
        files_error(tree, canonical, readings, from) is None,
        0 <= from <= i < tree.len(),
    ensures
        file_error(tree, canonical, readings, i) is None,
    decreases i - from,
{
    if from < i {
        every_file_passes(tree, canonical, readings, from + 1, i);
    }
}

/// Two outputs of a command that did its work are the same.
pub open spec fn same_output(a: CommandOutput, b: CommandOutput) -> bool {
    a is Ok && b is Ok && a->Ok_0@ == b->Ok_0@
}

/// A file reads as it did: the same file with the same body, and Git says the same of it.
pub open spec fn reads_as_before(now: SourceReading, before: SourceReading) -> bool {
    &&& now.held is Ok && before.held is Ok
    &&& now.held->Ok_0.identity.same(before.held->Ok_0.identity)
    &&& now.held->Ok_0.bytes@ == before.held->Ok_0.bytes@
    &&& same_output(now.hash, before.hash)
    &&& same_output(now.raw, before.raw)
}

/// Entry `k` of a snapshot is that of file `i` of a listing, and comes back with the body that was read
/// then wherever the file reads as it did.
pub open spec fn comes_back(
    snapshot: SourceSnapshot,
    k: int,
    listing: SourceListing,
    readings: Seq<SourceReading>,
    i: int,
) -> bool {
    let entry = snapshot.entries@[k];
    &&& 0 <= i < listing.tree.entries@.len()
    &&& i < readings.len()
    &&& entry.source_relative_path@ == listing.tree.entries@[i].key@
    &&& readings[i].held is Ok
    &&& entry.size == readings[i].held->Ok_0.bytes@.len()
    &&& entry.sha256@ == sha256_of(readings[i].held->Ok_0.bytes@)
    &&& forall|now: SourceReading| #[trigger]
        reads_as_before(now, readings[i]) ==> read_entry_error(snapshot, entry, now.held, now.hash, now.raw) is None
}

/// Entry `k` of a snapshot comes back from an unchanged source.
pub open spec fn entry_comes_back(
    snapshot: SourceSnapshot,
    k: int,
    survey: SourceSurvey,
    readings: Seq<SourceReading>,
) -> bool {
    exists|listing: SourceListing, i: int| #[trigger]
        surveyed(Ok::<SourceListing, RepositoryImportError>(listing), survey) && #[trigger] comes_back(
            snapshot,
            k,
            listing,
            readings,
            i,
        )
}

/// What a snapshot was planned from: the listing of the survey, the canonical names, and the entries in the
/// order of the listing.
proof fn planned_parts(
    snapshot: SourceSnapshot,
    git_executable: String,
    survey: SourceSurvey,
    facts: Seq<SourcePathFacts>,
    readings: Seq<SourceReading>,
    review: SourceReview,
) -> (parts: (SourceListing, Map<Seq<char>, String>, Seq<SourceSnapshotEntry>))
    requires
        planned(Ok::<SourceSnapshot, RepositoryImportError>(snapshot), git_executable, survey, facts, readings, review),
    ensures
        surveyed(Ok::<SourceListing, RepositoryImportError>(parts.0), survey),
        files_error(parts.0.tree.entries@, parts.1, readings, 0) is None,
        entries_say(parts.2, parts.0.tree.entries@, parts.1, readings, parts.0.tree.entries@.len() as int),
        snapshot_holds(snapshot, git_executable, survey, parts.0, parts.2, review),
{
    let r = Ok::<SourceSnapshot, RepositoryImportError>(snapshot);
    let surveying = choose|listing: Result<SourceListing, RepositoryImportError>|
        {
            &&& #[trigger] surveyed(listing, survey)
            &&& match listing {
                Err(error) => r matches Err(e) && e == error,
                Ok(found) => files_planned(r, git_executable, survey, found, facts, readings, review),
            }
        };
    let listing = surveying->Ok_0;
    assert(surveyed(Ok::<SourceListing, RepositoryImportError>(listing), survey));
    assert(files_planned(r, git_executable, survey, listing, facts, readings, review));
    let names = choose|names: Result<TextMap<String>, RepositoryImportError>|
        {
            &&& #[trigger] named(names, facts)
            &&& match names {
                Err(error) => r matches Err(e) && e == error,
                Ok(map) => match files_error(listing.tree.entries@, map@, readings, 0) {
                    Some(error) => r matches Err(e) && e == error,
                    None => match review_error(survey, review) {
                        Some(error) => r matches Err(e) && e == error,
                        None => r matches Ok(found) && snapshot_says(
                            found,
                            git_executable,
                            survey,
                            listing,
                            map@,
                            readings,
                            review,
                        ),
                    },
                },
            }
        };
    let canonical = names->Ok_0@;
    let tree = listing.tree.entries@;
    assert(snapshot_says(snapshot, git_executable, survey, listing, canonical, readings, review));
    let entries = choose|entries: Seq<SourceSnapshotEntry>|
        {
            &&& #[trigger] entries_say(entries, tree, canonical, readings, tree.len() as int)
            &&& snapshot_holds(snapshot, git_executable, survey, listing, entries, review)
        };
    (listing, canonical, entries)
}

/// One entry comes back, where its reading gives what it gave.
proof fn read_back(
    snapshot: SourceSnapshot,
    listing: SourceListing,
    canonical: Map<Seq<char>, String>,
    entries: Seq<SourceSnapshotEntry>,
    readings: Seq<SourceReading>,
    k: int,
) -> (i: int)
    requires
        0 <= k < snapshot.entries@.len(),
        forall|entry: SourceSnapshotEntry| #[trigger] snapshot.entries@.contains(entry) == entries.contains(entry),
        files_error(listing.tree.entries@, canonical, readings, 0) is None,
        entries_say(entries, listing.tree.entries@, canonical, readings, listing.tree.entries@.len() as int),
    ensures
        comes_back(snapshot, k, listing, readings, i),
{
    let tree = listing.tree.entries@;
    let entry = snapshot.entries@[k];
    assert(snapshot.entries@.contains(entry));
    assert(entries.contains(entry));
    let i = choose|i: int| 0 <= i < entries.len() && entries[i] == entry;
    assert(entry_says_at(entries[i], tree, canonical, readings, i));
    every_file_passes(tree, canonical, readings, 0, i);
    assert(entry.same(entry));
    assert(holds_entry(snapshot, entry));
    assert forall|now: SourceReading| #[trigger] reads_as_before(now, readings[i]) implies read_entry_error(
        snapshot,
        entry,
        now.held,
        now.hash,
        now.raw,
    ) is None by {}
    i
}

/// An unchanged source gives back every body that was planned: reading an entry of the snapshot succeeds,
/// with the bytes whose length and digest the entry holds. An entry that differs in any field from all of
/// the snapshot is refused, whatever is read.
pub proof fn unchanged_source_gives_back_every_body(
    snapshot: SourceSnapshot,
    git_executable: String,
    survey: SourceSurvey,
    facts: Seq<SourcePathFacts>,
    readings: Seq<SourceReading>,
    review: SourceReview,
)
    requires
        planned(Ok::<SourceSnapshot, RepositoryImportError>(snapshot), git_executable, survey, facts, readings, review),
    ensures
        forall|k: int|
            0 <= k < snapshot.entries@.len() ==> #[trigger] entry_comes_back(snapshot, k, survey, readings),
        forall|foreign: SourceSnapshotEntry, now: SourceReading|
            !holds_entry(snapshot, foreign) ==> #[trigger] read_entry_error(snapshot, foreign, now.held, now.hash, now.raw)
                == Some(RepositoryImportError::SourceChanged),
{
    let (listing, canonical, entries) = planned_parts(snapshot, git_executable, survey, facts, readings, review);
    reordered_items(snapshot.entries@, entries);
    assert forall|k: int| 0 <= k < snapshot.entries@.len() implies #[trigger] entry_comes_back(
        snapshot,
        k,
        survey,
        readings,
    ) by {
        let i = read_back(snapshot, listing, canonical, entries, readings, k);
        assert(comes_back(snapshot, k, listing, readings, i));
    }
}

} // verus!
