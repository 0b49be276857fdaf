//! When a source is planned, what the plan says, and when it still holds.

use crate::digest::sha256_of;
use crate::errors::{source_index_failure, RawIndexError, RepositoryImportError};
use crate::git_output::{is_one_line, nul_pieces, nul_terminated, without_line_end};
use crate::held_reading::HeldFile;
use crate::hex::{digits_value, hex_text};
use crate::identity::FilesystemDirectoryIdentity;
use crate::portable_source::{
    admissible, canonical_map_holds, compatible, directory_exists, directory_of, portable_together, SourcePathFacts,
};
use crate::source_checks::{
    harmless_config, index_tags_error, same_text_maps, tagged_before, tags_error, tree_has_texts, CommandOutput,
};
use crate::source_content::{attribute_input, blob_error, forbidden_control, hash_error};
use crate::source_endpoints::{
    endpoints_error, line_error, path_answer_error, same_location, EndpointAnswers, EndpointQuery,
};
use crate::source_laws::ended;
use crate::source_plan::{
    entry_bytes, entry_error_after, entry_says, head_error, normalized_before, MAX_IMPORT_PLAINTEXT_BYTES,
    MAX_MARKDOWN_PLAINTEXT_BYTES,
};
use crate::source_planning::{
    files_error, ground_error, indexed, listed, listed_bytes, listing_error, opening_error, planned, review_error,
    snapshot_holds, surveyed, tree_surveyed, SourceListing, SourceReading, SourceReview, SourceSurvey,
};
use crate::source_snapshot::{
    binding_drift, bound_to_reading, capture_refusal, control_file_holds, namespaces_same, raw_index_same,
    read_entry_error, same_reading, says_source_changed, BindingCapture, BindingSighting, BoundControlFile,
    SourceCommandBinding, SourceSnapshot, SourceSnapshotEntry,
};
use crate::source_tree::{
    index_listing_error, index_map_holds, index_record_error, listed_fields, listed_path_total, listed_text,
    path_listed, raw_entries_listable, raw_map_holds, raw_path_listed, source_index_error, source_tree_error,
    tree_listing_error, tree_map_holds, tree_record_error, RawIndex, RawIndexEntry, SourceTreeEntry,
};
use crate::text::encoding_is_injective;
use crate::text_map::{TextEntry, TextMap};
use vstd::prelude::*;
use vstd::string::*;
use vstd::utf8::{decode_utf8, encode_utf8};

verus! {

proof fn listed_paths_grow(records: Seq<Seq<u8>>, i: int, j: int)
    requires
        0 <= i <= j,
    ensures
        listed_path_total(records, i) <= listed_path_total(records, j),
    decreases j - i,
{
    if i < j {
        listed_paths_grow(records, i, j - 1);
    }
}

/// No two records list one path.
pub open spec fn paths_listed_once(records: Seq<Seq<u8>>) -> bool {
    forall|i: int, j: int| 0 <= i < j < records.len() ==> listed_text(#[trigger] records[i]) != listed_text(#[trigger] records[j])
}

proof fn tree_listings_from(records: Seq<Seq<u8>>, from: int)
    requires
        0 <= from,
    ensures
        tree_listing_error(records, from) is None <==> {
            &&& from < records.len() ==> records.len() <= 100_000
            &&& forall|i: int| from <= i < records.len() ==> tree_record_error(#[trigger] records[i]) is None
            &&& from < records.len() ==> listed_path_total(records, records.len() as int) <= 256 * 1024 * 1024
            &&& forall|i: int, j: int|
                0 <= i < j < records.len() && from <= j ==> listed_text(#[trigger] records[i]) != listed_text(#[trigger] records[j])
        },
    decreases records.len() - from,
{
    if from < records.len() {
        tree_listings_from(records, from + 1);
        listed_paths_grow(records, from + 1, records.len() as int);
        if path_listed(records, listed_text(records[from]), from) {
            let i = choose|i: int| 0 <= i < from && listed_text(#[trigger] records[i]) == listed_text(records[from]);
            assert(listed_text(records[i]) == listed_text(records[from]));
        } else {
            assert forall|i: int| 0 <= i < from implies listed_text(#[trigger] records[i]) != listed_text(records[from]) by {}
        }
    }
}

/// A tree is accepted exactly where it lists at most 100000 files, each record is right, all paths together
/// are at most 256 MiB long, and no path is listed twice.
pub proof fn accepted_tree_listings(records: Seq<Seq<u8>>)
    ensures
        tree_listing_error(records, 0) is None <==> {
            &&& records.len() <= 100_000
            &&& forall|i: int| 0 <= i < records.len() ==> tree_record_error(#[trigger] records[i]) is None
            &&& listed_path_total(records, records.len() as int) <= 256 * 1024 * 1024
            &&& paths_listed_once(records)
        },
{
    tree_listings_from(records, 0);
    assert(listed_path_total(records, 0) == 0);
}

proof fn index_listings_from(records: Seq<Seq<u8>>, from: int)
    requires
        0 <= from,
    ensures
        index_listing_error(records, from) is None <==> {
            &&& from < records.len() ==> records.len() <= 100_000
            &&& forall|i: int| from <= i < records.len() ==> index_record_error(#[trigger] records[i]) is None
            &&& forall|i: int, j: int|
                0 <= i < j < records.len() && from <= j ==> listed_text(#[trigger] records[i]) != listed_text(#[trigger] records[j])
        },
    decreases records.len() - from,
{
    if from < records.len() {
        index_listings_from(records, from + 1);
        if path_listed(records, listed_text(records[from]), from) {
            let i = choose|i: int| 0 <= i < from && listed_text(#[trigger] records[i]) == listed_text(records[from]);
            assert(listed_text(records[i]) == listed_text(records[from]));
        } else {
            assert forall|i: int| 0 <= i < from implies listed_text(#[trigger] records[i]) != listed_text(records[from]) by {}
        }
    }
}

/// An index is accepted exactly where it lists at most 100000 files, each record is right, and no path is
/// listed twice.
pub proof fn accepted_index_listings(records: Seq<Seq<u8>>)
    ensures
        index_listing_error(records, 0) is None <==> {
            &&& records.len() <= 100_000
            &&& forall|i: int| 0 <= i < records.len() ==> index_record_error(#[trigger] records[i]) is None
            &&& paths_listed_once(records)
        },
{
    index_listings_from(records, 0);
}

/// The index is the tree, and the raw index is the index, where they list the same paths with the same ids.
pub proof fn indexes_agree(
    raw: Map<Seq<char>, String>,
    index: Map<Seq<char>, String>,
    tree: Map<Seq<char>, SourceTreeEntry>,
    path: Seq<char>,
)
    requires
        same_text_maps(raw, index),
        tree_has_texts(tree, index),
    ensures
        raw.dom().contains(path) == index.dom().contains(path),
        tree.dom().contains(path) == index.dom().contains(path),
        index.dom().contains(path) ==> raw[path]@ == index[path]@ && tree[path].oid@ == index[path]@,
{
}

/// Maps that differ in a path or in an id do not agree.
pub proof fn other_indexes_do_not_agree(
    raw: Map<Seq<char>, String>,
    index: Map<Seq<char>, String>,
    tree: Map<Seq<char>, SourceTreeEntry>,
    path: Seq<char>,
)
    ensures
        raw.dom().contains(path) != index.dom().contains(path) ==> !same_text_maps(raw, index),
        raw.dom().contains(path) && index.dom().contains(path) && raw[path]@ != index[path]@ ==> !same_text_maps(raw, index),
        tree.dom().contains(path) != index.dom().contains(path) ==> !tree_has_texts(tree, index),
        tree.dom().contains(path) && index.dom().contains(path) && tree[path].oid@ != index[path]@ ==> !tree_has_texts(tree, index),
{
}

/// The tags of an index are accepted exactly where each is that of a cached file and the tagged files are
/// those of the tree.
pub proof fn accepted_tags(output: Seq<u8>, paths: Set<Seq<char>>)
    ensures
        index_tags_error(output, paths) is None <==> {
            &&& nul_terminated(output)
            &&& tags_error(nul_pieces(output), 0) is None
            &&& forall|path: Seq<char>| #[trigger]
                paths.contains(path) <==> tagged_before(nul_pieces(output), path, nul_pieces(output).len() as int)
        },
        nul_terminated(output) && tags_error(nul_pieces(output), 0) is None && index_tags_error(output, paths) is Some
            ==> index_tags_error(output, paths) == Some(RepositoryImportError::SourceChanged),
{
}

/// What a source is asked about its layout.
pub proof fn what_a_layout_is_asked()
    ensures
        EndpointQuery::ObjectFormat.argument_texts() == seq!["rev-parse"@, "--show-object-format"@],
        EndpointQuery::InsideWorkTree.argument_texts() == seq!["rev-parse"@, "--is-inside-work-tree"@],
        EndpointQuery::Prefix.argument_texts() == seq!["rev-parse"@, "--show-prefix"@],
        EndpointQuery::TopLevel.argument_texts() == seq!["rev-parse"@, "--show-toplevel"@],
        EndpointQuery::GitDirectory.argument_texts() == seq!["rev-parse"@, "--absolute-git-dir"@],
        EndpointQuery::CommonDirectory.argument_texts() == seq!["rev-parse"@, "--path-format=absolute"@, "--git-common-dir"@],
        EndpointQuery::IndexPath.argument_texts().last() == "index"@,
        EndpointQuery::ObjectsPath.argument_texts() == EndpointQuery::IndexPath.argument_texts().update(3, "objects"@),
        EndpointQuery::IndexPath.argument_texts().drop_last() == seq!["rev-parse"@, "--path-format=absolute"@, "--git-path"@],
        EndpointQuery::SplitIndex.argument_texts().last() == "core.splitIndex"@,
        EndpointQuery::SparseIndex.argument_texts() == EndpointQuery::SplitIndex.argument_texts().update(4, "index.sparse"@),
        EndpointQuery::SplitIndex.argument_texts().drop_last() == seq!["config"@, "--type=bool"@, "--default=false"@, "--get"@],
        EndpointQuery::SharedIndex.argument_texts() == seq!["rev-parse"@, "--shared-index-path"@],
{
    assert(EndpointQuery::ObjectsPath.argument_texts() =~= EndpointQuery::IndexPath.argument_texts().update(3, "objects"@));
    assert(EndpointQuery::IndexPath.argument_texts().drop_last() =~= seq!["rev-parse"@, "--path-format=absolute"@, "--git-path"@]);
    assert(EndpointQuery::SparseIndex.argument_texts() =~= EndpointQuery::SplitIndex.argument_texts().update(4, "index.sparse"@));
    assert(EndpointQuery::SplitIndex.argument_texts().drop_last() =~= seq!["config"@, "--type=bool"@, "--default=false"@, "--get"@]);
}

/// An answer is a text where it is one line with that text; another text is not supported.
pub proof fn answers_are_lines(output: CommandOutput, expected: Seq<char>)
    ensures
        line_error(output, expected) is None <==> output is Ok && is_one_line(output->Ok_0@) && without_line_end(output->Ok_0@)
            == encode_utf8(expected),
        output is Ok && is_one_line(output->Ok_0@) && without_line_end(output->Ok_0@) != encode_utf8(expected) ==> line_error(
            output,
            expected,
        ) == Some(RepositoryImportError::UnsupportedSourceRepository),
        path_answer_error(output) is None <==> output is Ok && is_one_line(output->Ok_0@) && without_line_end(output->Ok_0@).len() > 0,
{
}

/// A source has the layout of an ordinary repository exactly where its ids are those of SHA-1, it is asked
/// inside its worktree and at its top, each of its parts is where it belongs, and its index is neither split,
/// sparse nor shared.
pub proof fn layouts_are_ordinary(
    answers: EndpointAnswers,
    root: Seq<char>,
    git: Seq<char>,
    index: Seq<char>,
    objects: Seq<char>,
)
    ensures
        endpoints_error(answers, root, git, index, objects) is None <==> {
            &&& line_error(answers.object_format, "sha1"@) is None
            &&& line_error(answers.inside_work_tree, "true"@) is None
            &&& answers.prefix is Ok && (answers.prefix->Ok_0@ == seq![0x0au8] || answers.prefix->Ok_0@ == seq![0x0du8, 0x0au8])
            &&& path_answer_error(answers.top_level) is None
            &&& path_answer_error(answers.git_directory) is None
            &&& path_answer_error(answers.common_directory) is None
            &&& path_answer_error(answers.index_path) is None
            &&& path_answer_error(answers.objects_path) is None
            &&& answers.top_level_canonical is Some && same_location(
                encode_utf8(answers.top_level_canonical->Some_0@),
                encode_utf8(root),
            )
            &&& answers.git_directory_canonical is Some && same_location(
                encode_utf8(answers.git_directory_canonical->Some_0@),
                encode_utf8(git),
            )
            &&& answers.common_directory_canonical is Some && same_location(
                encode_utf8(answers.common_directory_canonical->Some_0@),
                encode_utf8(git),
            )
            &&& same_location(without_line_end(answers.index_path->Ok_0@), encode_utf8(index))
            &&& same_location(without_line_end(answers.objects_path->Ok_0@), encode_utf8(objects))
            &&& line_error(answers.split_index, "false"@) is None
            &&& line_error(answers.sparse_index, "false"@) is None
            &&& answers.shared_index is Ok && (answers.shared_index->Ok_0@.len() == 0 || answers.shared_index->Ok_0@ == seq![0x0au8]
                || answers.shared_index->Ok_0@ == seq![0x0du8, 0x0au8])
        },
{
}

/// One path is the same location as itself, and two that are say so both ways.
pub proof fn locations_are_equal(a: Seq<u8>, b: Seq<u8>, c: Seq<u8>)
    ensures
        same_location(a, a),
        same_location(a, b) == same_location(b, a),
        same_location(a, b) && same_location(b, c) ==> same_location(a, c),
        same_location(a, b) && a.len() > 0 && a[0] == 0x2f ==> b.len() > 0 && b[0] == 0x2f,
{
}

/// The ground of a source is firm exactly where its root and its Git directory are there and on one device,
/// nothing in its control directory is dangerous, its configuration is read and is read the same twice, and
/// the control state could be bound.
pub proof fn grounds_are_firm(survey: SourceSurvey)
    ensures
        ground_error(survey) is None <==> {
            &&& survey.root is Ok
            &&& survey.root_identity is Ok
            &&& survey.git_identity is Some
            &&& survey.root_device is Some && survey.git_device is Some && survey.root_device->Some_0 == survey.git_device->Some_0
            &&& survey.control is Ok
            &&& forall|i: int|
                0 <= i < survey.control->Ok_0@.len() ==> !forbidden_control(
                    encode_utf8((#[trigger] survey.control->Ok_0@[i]).relative_path@),
                )
            &&& survey.config is Ok
            &&& capture_refusal(survey.root_identity->Ok_0, survey.git_identity->Some_0, survey.capture) is None
            &&& same_reading(survey.config->Ok_0, survey.capture.config->Ok_0)
        },
{
}

/// The control state of a source is bound exactly where its root and its Git directory are the known ones,
/// and its index, its objects, its configuration and its head were read.
pub proof fn control_states_are_bound(
    root_identity: FilesystemDirectoryIdentity,
    git_identity: FilesystemDirectoryIdentity,
    seen: BindingCapture,
)
    ensures
        capture_refusal(root_identity, git_identity, seen) is None <==> {
            &&& seen.root is Some && seen.root->Some_0.scheme == root_identity.scheme && seen.root->Some_0.wire@ == root_identity.wire@
            &&& seen.git is Ok && seen.git->Ok_0.scheme == git_identity.scheme && seen.git->Ok_0.wire@ == git_identity.wire@
            &&& seen.index is Ok
            &&& seen.raw_index is Ok
            &&& seen.objects is Ok
            &&& seen.config is Ok
            &&& seen.head is Ok
        },
{
}

/// What is said of an index that cannot be read.
pub proof fn unreadable_indexes()
    ensures
        source_index_failure(RawIndexError::Malformed) == RepositoryImportError::UnsafeSourceControl,
        source_index_failure(RawIndexError::Unsupported) == RepositoryImportError::UnsafeSourceEntry,
        source_index_failure(RawIndexError::ResourceLimit) == RepositoryImportError::ResourceLimit,
{
}

/// A source is opened exactly where its ground is firm, its settings are harmless, Git can be used, its
/// layout is ordinary for its own root, and its head is a commit.
pub proof fn sources_are_opened(survey: SourceSurvey)
    ensures
        opening_error(survey) is None <==> {
            let root = survey.root->Ok_0@;
            &&& ground_error(survey) is None
            &&& survey.settings is Ok && nul_terminated(survey.settings->Ok_0@) && harmless_config(
                nul_pieces(survey.settings->Ok_0@),
            )
            &&& survey.version is Ok
            &&& endpoints_error(
                survey.endpoints,
                root,
                root + "/.git"@,
                root + "/.git"@ + "/index"@,
                root + "/.git"@ + "/objects"@,
            ) is None
            &&& head_error(survey.head) is None
        },
        ground_error(survey) is None && survey.settings is Ok && nul_terminated(survey.settings->Ok_0@) && !harmless_config(
            nul_pieces(survey.settings->Ok_0@),
        ) ==> opening_error(survey) == Some(RepositoryImportError::UnsafeSourceControl),
{
}

/// What a source lists is accepted exactly where its index is its tree, the tags of both kinds and the
/// attributes pass, and the files of the worktree are those of the tree.
pub proof fn listings_are_accepted(
    survey: SourceSurvey,
    tree: TextMap<SourceTreeEntry>,
    verdict: Result<(), RepositoryImportError>,
)
    ensures
        listing_error(survey, tree, verdict) is None <==> {
            &&& verdict is Ok
            &&& survey.tags is Ok && index_tags_error(survey.tags->Ok_0@, tree@.dom()) is None
            &&& survey.monitor_tags is Ok && index_tags_error(survey.monitor_tags->Ok_0@, tree@.dom()) is None
            &&& survey.attributes is Ok && crate::source_content::attributes_error(
                survey.attributes->Ok_0@,
                tree.entries@.len(),
            ) is None
            &&& survey.worktree is Ok
            &&& forall|path: Seq<char>| #[trigger] survey.worktree->Ok_0.0@.dom().contains(path) <==> tree@.dom().contains(path)
        },
{
    if survey.worktree is Ok && (forall|path: Seq<char>| #[trigger]
        survey.worktree->Ok_0.0@.dom().contains(path) <==> tree@.dom().contains(path)) {
        assert(survey.worktree->Ok_0.0@.dom() =~= tree@.dom());
    }
}

/// The bounds of a plan: 4 GiB of content, of which 256 MiB of texts.
pub proof fn plans_are_bounded()
    ensures
        MAX_IMPORT_PLAINTEXT_BYTES == 4 * 1024 * 1024 * 1024,
        MAX_MARKDOWN_PLAINTEXT_BYTES == 256 * 1024 * 1024,
{
}

/// A file of a source is planned exactly where it has a portable name, was read, and is accepted after the
/// files before it.
pub proof fn files_are_planned(
    tree: Seq<TextEntry<SourceTreeEntry>>,
    canonical: Map<Seq<char>, String>,
    readings: Seq<SourceReading>,
    from: int,
)
    requires
        0 <= from,
    ensures
        files_error(tree, canonical, readings, from) is None <==> forall|i: int|
            from <= i < tree.len() ==> file_is_planned(#[trigger] tree[i], tree, canonical, readings, i),
    decreases tree.len() - from,
{
    if from < tree.len() {
        files_are_planned(tree, canonical, readings, from + 1);
        if files_error(tree, canonical, readings, from) is Some && (forall|i: int|
            from <= i < tree.len() ==> file_is_planned(#[trigger] tree[i], tree, canonical, readings, i)) {
            assert(file_is_planned(tree[from], tree, canonical, readings, from));
        }
    }
}

/// The file number `i` has a portable name, was read, and is accepted after the files before it.
pub open spec fn file_is_planned(
    entry: TextEntry<SourceTreeEntry>,
    tree: Seq<TextEntry<SourceTreeEntry>>,
    canonical: Map<Seq<char>, String>,
    readings: Seq<SourceReading>,
    i: int,
) -> bool {
    &&& canonical.dom().contains(entry.key@)
    &&& i < readings.len()
    &&& readings[i].held is Ok
    &&& entry_error_after(
        listed_bytes(tree, i, false),
        listed_bytes(tree, i, true),
        entry.key@,
        entry.value,
        readings[i].held->Ok_0,
        readings[i].hash,
        readings[i].raw,
    ) is None
}

/// The bytes that are listed before a file add up: those of all files, and those of the texts.
pub proof fn listed_bytes_add_up(tree: Seq<TextEntry<SourceTreeEntry>>, n: int)
    requires
        0 <= n < tree.len(),
    ensures
        listed_bytes(tree, 0, false) == 0 && listed_bytes(tree, 0, true) == 0,
        listed_bytes(tree, n + 1, false) == listed_bytes(tree, n, false) + tree[n].value.size,
        crate::source_plan::markdown_name(tree[n].key@) ==> listed_bytes(tree, n + 1, true) == listed_bytes(tree, n, true)
            + tree[n].value.size,
        !crate::source_plan::markdown_name(tree[n].key@) ==> listed_bytes(tree, n + 1, true) == listed_bytes(tree, n, true),
{
}

/// What a plan says of a file: its path in the source and its portable path, the listed id and length, the
/// digest of the body that was read, the identity of the file, and whether it is a text.
pub proof fn plans_say_what_was_seen(
    entry: SourceSnapshotEntry,
    source_path: Seq<char>,
    canonical: Seq<char>,
    listed: SourceTreeEntry,
    held: HeldFile,
)
    ensures
        entry_says(entry, source_path, canonical, listed, held) <==> {
            &&& entry.source_relative_path@ == source_path
            &&& entry.relative_path@ == canonical
            &&& entry.blob_oid@ == listed.oid@
            &&& entry.size == listed.size
            &&& entry.sha256@ == sha256_of(held.bytes@)
            &&& entry.file_identity == held.identity
            &&& entry.markdown <==> exists|front: Seq<u8>| encode_utf8(source_path) == #[trigger] (front + encode_utf8(".md"@))
        },
{
    crate::source_laws::markdown_paths_end_in_md(source_path);
}

/// Files whose names were changed to be portable are counted, and the bytes of a plan add up.
pub proof fn plans_add_up(entries: Seq<SourceSnapshotEntry>, n: int)
    requires
        0 <= n < entries.len(),
    ensures
        normalized_before(entries, 0) == 0,
        normalized_before(entries, n + 1) == normalized_before(entries, n) + (if entries[n].source_relative_path@
            != entries[n].relative_path@ {
            1int
        } else {
            0
        }),
        entry_bytes(entries, 0, false) == 0 && entry_bytes(entries, 0, true) == 0,
        entry_bytes(entries, n + 1, false) == entry_bytes(entries, n, false) + entries[n].size,
        entry_bytes(entries, n + 1, true) == entry_bytes(entries, n, true) + (if entries[n].markdown {
            entries[n].size as int
        } else {
            0
        }),
{
}

/// Paths are portable together exactly where each has the right shape and is acceptable, no two share a path
/// or a key, no two directories with one key have two names, and no directory has the key of a file.
pub proof fn paths_are_portable_together(facts: Seq<SourcePathFacts>)
    ensures
        portable_together(facts) <==> {
            &&& forall|i: int|
                0 <= i < facts.len() ==> crate::git_output::relative_shape(encode_utf8((#[trigger] facts[i]).path@))
                    && facts[i].acceptable
            &&& forall|i: int, j: int|
                0 <= i < j < facts.len() ==> (#[trigger] facts[i]).path@ != (#[trigger] facts[j]).path@ && facts[i].logical_key@
                    != facts[j].logical_key@ && facts[i].physical_key@ != facts[j].physical_key@
            &&& forall|i: int, d: int, j: int, e: int|
                directory_exists(facts, i, d) && directory_exists(facts, j, e) && (#[trigger] directory_of(facts, i, d)).key@ == (
                #[trigger] directory_of(facts, j, e)).key@ ==> directory_of(facts, i, d).text@ == directory_of(facts, j, e).text@
            &&& forall|i: int, d: int, j: int|
                directory_exists(facts, i, d) && 0 <= j < facts.len() ==> (#[trigger] directory_of(facts, i, d)).key@ != (
                #[trigger] facts[j]).physical_key@
        },
{
    if portable_together(facts) {
        assert forall|i: int| 0 <= i < facts.len() implies crate::git_output::relative_shape(
            encode_utf8((#[trigger] facts[i]).path@),
        ) && facts[i].acceptable by {
            assert(admissible(facts[i]));
        }
        assert forall|i: int, j: int| 0 <= i < j < facts.len() implies (#[trigger] facts[i]).path@ != (#[trigger] facts[j]).path@
            && facts[i].logical_key@ != facts[j].logical_key@ && facts[i].physical_key@ != facts[j].physical_key@ by {
            assert(compatible(facts[i], facts[j]));
        }
    }
}

/// Each path has the portable path that was found for it, and no other path has any.
pub proof fn paths_get_their_portable_form(map: Map<Seq<char>, String>, facts: Seq<SourcePathFacts>, i: int, path: Seq<char>)
    requires
        canonical_map_holds(map, facts, facts.len() as int),
        0 <= i < facts.len(),
    ensures
        map.dom().contains(facts[i].path@),
        map[facts[i].path@]@ == facts[i].canonical@,
        map.dom().contains(path) ==> exists|k: int| 0 <= k < facts.len() && (#[trigger] facts[k]).path@ == path,
{
    if map.dom().contains(path) {
        assert(crate::portable_source::path_met(facts, path, facts.len() as int));
    }
}

/// A source is the same after it was read exactly where its control directory lists the same, its root and
/// its Git directory are the same, and its configuration is the same file with the same digest.
pub proof fn sources_are_the_same_after(survey: SourceSurvey, review: SourceReview)
    ensures
        review_error(survey, review) is None <==> {
            &&& review.control is Ok && namespaces_same(review.control->Ok_0@, survey.control->Ok_0@)
            &&& review.root_identity is Some && review.root_identity->Some_0.same(survey.root_identity->Ok_0)
            &&& review.git_identity is Some && review.git_identity->Some_0.same(survey.git_identity->Some_0)
            &&& review.config is Ok && review.config->Ok_0.identity.same(survey.config->Ok_0.identity) && sha256_of(
                review.config->Ok_0.bytes@,
            ) == sha256_of(survey.config->Ok_0.bytes@)
        },
{
}

/// A plan is of the source that was seen: its root, identities, head, directories, control directory, and the
/// digests of its configuration, its tree and its index.
pub proof fn plans_are_of_the_source(
    snapshot: SourceSnapshot,
    git_executable: String,
    survey: SourceSurvey,
    listing: SourceListing,
    entries: Seq<SourceSnapshotEntry>,
    review: SourceReview,
)
    requires
        snapshot_holds(snapshot, git_executable, survey, listing, entries, review),
    ensures
        snapshot.root == survey.root->Ok_0,
        snapshot.root_identity == survey.root_identity->Ok_0,
        snapshot.git_identity == survey.git_identity->Some_0,
        snapshot.git_executable == git_executable,
        snapshot.head_oid == listing.head_oid,
        snapshot.directories == survey.worktree->Ok_0.1,
        snapshot.git_control == review.control->Ok_0,
        snapshot.config_sha256@ == sha256_of(survey.config->Ok_0.bytes@),
        snapshot.tree_sha256@ == sha256_of(survey.tree->Ok_0@),
        snapshot.index_sha256@ == sha256_of(survey.index->Ok_0@),
        snapshot.normalized_path_entries == normalized_before(entries, entries.len() as int),
        snapshot.entries@.to_multiset() == entries.to_multiset(),
        bound_to_reading(snapshot.command_binding.config, 1_048_576, survey.capture.config->Ok_0),
        bound_to_reading(snapshot.command_binding.head, 1_048_576, survey.capture.head->Ok_0),
        bound_to_reading(snapshot.command_binding.index, 67_108_864, survey.capture.index->Ok_0),
        snapshot.command_binding.objects_identity == survey.capture.objects->Ok_0,
{
}

/// A control file is bound to its identity, its length and its digest, and holds where a file has all three.
pub proof fn control_files_are_bound(file: BoundControlFile, maximum_bytes: u64, held: HeldFile, now: HeldFile)
    ensures
        bound_to_reading(file, maximum_bytes, held) ==> file.maximum_bytes == maximum_bytes && file.identity == held.identity
            && file.size == held.bytes@.len() && file.sha256@ == sha256_of(held.bytes@),
        control_file_holds(file, now) <==> now.identity.scheme == file.identity.scheme && now.identity.wire@ == file.identity.wire@
            && now.bytes@.len() == file.size && sha256_of(now.bytes@) == file.sha256@,
        bound_to_reading(file, maximum_bytes, held) ==> control_file_holds(file, held),
{
}

/// The control state of a source did not move exactly where its root, its Git directory and its objects are
/// the bound ones, and its configuration, its head and its index hold.
pub proof fn control_states_do_not_move(binding: SourceCommandBinding, seen: BindingSighting)
    ensures
        binding_drift(binding, seen) is None <==> {
            &&& seen.root is Some && seen.root->Some_0.same(binding.root_identity)
            &&& seen.git is Ok && seen.git->Ok_0.same(binding.git_identity)
            &&& seen.objects is Ok && seen.objects->Ok_0.same(binding.objects_identity)
            &&& seen.config is Ok && control_file_holds(binding.config, seen.config->Ok_0)
            &&& seen.head is Ok && control_file_holds(binding.head, seen.head->Ok_0)
            &&& seen.index is Ok && control_file_holds(binding.index, seen.index->Ok_0)
        },
        !(seen.root is Some && seen.root->Some_0.same(binding.root_identity)) ==> binding_drift(binding, seen) == Some(
            RepositoryImportError::SourceChanged,
        ),
{
}

/// An entry of a plan is read exactly where the plan holds it, the file is the same with the same length and
/// digest, and Git gives the same id and body.
pub proof fn entries_are_read(
    snapshot: SourceSnapshot,
    entry: SourceSnapshotEntry,
    held: Result<HeldFile, RepositoryImportError>,
    hash: CommandOutput,
    raw: CommandOutput,
)
    ensures
        read_entry_error(snapshot, entry, held, hash, raw) is None <==> {
            &&& exists|i: int| 0 <= i < snapshot.entries@.len() && (#[trigger] snapshot.entries@[i]).same(entry)
            &&& held is Ok
            &&& held->Ok_0.identity.same(entry.file_identity)
            &&& held->Ok_0.bytes@.len() == entry.size
            &&& sha256_of(held->Ok_0.bytes@) == entry.sha256@
            &&& hash_error(hash, entry.blob_oid@) is None
            &&& blob_error(raw, entry.size, entry.sha256@, held->Ok_0.bytes@) is None
        },
{
}

/// What says that a source changed: whatever it has become that a source must not be; a limit, a failure of
/// Git and a failure of reading do not say so.
pub proof fn what_says_that_a_source_changed(error: RepositoryImportError)
    ensures
        says_source_changed(error) <==> error is UnsupportedSourceRepository || error is UnsafeSourceControl
            || error is UnsafeSourceEntry || error is SourceChanged || error is ContentFilterUnsupported
            || error is LfsPointerUnsupported || error is MalformedGitOutput,
        says_source_changed(error) ==> !(error is ResourceLimit) && !(error is Io) && !(error is GitCommandFailed),
{
}

/// Two plans are the same exactly where everything that they say is.
pub proof fn plans_are_the_same(a: SourceSnapshot, b: SourceSnapshot)
    ensures
        a.same(b) ==> {
            &&& a.root@ == b.root@
            &&& a.head_oid@ == b.head_oid@
            &&& a.git_executable@ == b.git_executable@
            &&& a.entries@.len() == b.entries@.len()
            &&& forall|i: int|
                0 <= i < a.entries@.len() ==> (#[trigger] a.entries@[i]).source_relative_path@ == b.entries@[i].source_relative_path@
                    && a.entries@[i].relative_path@ == b.entries@[i].relative_path@ && a.entries@[i].blob_oid@
                    == b.entries@[i].blob_oid@ && a.entries@[i].size == b.entries@[i].size && a.entries@[i].sha256@
                    == b.entries@[i].sha256@ && a.entries@[i].markdown == b.entries@[i].markdown
                    && a.entries@[i].file_identity.wire@ == b.entries@[i].file_identity.wire@
            &&& a.directories@.len() == b.directories@.len()
            &&& forall|i: int|
                0 <= i < a.directories@.len() ==> (#[trigger] a.directories@[i]).relative_path@ == b.directories@[i].relative_path@
                    && a.directories@[i].identity.wire@ == b.directories@[i].identity.wire@
            &&& namespaces_same(a.git_control@, b.git_control@)
            &&& a.config_sha256@ == b.config_sha256@
            &&& a.tree_sha256@ == b.tree_sha256@
            &&& a.index_sha256@ == b.index_sha256@
            &&& a.root_identity.wire@ == b.root_identity.wire@
            &&& a.git_identity.wire@ == b.git_identity.wire@
            &&& a.normalized_path_entries == b.normalized_path_entries
        },
        a.same(a),
{
    if a.same(b) {
        assert forall|i: int| 0 <= i < a.entries@.len() implies (#[trigger] a.entries@[i]).source_relative_path@
            == b.entries@[i].source_relative_path@ && a.entries@[i].relative_path@ == b.entries@[i].relative_path@
            && a.entries@[i].blob_oid@ == b.entries@[i].blob_oid@ && a.entries@[i].size == b.entries@[i].size
            && a.entries@[i].sha256@ == b.entries@[i].sha256@ && a.entries@[i].markdown == b.entries@[i].markdown
            && a.entries@[i].file_identity.wire@ == b.entries@[i].file_identity.wire@ by {
            assert(a.entries@[i].same(b.entries@[i]));
        }
        assert forall|i: int| 0 <= i < a.directories@.len() implies (#[trigger] a.directories@[i]).relative_path@
            == b.directories@[i].relative_path@ && a.directories@[i].identity.wire@ == b.directories@[i].identity.wire@ by {
            assert(crate::source_snapshot::directory_same(a.directories@[i], b.directories@[i]));
        }
    }
}

/// Of a tree that was listed each path has the id and the size that its record gives, a size with or without
/// a plus sign, and no other path has any.
pub proof fn listed_trees_are_read(map: Map<Seq<char>, SourceTreeEntry>, records: Seq<Seq<u8>>, i: int, path: Seq<char>)
    requires
        tree_map_holds(map, records, records.len() as int),
        0 <= i < records.len(),
    ensures
        map.dom().contains(listed_text(records[i])),
        encode_utf8(map[listed_text(records[i])].oid@) == listed_fields(records[i])[2],
        listed_fields(records[i])[3].len() > 0 && listed_fields(records[i])[3][0] != 0x2b ==> map[listed_text(records[i])].size
            == digits_value(listed_fields(records[i])[3]),
        listed_fields(records[i])[3].len() > 0 && listed_fields(records[i])[3][0] == 0x2b ==> map[listed_text(records[i])].size
            == digits_value(listed_fields(records[i])[3].skip(1)),
        map.dom().contains(path) ==> exists|k: int| 0 <= k < records.len() && listed_text(#[trigger] records[k]) == path,
{
    let text = listed_fields(records[i])[3];
    if text.len() > 0 {
        assert(text.skip(1) =~= text.subrange(1, text.len() as int));
    }
    if map.dom().contains(path) {
        assert(path_listed(records, path, records.len() as int));
    }
}

/// Of an index that was listed each path has the id that its record gives, and of a raw index each path has
/// the id of its entry in digits.
pub proof fn listed_indexes_are_read(
    map: Map<Seq<char>, String>,
    records: Seq<Seq<u8>>,
    raw: Map<Seq<char>, String>,
    entries: Seq<RawIndexEntry>,
    i: int,
    j: int,
)
    requires
        index_map_holds(map, records, records.len() as int),
        raw_map_holds(raw, entries, entries.len() as int),
        0 <= i < records.len(),
        0 <= j < entries.len(),
    ensures
        map.dom().contains(listed_text(records[i])),
        encode_utf8(map[listed_text(records[i])]@) == listed_fields(records[i])[1],
        raw.dom().contains(decode_utf8(entries[j].path@)),
        encode_utf8(raw[decode_utf8(entries[j].path@)]@) == hex_text(entries[j].oid@),
{
}

/// The entries of a raw index can be listed exactly where each path is a text of the right shape and no path
/// occurs twice.
pub proof fn listable_raw_indexes(entries: Seq<RawIndexEntry>)
    ensures
        raw_entries_listable(entries) <==> {
            &&& forall|i: int|
                0 <= i < entries.len() ==> vstd::utf8::valid_utf8((#[trigger] entries[i]).path@) && crate::git_output::relative_shape(
                    entries[i].path@,
                )
            &&& forall|i: int, j: int|
                0 <= i < j < entries.len() ==> decode_utf8((#[trigger] entries[i]).path@) != decode_utf8((#[trigger] entries[j]).path@)
        },
{
    if raw_entries_listable(entries) {
        assert forall|i: int, j: int| 0 <= i < j < entries.len() implies decode_utf8((#[trigger] entries[i]).path@) != decode_utf8(
            (#[trigger] entries[j]).path@,
        ) by {
            assert(!raw_path_listed(entries, decode_utf8(entries[j].path@), j));
        }
    }
    if forall|i: int, j: int|
        0 <= i < j < entries.len() ==> decode_utf8((#[trigger] entries[i]).path@) != decode_utf8((#[trigger] entries[j]).path@) {
        assert forall|j: int| 0 <= j < entries.len() implies !raw_path_listed(entries, decode_utf8((#[trigger] entries[j]).path@), j) by {
            if raw_path_listed(entries, decode_utf8(entries[j].path@), j) {
                let i = choose|i: int| 0 <= i < j && decode_utf8((#[trigger] entries[i]).path@) == decode_utf8(entries[j].path@);
                assert(decode_utf8(entries[i].path@) != decode_utf8(entries[j].path@));
            }
        }
    }
}

/// The output of a listing is judged only where each of its records is ended.
pub proof fn listings_end_their_records(output: Seq<u8>)
    ensures
        !nul_terminated(output) ==> source_tree_error(output) == Some(RepositoryImportError::MalformedGitOutput)
            && source_index_error(output) == Some(RepositoryImportError::MalformedGitOutput),
        nul_terminated(output) ==> source_tree_error(output) == tree_listing_error(nul_pieces(output), 0) && source_index_error(output)
            == index_listing_error(nul_pieces(output), 0),
{
}

/// A tree is listed exactly where its output is accepted and lists something.
pub proof fn trees_are_listed(tree: Result<TextMap<SourceTreeEntry>, RepositoryImportError>, output: CommandOutput)
    requires
        listed(tree, output),
    ensures
        tree is Ok <==> output is Ok && source_tree_error(output->Ok_0@) is None && nul_pieces(output->Ok_0@).len() > 0,
        tree is Ok ==> tree_map_holds(tree->Ok_0@, nul_pieces(output->Ok_0@), nul_pieces(output->Ok_0@).len() as int),
        output is Ok && source_tree_error(output->Ok_0@) is None && nul_pieces(output->Ok_0@).len() == 0 ==> tree == Err::<
            TextMap<SourceTreeEntry>,
            _,
        >(RepositoryImportError::UnsafeSourceEntry),
{
}

/// A survey that succeeds opened the source, listed its tree, and accepted its listings; it gives the commit
/// that Git named and that tree.
pub proof fn surveys_succeed(listing: SourceListing, survey: SourceSurvey)
    requires
        surveyed(Ok::<SourceListing, RepositoryImportError>(listing), survey),
    ensures
        opening_error(survey) is None,
        listed(Ok::<TextMap<SourceTreeEntry>, RepositoryImportError>(listing.tree), survey.tree),
        listing_error(survey, listing.tree, Ok(())) is None,
        survey.head is Ok && encode_utf8(listing.head_oid@) == without_line_end(survey.head->Ok_0@),
        survey.index is Ok && source_index_error(survey.index->Ok_0@) is None,
        raw_entries_listable(survey.capture.raw_index->Ok_0.entries@),
        exists|index: Map<Seq<char>, String>, raw: Map<Seq<char>, String>|
            {
                &&& #[trigger] index_map_holds(
                    index,
                    nul_pieces(survey.index->Ok_0@),
                    nul_pieces(survey.index->Ok_0@).len() as int,
                )
                &&& #[trigger] raw_map_holds(
                    raw,
                    survey.capture.raw_index->Ok_0.entries@,
                    survey.capture.raw_index->Ok_0.entries@.len() as int,
                )
                &&& same_text_maps(raw, index)
                &&& tree_has_texts(listing.tree@, index)
            },
{
    let r = Ok::<SourceListing, RepositoryImportError>(listing);
    let tree = choose|tree: Result<TextMap<SourceTreeEntry>, RepositoryImportError>|
        {
            &&& #[trigger] listed(tree, survey.tree)
            &&& match tree {
                Err(error) => r matches Err(e) && e == error,
                Ok(map) => tree_surveyed(r, survey, map),
            }
        };
    let map = tree->Ok_0;
    assert(tree_surveyed(r, survey, map));
    let verdict = choose|verdict: Result<(), RepositoryImportError>|
        {
            &&& #[trigger] crate::source_planning::indexed(verdict, map, survey.index, survey.capture.raw_index->Ok_0)
            &&& match listing_error(survey, map, verdict) {
                Some(error) => r matches Err(e) && e == error,
                None => r matches Ok(found) && found.tree == map && encode_utf8(found.head_oid@) == without_line_end(
                    survey.head->Ok_0@,
                ),
            }
        };
    assert(verdict is Ok);
    assert(head_error(survey.head) is None);
}

/// Two bindings that are the same bind one root, one control state, and indexes that list the same.
pub proof fn bindings_are_the_same(a: SourceCommandBinding, b: SourceCommandBinding, i: int)
    requires
        a.same(b),
    ensures
        a.root@ == b.root@,
        a.root_identity.wire@ == b.root_identity.wire@,
        a.git_identity.wire@ == b.git_identity.wire@,
        a.objects_identity.wire@ == b.objects_identity.wire@,
        a.config.sha256@ == b.config.sha256@ && a.config.size == b.config.size && a.config.identity.wire@ == b.config.identity.wire@,
        a.head.sha256@ == b.head.sha256@ && a.head.size == b.head.size && a.head.identity.wire@ == b.head.identity.wire@,
        a.index.sha256@ == b.index.sha256@ && a.index.size == b.index.size && a.index.identity.wire@ == b.index.identity.wire@,
        a.raw_index.entries@.len() == b.raw_index.entries@.len(),
        0 <= i < a.raw_index.entries@.len() ==> a.raw_index.entries@[i].path@ == b.raw_index.entries@[i].path@
            && a.raw_index.entries@[i].oid@ == b.raw_index.entries@[i].oid@,
{
    assert(raw_index_same(a.raw_index, b.raw_index));
    if 0 <= i < a.raw_index.entries@.len() {
        assert(crate::source_snapshot::raw_entry_same(a.raw_index.entries@[i], b.raw_index.entries@[i]));
    }
}

/// An index whose listing is accepted, and whose raw entries can be listed, is the tree exactly where all
/// three list the same paths with the same ids; else the source changed.
pub proof fn indexes_are_judged(
    verdict: Result<(), RepositoryImportError>,
    tree: TextMap<SourceTreeEntry>,
    output: CommandOutput,
    raw_index: RawIndex,
    index: Map<Seq<char>, String>,
    raw: Map<Seq<char>, String>,
)
    requires
        indexed(verdict, tree, output, raw_index),
        output is Ok,
        source_index_error(output->Ok_0@) is None,
        raw_entries_listable(raw_index.entries@),
        index_map_holds(index, nul_pieces(output->Ok_0@), nul_pieces(output->Ok_0@).len() as int),
        raw_map_holds(raw, raw_index.entries@, raw_index.entries@.len() as int),
    ensures
        verdict is Ok <==> same_text_maps(raw, index) && tree_has_texts(tree@, index),
        verdict is Err ==> verdict == Err::<(), _>(RepositoryImportError::SourceChanged),
{
    let records = nul_pieces(output->Ok_0@);
    let n = records.len() as int;
    let m = raw_index.entries@.len() as int;
    let (other, other_raw) = choose|other: Map<Seq<char>, String>, other_raw: Map<Seq<char>, String>|
        {
            &&& #[trigger] index_map_holds(other, records, n)
            &&& #[trigger] raw_map_holds(other_raw, raw_index.entries@, m)
            &&& verdict == if same_text_maps(other_raw, other) && tree_has_texts(tree@, other) {
                Ok::<(), RepositoryImportError>(())
            } else {
                Err(RepositoryImportError::SourceChanged)
            }
        };
    assert(index.dom() =~= other.dom());
    assert(raw.dom() =~= other_raw.dom());
    assert forall|path: Seq<char>| #[trigger] index.dom().contains(path) implies index[path]@ == other[path]@ by {
        let i = choose|i: int| 0 <= i < n && listed_text(#[trigger] records[i]) == path;
        assert(encode_utf8(index[listed_text(records[i])]@) == encode_utf8(other[listed_text(records[i])]@));
        encoding_is_injective(index[path]@, other[path]@);
    }
    assert forall|path: Seq<char>| #[trigger] raw.dom().contains(path) implies raw[path]@ == other_raw[path]@ by {
        let i = choose|i: int| 0 <= i < m && decode_utf8((#[trigger] raw_index.entries@[i]).path@) == path;
        assert(encode_utf8(raw[decode_utf8(raw_index.entries@[i].path@)]@) == encode_utf8(
            other_raw[decode_utf8(raw_index.entries@[i].path@)]@,
        ));
        encoding_is_injective(raw[path]@, other_raw[path]@);
    }
    if same_text_maps(raw, index) {
        assert forall|path: Seq<char>| #[trigger] other_raw.dom().contains(path) implies other_raw[path]@ == other[path]@ by {
            assert(raw.dom().contains(path));
            assert(index.dom().contains(path));
        }
    }
    if same_text_maps(other_raw, other) {
        assert forall|path: Seq<char>| #[trigger] raw.dom().contains(path) implies raw[path]@ == index[path]@ by {
            assert(other_raw.dom().contains(path));
            assert(index.dom().contains(path));
        }
    }
    if tree_has_texts(tree@, index) {
        assert forall|path: Seq<char>| #[trigger] tree@.dom().contains(path) implies tree@[path].oid@ == other[path]@ by {
            assert(index.dom().contains(path));
        }
    }
    if tree_has_texts(tree@, other) {
        assert forall|path: Seq<char>| #[trigger] tree@.dom().contains(path) implies tree@[path].oid@ == index[path]@ by {
            assert(index.dom().contains(path));
        }
    }
}

/// The paths of the first `n` entries.
pub open spec fn entry_paths<V>(entries: Seq<TextEntry<V>>, n: int) -> Seq<Seq<u8>> {
    Seq::new(n as nat, |i: int| encode_utf8(entries[i].key@))
}

/// Attributes are asked for every path of a tree, in order, each ended by a zero byte.
pub proof fn attributes_are_asked_for_every_path<V>(entries: Seq<TextEntry<V>>, n: int)
    requires
        0 <= n <= entries.len(),
    ensures
        attribute_input(entries, n) == ended(entry_paths(entries, n)),
    decreases n,
{
    if n > 0 {
        attributes_are_asked_for_every_path(entries, n - 1);
        assert(entry_paths(entries, n).drop_last() =~= entry_paths(entries, n - 1));
    }
}

} // verus!
