//! What is proved of the objects of a target: their records, their numbers, and the conversation in which Git
//! prints them.

use crate::batch_session::{
    finish_step_of, finish_verdict, prove_step_of, prove_verdict, request_error, start_error, BatchSighting, BatchStart,
    BatchStep, DiagnosticsOutcome, FinishRun, ProofRun,
};
use crate::digest::{sha1_of, sha256_of};
use crate::errors::{audit_failure, CandidateSealError, IoErrorKind, RepositoryGitOperation, RepositoryImportError};
use crate::git_control::SortedObjectSet;
use crate::git_evidence::{content_error, git_manifest_error, projection_error, FreshGitManifest};
use crate::git_object::{
    canonical_commit, object_record_error, root_commit_error, typed_header, typed_oid, FreshRootCommitEvidence,
};
use crate::git_output::sha1_text;
use crate::git_runner::RunnerProfile;
use crate::hex::{
    all_digits, canonical_i64, decimal_text, decimal_text_facts, digits_value, signed_text, signed_text_is_canonical,
};
use crate::identity::PublicationIdentityScheme;
use crate::manifest::MarkerFreePhysicalManifest;
use crate::object_batch::{proves_object, response_header, BatchObjectReading};
use crate::object_proof::{
    batch_outcome, object_count_error, replies_error, runner_bound, runtime_projection_error, runtime_proof_error,
    FreshRuntimeObjectProof, RunnerRootObservation, RuntimeBatchTranscript,
};
use crate::object_union::{all_objects, conflict, kind_error, union_error};
use crate::seal_records::{ObjectKind, ObjectRecord};
use crate::target_objects::TargetObjectExpectation;
use crate::tree_body::{tree_body, tree_error, tree_items_error, tree_key, TreeItem};
use crate::worktree_evidence::{FreshTrackedManifest, FreshTreeManifest};
use vstd::prelude::*;
use vstd::string::*;
use vstd::utf8::{encode_utf8, is_ascii_chars_encode_utf8};

verus! {

proof fn digits_count(digits: Seq<u8>)
    requires
        all_digits(digits),
        digits.len() > 0,
        digits[0] != 0x30,
    ensures
        digits_value(digits) >= 1,
    decreases digits.len(),
{
    if digits.len() > 1 {
        let front = digits.drop_last();
        assert(front[0] == digits[0]);
        assert forall|i: int| 0 <= i < front.len() implies 0x30 <= #[trigger] front[i] <= 0x39 by {
            assert(front[i] == digits[i]);
        }
        digits_count(front);
    } else {
        assert(digits.drop_last() =~= Seq::<u8>::empty());
        assert(0x30 <= digits[0] <= 0x39);
        assert(digits.last() == digits[0]);
    }
}

/// Digits without a zero before them are the way in which their number is written.
pub proof fn numbers_are_written_in_one_way(digits: Seq<u8>)
    requires
        digits.len() > 0,
        forall|i: int| 0 <= i < digits.len() ==> 0x30 <= #[trigger] digits[i] <= 0x39,
        digits.len() > 1 ==> digits[0] != 0x30,
    ensures
        decimal_text(digits_value(digits)) == digits,
    decreases digits.len(),
{
    let front = digits.drop_last();
    let last = digits.last();
    assert(0x30 <= digits[digits.len() - 1] <= 0x39);
    if digits.len() == 1 {
        assert(front =~= Seq::<u8>::empty());
        assert(digits_value(front) == 0);
        assert(decimal_text(digits_value(digits)) =~= digits);
    } else {
        assert(front[0] == digits[0]);
        assert forall|i: int| 0 <= i < front.len() implies 0x30 <= #[trigger] front[i] <= 0x39 by {
            assert(front[i] == digits[i]);
        }
        numbers_are_written_in_one_way(front);
        digits_count(front);
        let value = digits_value(digits);
        let high = digits_value(front);
        assert(value == high * 10 + (last - 0x30) as nat);
        assert(value / 10 == high);
        assert(value % 10 == (last - 0x30) as nat);
        assert(decimal_text(value) =~= decimal_text(high).push(last));
        assert(front.push(last) =~= digits);
    }
}

/// A digit behind a number makes it ten times as much and adds the digit; no digits are nothing.
pub proof fn digits_count_in_tens(digits: Seq<u8>, digit: u8)
    requires
        0x30 <= digit <= 0x39,
    ensures
        digits_value(digits.push(digit)) == 10 * digits_value(digits) + (digit - 0x30),
        digits_value(Seq::empty()) == 0,
{
    assert(digits.push(digit).drop_last() =~= digits);
}

/// The texts of signed numbers are exactly those that the numbers of 64 bits are written as.
pub proof fn signed_texts_are_numbers(text: Seq<u8>)
    ensures
        canonical_i64(text) <==> exists|value: i64| text == #[trigger] signed_text(value as int),
{
    if canonical_i64(text) {
        if text[0] == 0x2d {
            let digits = text.subrange(1, text.len() as int);
            numbers_are_written_in_one_way(digits);
            digits_count(digits);
            let value = -(digits_value(digits) as int);
            assert(text =~= seq![0x2du8] + digits);
            assert(-9_223_372_036_854_775_808 <= value < 0);
            assert(text == signed_text((value as i64) as int));
        } else {
            numbers_are_written_in_one_way(text);
            let value = digits_value(text) as int;
            assert(0 <= value <= 9_223_372_036_854_775_807);
            assert(text == signed_text((value as i64) as int));
        }
    }
    if exists|value: i64| text == #[trigger] signed_text(value as int) {
        let value = choose|value: i64| text == #[trigger] signed_text(value as int);
        signed_text_is_canonical(value);
    }
}

/// The header that is hashed with the body of an object: its kind, a space, its size in digits, and a zero
/// byte.
pub proof fn headers_of_objects(size: u64)
    ensures
        typed_header(ObjectKind::Blob, size) == seq![0x62u8, 0x6c, 0x6f, 0x62, 0x20] + decimal_text(size as nat) + seq![0u8],
        typed_header(ObjectKind::Tree, size) == seq![0x74u8, 0x72, 0x65, 0x65, 0x20] + decimal_text(size as nat) + seq![0u8],
        typed_header(ObjectKind::Commit, size) == seq![0x63u8, 0x6f, 0x6d, 0x6d, 0x69, 0x74, 0x20] + decimal_text(size as nat)
            + seq![0u8],
        digits_value(decimal_text(size as nat)) == size,
{
    reveal_strlit("blob");
    reveal_strlit("tree");
    reveal_strlit("commit");
    is_ascii_chars_encode_utf8("blob"@);
    is_ascii_chars_encode_utf8("tree"@);
    is_ascii_chars_encode_utf8("commit"@);
    decimal_text_facts(size as nat);
    assert(typed_header(ObjectKind::Blob, size) =~= seq![0x62u8, 0x6c, 0x6f, 0x62, 0x20] + decimal_text(size as nat) + seq![0u8]);
    assert(typed_header(ObjectKind::Tree, size) =~= seq![0x74u8, 0x72, 0x65, 0x65, 0x20] + decimal_text(size as nat) + seq![0u8]);
    assert(typed_header(ObjectKind::Commit, size) =~= seq![0x63u8, 0x6f, 0x6d, 0x6d, 0x69, 0x74, 0x20] + decimal_text(
        size as nat,
    ) + seq![0u8]);
}

/// A record of an object is right exactly where its size is at most 68 MiB and its id is not all zeros.
pub proof fn records_of_objects(record: ObjectRecord)
    ensures
        object_record_error(record, crate::git_object::MAX_RAW_OBJECT_BYTES) is None <==> record.raw_size <= 68 * 1024 * 1024
            && exists|i: int| 0 <= i < 20 && #[trigger] record.oid@[i] != 0,
        record.raw_size > 68 * 1024 * 1024 ==> object_record_error(record, crate::git_object::MAX_RAW_OBJECT_BYTES) == Some(
            CandidateSealError::ResourceLimit,
        ),
{
    assert(record.oid@.len() == 20);
}

/// The record of a root commit is right exactly where its size is at most 68 MiB and neither of its ids is
/// all zeros.
pub proof fn records_of_commits(evidence: FreshRootCommitEvidence)
    ensures
        root_commit_error(evidence) is None <==> evidence.raw_size <= 68 * 1024 * 1024 && (exists|i: int|
            0 <= i < 20 && #[trigger] evidence.commit_oid@[i] != 0) && (exists|i: int|
            0 <= i < 20 && #[trigger] evidence.tree_oid@[i] != 0),
{
    assert(evidence.commit_oid@.len() == 20);
    assert(evidence.tree_oid@.len() == 20);
}

/// Records of one kind pass exactly where each is of that kind and right.
pub proof fn kinds_of_objects(records: Seq<ObjectRecord>, kind: ObjectKind, from: int)
    requires
        0 <= from,
    ensures
        kind_error(records, kind, from) is None <==> forall|i: int|
            from <= i < records.len() ==> (#[trigger] records[i]).kind == kind && object_record_error(
                records[i],
                crate::git_object::MAX_RAW_OBJECT_BYTES,
            ) is None,
    decreases records.len() - from,
{
    if from < records.len() {
        kinds_of_objects(records, kind, from + 1);
    }
}

/// Objects are united exactly where there are at most a million of them, the commit, the blobs and the trees
/// are right, the tree of the commit is among the trees, and no two of them say different things of one id.
pub proof fn united_objects(blobs: Seq<ObjectRecord>, trees: Seq<ObjectRecord>, root: FreshRootCommitEvidence)
    ensures
        union_error(blobs, trees, root) is None <==> {
            &&& blobs.len() + trees.len() + 1 <= 1_000_000
            &&& root_commit_error(root) is None
            &&& forall|i: int|
                0 <= i < blobs.len() ==> (#[trigger] blobs[i]).kind == ObjectKind::Blob && object_record_error(
                    blobs[i],
                    crate::git_object::MAX_RAW_OBJECT_BYTES,
                ) is None
            &&& forall|i: int|
                0 <= i < trees.len() ==> (#[trigger] trees[i]).kind == ObjectKind::Tree && object_record_error(
                    trees[i],
                    crate::git_object::MAX_RAW_OBJECT_BYTES,
                ) is None
            &&& exists|i: int| 0 <= i < trees.len() && (#[trigger] trees[i]).oid@ == root.tree_oid@
            &&& forall|i: int, j: int| !#[trigger] conflict(all_objects(blobs, trees, root), i, j)
        },
        blobs.len() + trees.len() + 1 > 1_000_000 ==> union_error(blobs, trees, root) == Some(CandidateSealError::ResourceLimit),
{
    kinds_of_objects(blobs, ObjectKind::Blob, 0);
    kinds_of_objects(trees, ObjectKind::Tree, 0);
}

/// Two records say different things of one id exactly where the id is the same and something else is not.
pub proof fn conflicts_are_about_one_id(records: Seq<ObjectRecord>, i: int, j: int)
    requires
        0 <= i < records.len(),
        0 <= j < records.len(),
    ensures
        conflict(records, i, j) ==> records[i].oid@ == records[j].oid@,
        records[i].oid@ == records[j].oid@ && (records[i].kind != records[j].kind || records[i].raw_size != records[j].raw_size
            || records[i].raw_sha256@ != records[j].raw_sha256@) ==> conflict(records, i, j),
        records[i] == records[j] ==> !conflict(records, i, j),
{
}

/// The objects that are united are the blobs, the trees, and the commit with the size and the digest of its
/// evidence.
pub proof fn all_objects_are_counted(blobs: Seq<ObjectRecord>, trees: Seq<ObjectRecord>, root: FreshRootCommitEvidence)
    ensures
        all_objects(blobs, trees, root).len() == blobs.len() + trees.len() + 1,
        forall|i: int| 0 <= i < blobs.len() ==> all_objects(blobs, trees, root)[i] == #[trigger] blobs[i],
        forall|i: int|
            0 <= i < trees.len() ==> all_objects(blobs, trees, root)[blobs.len() + i] == #[trigger] trees[i],
        all_objects(blobs, trees, root).last().kind == ObjectKind::Commit,
        all_objects(blobs, trees, root).last().oid == root.commit_oid,
        all_objects(blobs, trees, root).last().raw_size == root.raw_size,
        all_objects(blobs, trees, root).last().raw_sha256 == root.raw_sha256,
{
}

/// A stream proves an object exactly where it begins with the header of the object, a body of the expected
/// size and both expected digests, and a newline: the id, a space, the kind, a space, the size in digits, and
/// a newline come first.
pub proof fn streams_that_prove_an_object(
    stream: Seq<u8>,
    oid: Seq<u8>,
    raw_oid: Seq<u8>,
    expected: TargetObjectExpectation,
    body: Seq<u8>,
    rest: Seq<u8>,
)
    requires
        body.len() == expected.size,
        stream == oid + seq![0x20u8] + encode_utf8(expected.object_type@) + seq![0x20u8] + decimal_text(expected.size as nat)
            + seq![0x0au8] + body + seq![0x0au8] + rest,
    ensures
        proves_object(stream, oid, raw_oid, expected) <==> {
            &&& expected.size <= 68 * 1024 * 1024
            &&& sha256_of(body) == expected.sha256@
            &&& sha1_of(
                encode_utf8(expected.object_type@) + seq![0x20u8] + decimal_text(expected.size as nat) + seq![0u8] + body,
            ) == raw_oid
        },
{
    let header = oid + seq![0x20u8] + encode_utf8(expected.object_type@) + seq![0x20u8] + decimal_text(expected.size as nat)
        + seq![0x0au8];
    assert(header =~= response_header(oid, encode_utf8(expected.object_type@), expected.size));
    let h = header.len() as int;
    let n = h + expected.size + 1;
    let response = stream.subrange(0, n);
    assert(response =~= header + body + seq![0x0au8]);
    assert(response.subrange(0, h) =~= header);
    assert(response.subrange(h, h + expected.size) =~= body);
    assert(response[h + expected.size] == 0x0a);
}

/// A stream proves no object if it begins otherwise, or ends too soon.
pub proof fn other_streams_prove_nothing(stream: Seq<u8>, oid: Seq<u8>, raw_oid: Seq<u8>, expected: TargetObjectExpectation)
    requires
        proves_object(stream, oid, raw_oid, expected),
    ensures
        exists|body: Seq<u8>, rest: Seq<u8>|
            body.len() == expected.size && stream == #[trigger] (oid + seq![0x20u8] + encode_utf8(expected.object_type@)
                + seq![0x20u8] + decimal_text(expected.size as nat) + seq![0x0au8] + body + seq![0x0au8] + rest),
{
    let header = oid + seq![0x20u8] + encode_utf8(expected.object_type@) + seq![0x20u8] + decimal_text(expected.size as nat)
        + seq![0x0au8];
    assert(header =~= response_header(oid, encode_utf8(expected.object_type@), expected.size));
    let h = header.len() as int;
    let n = h + expected.size + 1;
    let response = stream.subrange(0, n);
    let body = response.subrange(h, h + expected.size);
    let rest = stream.subrange(n, stream.len() as int);
    assert(response =~= header + body + seq![0x0au8]) by {
        assert(response.subrange(0, h) == header);
    }
    assert(stream =~= response + rest);
    assert(stream =~= oid + seq![0x20u8] + encode_utf8(expected.object_type@) + seq![0x20u8] + decimal_text(
        expected.size as nat,
    ) + seq![0x0au8] + body + seq![0x0au8] + rest);
}

/// An object is asked for exactly where its id is forty digits, its kind is one of the three, and its size is
/// at most 68 MiB.
pub proof fn requests_for_objects(oid: Seq<u8>, expected: TargetObjectExpectation)
    ensures
        request_error(oid, expected) is None <==> sha1_text(oid) && (expected.object_type@ == "blob"@ || expected.object_type@
            == "tree"@ || expected.object_type@ == "commit"@) && expected.size <= 68 * 1024 * 1024,
        sha1_text(oid) && expected.object_type@ == "blob"@ && expected.size > 68 * 1024 * 1024 ==> request_error(oid, expected)
            == Some(RepositoryImportError::ResourceLimit),
        !sha1_text(oid) ==> request_error(oid, expected) == Some(RepositoryImportError::TargetAuditFailed),
{
}

/// Nothing is known against a conversation that goes on.
pub open spec fn still_talking(seen: BatchSighting) -> bool {
    !seen.diagnostics_too_large && !seen.reading_failed && seen.ended == Ok::<_, IoErrorKind>(None::<bool>)
}

/// A conversation goes on while nothing is known against it: an answer is taken as soon as it is whole, and
/// Git is stopped where the answer is late. It never ends well before Git ends.
pub proof fn turns_of_a_conversation(seen: BatchSighting)
    ensures
        prove_step_of(seen) is Answered <==> still_talking(seen) && seen.response_whole,
        prove_step_of(seen) is Wait <==> still_talking(seen) && !seen.response_whole && !seen.deadline_passed,
        still_talking(seen) && !seen.response_whole && seen.deadline_passed ==> prove_step_of(seen) == BatchStep::Stop(
            RepositoryImportError::GitCommandFailed { operation: RepositoryGitOperation::AuditTarget },
        ),
        finish_step_of(seen) is Wait <==> still_talking(seen) && !seen.deadline_passed,
        still_talking(seen) && seen.deadline_passed ==> finish_step_of(seen) == BatchStep::Stop(
            RepositoryImportError::GitCommandFailed { operation: RepositoryGitOperation::AuditTarget },
        ),
        seen.diagnostics_too_large ==> prove_step_of(seen) == BatchStep::Stop(RepositoryImportError::ResourceLimit)
            && finish_step_of(seen) == prove_step_of(seen),
        !seen.diagnostics_too_large && seen.reading_failed ==> prove_step_of(seen) == BatchStep::Stop(
            RepositoryImportError::TargetAuditFailed,
        ) && finish_step_of(seen) == prove_step_of(seen),
        !seen.diagnostics_too_large && !seen.reading_failed ==> (seen.ended matches Ok(Some(success)) ==> prove_step_of(seen)
            == (BatchStep::Ended { success }) && finish_step_of(seen) == prove_step_of(seen)),
{
}

/// A conversation begins exactly where what is held is the same before and after the start, the repository is
/// a target, some time is given, Git started, and it can be reached.
pub proof fn conversations_begin(profile: RunnerProfile, timeout_milliseconds: u64, start: BatchStart)
    ensures
        start_error(profile, timeout_milliseconds, start) is None <==> {
            &&& start.bindings_before is Ok
            &&& start.bindings_after is Ok
            &&& profile.target
            &&& timeout_milliseconds > 0
            &&& start.started is Ok
            &&& start.piped
        },
{
}

/// An object counts as proved exactly where it may be asked for, the conversation is open, the request went
/// out, what is held stayed the same to the end, the reader was content, and the conversation goes on.
pub proof fn objects_are_proved_in_turn(open: bool, oid: Seq<u8>, expected: TargetObjectExpectation, run: ProofRun)
    ensures
        prove_verdict(open, oid, expected, run) is Ok <==> {
            &&& request_error(oid, expected) is None
            &&& open
            &&& run.bindings_before is Ok
            &&& run.sent is Ok
            &&& run.bindings_after is Ok
            &&& run.bindings_at_end is Ok
            &&& run.read matches Some(Ok(_))
            &&& still_talking(run.last) && (run.last.response_whole || !run.last.deadline_passed)
        },
{
}

/// A conversation ended well exactly where what is held stayed the same, the reader met nothing more, and Git
/// ended by its own success without a complaint that was too long.
pub proof fn conversations_end_well(run: FinishRun)
    ensures
        finish_verdict(run) is Ok <==> {
            &&& run.bindings_before is Ok
            &&& run.bindings_after is Ok
            &&& run.bindings_at_end is Ok
            &&& run.read matches Some(Ok(_))
            &&& !run.last.diagnostics_too_large && !run.last.reading_failed && run.last.ended == Ok::<_, IoErrorKind>(Some(true))
            &&& run.diagnostics is Taken || run.diagnostics matches DiagnosticsOutcome::Read(Ok(_))
        },
{
}

/// All objects are proved exactly where each of them has a good reply.
pub proof fn replies_cover_every_object(objects: Seq<ObjectRecord>, replies: Seq<Result<(), RepositoryImportError>>, from: int)
    requires
        0 <= from,
    ensures
        replies_error(objects, replies, from) is None <==> forall|i: int|
            from <= i < objects.len() ==> #[trigger] crate::object_proof::request_error(objects, i) is None && i < replies.len()
                && replies[i] is Ok,
    decreases objects.len() - from,
{
    if from < objects.len() {
        replies_cover_every_object(objects, replies, from + 1);
        if replies_error(objects, replies, from) is None {
            assert forall|i: int| from <= i < objects.len() implies #[trigger] crate::object_proof::request_error(objects, i) is None
                && i < replies.len() && replies[i] is Ok by {
                if i > from {
                    assert(replies_error(objects, replies, from + 1) is None);
                }
            }
        } else if forall|i: int|
            from <= i < objects.len() ==> #[trigger] crate::object_proof::request_error(objects, i) is None && i < replies.len()
                && replies[i] is Ok {
            assert(crate::object_proof::request_error(objects, from) is None);
            assert(replies_error(objects, replies, from + 1) is None);
        }
    }
}

/// A batch that proved all objects says how many there are; a bad end makes it worth nothing.
pub proof fn proved_objects_are_counted(
    objects: Seq<ObjectRecord>,
    replies: Seq<Result<(), RepositoryImportError>>,
    finish: Result<(), RepositoryImportError>,
)
    requires
        objects.len() <= usize::MAX,
    ensures
        batch_outcome(objects, replies, finish) is Ok <==> replies_error(objects, replies, 0) is None && finish is Ok,
        (batch_outcome(objects, replies, finish) matches Ok(proved) ==> proved.verified_objects == objects.len()),
{
}

/// A runner stands on the root of a candidate exactly where it works on a target, its root is still at its
/// path, and that root is the one of the candidate.
pub proof fn runners_stand_on_the_root(observation: RunnerRootObservation, physical: MarkerFreePhysicalManifest)
    ensures
        runner_bound(observation, physical) <==> {
            &&& observation.target
            &&& observation.binding_holds
            &&& observation.identity is Some
            &&& observation.identity->Some_0.scheme == physical.root_identity.scheme
            &&& observation.identity->Some_0.wire@ == physical.root_identity.wire@
        },
{
}

/// The objects of a candidate are proved exactly where the evidence is right and is that of the content, the
/// runner stands on the root of the candidate before and after, and the batch began and proved all objects.
pub proof fn objects_of_a_candidate_are_proved(
    bound: bool,
    git: FreshGitManifest<'_>,
    files: FreshTrackedManifest<'_>,
    trees: FreshTreeManifest<'_>,
    transcript: RuntimeBatchTranscript,
)
    ensures
        runtime_proof_error(bound, git, files, trees, transcript) is None <==> {
            &&& git_manifest_error(git) is None
            &&& content_error(bound, git, files, trees) is None
            &&& runner_bound(transcript.root_before, *git.physical)
            &&& transcript.started is Ok
            &&& replies_error(git.objects.object_seq(), transcript.replies@, 0) is None
            &&& transcript.finish is Ok
            &&& runner_bound(transcript.root_after, *git.physical)
        },
{
}

/// A proof of objects stands where the evidence is right and as many objects were proved as it lists; it is
/// sealed where it also is that of the content and is projected.
pub proof fn proofs_of_objects_stand(
    bound: bool,
    runtime: FreshRuntimeObjectProof<'_, '_>,
    scheme: PublicationIdentityScheme,
    files: FreshTrackedManifest<'_>,
    trees: FreshTreeManifest<'_>,
)
    ensures
        object_count_error(runtime) is None <==> git_manifest_error(*runtime.git) is None && runtime.verified_objects
            == runtime.git.objects@.len(),
        runtime_projection_error(bound, runtime, scheme, files, trees) is None <==> {
            &&& runtime.verified_objects == runtime.git.objects@.len()
            &&& content_error(bound, *runtime.git, files, trees) is None
            &&& projection_error(*runtime.git, scheme) is None
        },
{
}

/// A failure of a candidate is told as a limit where it is one, and else as a failed audit.
pub proof fn limits_stay_limits(error: CandidateSealError)
    ensures
        audit_failure(error) == RepositoryImportError::ResourceLimit <==> error == CandidateSealError::ResourceLimit,
        error != CandidateSealError::ResourceLimit ==> audit_failure(error) == RepositoryImportError::TargetAuditFailed,
{
}

/// Directories are sorted in a tree as if a slash stood behind their names.
pub proof fn directories_sort_with_a_slash(name: Seq<u8>)
    ensures
        tree_key(name, true) == name + seq![0x2fu8],
        tree_key(name, false) == name,
{
    assert(tree_key(name, true) =~= name + seq![0x2fu8]);
}

/// The items of a tree pass exactly where no two neighbours share a name, each id is forty digits, and the
/// body is at most 68 MiB long.
pub proof fn items_of_trees(items: Seq<TreeItem>)
    ensures
        tree_error(items) is None <==> {
            &&& forall|i: int, j: int| 0 <= i && j == i + 1 && j < items.len() ==> (#[trigger] items[i]).name != (#[trigger] items[j]).name
            &&& forall|i: int| 0 <= i < items.len() ==> sha1_text((#[trigger] items[i]).oid)
            &&& tree_body(items, items.len() as int).len() <= 68 * 1024 * 1024
        },
{
    tree_items_pass(items, 0);
    if forall|i: int, j: int| 0 <= i && j == i + 1 && j < items.len() ==> (#[trigger] items[i]).name != (#[trigger] items[j]).name {
        assert forall|i: int| !#[trigger] crate::tree_body::same_name_at(items, i) by {
            if 0 <= i < items.len() - 1 {
                assert(items[i].name != items[i + 1].name);
            }
        }
    }
    if !crate::tree_body::neighbours_share_name(items) {
        assert forall|i: int, j: int| 0 <= i && j == i + 1 && j < items.len() implies (#[trigger] items[i]).name != (#[trigger] items[j]).name by {
            assert(!crate::tree_body::same_name_at(items, i));
        }
    }
    assert(tree_body(items, 0).len() == 0);
}

proof fn tree_bodies_grow(items: Seq<TreeItem>, i: int, j: int)
    requires
        0 <= i <= j,
    ensures
        tree_body(items, i).len() <= tree_body(items, j).len(),
    decreases j - i,
{
    if i < j {
        tree_bodies_grow(items, i, j - 1);
    }
}

proof fn tree_items_pass(items: Seq<TreeItem>, from: int)
    requires
        0 <= from,
    ensures
        tree_items_error(items, from) is None <==> (forall|i: int| from <= i < items.len() ==> sha1_text((#[trigger] items[i]).oid))
            && (from < items.len() ==> tree_body(items, items.len() as int).len() <= 68 * 1024 * 1024),
    decreases items.len() - from,
{
    if from < items.len() {
        tree_items_pass(items, from + 1);
        tree_bodies_grow(items, from + 1, items.len() as int);
    }
}

/// The one commit of a target: its tree, its author and its committer with one time in UTC, and the fixed
/// message; it has no parent.
pub proof fn commits_have_no_parent(tree: Seq<u8>, stamp: Seq<u8>)
    ensures
        canonical_commit(tree, stamp) == encode_utf8("tree "@) + tree + seq![0x0au8] + encode_utf8(
            "author Inex Repository Import <inex-import@localhost.invalid> "@,
        ) + stamp + encode_utf8(" +0000"@) + seq![0x0au8] + encode_utf8(
            "committer Inex Repository Import <inex-import@localhost.invalid> "@,
        ) + stamp + encode_utf8(" +0000"@) + seq![0x0au8, 0x0au8] + encode_utf8("Initialize encrypted Inex vault\n"@),
{
    assert(canonical_commit(tree, stamp) =~= encode_utf8("tree "@) + tree + seq![0x0au8] + encode_utf8(
        "author Inex Repository Import <inex-import@localhost.invalid> "@,
    ) + stamp + encode_utf8(" +0000"@) + seq![0x0au8] + encode_utf8(
        "committer Inex Repository Import <inex-import@localhost.invalid> "@,
    ) + stamp + encode_utf8(" +0000"@) + seq![0x0au8, 0x0au8] + encode_utf8("Initialize encrypted Inex vault\n"@));
}

/// The evidence of a commit has the id, the size and the digest of its body and the id of its tree, and
/// counts as an object of that id, size and digest.
pub proof fn evidence_of_commits(evidence: FreshRootCommitEvidence, body: Seq<u8>, tree: Seq<u8>)
    ensures
        evidence.describes(body, tree) <==> {
            &&& evidence.tree_oid@ == crate::hex::hex_bytes(tree)
            &&& evidence.raw_size == body.len()
            &&& evidence.raw_sha256@ == sha256_of(body)
            &&& evidence.commit_oid@ == typed_oid(ObjectKind::Commit, evidence.raw_size, body)
        },
        evidence.as_object().oid == evidence.commit_oid,
        evidence.as_object().kind == ObjectKind::Commit,
        evidence.as_object().raw_size == evidence.raw_size,
        evidence.as_object().raw_sha256 == evidence.raw_sha256,
{
}

/// The reader of an answer asks for what is missing of its header, then of its body, then for the newline
/// behind it, and never for more than 16 KiB at once.
pub proof fn readers_ask_for_what_is_missing(reading: BatchObjectReading)
    ensures
        reading.wanted_bytes() <= 16 * 1024,
        reading.offset < reading.header@.len() && reading.header@.len() - reading.offset <= 16 * 1024 ==> reading.wanted_bytes()
            == reading.header@.len() - reading.offset,
        reading.offset >= reading.header@.len() && 0 < reading.remaining <= 16 * 1024 ==> reading.wanted_bytes()
            == reading.remaining,
        reading.offset >= reading.header@.len() && reading.remaining > 16 * 1024 ==> reading.wanted_bytes() == 16 * 1024,
        reading.offset >= reading.header@.len() && reading.remaining == 0 ==> reading.wanted_bytes() == if reading.finished {
            0int
        } else {
            1
        },
{
}

} // verus!
