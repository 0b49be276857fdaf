//! When a candidate is sealed: what its records may be, and how they must agree.

use crate::bytes::{lex_less, parts_below};
use crate::errors::CandidateSealError;
use crate::hex::{all_lower_hex, lower_hex_byte};
use crate::identity::PublicationIdentityScheme;
use crate::portable_path::path_error;
use crate::seal::{
    control_role_fits, identities_match, loose_object_path, manifest_error, manifest_shape, metadata_present,
    object_references_error, objects_ascend, path_record_error, path_records_error, path_total, records_error,
    seal_error, section_error, PathRecord, SealRecord,
};
use crate::seal_records::{
    CandidateSealContext, CandidateSealManifest, GitControlRecord, GitControlRecordKind, GitControlRole, IndexRecord,
    ObjectKind, ObjectRecord, PhysicalRecord, PhysicalRecordKind, TreeRecord, WorktreeClass, WorktreeRecord,
};
use crate::source_laws::suffixes_come_last;
use vstd::prelude::*;
use vstd::string::*;
use vstd::utf8::{encode_utf8, is_ascii_chars_encode_utf8};

verus! {

/// The order of paths and ids is that of a dictionary over bytes: where two agree up to a place, the smaller
/// byte there comes first, and a text comes before each that continues it.
pub proof fn order_is_that_of_a_dictionary(common: Seq<u8>, small: u8, large: u8, rest: Seq<u8>, other: Seq<u8>)
    requires
        small < large,
    ensures
        lex_less(common + seq![small] + rest, common + seq![large] + other),
        !lex_less(common + seq![large] + other, common + seq![small] + rest),
        lex_less(common, common + seq![large] + other),
        !lex_less(common + seq![large] + other, common),
{
    let a = common + seq![small] + rest;
    let b = common + seq![large] + other;
    let k = common.len() as int;
    assert(a[k] == small && b[k] == large);
    assert(parts_below(a, b, k));
    assert(parts_below(common, b, k));
    if lex_less(b, a) {
        let j = choose|j: int| parts_below(b, a, j);
        if j > k {
            assert(b[k] == a[k]);
        } else if j < k {
            assert(b[j] == common[j] && a[j] == common[j]);
        }
    }
    if lex_less(b, common) {
        let j = choose|j: int| parts_below(b, common, j);
        if j < k {
            assert(b[j] == common[j]);
        }
    }
}

proof fn path_totals_grow<T: PathRecord>(records: Seq<T>, i: int, j: int)
    requires
        0 <= i <= j,
    ensures
        path_total(records, i) <= path_total(records, j),
    decreases j - i,
{
    if i < j {
        path_totals_grow(records, i, j - 1);
    }
}

proof fn accepted_path_records<T: PathRecord>(records: Seq<T>, from: int, allow_root: bool, maximum: nat)
    requires
        0 <= from <= records.len(),
    ensures
        path_records_error(records, from, allow_root, maximum) is None <==> forall|i: int|
            from <= i < records.len() ==> #[trigger] path_record_error(records, i, allow_root, maximum) is None,
    decreases records.len() - from,
{
    if from < records.len() {
        accepted_path_records(records, from + 1, allow_root, maximum);
        if path_records_error(records, from, allow_root, maximum) is None {
            assert forall|i: int| from <= i < records.len() implies #[trigger] path_record_error(
                records,
                i,
                allow_root,
                maximum,
            ) is None by {
                if i > from {
                    assert(path_records_error(records, from + 1, allow_root, maximum) is None);
                }
            }
        }
    }
}

proof fn accepted_records<T: SealRecord>(records: Seq<T>, from: int)
    requires
        0 <= from,
    ensures
        records_error(records, from) is None <==> forall|i: int|
            from <= i < records.len() ==> (#[trigger] records[i]).refusal() is None,
    decreases records.len() - from,
{
    if from < records.len() {
        accepted_records(records, from + 1);
    }
}

/// The paths of records are in the order of a dictionary, each after the one before it.
pub open spec fn paths_in_order<T: PathRecord>(records: Seq<T>) -> bool {
    forall|i: int, j: int|
        0 <= i && j == i + 1 && j < records.len() ==> lex_less(
            encode_utf8((#[trigger] records[i]).path_text()),
            encode_utf8((#[trigger] records[j]).path_text()),
        )
}

/// A section is accepted exactly where it has no more records than it may, each path is portable, the paths
/// are in order, they are at most 256 MiB long in all, and each record is right by itself.
pub proof fn accepted_sections<T: PathRecord + SealRecord>(
    records: Seq<T>,
    maximum_records: nat,
    allow_root: bool,
    maximum_path: nat,
)
    ensures
        section_error(records, maximum_records, allow_root, maximum_path) is None <==> {
            &&& records.len() <= maximum_records && records.len() <= 0xffff_ffff
            &&& forall|i: int|
                0 <= i < records.len() ==> path_error((#[trigger] records[i]).path_text(), allow_root, maximum_path) is None
            &&& paths_in_order(records)
            &&& path_total(records, records.len() as int) <= 256 * 1024 * 1024
            &&& forall|i: int| 0 <= i < records.len() ==> (#[trigger] records[i]).refusal() is None
        },
        records.len() > maximum_records ==> section_error(records, maximum_records, allow_root, maximum_path) == Some(
            CandidateSealError::ResourceLimit,
        ),
{
    accepted_path_records(records, 0, allow_root, maximum_path);
    accepted_records(records, 0);
    assert(path_total(records, 0) == 0);
    if path_records_error(records, 0, allow_root, maximum_path) is None {
        assert forall|i: int| 0 <= i < records.len() implies path_error(
            (#[trigger] records[i]).path_text(),
            allow_root,
            maximum_path,
        ) is None by {
            assert(path_record_error(records, i, allow_root, maximum_path) is None);
        }
        assert forall|i: int, j: int| 0 <= i && j == i + 1 && j < records.len() implies lex_less(
            encode_utf8((#[trigger] records[i]).path_text()),
            encode_utf8((#[trigger] records[j]).path_text()),
        ) by {
            assert(path_record_error(records, j, allow_root, maximum_path) is None);
        }
        if records.len() > 0 {
            assert(path_record_error(records, records.len() - 1, allow_root, maximum_path) is None);
        }
    }
    if paths_in_order(records) && path_total(records, records.len() as int) <= 256 * 1024 * 1024 && (forall|i: int|
        0 <= i < records.len() ==> path_error((#[trigger] records[i]).path_text(), allow_root, maximum_path) is None) {
        assert forall|i: int| 0 <= i < records.len() implies #[trigger] path_record_error(
            records,
            i,
            allow_root,
            maximum_path,
        ) is None by {
            path_totals_grow(records, i + 1, records.len() as int);
            assert(path_error(records[i].path_text(), allow_root, maximum_path) is None);
            if i > 0 {
                assert(lex_less(encode_utf8(records[i - 1].path_text()), encode_utf8(records[i].path_text())));
            }
        }
    }
}

/// The length of all paths is the sum of their lengths in bytes.
pub proof fn paths_add_up<T: PathRecord>(records: Seq<T>, n: int)
    requires
        0 <= n < records.len(),
    ensures
        path_total(records, 0) == 0,
        path_total(records, n + 1) == path_total(records, n) + encode_utf8(records[n].path_text()).len(),
{
}

/// A record in the worktree is right by itself exactly where its path is one of its class, its size is at
/// most 68 MiB, and its id is not all zeros: the three managed files are metadata, texts end in `.md.enc`,
/// and all else ends in `.asset.enc`.
pub proof fn right_worktree_records(record: WorktreeRecord<'_>)
    ensures
        record.refusal() is None <==> {
            &&& match record.class {
                WorktreeClass::ManagedMetadata => record.path@ == ".gitattributes"@ || record.path@ == ".gitignore"@
                    || record.path@ == "vault.json"@,
                WorktreeClass::MarkdownEnvelope => exists|front: Seq<u8>|
                    encode_utf8(record.path@) == #[trigger] (front + encode_utf8(".md.enc"@)),
                WorktreeClass::AssetEnvelope => exists|front: Seq<u8>|
                    encode_utf8(record.path@) == #[trigger] (front + encode_utf8(".asset.enc"@)),
            }
            &&& record.size <= 68 * 1024 * 1024
            &&& exists|i: int| 0 <= i < 20 && #[trigger] record.blob_oid@[i] != 0
        },
{
    suffixes_come_last(encode_utf8(record.path@), encode_utf8(".md.enc"@));
    suffixes_come_last(encode_utf8(record.path@), encode_utf8(".asset.enc"@));
    assert(record.blob_oid@.len() == 20);
}

/// The other records are right by themselves where their sizes are at most 68 MiB and their ids are not all
/// zeros, as far as they have any.
pub proof fn right_records(physical: PhysicalRecord<'_>, index: IndexRecord<'_>, tree: TreeRecord<'_>, object: ObjectRecord)
    ensures
        physical.refusal() is None <==> (physical.kind matches PhysicalRecordKind::File { size, .. } ==> size <= 68 * 1024 * 1024),
        index.refusal() is None <==> exists|i: int| 0 <= i < 20 && #[trigger] index.blob_oid@[i] != 0,
        tree.refusal() is None <==> tree.raw_size <= 68 * 1024 * 1024 && exists|i: int|
            0 <= i < 20 && #[trigger] tree.tree_oid@[i] != 0,
        object.refusal() is None <==> object.raw_size <= 68 * 1024 * 1024 && exists|i: int|
            0 <= i < 20 && #[trigger] object.oid@[i] != 0,
{
    assert(index.blob_oid@.len() == 20);
    assert(tree.tree_oid@.len() == 20);
    assert(object.oid@.len() == 20);
}

/// A record in the control directory is right by itself exactly where it is at the place of its role and not
/// longer than 68 MiB.
pub proof fn right_control_records(record: GitControlRecord<'_>)
    ensures
        record.refusal() is None <==> {
            &&& control_role_fits(record.role, record.path@, record.kind is Directory)
            &&& record.kind matches GitControlRecordKind::File { size, .. } ==> size <= 68 * 1024 * 1024
        },
{
}

/// The places of the roles in the control directory. Four files and the hooks directory are at fixed places,
/// the structural directories are six, and a loose object is at the place of its digits.
pub proof fn places_of_the_roles(path: Seq<char>, directory: bool)
    ensures
        control_role_fits(GitControlRole::Head, path, directory) <==> path == "HEAD"@ && !directory,
        control_role_fits(GitControlRole::Config, path, directory) <==> path == "config"@ && !directory,
        control_role_fits(GitControlRole::Index, path, directory) <==> path == "index"@ && !directory,
        control_role_fits(GitControlRole::MainRef, path, directory) <==> path == "refs/heads/main"@ && !directory,
        control_role_fits(GitControlRole::EmptyHooks, path, directory) <==> path == "inex-empty-hooks"@ && directory,
        control_role_fits(GitControlRole::StructuralDirectory, path, directory) <==> directory && (path == "objects"@ || path
            == "objects/info"@ || path == "objects/pack"@ || path == "refs"@ || path == "refs/heads"@ || path == "refs/tags"@),
        control_role_fits(GitControlRole::LooseObject, path, directory) <==> loose_object_path(encode_utf8(path), directory),
{
}

/// A digit of an id in small letters.
pub open spec fn id_digit(byte: u8) -> bool {
    0x30 <= byte <= 0x39 || 0x61 <= byte <= 0x66
}

/// A loose object is a file below `objects/`, at two digits, a slash, and 38 more digits; its directory is
/// named by the first two.
pub proof fn places_of_loose_objects(path: Seq<u8>)
    ensures
        loose_object_path(path, true) <==> {
            &&& path.len() == 10
            &&& path.subrange(0, 8) == seq![0x6fu8, 0x62, 0x6a, 0x65, 0x63, 0x74, 0x73, 0x2f]
            &&& id_digit(path[8]) && id_digit(path[9])
        },
        loose_object_path(path, false) <==> {
            &&& path.len() == 49
            &&& path.subrange(0, 8) == seq![0x6fu8, 0x62, 0x6a, 0x65, 0x63, 0x74, 0x73, 0x2f]
            &&& id_digit(path[8]) && id_digit(path[9])
            &&& path[10] == 0x2f
            &&& forall|i: int| 11 <= i < 49 ==> id_digit(#[trigger] path[i])
        },
{
    reveal_strlit("objects/");
    is_ascii_chars_encode_utf8("objects/"@);
    assert(encode_utf8("objects/"@) =~= seq![0x6fu8, 0x62, 0x6a, 0x65, 0x63, 0x74, 0x73, 0x2f]);
    if path.len() >= 10 {
        let two = path.subrange(8, 10);
        assert(two[0] == path[8] && two[1] == path[9]);
        assert(all_lower_hex(two) <==> lower_hex_byte(two[0]) && lower_hex_byte(two[1]));
    }
    if path.len() == 49 {
        let rest = path.subrange(11, 49);
        assert forall|i: int| 0 <= i < 38 implies #[trigger] rest[i] == path[i + 11] by {}
        if all_lower_hex(rest) {
            assert forall|i: int| 11 <= i < 49 implies id_digit(#[trigger] path[i]) by {
                assert(lower_hex_byte(rest[i - 11]));
            }
        }
        if forall|i: int| 11 <= i < 49 ==> id_digit(#[trigger] path[i]) {
            assert forall|i: int| 0 <= i < rest.len() implies lower_hex_byte(#[trigger] rest[i]) by {
                assert(id_digit(path[i + 11]));
            }
        }
    }
}

/// The worktree of a candidate holds all three managed files as metadata.
pub open spec fn managed_files_present(records: Seq<WorktreeRecord<'_>>) -> bool {
    &&& exists|i: int|
        0 <= i < records.len() && (#[trigger] records[i]).class == WorktreeClass::ManagedMetadata && records[i].path@
            == ".gitattributes"@
    &&& exists|i: int|
        0 <= i < records.len() && (#[trigger] records[i]).class == WorktreeClass::ManagedMetadata && records[i].path@
            == ".gitignore"@
    &&& exists|i: int|
        0 <= i < records.len() && (#[trigger] records[i]).class == WorktreeClass::ManagedMetadata && records[i].path@
            == "vault.json"@
}

/// How the parts of a candidate must agree: the first physical record and the first tree are those of the
/// root; there are no more trees than directories; the index lists the files of the worktree, in their order,
/// with their ids; the head is the commit and the first tree is its tree; all identities are of one scheme;
/// and the objects that are listed, in the order of their ids, have the kind, the size and the digest that
/// the files, the trees and the commit give.
pub open spec fn parts_agree(scheme: PublicationIdentityScheme, m: CandidateSealManifest<'_>) -> bool {
    &&& manifest_shape(m)
    &&& m.root_commit.raw_size <= 68 * 1024 * 1024
    &&& forall|i: int|
        0 <= i < m.worktree@.len() ==> (#[trigger] m.worktree@[i]).path@ == m.index@[i].path@ && m.worktree@[i].blob_oid@
            == m.index@[i].blob_oid@
    &&& identities_match(scheme, m)
    &&& forall|i: int, j: int|
        0 <= i && j == i + 1 && j < m.objects@.len() ==> lex_less((#[trigger] m.objects@[i]).oid@, (#[trigger] m.objects@[j]).oid@)
    &&& forall|i: int|
        0 <= i < m.worktree@.len() ==> object_is_listed(
            m.objects@,
            (#[trigger] m.worktree@[i]).blob_oid@,
            ObjectKind::Blob,
            m.worktree@[i].size,
            m.worktree@[i].sha256@,
        )
    &&& forall|i: int|
        0 <= i < m.trees@.len() ==> object_is_listed(
            m.objects@,
            (#[trigger] m.trees@[i]).tree_oid@,
            ObjectKind::Tree,
            m.trees@[i].raw_size,
            m.trees@[i].raw_sha256@,
        )
    &&& object_is_listed(
        m.objects@,
        m.root_commit.commit_oid@,
        ObjectKind::Commit,
        m.root_commit.raw_size,
        m.root_commit.raw_sha256@,
    )
}

/// An object is listed with a kind, a size and a digest.
pub open spec fn object_is_listed(objects: Seq<ObjectRecord>, oid: Seq<u8>, kind: ObjectKind, size: u64, sha256: Seq<u8>) -> bool {
    exists|i: int|
        0 <= i < objects.len() && (#[trigger] objects[i]).oid@ == oid && objects[i].kind == kind && objects[i].raw_size == size
            && objects[i].raw_sha256@ == sha256
}

/// The parts of a candidate are accepted exactly where they agree.
pub proof fn accepted_manifests(scheme: PublicationIdentityScheme, m: CandidateSealManifest<'_>)
    ensures
        manifest_error(scheme, m) is None <==> parts_agree(scheme, m),
{
    if objects_ascend(m.objects@) {
        assert forall|i: int, j: int| 0 <= i && j == i + 1 && j < m.objects@.len() implies lex_less(
            (#[trigger] m.objects@[i]).oid@,
            (#[trigger] m.objects@[j]).oid@,
        ) by {
            assert(crate::seal::ascends_at(m.objects@, j));
        }
    }
    if forall|i: int, j: int|
        0 <= i && j == i + 1 && j < m.objects@.len() ==> lex_less((#[trigger] m.objects@[i]).oid@, (#[trigger] m.objects@[j]).oid@) {
        assert forall|i: int| 0 < i < m.objects@.len() implies #[trigger] crate::seal::ascends_at(m.objects@, i) by {
            assert(lex_less(m.objects@[i - 1].oid@, m.objects@[i].oid@));
        }
    }
    assert(object_references_error(m) is None <==> parts_agree_on_objects(m));
}

spec fn parts_agree_on_objects(m: CandidateSealManifest<'_>) -> bool {
    &&& objects_ascend(m.objects@)
    &&& forall|i: int|
        0 <= i < m.worktree@.len() ==> object_is_listed(
            m.objects@,
            (#[trigger] m.worktree@[i]).blob_oid@,
            ObjectKind::Blob,
            m.worktree@[i].size,
            m.worktree@[i].sha256@,
        )
    &&& forall|i: int|
        0 <= i < m.trees@.len() ==> object_is_listed(
            m.objects@,
            (#[trigger] m.trees@[i]).tree_oid@,
            ObjectKind::Tree,
            m.trees@[i].raw_size,
            m.trees@[i].raw_sha256@,
        )
    &&& object_is_listed(
        m.objects@,
        m.root_commit.commit_oid@,
        ObjectKind::Commit,
        m.root_commit.raw_size,
        m.root_commit.raw_sha256@,
    )
}

/// How the parts of a candidate stand to each other in shape.
pub proof fn shapes_of_candidates(m: CandidateSealManifest<'_>)
    ensures
        manifest_shape(m) ==> {
            &&& m.physical@.len() > 0 && m.physical@[0].path@.len() == 0 && m.physical@[0].kind is Directory
            &&& m.trees@.len() > 0 && m.trees@[0].path@.len() == 0
            &&& m.worktree@.len() == m.index@.len()
            &&& m.head_refs.commit_oid@ == m.root_commit.commit_oid@
            &&& m.trees@[0].tree_oid@ == m.root_commit.tree_oid@
        },
        manifest_shape(m) <==> {
            &&& m.physical@.len() > 0 && encode_utf8(m.physical@[0].path@).len() == 0 && m.physical@[0].kind is Directory
            &&& m.trees@.len() > 0 && encode_utf8(m.trees@[0].path@).len() == 0
            &&& m.trees@.len() <= crate::seal::directory_records(m.physical@, m.physical@.len() as int)
            &&& m.worktree@.len() == m.index@.len()
            &&& m.head_refs.commit_oid@ == m.root_commit.commit_oid@
            &&& m.trees@[0].tree_oid@ == m.root_commit.tree_oid@
        },
{
    if manifest_shape(m) {
        crate::text::encoding_is_injective(m.physical@[0].path@, Seq::empty());
        crate::text::encoding_is_injective(m.trees@[0].path@, Seq::empty());
        assert(encode_utf8(Seq::<char>::empty()) =~= Seq::<u8>::empty());
        assert(encode_utf8(m.physical@[0].path@) =~= Seq::<u8>::empty());
        assert(encode_utf8(m.trees@[0].path@) =~= Seq::<u8>::empty());
    }
}

/// Directories are counted one by one.
pub proof fn directories_are_counted(records: Seq<PhysicalRecord<'_>>, n: int)
    requires
        0 <= n < records.len(),
    ensures
        crate::seal::directory_records(records, 0) == 0,
        crate::seal::directory_records(records, n + 1) == crate::seal::directory_records(records, n) + if records[n].kind is Directory {
            1int
        } else {
            0
        },
{
}

/// All identities of a candidate are of the scheme that its context names.
pub proof fn identities_of_one_scheme(scheme: PublicationIdentityScheme, m: CandidateSealManifest<'_>, i: int)
    requires
        identities_match(scheme, m),
    ensures
        0 <= i < m.physical@.len() ==> m.physical@[i].seal_identity().scheme == scheme,
        0 <= i < m.worktree@.len() ==> m.worktree@[i].identity.0.scheme == scheme,
        0 <= i < m.git_control@.len() ==> m.git_control@[i].seal_identity().scheme == scheme,
        m.private_baseline.identity.0.scheme == scheme,
{
}

/// A candidate is sealed exactly where its publication id is not all zeros, its parts agree, and its six
/// lists are accepted: at most a million physical records, trees, objects and control records, and at most
/// 100003 files, with paths of at most 1034 bytes for physical records and 1024 for the others.
pub proof fn sealed_candidates(context: CandidateSealContext, m: CandidateSealManifest<'_>)
    ensures
        seal_error(context, m) is None <==> {
            &&& exists|i: int| 0 <= i < 16 && #[trigger] context.publication_id@[i] != 0
            &&& parts_agree(context.scheme, m)
            &&& section_error(m.physical@, 1_000_000, true, 1034) is None
            &&& section_error(m.worktree@, 100_003, false, 1024) is None
            &&& managed_files_present(m.worktree@)
            &&& section_error(m.index@, 100_003, false, 1024) is None
            &&& section_error(m.trees@, 1_000_000, true, 1024) is None
            &&& m.objects@.len() <= 1_000_000
            &&& forall|i: int| 0 <= i < m.objects@.len() ==> (#[trigger] m.objects@[i]).refusal() is None
            &&& section_error(m.git_control@, 1_000_000, false, 1024) is None
        },
        (forall|i: int| 0 <= i < 16 ==> #[trigger] context.publication_id@[i] == 0) ==> seal_error(context, m) == Some(
            CandidateSealError::InvalidContext,
        ),
{
    accepted_manifests(context.scheme, m);
    accepted_records(m.objects@, 0);
    assert(context.publication_id@.len() == 16);
    assert(managed_files_present(m.worktree@) <==> metadata_present(m.worktree@, m.worktree@.len() as int, ".gitattributes"@)
        && metadata_present(m.worktree@, m.worktree@.len() as int, ".gitignore"@) && metadata_present(
        m.worktree@,
        m.worktree@.len() as int,
        "vault.json"@,
    ));
}

} // verus!
