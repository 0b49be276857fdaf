//! How the audit of a target with a publication marker stands to the audit without one.

use crate::bytes::{lex_less, lex_less_irreflexive, lex_less_transitive};
use crate::errors::RepositoryImportError;
use crate::manifest::NamespaceSeal;
use crate::source_snapshot::{namespaces_same, seal_same};
use crate::target_audit::{
    audit_verdict, blobs_of, is_audit_verdict, is_marked, objects_verdict, opening_verdict, private_error, verdict,
    TargetAudit, TargetRepository,
};
use crate::target_config::TargetConfigProfile;
use crate::target_control::{first_named, marked_at, private_as_expected, PUBLICATION_MARKER_BYTES};
use crate::target_objects::{tree_wishes, TargetObjectExpectation, TargetTrackedEntry};
use crate::target_tree::{are_canonical_trees, trees_are_determined, usable_blobs, CanonicalTreeObject};
use crate::text_map::{entry_in_view, has_key, key_index, key_is_unique, TextMap};
use crate::tree_place::placed_paths;
use vstd::prelude::*;
use vstd::string::*;
use vstd::utf8::encode_utf8;

verus! {

/// Maps with the same keys hold them at the same places.
proof fn keys_stand_alike<A, B>(a: TextMap<A>, b: TextMap<B>, i: int)
    requires
        a.wf(),
        b.wf(),
        a@.dom() == b@.dom(),
        0 <= i < a.entries@.len(),
    ensures
        i < b.entries@.len(),
        a.entries@[i].key@ == b.entries@[i].key@,
    decreases i,
{
    assert forall|k: int| 0 <= k < i implies k < b.entries@.len() && (#[trigger] a.entries@[k]).key@ == b.entries@[k].key@ by {
        keys_stand_alike(a, b, k);
    }
    let key = a.entries@[i].key@;
    entry_in_view(a, i);
    assert(has_key(b.entries@, key));
    let j = key_index(b.entries@, key);
    if j < i {
        assert(a.entries@[j].key@ == b.entries@[j].key@);
        key_is_unique(a.entries@, i, j);
    }
    if j > i {
        let other = b.entries@[i].key@;
        entry_in_view(b, i);
        assert(has_key(a.entries@, other));
        let m = key_index(a.entries@, other);
        assert(lex_less(encode_utf8(b.entries@[i].key@), encode_utf8(b.entries@[j].key@)));
        if m < i {
            assert(a.entries@[m].key@ == b.entries@[m].key@);
            key_is_unique(b.entries@, i, m);
        } else if m > i {
            assert(lex_less(encode_utf8(a.entries@[i].key@), encode_utf8(a.entries@[m].key@)));
            lex_less_transitive(encode_utf8(key), encode_utf8(other), encode_utf8(key));
        }
        lex_less_irreflexive(encode_utf8(key));
    }
}

/// Maps with the same keys have as many entries.
proof fn sizes_agree<A, B>(a: TextMap<A>, b: TextMap<B>)
    requires
        a.wf(),
        b.wf(),
        a@.dom() == b@.dom(),
    ensures
        a.entries@.len() == b.entries@.len(),
{
    if a.entries@.len() > 0 {
        keys_stand_alike(a, b, a.entries@.len() - 1);
    }
    if b.entries@.len() > 0 {
        keys_stand_alike(b, a, b.entries@.len() - 1);
    }
}

/// The length of the longest path of the first `n` files.
spec fn longest_path(entries: Seq<TargetTrackedEntry>, n: int) -> nat
    decreases n,
{
    if n <= 0 {
        0
    } else {
        let before = longest_path(entries, n - 1);
        let here = encode_utf8(entries[n - 1].relative_path@).len();
        if here > before {
            here
        } else {
            before
        }
    }
}

proof fn no_path_is_longer(entries: Seq<TargetTrackedEntry>, n: int, i: int)
    requires
        0 <= i < n <= entries.len(),
    ensures
        encode_utf8(entries[i].relative_path@).len() <= longest_path(entries, n),
    decreases n,
{
    if i < n - 1 {
        no_path_is_longer(entries, n - 1, i);
    }
}

/// Canonical trees of the same files are wished for alike.
proof fn trees_are_wished_alike(
    expected: TargetRepository,
    a: TextMap<CanonicalTreeObject>,
    b: TextMap<CanonicalTreeObject>,
)
    requires
        a.wf(),
        b.wf(),
        usable_blobs(blobs_of(expected.entries@)),
        are_canonical_trees(blobs_of(expected.entries@), a@),
        are_canonical_trees(blobs_of(expected.entries@), b@),
    ensures
        a@.dom() == b@.dom(),
        forall|path: Seq<char>| #[trigger] a@.dom().contains(path) ==> a@[path].oid@ == b@[path].oid@,
        tree_wishes(a.entries@) == tree_wishes(b.entries@),
{
    let blobs = blobs_of(expected.entries@);
    let longest = longest_path(expected.entries@, expected.entries@.len() as int);
    assert forall|path: Seq<char>| #[trigger] blobs.dom().contains(path) implies encode_utf8(path).len() <= longest by {
        let i = choose|i: int| 0 <= i < expected.entries@.len() && (#[trigger] expected.entries@[i]).relative_path@ == path;
        no_path_is_longer(expected.entries@, expected.entries@.len() as int, i);
    }
    placed_paths(blobs.dom());
    assert(a@.dom() =~= b@.dom());
    assert forall|path: Seq<char>| #[trigger] a@.dom().contains(path) implies a@[path].oid@ == b@[path].oid@ && a@[path].size
        == b@[path].size && a@[path].sha256@ == b@[path].sha256@ by {
        trees_are_determined(blobs, a@, b@, path, longest);
    }
    sizes_agree(a, b);
    assert forall|i: int| 0 <= i < a.entries@.len() implies tree_wishes(a.entries@)[i] == tree_wishes(b.entries@)[i] by {
        keys_stand_alike(a, b, i);
        entry_in_view(a, i);
        entry_in_view(b, i);
    }
    assert(tree_wishes(a.entries@) =~= tree_wishes(b.entries@));
}

/// What the first part of an audit finds is determined by what it observes.
proof fn openings_agree(
    opened: Result<TextMap<TargetObjectExpectation>, RepositoryImportError>,
    again: Result<TextMap<TargetObjectExpectation>, RepositoryImportError>,
    audit: TargetAudit,
    expected: TargetRepository,
    profile: TargetConfigProfile<'_>,
)
    requires
        opened is Ok,
        opening_verdict(opened, audit.opening, expected, profile),
        opening_verdict(again, audit.opening, expected, profile),
    ensures
        again is Ok,
        again->Ok_0.entries@.len() == opened->Ok_0.entries@.len(),
{
    let blobs = blobs_of(expected.entries@);
    let control = expected.git_control@;
    let a = choose|trees: TextMap<CanonicalTreeObject>| #[trigger]
        objects_verdict(opened, expected, trees, control) && trees.wf() && are_canonical_trees(blobs, trees@);
    assert(objects_verdict(opened, expected, a, control));
    let b = choose|trees: TextMap<CanonicalTreeObject>| #[trigger]
        objects_verdict(again, expected, trees, control) && trees.wf() && are_canonical_trees(blobs, trees@);
    assert(objects_verdict(again, expected, b, control));
    trees_are_wished_alike(expected, a, b);
    assert(again is Ok);
    assert(opened->Ok_0@.dom() =~= again->Ok_0@.dom());
    sizes_agree(opened->Ok_0, again->Ok_0);
}

/// Two audits observed the same, but for the private directory.
pub open spec fn same_but_private(a: TargetAudit, b: TargetAudit) -> bool {
    &&& a.opening == b.opening
    &&& a.objects == b.objects
    &&& a.conversation == b.conversation
    &&& a.closing.git_control == b.closing.git_control
    &&& a.closing.worktree == b.closing.worktree
}

/// A target that passes the audit without a marker passes or fails any other audit by its private directory
/// alone, as long as nothing else of it changed: with a marker expected, the private directory must be the
/// one it was made with and a marker; without one, it must be the one it was made with.
pub proof fn private_directory_decides(
    r: Result<(), RepositoryImportError>,
    again: Result<TextMap<TargetObjectExpectation>, RepositoryImportError>,
    later: TargetAudit,
    opened: Result<TextMap<TargetObjectExpectation>, RepositoryImportError>,
    audit: TargetAudit,
    expected: TargetRepository,
    profile: TargetConfigProfile<'_>,
    marker: Option<Seq<char>>,
)
    requires
        is_audit_verdict(Ok(()), opened, audit, expected, profile, None),
        same_but_private(audit, later),
        is_audit_verdict(r, again, later, expected, profile, marker),
    ensures
        r == verdict(private_error(later.closing.private_control, expected, marker)),
{
    openings_agree(opened, again, audit, expected, profile);
    assert(r == audit_verdict(later, again->Ok_0, expected, marker));
}

/// What the private directory holds decides differently with and without a marker.
proof fn private_directories_differ(
    private: Vec<NamespaceSeal>,
    audit: TargetAudit,
    expected: TargetRepository,
    marker: Seq<char>,
)
    requires
        private_error(audit.closing.private_control, expected, None) is None,
    ensures
        ({
            let seen = Ok::<Vec<NamespaceSeal>, RepositoryImportError>(private);
            let failed = Some(RepositoryImportError::TargetAuditFailed);
            &&& is_marked(private@, expected.private_control@, marker) ==> private_error(seen, expected, Some(marker)) is None
                && private_error(seen, expected, None) == failed
            &&& namespaces_same(private@, expected.private_control@) ==> private_error(seen, expected, Some(marker)) == failed
                && private_error(seen, expected, None) is None
            &&& forall|i: int| #[trigger]
                first_named(private@, marker, i) && (private@[i].size != PUBLICATION_MARKER_BYTES || !(
                private@[i].kind is File)) ==> private_error(seen, expected, Some(marker)) == failed
        }),
{
    let before = audit.closing.private_control->Ok_0@;
    let made = expected.private_control@;
    assert(namespaces_same(before, made) && private_as_expected(before));
    assert(seal_same(before[0], made[0]));
    if is_marked(private@, made, marker) {
        let i = choose|i: int| #[trigger] marked_at(private@, made, marker, i);
        assert(private@.remove(i).len() == made.len());
    }
    if namespaces_same(private@, made) {
        assert(seal_same(private@[0], made[0]));
        assert(private_as_expected(private@));
        assert forall|i: int| !(#[trigger] marked_at(private@, made, marker, i)) by {
            if marked_at(private@, made, marker, i) {
                assert(private@.remove(i).len() == made.len());
            }
        }
    }
    assert forall|i: int| #[trigger]
        first_named(private@, marker, i) && (private@[i].size != PUBLICATION_MARKER_BYTES || !(
        private@[i].kind is File)) implies !is_marked(private@, made, marker) by {
        assert forall|k: int| !(#[trigger] marked_at(private@, made, marker, k)) by {
            if marked_at(private@, made, marker, k) {
                if k < i {
                    assert(private@[k].relative_path@ != marker);
                } else if i < k {
                    assert(private@[i].relative_path@ != marker);
                }
            }
        }
    }
}

/// Both audits tell a target with a marker from one without. Of a target that passed the audit without a
/// marker, when later nothing but its private directory changed:
/// - with a marker of its length added, the audit for publication passes and the other fails;
/// - with the private directory as it was made, and so also after a marker was removed again, the audit for
///   publication fails and the other passes;
/// - with something of another length, or of another kind, under the name of the marker, the audit for
///   publication fails.
pub proof fn marker_separates_the_audits(
    ordinary: Result<(), RepositoryImportError>,
    ordinary_opened: Result<TextMap<TargetObjectExpectation>, RepositoryImportError>,
    publication: Result<(), RepositoryImportError>,
    publication_opened: Result<TextMap<TargetObjectExpectation>, RepositoryImportError>,
    later: TargetAudit,
    opened: Result<TextMap<TargetObjectExpectation>, RepositoryImportError>,
    audit: TargetAudit,
    expected: TargetRepository,
    profile: TargetConfigProfile<'_>,
    marker: Seq<char>,
)
    requires
        is_audit_verdict(Ok(()), opened, audit, expected, profile, None),
        same_but_private(audit, later),
        later.closing.private_control is Ok,
        is_audit_verdict(ordinary, ordinary_opened, later, expected, profile, None),
        is_audit_verdict(publication, publication_opened, later, expected, profile, Some(marker)),
    ensures
        ({
            let private = later.closing.private_control->Ok_0@;
            let failed = Err::<(), RepositoryImportError>(RepositoryImportError::TargetAuditFailed);
            &&& is_marked(private, expected.private_control@, marker) ==> publication is Ok && ordinary == failed
            &&& namespaces_same(private, expected.private_control@) ==> publication == failed && ordinary is Ok
            &&& forall|i: int| #[trigger]
                first_named(private, marker, i) && (private[i].size != PUBLICATION_MARKER_BYTES || !(private[i].kind is File))
                    ==> publication == failed
        }),
{
    private_directory_decides(ordinary, ordinary_opened, later, opened, audit, expected, profile, None);
    private_directory_decides(publication, publication_opened, later, opened, audit, expected, profile, Some(marker));
    private_directories_differ(later.closing.private_control->Ok_0, audit, expected, marker);
}

} // verus!
