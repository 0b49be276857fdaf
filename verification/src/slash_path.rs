//! What joining a path to its slash form keeps.

use crate::bytes::split_pieces;
use crate::git_output::dot;
use crate::namespace::{all_named, joined_names, PathPart};
use crate::path_components::{name_bytes, single_piece};
use crate::path_parents::{has_slash_form, joined_parts, names_something, part_facts, slash_form};
use crate::portable_path::{DOT, SLASH};
use crate::source_endpoints::{kept_parts, path_parts};
use crate::text::encoding_of_concat;
use crate::tree_path::plain_at;
use crate::tree_place::{are_names, joined_facts, names_are_kept};
use vstd::prelude::*;
use vstd::string::*;
use vstd::utf8::{encode_utf8, is_ascii_chars_encode_utf8};

verus! {

/// The slash form of a path has the same components, and is its own slash form.
pub proof fn slash_form_is_stable(path: Seq<u8>)
    requires
        has_slash_form(path),
    ensures
        path_parts(slash_form(path)) == path_parts(path),
        has_slash_form(slash_form(path)),
        slash_form(slash_form(path)) == slash_form(path),
{
    let parts = path_parts(path);
    let n = parts.len() as int;
    let form = slash_form(path);
    assert(are_names(parts, n)) by {
        assert forall|k: int| 0 <= k < n implies (#[trigger] parts[k]).len() > 0 && !parts[k].contains(SLASH)
            && names_something(parts[k]) by {
            part_facts(path, k);
        }
    }
    if n == 0 {
        empty_path_is_its_own_form();
        assert(form =~= Seq::<u8>::empty());
        assert(parts =~= path_parts(form));
    } else {
        joined_facts(parts, n);
        assert(parts.subrange(0, n) =~= parts);
        names_are_kept(parts, n);
        assert(path_parts(form) == parts);
        assert(plain_at(form, 0));
    }
}

/// The empty path has no component, and is its own slash form.
pub proof fn empty_path_is_its_own_form()
    ensures
        path_parts(Seq::<u8>::empty()).len() == 0,
        has_slash_form(Seq::<u8>::empty()),
        slash_form(Seq::<u8>::empty()) == Seq::<u8>::empty(),
{
    let none = Seq::<u8>::empty();
    single_piece(none, SLASH);
    assert(split_pieces(none, SLASH) == seq![none]);
    assert(kept_parts(seq![none], 0).len() == 0);
    assert(kept_parts(seq![none], 1) == kept_parts(seq![none], 0));
}

/// A path that begins at the root, or that has `..` or a leading `.` among its components, has no slash form.
pub proof fn other_paths_have_no_slash_form(path: Seq<u8>, k: int)
    requires
        (path.len() > 0 && path[0] == SLASH) || (0 <= k < path_parts(path).len() && (path_parts(path)[k] == dot()
            || path_parts(path)[k] == seq![DOT, DOT])),
    ensures
        !has_slash_form(path),
{
    if !(path.len() > 0 && path[0] == SLASH) {
        assert(!names_something(path_parts(path)[k]));
    }
}

/// Names that are the components of a path are joined to the slash form of the path.
pub proof fn names_join_to_the_slash_form(parts: Seq<PathPart>, path: Seq<u8>)
    requires
        all_named(parts),
        name_bytes(parts) == path_parts(path),
    ensures
        encode_utf8(joined_names(parts, parts.len() as int)) == slash_form(path),
{
    assert(name_bytes(parts).len() == parts.len());
    names_join_alike(parts, path_parts(path), parts.len() as int);
}

proof fn names_join_alike(parts: Seq<PathPart>, names: Seq<Seq<u8>>, n: int)
    requires
        0 <= n <= parts.len(),
        name_bytes(parts) == names,
    ensures
        encode_utf8(joined_names(parts, n)) == joined_parts(names, n),
    decreases n,
{
    if n <= 0 {
        assert(encode_utf8(joined_names(parts, n)) =~= Seq::<u8>::empty());
    } else {
        names_join_alike(parts, names, n - 1);
        let last = parts[n - 1]->Normal_0->0@;
        assert(names[n - 1] == encode_utf8(last));
        if n > 1 {
            let before = joined_names(parts, n - 1);
            reveal_strlit("/");
            is_ascii_chars_encode_utf8("/"@);
            assert(encode_utf8("/"@) =~= seq![SLASH]);
            encoding_of_concat(before, "/"@);
            encoding_of_concat(before + "/"@, last);
        }
    }
}

} // verus!
