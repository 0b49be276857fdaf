//! Walks through directories, depth first, as sequences of events.

use crate::revalidation::child_path;
use vstd::prelude::*;
use vstd::string::*;
use vstd::utf8::encode_utf8;

verus! {

/// One event of a walk.
pub enum TreeEvent<C> {
    /// A name in the directory that was entered last and not left yet, and what stood under it. A name
    /// that is no text is missing.
    Child { name: Option<String>, child: C },
    /// The end of that directory, which still is what it was, or not.
    Leave { holds: bool },
}

/// What a walk meets under a name.
pub trait Entered {
    /// The walk goes on inside it. `parent` is the path of the directory that it stands in.
    spec fn entered(&self, parent: Seq<u8>, name: Seq<char>) -> bool;
}

/// The paths of the directories that are open before event `n`, the root first.
pub open spec fn open_directories<C: Entered>(events: Seq<TreeEvent<C>>, n: int) -> Seq<Seq<u8>>
    decreases n,
{
    if n <= 0 {
        seq![Seq::<u8>::empty()]
    } else {
        let before = open_directories(events, n - 1);
        match events[n - 1] {
            TreeEvent::Child { name: Some(name), child } => if child.entered(before.last(), name@) {
                before.push(child_path(before.last(), encode_utf8(name@)))
            } else {
                before
            },
            TreeEvent::Child { .. } => before,
            TreeEvent::Leave { .. } => if before.len() > 0 {
                before.drop_last()
            } else {
                before
            },
        }
    }
}

/// The path of the directory that event `i` happens in.
pub open spec fn event_parent<C: Entered>(events: Seq<TreeEvent<C>>, i: int) -> Seq<u8> {
    open_directories(events, i).last()
}

/// The name in event `i`.
pub open spec fn event_name<C>(events: Seq<TreeEvent<C>>, i: int) -> Seq<char> {
    events[i]->name->Some_0@
}

/// The path that event `i` names.
pub open spec fn event_path<C: Entered>(events: Seq<TreeEvent<C>>, i: int) -> Seq<u8> {
    child_path(event_parent(events, i), encode_utf8(event_name(events, i)))
}

/// Event `i` names something.
pub open spec fn names_child<C>(events: Seq<TreeEvent<C>>, i: int) -> bool {
    0 <= i < events.len() && events[i] is Child && events[i]->name is Some
}

/// Event `i` names a path.
pub open spec fn names_path<C: Entered>(events: Seq<TreeEvent<C>>, path: Seq<u8>, i: int) -> bool {
    names_child(events, i) && event_path(events, i) == path
}

/// The bytes of the paths that the first `n` events name.
pub open spec fn named_bytes<C: Entered>(events: Seq<TreeEvent<C>>, n: int) -> nat
    decreases n,
{
    if n <= 0 {
        0
    } else {
        named_bytes(events, n - 1) + if names_child(events, n - 1) {
            event_path(events, n - 1).len()
        } else {
            0nat
        }
    }
}

/// How many of the first `n` events are about a child.
pub open spec fn children_before<C>(events: Seq<TreeEvent<C>>, n: int) -> nat
    decreases n,
{
    if n <= 0 {
        0
    } else {
        children_before(events, n - 1) + if events[n - 1] is Child {
            1
        } else {
            0nat
        }
    }
}

/// The walk goes on inside what event `i` is about.
pub open spec fn enters_child<C: Entered>(events: Seq<TreeEvent<C>>, i: int) -> bool {
    names_child(events, i) && events[i]->child.entered(event_parent(events, i), event_name(events, i))
}

/// The root, or a directory that one of the first `n` events enters.
pub open spec fn entered_before<C: Entered>(events: Seq<TreeEvent<C>>, path: Seq<u8>, n: int) -> bool {
    path.len() == 0 || exists|j: int| j < n && #[trigger] enters_child(events, j) && event_path(events, j) == path
}

/// Every directory that is open is the root or was entered.
pub proof fn open_directories_were_entered<C: Entered>(events: Seq<TreeEvent<C>>, n: int, k: int)
    requires
        n <= events.len(),
        0 <= k < open_directories(events, n).len(),
    ensures
        entered_before(events, open_directories(events, n)[k], n),
    decreases n,
{
    if n > 0 {
        let before = open_directories(events, n - 1);
        let path = open_directories(events, n)[k];
        if k < before.len() && path == before[k] {
            open_directories_were_entered(events, n - 1, k);
            if path.len() > 0 {
                let j = choose|j: int| j < n - 1 && #[trigger] enters_child(events, j) && event_path(events, j) == path;
                assert(enters_child(events, j) && event_path(events, j) == path);
            }
        } else {
            assert(enters_child(events, n - 1) && event_path(events, n - 1) == path);
        }
    }
}

} // verus!
