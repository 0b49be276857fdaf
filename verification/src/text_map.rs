//! Maps from texts to values, kept in ascending order of the texts' bytes.

use crate::bytes::{bytes_equal, bytes_less, lex_less, lex_less_irreflexive, lex_less_transitive, lex_less_trichotomy};
use crate::text::encoding_is_injective;
use vstd::prelude::*;
use vstd::string::*;
use vstd::utf8::encode_utf8;

verus! {

/// One key with its value.
pub struct TextEntry<V> {
    pub key: String,
    pub value: V,
}

/// A map whose entries stand in strictly ascending order of their keys' bytes.
pub struct TextMap<V> {
    pub entries: Vec<TextEntry<V>>,
}

/// Keys in strictly ascending order.
pub open spec fn keys_ascend<V>(entries: Seq<TextEntry<V>>) -> bool {
    forall|i: int, j: int|
        0 <= i < j < entries.len() ==> lex_less(
            encode_utf8(#[trigger] entries[i].key@),
            encode_utf8(#[trigger] entries[j].key@),
        )
}

/// Some entry has this key.
pub open spec fn has_key<V>(entries: Seq<TextEntry<V>>, key: Seq<char>) -> bool {
    exists|i: int| 0 <= i < entries.len() && (#[trigger] entries[i]).key@ == key
}

/// The place of a key that some entry has.
pub open spec fn key_index<V>(entries: Seq<TextEntry<V>>, key: Seq<char>) -> int {
    choose|i: int| 0 <= i < entries.len() && (#[trigger] entries[i]).key@ == key
}

impl<V> TextMap<V> {
    /// The entries are in order.
    pub open spec fn wf(self) -> bool {
        keys_ascend(self.entries@)
    }
}

impl<V> View for TextMap<V> {
    type V = Map<Seq<char>, V>;

    open spec fn view(&self) -> Map<Seq<char>, V> {
        Map::new(
            |key: Seq<char>| has_key(self.entries@, key),
            |key: Seq<char>| self.entries@[key_index(self.entries@, key)].value,
        )
    }
}

/// A key stands in one place only.
pub proof fn key_is_unique<V>(entries: Seq<TextEntry<V>>, i: int, j: int)
    requires
        keys_ascend(entries),
        0 <= i < entries.len(),
        0 <= j < entries.len(),
        entries[i].key@ == entries[j].key@,
    ensures
        i == j,
{
    lex_less_irreflexive(encode_utf8(entries[i].key@));
    if i < j {
        assert(lex_less(encode_utf8(entries[i].key@), encode_utf8(entries[j].key@)));
    } else if j < i {
        assert(lex_less(encode_utf8(entries[j].key@), encode_utf8(entries[i].key@)));
    }
}

/// Every entry is in the map under its key.
pub proof fn entry_in_view<V>(map: TextMap<V>, i: int)
    requires
        map.wf(),
        0 <= i < map.entries@.len(),
    ensures
        map@.dom().contains(map.entries@[i].key@),
        map@[map.entries@[i].key@] == map.entries@[i].value,
{
    let key = map.entries@[i].key@;
    assert(has_key(map.entries@, key));
    let j = key_index(map.entries@, key);
    key_is_unique(map.entries@, i, j);
}

impl<V> TextMap<V> {
    /// A map without entries.
    pub fn new() -> (map: TextMap<V>)
        ensures
            map.wf(),
            map.entries@.len() == 0,
            map@ == Map::<Seq<char>, V>::empty(),
    {
        let map = TextMap { entries: Vec::new() };
        assert(map@ =~= Map::<Seq<char>, V>::empty());
        map
    }

    /// How many keys the map has.
    pub fn len(&self) -> (n: usize)
        ensures
            n == self.entries@.len(),
    {
        self.entries.len()
    }

    /// The place of a key, or the place where it would stand.
    pub fn search(&self, key: &str) -> (r: Result<usize, usize>)
        requires
            self.wf(),
        ensures
            r is Ok <==> self@.dom().contains(key@),
            r matches Ok(i) ==> i < self.entries@.len() && self.entries@[i as int].key@ == key@ && self@[key@]
                == self.entries@[i as int].value,
            r matches Err(i) ==> {
                &&& i <= self.entries@.len()
                &&& forall|k: int| 0 <= k < i ==> lex_less(encode_utf8(#[trigger] self.entries@[k].key@), key.spec_bytes())
                &&& forall|k: int|
                    i <= k < self.entries@.len() ==> lex_less(key.spec_bytes(), encode_utf8(#[trigger] self.entries@[k].key@))
            },
    {
        let mut low: usize = 0;
        let mut high: usize = self.entries.len();
        while low < high
            invariant
                self.wf(),
                low <= high <= self.entries@.len(),
                forall|k: int| 0 <= k < low ==> lex_less(encode_utf8(#[trigger] self.entries@[k].key@), key.spec_bytes()),
                forall|k: int|
                    high <= k < self.entries@.len() ==> lex_less(
                        key.spec_bytes(),
                        encode_utf8(#[trigger] self.entries@[k].key@),
                    ),
            decreases high - low,
        {
            let middle: usize = low + (high - low) / 2;
            let candidate = self.entries[middle].key.as_str().as_bytes();
            if bytes_equal(candidate, key.as_bytes()) {
                proof {
                    encoding_is_injective(self.entries@[middle as int].key@, key@);
                    entry_in_view(*self, middle as int);
                }
                return Ok(middle);
            }
            if bytes_less(candidate, key.as_bytes()) {
                assert forall|k: int| 0 <= k < middle + 1 implies lex_less(
                    encode_utf8(#[trigger] self.entries@[k].key@),
                    key.spec_bytes(),
                ) by {
                    if k < middle {
                        lex_less_transitive(encode_utf8(self.entries@[k].key@), candidate@, key.spec_bytes());
                    }
                }
                low = middle + 1;
            } else {
                proof {
                    lex_less_trichotomy(candidate@, key.spec_bytes());
                }
                assert forall|k: int| middle <= k < self.entries@.len() implies lex_less(
                    key.spec_bytes(),
                    encode_utf8(#[trigger] self.entries@[k].key@),
                ) by {
                    if k > middle {
                        lex_less_transitive(key.spec_bytes(), candidate@, encode_utf8(self.entries@[k].key@));
                    }
                }
                high = middle;
            }
        }
        proof {
            if self@.dom().contains(key@) {
                let k = key_index(self.entries@, key@);
                lex_less_irreflexive(key.spec_bytes());
                if k < low {
                    assert(lex_less(encode_utf8(self.entries@[k].key@), key.spec_bytes()));
                } else {
                    assert(lex_less(key.spec_bytes(), encode_utf8(self.entries@[k].key@)));
                }
            }
        }
        Err(low)
    }

    /// The value under a key.
    pub fn get(&self, key: &str) -> (r: Option<&V>)
        requires
            self.wf(),
        ensures
            r is Some <==> self@.dom().contains(key@),
            r matches Some(value) ==> *value == self@[key@],
    {
        match self.search(key) {
            Ok(i) => Some(&self.entries[i].value),
            Err(_) => None,
        }
    }

    /// Whether the map has a key.
    pub fn contains(&self, key: &str) -> (r: bool)
        requires
            self.wf(),
        ensures
            r == self@.dom().contains(key@),
    {
        match self.search(key) {
            Ok(_) => true,
            Err(_) => false,
        }
    }

    /// Add a key that the map does not have; a key that it has stays with its value.
    pub fn insert_new(&mut self, key: String, value: V) -> (inserted: bool)
        requires
            old(self).wf(),
        ensures
            final(self).wf(),
            inserted == !old(self)@.dom().contains(key@),
            inserted ==> final(self)@ == old(self)@.insert(key@, value) && final(self).entries@.len()
                == old(self).entries@.len() + 1,
            !inserted ==> *final(self) == *old(self),
    {
        match self.search(key.as_str()) {
            Ok(_) => false,
            Err(at) => {
                let ghost before = self.entries@;
                let ghost text = key@;
                let ghost item = value;
                self.entries.insert(at, TextEntry { key, value });
                proof {
                    let after = self.entries@;
                    assert forall|i: int, j: int| 0 <= i < j < after.len() implies lex_less(
                        encode_utf8(#[trigger] after[i].key@),
                        encode_utf8(#[trigger] after[j].key@),
                    ) by {
                        let oi = if i < at { i } else { i - 1 };
                        let oj = if j < at { j } else { j - 1 };
                        if i != at {
                            assert(after[i] == before[oi]);
                        }
                        if j != at {
                            assert(after[j] == before[oj]);
                        }
                        if i != at && j != at {
                            assert(lex_less(encode_utf8(before[oi].key@), encode_utf8(before[oj].key@)));
                        } else if i == at {
                            assert(lex_less(encode_utf8(text), encode_utf8(before[oj].key@)));
                        } else {
                            assert(lex_less(encode_utf8(before[oi].key@), encode_utf8(text)));
                        }
                    }
                    inserted_view(*old(self), *self, at as int, text, item);
                }
                true
            },
        }
    }
}

proof fn inserted_view<V>(before: TextMap<V>, after: TextMap<V>, at: int, key: Seq<char>, value: V)
    requires
        before.wf(),
        after.wf(),
        0 <= at <= before.entries@.len(),
        after.entries@.len() == before.entries@.len() + 1,
        after.entries@[at].key@ == key,
        after.entries@[at].value == value,
        forall|i: int| 0 <= i < at ==> after.entries@[i] == before.entries@[i],
        forall|i: int| at <= i < before.entries@.len() ==> after.entries@[i + 1] == before.entries@[i],
        !before@.dom().contains(key),
    ensures
        after@ == before@.insert(key, value),
{
    entry_in_view(after, at);
    assert forall|k: Seq<char>| #[trigger] after@.dom().contains(k) == before@.insert(key, value).dom().contains(k) by {
        if after@.dom().contains(k) && k != key {
            let i = key_index(after.entries@, k);
            if i < at {
                assert(before.entries@[i].key@ == k);
            } else {
                assert(before.entries@[i - 1].key@ == k);
            }
        }
        if before@.dom().contains(k) {
            let i = key_index(before.entries@, k);
            if i < at {
                assert(after.entries@[i].key@ == k);
            } else {
                assert(after.entries@[i + 1].key@ == k);
            }
        }
    }
    assert forall|k: Seq<char>| after@.dom().contains(k) implies #[trigger] after@[k] == before@.insert(key, value)[k] by {
        if k != key {
            assert(before@.insert(key, value).dom().contains(k));
            assert(before@.dom().contains(k));
            let i = key_index(before.entries@, k);
            if i < at {
                assert(after.entries@[i].key@ == k);
                entry_in_view(after, i);
            } else {
                assert(after.entries@[i + 1].key@ == k);
                entry_in_view(after, i + 1);
            }
            entry_in_view(before, i);
        }
    }
    assert(after@ =~= before@.insert(key, value));
}

/// Entries with the same keys at the same places have the same domain.
pub proof fn same_keys_in_order<A, B>(a: TextMap<A>, b: TextMap<B>)
    requires
        b.wf(),
        a.entries@.len() == b.entries@.len(),
        forall|k: int| 0 <= k < a.entries@.len() ==> (#[trigger] a.entries@[k]).key@ == b.entries@[k].key@,
    ensures
        a.wf(),
        a@.dom() == b@.dom(),
{
    assert forall|i: int, j: int| 0 <= i < j < a.entries@.len() implies lex_less(
        encode_utf8(#[trigger] a.entries@[i].key@),
        encode_utf8(#[trigger] a.entries@[j].key@),
    ) by {
        assert(lex_less(encode_utf8(b.entries@[i].key@), encode_utf8(b.entries@[j].key@)));
    }
    assert forall|path: Seq<char>| #[trigger] a@.dom().contains(path) == b@.dom().contains(path) by {
        if a@.dom().contains(path) {
            let k = key_index(a.entries@, path);
            assert(b.entries@[k].key@ == path);
        }
        if b@.dom().contains(path) {
            let k = key_index(b.entries@, path);
            assert(a.entries@[k].key@ == path);
        }
    }
    assert(a@.dom() =~= b@.dom());
}

} // verus!
