//! A JSON document model: an executable tree (`JsonValue`) and its
//! mathematical view (`JsonView`), with key lookup in objects.

use vstd::prelude::*;

verus! {

/// The mathematical form of a JSON document: text is a sequence of
/// characters, arrays are sequences, objects are sequences of key/value
/// pairs in their stored order.
pub enum JsonView {
    Null,
    Bool(bool),
    /// A number, held by its decimal text.
    Number(Seq<char>),
    Str(Seq<char>),
    Array(Seq<JsonView>),
    Object(Seq<(Seq<char>, JsonView)>),
}

/// A JSON document. Numbers are held by their decimal text, since nothing
/// here computes with them; object entries keep their order.
pub enum JsonValue {
    Null,
    Bool(bool),
    Number(String),
    Str(String),
    Array(Vec<JsonValue>),
    Object(Vec<(String, JsonValue)>),
}

/// The views of the first `n` items of `items`.
pub open spec fn items_view(items: Seq<JsonValue>, n: int) -> Seq<JsonView>
    decreases items, n,
{
    if n <= 0 || n > items.len() {
        Seq::empty()
    } else {
        items_view(items, n - 1).push(items[n - 1].view_json())
    }
}

/// The views of the first `n` entries of `entries`.
pub open spec fn entries_view(entries: Seq<(String, JsonValue)>, n: int) -> Seq<(Seq<char>, JsonView)>
    decreases entries, n,
{
    if n <= 0 || n > entries.len() {
        Seq::empty()
    } else {
        entries_view(entries, n - 1).push((entries[n - 1].0@, entries[n - 1].1.view_json()))
    }
}

impl JsonValue {
    pub open spec fn view_json(self) -> JsonView
        decreases self, 0int,
    {
        match self {
            JsonValue::Null => JsonView::Null,
            JsonValue::Bool(b) => JsonView::Bool(b),
            JsonValue::Number(t) => JsonView::Number(t@),
            JsonValue::Str(s) => JsonView::Str(s@),
            JsonValue::Array(items) => JsonView::Array(items_view(items@, items@.len() as int)),
            JsonValue::Object(entries) => JsonView::Object(
                entries_view(entries@, entries@.len() as int),
            ),
        }
    }
}

impl View for JsonValue {
    type V = JsonView;

    open spec fn view(&self) -> JsonView {
        self.view_json()
    }
}

/// The value stored under `key` in `entries`, searching from index `i`
/// onwards; the first entry with that key wins.
pub open spec fn lookup_from(entries: Seq<(Seq<char>, JsonView)>, key: Seq<char>, i: int) -> Option<JsonView>
    decreases entries.len() - i,
{
    if i < 0 || i >= entries.len() {
        None
    } else if entries[i].0 == key {
        Some(entries[i].1)
    } else {
        lookup_from(entries, key, i + 1)
    }
}

/// The value stored under `key` in an object's entries (the first entry
/// with that key).
pub open spec fn lookup(entries: Seq<(Seq<char>, JsonView)>, key: Seq<char>) -> Option<JsonView> {
    lookup_from(entries, key, 0)
}

/// No two entries of an object share a key.
pub open spec fn keys_unique(entries: Seq<(Seq<char>, JsonView)>) -> bool {
    forall|i: int, j: int|
        #![trigger entries[i], entries[j]]
        0 <= i < j < entries.len() ==> entries[i].0 != entries[j].0
}

/// `data.get(key)`: for an object, the value under `key`; for any other
/// document, nothing.
pub open spec fn get_spec(data: JsonView, key: Seq<char>) -> Option<JsonView> {
    match data {
        JsonView::Object(entries) => lookup(entries, key),
        _ => None,
    }
}

/// Lookup finds the first entry with the key: a found value sits in an
/// entry with that key, and no earlier entry has it; nothing is found only
/// when no entry has the key.
pub proof fn lemma_lookup_first(entries: Seq<(Seq<char>, JsonView)>, key: Seq<char>)
    ensures
        match lookup(entries, key) {
            Some(v) => exists|i: int|
                0 <= i < entries.len() && #[trigger] entries[i] == (key, v) && forall|j: int|
                    0 <= j < i ==> #[trigger] entries[j].0 != key,
            None => forall|j: int| 0 <= j < entries.len() ==> #[trigger] entries[j].0 != key,
        },
{
    lemma_lookup_from_first(entries, key, 0);
}

proof fn lemma_lookup_from_first(entries: Seq<(Seq<char>, JsonView)>, key: Seq<char>, i: int)
    requires
        0 <= i <= entries.len(),
    ensures
        match lookup_from(entries, key, i) {
            Some(v) => exists|m: int|
                i <= m < entries.len() && #[trigger] entries[m] == (key, v) && forall|j: int|
                    i <= j < m ==> #[trigger] entries[j].0 != key,
            None => forall|j: int| i <= j < entries.len() ==> #[trigger] entries[j].0 != key,
        },
    decreases entries.len() - i,
{
    if i < entries.len() {
        lemma_lookup_from_first(entries, key, i + 1);
        if entries[i].0 == key {
            assert(entries[i] == (key, entries[i].1));
        } else {
            match lookup_from(entries, key, i + 1) {
                Some(v) => {
                    let m = choose|m: int|
                        i + 1 <= m < entries.len() && #[trigger] entries[m] == (key, v) && forall|
                            j: int,
                        |
                            i + 1 <= j < m ==> #[trigger] entries[j].0 != key;
                    assert(entries[m] == (key, v));
                },
                None => {},
            }
        }
    }
}

/// The view of a prefix grows by one entry at a time.
pub proof fn lemma_entries_view_len(entries: Seq<(String, JsonValue)>, n: int)
    requires
        0 <= n <= entries.len(),
    ensures
        entries_view(entries, n).len() == n,
        forall|j: int|
            0 <= j < n ==> #[trigger] entries_view(entries, n)[j] == (
                entries[j].0@,
                entries[j].1.view_json(),
            ),
    decreases n,
{
    if n > 0 {
        lemma_entries_view_len(entries, n - 1);
    }
}

impl JsonValue {
    /// `data.is_object()`.
    pub fn is_object(&self) -> (b: bool)
        ensures
            b == (self@ is Object),
    {
        match self {
            JsonValue::Object(_) => true,
            _ => false,
        }
    }

    /// `data.is_string()`.
    pub fn is_string(&self) -> (b: bool)
        ensures
            b == (self@ is Str),
    {
        match self {
            JsonValue::Str(_) => true,
            _ => false,
        }
    }

    /// `data.get(key)`: the value under `key` when `self` is an object that
    /// holds it (the first such entry), else `None`.
    pub fn get(&self, key: &String) -> (r: Option<&JsonValue>)
        ensures
            match r {
                Some(v) => get_spec(self@, key@) == Some(v@),
                None => get_spec(self@, key@) is None,
            },
    {
        match self {
            JsonValue::Object(entries) => {
                proof {
                    lemma_entries_view_len(entries@, entries@.len() as int);
                }
                let ghost ev = entries_view(entries@, entries@.len() as int);
                assert(self@ == JsonView::Object(ev));
                let mut i: usize = 0;
                while i < entries.len()
                    invariant
                        0 <= i <= entries.len(),
                        ev == entries_view(entries@, entries@.len() as int),
                        ev.len() == entries.len(),
                        self@ == JsonView::Object(ev),
                        forall|j: int|
                            0 <= j < entries.len() ==> #[trigger] ev[j] == (
                                entries@[j].0@,
                                entries@[j].1.view_json(),
                            ),
                        lookup(ev, key@) == lookup_from(ev, key@, i as int),
                    decreases entries.len() - i,
                {
                    if entries[i].0 == *key {
                        assert(ev[i as int].0 == key@);
                        assert(lookup_from(ev, key@, i as int) == Some(ev[i as int].1));
                        return Some(&entries[i].1);
                    }
                    assert(ev[i as int].0 != key@);
                    i = i + 1;
                }
                None
            },
            _ => None,
        }
    }
}

} // verus!
