//! Keyed entries with map semantics: a vector of `(name, value)` pairs in
//! which inserting under a name already present replaces that entry's value
//! in place, and lookup finds the first entry with the name.

use vstd::prelude::*;

verus! {

/// The index of the first entry at or after `i` whose name is `key`.
pub open spec fn first_index_from<T>(entries: Seq<(String, T)>, key: Seq<char>, i: int) -> Option<int>
    decreases entries.len() - i,
{
    if i < 0 || i >= entries.len() {
        None
    } else if entries[i].0@ == key {
        Some(i)
    } else {
        first_index_from(entries, key, i + 1)
    }
}

/// The index of the first entry whose name is `key`.
pub open spec fn first_index<T>(entries: Seq<(String, T)>, key: Seq<char>) -> Option<int> {
    first_index_from(entries, key, 0)
}

/// The value stored under `key`.
pub open spec fn entry_value<T>(entries: Seq<(String, T)>, key: Seq<char>) -> Option<T> {
    match first_index(entries, key) {
        Some(j) => Some(entries[j].1),
        None => None,
    }
}

/// The entries after storing `value` under `key`: the entry that holds
/// `key` gets the new value in place; without one, a new entry goes last.
pub open spec fn insert_spec<T>(entries: Seq<(String, T)>, key: String, value: T) -> Seq<(String, T)> {
    match first_index(entries, key@) {
        Some(j) => entries.update(j, (key, value)),
        None => entries.push((key, value)),
    }
}

/// No two entries share a name, as in a map.
pub open spec fn names_unique<T>(entries: Seq<(String, T)>) -> bool {
    forall|i: int, j: int|
        #![trigger entries[i], entries[j]]
        0 <= i < j < entries.len() ==> entries[i].0@ != entries[j].0@
}

/// Storing under a name keeps names unique.
pub proof fn lemma_insert_keeps_names_unique<T>(entries: Seq<(String, T)>, key: String, value: T)
    requires
        names_unique(entries),
    ensures
        names_unique(insert_spec(entries, key, value)),
{
    let after = insert_spec(entries, key, value);
    lemma_first_index(entries, key@);
    match first_index(entries, key@) {
        Some(j) => {
            assert forall|a: int, b: int|
                #![trigger after[a], after[b]]
                0 <= a < b < after.len() implies after[a].0@ != after[b].0@ by {
                assert(entries[j].0@ == key@);
                if a != j && b != j {
                    assert(entries[a] == after[a] && entries[b] == after[b]);
                } else if a == j {
                    assert(entries[b] == after[b]);
                    assert(entries[a].0@ != entries[b].0@);
                } else {
                    assert(entries[a] == after[a]);
                    assert(entries[a].0@ != entries[b].0@);
                }
            }
        },
        None => {
            assert forall|a: int, b: int|
                #![trigger after[a], after[b]]
                0 <= a < b < after.len() implies after[a].0@ != after[b].0@ by {
                assert(entries[a] == after[a]);
                if b < entries.len() {
                    assert(entries[b] == after[b]);
                } else {
                    assert(entries[a].0@ != key@);
                }
            }
        },
    }
}

/// What `first_index_from` finds: an index of a matching entry, with no
/// match between `i` and it; or no match at all from `i` on.
pub proof fn lemma_first_index_from<T>(entries: Seq<(String, T)>, key: Seq<char>, i: int)
    requires
        0 <= i <= entries.len(),
    ensures
        match first_index_from(entries, key, i) {
            Some(j) => i <= j < entries.len() && entries[j].0@ == key && forall|k: int|
                i <= k < j ==> #[trigger] entries[k].0@ != key,
            None => forall|k: int| i <= k < entries.len() ==> #[trigger] entries[k].0@ != key,
        },
    decreases entries.len() - i,
{
    if i < entries.len() {
        lemma_first_index_from(entries, key, i + 1);
    }
}

/// A characterisation of `first_index` by the entries' names.
pub proof fn lemma_first_index<T>(entries: Seq<(String, T)>, key: Seq<char>)
    ensures
        match first_index(entries, key) {
            Some(j) => 0 <= j < entries.len() && entries[j].0@ == key && forall|k: int|
                0 <= k < j ==> #[trigger] entries[k].0@ != key,
            None => forall|k: int| 0 <= k < entries.len() ==> #[trigger] entries[k].0@ != key,
        },
{
    lemma_first_index_from(entries, key, 0);
}

/// Two entry sequences that agree on every name up to `j`, and whose names
/// from `j` on are not `key`, agree on where `key` first stands (scanning
/// from `i <= j`).
proof fn lemma_first_index_from_same_names<T>(
    a: Seq<(String, T)>,
    b: Seq<(String, T)>,
    key: Seq<char>,
    i: int,
)
    requires
        0 <= i <= a.len(),
        a.len() == b.len(),
        forall|k: int| 0 <= k < a.len() ==> #[trigger] a[k].0@ == b[k].0@,
    ensures
        first_index_from(a, key, i) == first_index_from(b, key, i),
    decreases a.len() - i,
{
    if i < a.len() {
        lemma_first_index_from_same_names(a, b, key, i + 1);
    }
}

/// Stores `value` under `key` in `entries`, as `HashMap::insert` does:
/// returns the value that was stored under `key` before, if any.
pub fn insert_entry<T>(entries: &mut Vec<(String, T)>, key: String, value: T) -> (previous: Option<T>)
    ensures
        final(entries)@ == insert_spec(old(entries)@, key, value),
        previous == entry_value(old(entries)@, key@),
        names_unique(old(entries)@) ==> names_unique(final(entries)@),
{
    proof {
        lemma_first_index(entries@, key@);
        if names_unique(entries@) {
            lemma_insert_keeps_names_unique(entries@, key, value);
        }
    }
    let mut i: usize = 0;
    while i < entries.len()
        invariant
            0 <= i <= entries.len(),
            entries@ == old(entries)@,
            forall|k: int| 0 <= k < i ==> #[trigger] entries@[k].0@ != key@,
        decreases entries.len() - i,
    {
        if entries[i].0 == key {
            proof {
                lemma_first_index(entries@, key@);
                assert(first_index(entries@, key@) == Some(i as int)) by {
                    match first_index(entries@, key@) {
                        Some(j) => {
                            if j < i {
                                assert(entries@[j].0@ != key@);
                            }
                            if j > i {
                                assert(entries@[i as int].0@ != key@);
                            }
                        },
                        None => {
                            assert(entries@[i as int].0@ != key@);
                        },
                    }
                }
            }
            let ghost before = entries@;
            let (_, old_value) = entries.remove(i);
            entries.insert(i, (key, value));
            assert(entries@ =~= before.update(i as int, (key, value)));
            return Some(old_value);
        }
        i = i + 1;
    }
    proof {
        lemma_first_index(entries@, key@);
        if first_index(entries@, key@) is Some {
            let j = first_index(entries@, key@)->0;
            assert(entries@[j].0@ != key@);
        }
    }
    entries.push((key, value));
    None
}

/// Reading back a stored name gives the value stored last.
pub proof fn lemma_insert_then_lookup<T>(entries: Seq<(String, T)>, key: String, value: T)
    ensures
        entry_value(insert_spec(entries, key, value), key@) == Some(value),
{
    let after = insert_spec(entries, key, value);
    lemma_first_index(entries, key@);
    lemma_first_index(after, key@);
    match first_index(entries, key@) {
        Some(j) => {
            assert(after[j].0@ == key@);
            match first_index(after, key@) {
                Some(m) => {
                    if m < j {
                        assert(after[m] == entries[m]);
                    }
                    if m > j {
                        assert(after[j].0@ != key@);
                    }
                },
                None => {
                    assert(after[j].0@ != key@);
                },
            }
        },
        None => {
            let n = entries.len() as int;
            assert(after[n].0@ == key@);
            match first_index(after, key@) {
                Some(m) => {
                    if m < n {
                        assert(after[m] == entries[m]);
                    }
                },
                None => {
                    assert(after[n].0@ != key@);
                },
            }
        },
    }
}

/// Storing under one name leaves what every other name reads unchanged.
pub proof fn lemma_insert_keeps_other_names<T>(
    entries: Seq<(String, T)>,
    key: String,
    value: T,
    other: Seq<char>,
)
    requires
        other != key@,
    ensures
        entry_value(insert_spec(entries, key, value), other) == entry_value(entries, other),
{
    let after = insert_spec(entries, key, value);
    lemma_first_index(entries, key@);
    match first_index(entries, key@) {
        Some(j) => {
            assert forall|k: int| 0 <= k < entries.len() implies #[trigger] entries[k].0@
                == after[k].0@ by {
                if k == j {
                    assert(entries[j].0@ == key@);
                }
            }
            lemma_first_index_from_same_names(entries, after, other, 0);
            lemma_first_index(entries, other);
            if first_index(entries, other) is Some {
                let m = first_index(entries, other)->0;
                assert(m != j);
            }
        },
        None => {
            lemma_first_index(entries, other);
            lemma_first_index(after, other);
            let n = entries.len() as int;
            match first_index(entries, other) {
                Some(m) => {
                    assert(after[m] == entries[m]);
                    match first_index(after, other) {
                        Some(m2) => {
                            if m2 < m {
                                assert(after[m2] == entries[m2]);
                            }
                            if m2 > m {
                                assert(after[m].0@ != other);
                            }
                        },
                        None => {
                            assert(after[m].0@ != other);
                        },
                    }
                },
                None => {
                    match first_index(after, other) {
                        Some(m2) => {
                            if m2 < n {
                                assert(after[m2] == entries[m2]);
                            } else {
                                assert(after[n].0@ == key@);
                            }
                        },
                        None => {},
                    }
                },
            }
        },
    }
}

} // verus!
