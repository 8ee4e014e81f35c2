//! Lists of named things that keep the order in which the names first came.
//!
//! Putting a thing under a name that is already taken replaces what was
//! there and keeps its place, so what such a list holds never depends on
//! anything but the order of the calls that filled it.

use vstd::prelude::*;

verus! {

/// The names of a list's entries, in order.
pub open spec fn names_of<V>(entries: Seq<(Seq<char>, V)>) -> Seq<Seq<char>> {
    Seq::new(entries.len(), |i: int| entries[i].0)
}

/// Whether no name is there twice.
pub open spec fn unique_names<V>(entries: Seq<(Seq<char>, V)>) -> bool {
    names_of(entries).no_duplicates()
}

/// The list after `value` was put under `name`: in the place of the entry
/// of that name if there is one, at the end otherwise.
pub open spec fn upsert<V>(entries: Seq<(Seq<char>, V)>, name: Seq<char>, value: V) -> Seq<
    (Seq<char>, V),
> {
    if names_of(entries).contains(name) {
        entries.update(names_of(entries).index_of(name), (name, value))
    } else {
        entries.push((name, value))
    }
}

/// Putting a value under a name keeps the names unique, keeps every other
/// entry in its place, and leaves exactly one entry of that name, which
/// holds the value.
pub proof fn lemma_upsert<V>(entries: Seq<(Seq<char>, V)>, name: Seq<char>, value: V)
    requires
        unique_names(entries),
    ensures
        unique_names(upsert(entries, name, value)),
        names_of(upsert(entries, name, value)).contains(name),
        upsert(entries, name, value)[names_of(upsert(entries, name, value)).index_of(name)] == (
            name,
            value,
        ),
        forall|i: int|
            0 <= i < entries.len() && entries[i].0 != name ==> #[trigger] upsert(
                entries,
                name,
                value,
            )[i] == entries[i],
        names_of(entries).contains(name) ==> names_of(upsert(entries, name, value)) == names_of(
            entries,
        ),
        !names_of(entries).contains(name) ==> names_of(upsert(entries, name, value)) == names_of(
            entries,
        ).push(name),
{
    let names = names_of(entries);
    let after = upsert(entries, name, value);
    if names.contains(name) {
        assert(names_of(after) =~= names);
    } else {
        let at = entries.len() as int;
        assert(names_of(after)[at] == name);
        assert forall|i: int, j: int|
            0 <= i < names_of(after).len() && 0 <= j < names_of(after).len() && i
                != j implies names_of(after)[i] != names_of(after)[j] by {
            if i < at {
                assert(names[i] == names_of(after)[i]);
            }
            if j < at {
                assert(names[j] == names_of(after)[j]);
            }
        }
    }
}

/// An entry as the list's model sees it: the name by its characters.
pub open spec fn entry_view<V>(entry: (String, V)) -> (Seq<char>, V) {
    (entry.0@, entry.1)
}

/// The entries as the list's model sees them.
pub open spec fn entries_view<V>(entries: Seq<(String, V)>) -> Seq<(Seq<char>, V)> {
    Seq::new(entries.len(), |i: int| entry_view(entries[i]))
}

/// The place of the entry called `name`, if there is one.
pub fn find_name<V>(entries: &Vec<(String, V)>, name: &String) -> (place: Option<usize>)
    requires
        unique_names(entries_view(entries@)),
    ensures
        place is Some <==> names_of(entries_view(entries@)).contains(name@),
        place matches Some(at) ==> at == names_of(entries_view(entries@)).index_of(name@),
{
    let ghost names = names_of(entries_view(entries@));
    let mut i: usize = 0;
    while i < entries.len()
        invariant
            i <= entries@.len(),
            names == names_of(entries_view(entries@)),
            names.no_duplicates(),
            forall|k: int| 0 <= k < i ==> names[k] != name@,
        decreases entries@.len() - i,
    {
        if entries[i].0 == *name {
            assert(names[i as int] == name@);
            return Some(i);
        }
        i += 1;
    }
    None
}

/// Puts `value` under `name`, in the place of the entry of that name if
/// there is one and at the end otherwise.
pub fn upsert_entry<V>(entries: &mut Vec<(String, V)>, name: String, value: V)
    requires
        unique_names(entries_view(old(entries)@)),
    ensures
        unique_names(entries_view(final(entries)@)),
        entries_view(final(entries)@) == upsert(entries_view(old(entries)@), name@, value),
{
    proof {
        lemma_upsert(entries_view(entries@), name@, value);
    }
    match find_name(entries, &name) {
        Some(at) => {
            entries.set(at, (name, value));
        },
        None => {
            entries.push((name, value));
        },
    }
    assert(entries_view(entries@) =~= upsert(entries_view(old(entries)@), name@, value));
}

} // verus!
