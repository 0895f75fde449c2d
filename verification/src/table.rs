//! Variable tables: ordered maps from names to values, kept in an
//! `indexmap::IndexMap` and seen by the contracts as a sequence of entries.

use indexmap::IndexMap;
use vstd::prelude::*;

verus! {

/// `indexmap::IndexMap`, of which nothing is seen but through the functions
/// of this file.
#[verifier::external_type_specification]
#[verifier::external_body]
#[verifier::reject_recursive_types(K)]
#[verifier::reject_recursive_types(V)]
#[verifier::reject_recursive_types(S)]
pub struct ExIndexMap<K, V, S>(IndexMap<K, V, S>);

/// What an `IndexMap` of texts holds: its entries as `(name, value)` pairs,
/// in the order of the map.
pub uninterp spec fn table_entries(table: IndexMap<String, String>) -> Seq<(Seq<char>, Seq<char>)>;

/// The position of the first entry named `name`, or `entries.len()`.
pub open spec fn position(entries: Seq<(Seq<char>, Seq<char>)>, name: Seq<char>) -> int
    decreases entries.len(),
{
    if entries.len() == 0 {
        0
    } else if entries[0].0 == name {
        0
    } else {
        1 + position(entries.skip(1), name)
    }
}

/// The value that `entries` gives to `name`.
pub open spec fn lookup(entries: Seq<(Seq<char>, Seq<char>)>, name: Seq<char>) -> Option<
    Seq<char>,
> {
    let at = position(entries, name);
    if at < entries.len() {
        Some(entries[at].1)
    } else {
        None
    }
}

/// `entries` after `name` is set to `value`: an entry of that name keeps its
/// place and takes the value, a new name goes to the end.
pub open spec fn put(
    entries: Seq<(Seq<char>, Seq<char>)>,
    name: Seq<char>,
    value: Seq<char>,
) -> Seq<(Seq<char>, Seq<char>)> {
    let at = position(entries, name);
    if at < entries.len() {
        entries.update(at, (name, value))
    } else {
        entries.push((name, value))
    }
}

/// Pairs entered in turn into a table: a name that occurs again takes the
/// later value in its first place.
pub open spec fn as_table(pairs: Seq<(Seq<char>, Seq<char>)>) -> Seq<(Seq<char>, Seq<char>)>
    decreases pairs.len(),
{
    if pairs.len() == 0 {
        Seq::empty()
    } else {
        put(as_table(pairs.drop_last()), pairs.last().0, pairs.last().1)
    }
}

/// No two entries have the same name.
pub open spec fn distinct_names(entries: Seq<(Seq<char>, Seq<char>)>) -> bool {
    forall|i: int, j: int|
        0 <= i < j < entries.len() ==> (#[trigger] entries[i]).0 != (#[trigger] entries[j]).0
}

/// `IndexMap::new`: a map without entries.
#[verifier::external_body]
pub(crate) fn table_new() -> (table: IndexMap<String, String>)
    ensures
        table_entries(table) == Seq::<(Seq<char>, Seq<char>)>::empty(),
{
    IndexMap::new()
}

/// `IndexMap::clone`: a map with the same entries in the same order.
#[verifier::external_body]
pub(crate) fn table_clone(table: &IndexMap<String, String>) -> (copy: IndexMap<String, String>)
    ensures
        table_entries(copy) == table_entries(*table),
{
    table.clone()
}

/// `IndexMap::len`: the number of entries.
#[verifier::external_body]
pub(crate) fn table_len(table: &IndexMap<String, String>) -> (n: usize)
    ensures
        n == table_entries(*table).len(),
{
    table.len()
}

/// `IndexMap::get_index`: the entry at `index` in the map's order, copied
/// out. Below the length there is one.
#[verifier::external_body]
pub(crate) fn table_entry(table: &IndexMap<String, String>, index: usize) -> (entry: (
    String,
    String,
))
    requires
        index < table_entries(*table).len(),
    ensures
        (entry.0@, entry.1@) == table_entries(*table)[index as int],
{
    let (name, value) = table.get_index(index).unwrap();
    (name.clone(), value.clone())
}

/// `IndexMap::get`: the value stored under `name`, if the map has that name.
#[verifier::external_body]
pub(crate) fn table_get<'a>(table: &'a IndexMap<String, String>, name: &str) -> (value: Option<
    &'a String,
>)
    ensures
        match value {
            Some(v) => lookup(table_entries(*table), name@) == Some(v@),
            None => lookup(table_entries(*table), name@) is None,
        },
{
    table.get(name)
}

/// `IndexMap::insert`: a name that the map has keeps its place and takes the
/// new value; a name that it lacks is added last.
#[verifier::external_body]
pub(crate) fn table_insert(table: &mut IndexMap<String, String>, name: String, value: String)
    ensures
        table_entries(*final(table)) == put(table_entries(*old(table)), name@, value@),
{
    table.insert(name, value);
}

} // verus!
