//! What holds of the resolution engine as a whole, proved from the
//! definitions that the contracts of its functions use.

use crate::cast::bool_prefix;
use crate::cast::cast_items;
use crate::cast::cast_members;
use crate::cast::cast_value;
use crate::cast::number_prefix;
use crate::config::ConfigView;
use crate::config::RequestView;
use crate::config::duplicate_from;
use crate::config::duplicate_name;
use crate::error::Fault;
use crate::expansion::expanded_items;
use crate::expansion::expanded_members;
use crate::expansion::expanded_value;
use crate::placeholder::expanded;
use crate::placeholder::placeholder_names;
use crate::placeholder::placeholder_text;
use crate::placeholder::substitute_from;
use crate::resolve::cast_request;
use crate::resolve::expanded_and_cast;
use crate::resolve::expanded_definitions_from;
use crate::resolve::expanded_pair;
use crate::resolve::request_table;
use crate::resolve::resolved;
use crate::resolve::resolved_request;
use crate::resolve::try_map;
use crate::table::distinct_names;
use crate::table::lookup;
use crate::table::position;
use crate::table::put;
use crate::text::has_prefix;
use crate::text::replace_all;
use crate::value::Json;
use crate::value::Member;
use crate::variables::compile_from;
use crate::variables::compiled;
use vstd::prelude::*;

verus! {

/// Whether `entries` has an entry named `name`.
pub open spec fn defines(entries: Seq<(Seq<char>, Seq<char>)>, name: Seq<char>) -> bool {
    exists|i: int| 0 <= i < entries.len() && (#[trigger] entries[i]).0 == name
}

/// `position` finds the first entry of the name, and the end where there is
/// none.
pub proof fn lemma_position(entries: Seq<(Seq<char>, Seq<char>)>, name: Seq<char>)
    ensures
        0 <= position(entries, name) <= entries.len(),
        position(entries, name) < entries.len() ==> entries[position(entries, name)].0 == name,
        forall|i: int| 0 <= i < position(entries, name) ==> (#[trigger] entries[i]).0 != name,
        position(entries, name) < entries.len() <==> defines(entries, name),
    decreases entries.len(),
{
    if entries.len() > 0 && entries[0].0 != name {
        let rest = entries.skip(1);
        lemma_position(rest, name);
        assert forall|i: int| 0 <= i < position(entries, name) implies (#[trigger] entries[i]).0
            != name by {
            if i > 0 {
                assert(entries[i] == rest[i - 1]);
            }
        }
        if position(rest, name) < rest.len() {
            assert(entries[position(entries, name)] == rest[position(rest, name)]);
        }
        if defines(entries, name) {
            let i = choose|i: int| 0 <= i < entries.len() && (#[trigger] entries[i]).0 == name;
            assert(rest[i - 1] == entries[i]);
        }
    } else if entries.len() > 0 {
        assert(entries[0].0 == name);
    }
}

/// A table gives a value to exactly the names that it has an entry for.
pub proof fn lemma_lookup_defines(entries: Seq<(Seq<char>, Seq<char>)>, name: Seq<char>)
    ensures
        lookup(entries, name) is Some <==> defines(entries, name),
{
    lemma_position(entries, name);
}

/// Setting a name keeps the other names, and adds the name where it is new:
/// the table grows by one entry then, and not at all otherwise.
pub proof fn lemma_put(
    entries: Seq<(Seq<char>, Seq<char>)>,
    name: Seq<char>,
    value: Seq<char>,
)
    ensures
        lookup(put(entries, name, value), name) == Some(value),
        forall|other: Seq<char>|
            defines(put(entries, name, value), other) <==> (other == name || defines(
                entries,
                other,
            )),
        defines(entries, name) ==> put(entries, name, value).len() == entries.len(),
        !defines(entries, name) ==> put(entries, name, value).len() == entries.len() + 1,
{
    let after = put(entries, name, value);
    let at = position(entries, name);
    lemma_position(entries, name);
    lemma_position(after, name);
    assert(after[at].0 == name);
    assert forall|other: Seq<char>|
        defines(after, other) <==> (other == name || defines(entries, other)) by {
        if defines(after, other) && other != name {
            let i = choose|i: int| 0 <= i < after.len() && (#[trigger] after[i]).0 == other;
            assert(entries[i].0 == other);
        }
        if defines(entries, other) && other != name {
            let i = choose|i: int| 0 <= i < entries.len() && (#[trigger] entries[i]).0 == other;
            assert(after[i].0 == other);
        }
    }
    if position(after, name) != at {
        assert(after[position(after, name)].0 == name);
        assert(entries[position(after, name)].0 == name);
    }
}

/// Resolving names fails in one way only: a name is not defined.
pub proof fn lemma_substitute_fault(
    text: Seq<char>,
    names: Seq<Seq<char>>,
    k: int,
    table: Seq<(Seq<char>, Seq<char>)>,
)
    requires
        0 <= k,
    ensures
        substitute_from(text, names, k, table) matches Err(fault) ==> fault
            is UndefinedVariable && !defines(table, fault->UndefinedVariable_0) && names.contains(
            fault->UndefinedVariable_0,
        ),
    decreases names.len() - k,
{
    if k < names.len() {
        if names.take(k).contains(names[k]) {
            lemma_substitute_fault(text, names, k + 1, table);
        } else {
            lemma_lookup_defines(table, names[k]);
            match lookup(table, names[k]) {
                None => {
                    assert(names.contains(names[k]));
                },
                Some(value) => {
                    lemma_substitute_fault(
                        replace_all(text, placeholder_text(names[k]), value),
                        names,
                        k + 1,
                        table,
                    );
                },
            }
        }
    }
}

/// Where the table defines every name that is still to be resolved, the
/// names resolve.
pub proof fn lemma_substitute_defined(
    text: Seq<char>,
    names: Seq<Seq<char>>,
    k: int,
    table: Seq<(Seq<char>, Seq<char>)>,
)
    requires
        0 <= k,
        forall|j: int| k <= j < names.len() ==> defines(table, #[trigger] names[j]),
    ensures
        substitute_from(text, names, k, table) is Ok,
    decreases names.len() - k,
{
    if k < names.len() {
        if names.take(k).contains(names[k]) {
            lemma_substitute_defined(text, names, k + 1, table);
        } else {
            lemma_lookup_defines(table, names[k]);
            lemma_substitute_defined(
                replace_all(text, placeholder_text(names[k]), lookup(table, names[k])->0),
                names,
                k + 1,
                table,
            );
        }
    }
}

/// Where a name that is still to be resolved for the first time is not
/// defined, resolving fails.
pub proof fn lemma_substitute_undefined(
    text: Seq<char>,
    names: Seq<Seq<char>>,
    k: int,
    table: Seq<(Seq<char>, Seq<char>)>,
    j: int,
)
    requires
        0 <= k <= j < names.len(),
        !names.take(j).contains(names[j]),
        !defines(table, names[j]),
    ensures
        substitute_from(text, names, k, table) is Err,
    decreases j - k,
{
    lemma_lookup_defines(table, names[k]);
    if k < j {
        if names.take(k).contains(names[k]) {
            lemma_substitute_undefined(text, names, k + 1, table, j);
        } else if lookup(table, names[k]) is Some {
            lemma_substitute_undefined(
                replace_all(text, placeholder_text(names[k]), lookup(table, names[k])->0),
                names,
                k + 1,
                table,
                j,
            );
        }
    }
}

/// A text expands exactly if the table defines the name of each of its
/// placeholders, and fails with a name of one of its placeholders that the
/// table lacks.
pub proof fn lemma_expanded(text: Seq<char>, table: Seq<(Seq<char>, Seq<char>)>)
    ensures
        expanded(text, table) is Ok <==> forall|j: int|
            0 <= j < placeholder_names(text).len() ==> defines(
                table,
                #[trigger] placeholder_names(text)[j],
            ),
        expanded(text, table) matches Err(fault) ==> fault is UndefinedVariable && !defines(
            table,
            fault->UndefinedVariable_0,
        ) && placeholder_names(text).contains(fault->UndefinedVariable_0),
{
    let names = placeholder_names(text);
    lemma_substitute_fault(text, names, 0, table);
    if forall|j: int| 0 <= j < names.len() ==> defines(table, #[trigger] names[j]) {
        lemma_substitute_defined(text, names, 0, table);
    } else {
        let j = choose|j: int| 0 <= j < names.len() && !defines(table, #[trigger] names[j]);
        let first = first_occurrence(names, j);
        lemma_substitute_undefined(text, names, 0, table, first);
    }
}

/// The first position at which the name at `j` occurs in `names`.
pub proof fn first_occurrence(names: Seq<Seq<char>>, j: int) -> (first: int)
    requires
        0 <= j < names.len(),
    ensures
        0 <= first <= j,
        names[first] == names[j],
        !names.take(first).contains(names[first]),
    decreases j,
{
    if names.take(j).contains(names[j]) {
        let i = choose|i: int| 0 <= i < names.take(j).len() && names.take(j)[i] == names[j];
        assert(names[i] == names[j]);
        first_occurrence(names, i)
    } else {
        j
    }
}

/// Whether each definition of `raw` uses only names that `base` or a
/// definition before it gives.
pub open spec fn looks_back_only(
    raw: Seq<(Seq<char>, Seq<char>)>,
    base: Seq<(Seq<char>, Seq<char>)>,
) -> bool {
    forall|k: int, j: int|
        #![trigger placeholder_names(raw[k].1)[j]]
        0 <= k < raw.len() && 0 <= j < placeholder_names(raw[k].1).len() ==> defines(
            base,
            placeholder_names(raw[k].1)[j],
        ) || defines(raw.take(k), placeholder_names(raw[k].1)[j])
}

/// Whether no name of `raw` is a name of `base`.
pub open spec fn names_apart(raw: Seq<(Seq<char>, Seq<char>)>, base: Seq<(Seq<char>, Seq<char>)>)
    -> bool {
    forall|k: int| 0 <= k < raw.len() ==> !defines(base, (#[trigger] raw[k]).0)
}

/// The table from step `k` on: it compiles where the definitions look back
/// only, and has one entry more for each definition where the names are new.
proof fn lemma_chain_from(
    raw: Seq<(Seq<char>, Seq<char>)>,
    base: Seq<(Seq<char>, Seq<char>)>,
    k: int,
    table: Seq<(Seq<char>, Seq<char>)>,
)
    requires
        0 <= k <= raw.len(),
        looks_back_only(raw, base),
        forall|name: Seq<char>|
            defines(table, name) <==> (defines(base, name) || defines(raw.take(k), name)),
    ensures
        compile_from(raw, k, table) is Ok,
        distinct_names(raw) && names_apart(raw, base) ==> compile_from(raw, k, table)->Ok_0.len()
            == table.len() + raw.len() - k,
    decreases raw.len() - k,
{
    if k < raw.len() {
        let names = placeholder_names(raw[k].1);
        assert forall|j: int| 0 <= j < names.len() implies defines(table, #[trigger] names[j]) by {
            assert(defines(base, placeholder_names(raw[k].1)[j]) || defines(
                raw.take(k),
                placeholder_names(raw[k].1)[j],
            ));
        }
        lemma_expanded(raw[k].1, table);
        let value = expanded(raw[k].1, table)->Ok_0;
        let next = put(table, raw[k].0, value);
        lemma_put(table, raw[k].0, value);
        assert forall|name: Seq<char>|
            defines(next, name) <==> (defines(base, name) || defines(raw.take(k + 1), name)) by {
            assert(defines(next, name) <==> (name == raw[k].0 || defines(table, name)));
            assert(defines(table, name) <==> (defines(base, name) || defines(raw.take(k), name)));
            if defines(raw.take(k + 1), name) {
                let i = choose|i: int|
                    0 <= i < raw.take(k + 1).len() && (#[trigger] raw.take(k + 1)[i]).0 == name;
                if i < k {
                    assert(raw.take(k)[i].0 == name);
                    assert(defines(raw.take(k), name));
                } else {
                    assert(name == raw[k].0);
                }
            }
            if defines(raw.take(k), name) {
                let i = choose|i: int|
                    0 <= i < raw.take(k).len() && (#[trigger] raw.take(k)[i]).0 == name;
                assert(raw.take(k + 1)[i].0 == name);
                assert(defines(raw.take(k + 1), name));
            }
            if name == raw[k].0 {
                assert(raw.take(k + 1)[k].0 == name);
                assert(defines(raw.take(k + 1), name));
            }
        }
        lemma_chain_from(raw, base, k + 1, next);
        if distinct_names(raw) && names_apart(raw, base) {
            if defines(raw.take(k), raw[k].0) {
                let i = choose|i: int|
                    0 <= i < raw.take(k).len() && (#[trigger] raw.take(k)[i]).0 == raw[k].0;
                assert(raw[i].0 == raw[k].0);
            }
            assert(!defines(table, raw[k].0));
        }
    }
}

/// Definitions of which each uses only names that the base or a definition
/// before it gives compile. Where their names differ from one another and
/// from those of the base, the table has as many entries as the base and the
/// definitions together.
pub proof fn lemma_chain_compiles(
    raw: Seq<(Seq<char>, Seq<char>)>,
    base: Seq<(Seq<char>, Seq<char>)>,
)
    requires
        looks_back_only(raw, base),
    ensures
        compiled(raw, base) is Ok,
        distinct_names(raw) && names_apart(raw, base) ==> compiled(raw, base)->Ok_0.len()
            == base.len() + raw.len(),
{
    assert forall|name: Seq<char>|
        defines(base, name) <==> (defines(base, name) || defines(raw.take(0), name)) by {}
    lemma_chain_from(raw, base, 0, base);
}

/// Compiling fails in one way only: a name is not defined.
pub proof fn lemma_compile_fault(
    raw: Seq<(Seq<char>, Seq<char>)>,
    k: int,
    table: Seq<(Seq<char>, Seq<char>)>,
)
    requires
        0 <= k,
    ensures
        compile_from(raw, k, table) matches Err(fault) ==> fault is UndefinedVariable,
    decreases raw.len() - k,
{
    if k < raw.len() {
        lemma_expanded(raw[k].1, table);
        if expanded(raw[k].1, table) is Ok {
            lemma_compile_fault(raw, k + 1, put(table, raw[k].0, expanded(raw[k].1, table)->Ok_0));
        }
    }
}

/// From step `i` on: the definition at `k` uses a name that the table lacks
/// and that no definition before `k` gives.
proof fn lemma_forward_from(
    raw: Seq<(Seq<char>, Seq<char>)>,
    i: int,
    table: Seq<(Seq<char>, Seq<char>)>,
    k: int,
    name: Seq<char>,
)
    requires
        0 <= i <= k < raw.len(),
        placeholder_names(raw[k].1).contains(name),
        !defines(table, name),
        !defines(raw.take(k), name),
    ensures
        compile_from(raw, i, table) is Err,
    decreases k - i,
{
    lemma_expanded(raw[i].1, table);
    if i < k {
        if expanded(raw[i].1, table) is Ok {
            let value = expanded(raw[i].1, table)->Ok_0;
            lemma_put(table, raw[i].0, value);
            assert(raw.take(k)[i].0 == raw[i].0);
            lemma_forward_from(raw, i + 1, put(table, raw[i].0, value), k, name);
        }
    } else {
        let names = placeholder_names(raw[k].1);
        let j = choose|j: int| 0 <= j < names.len() && names[j] == name;
        assert(!defines(table, names[j]));
    }
}

/// A definition that uses a name which neither the base nor a definition
/// before it gives makes the compilation fail with `UndefinedVariable`,
/// whatever the definitions behind it give.
pub proof fn lemma_forward_reference_fails(
    raw: Seq<(Seq<char>, Seq<char>)>,
    base: Seq<(Seq<char>, Seq<char>)>,
    k: int,
    name: Seq<char>,
)
    requires
        0 <= k < raw.len(),
        placeholder_names(raw[k].1).contains(name),
        !defines(base, name),
        !defines(raw.take(k), name),
    ensures
        compiled(raw, base) matches Err(fault) && fault is UndefinedVariable,
{
    lemma_forward_from(raw, 0, base, k, name);
    lemma_compile_fault(raw, 0, base);
}

/// Where all placeholders of a text have one name, the text expands by one
/// lookup of that name, and by one replacement of every occurrence of its
/// placeholder.
pub proof fn lemma_repeated_placeholder(text: Seq<char>, table: Seq<(Seq<char>, Seq<char>)>)
    requires
        placeholder_names(text).len() > 0,
        forall|j: int|
            0 <= j < placeholder_names(text).len() ==> #[trigger] placeholder_names(text)[j]
                == placeholder_names(text)[0],
    ensures
        expanded(text, table) == match lookup(table, placeholder_names(text)[0]) {
            Some(value) => Ok::<Seq<char>, Fault>(
                replace_all(text, placeholder_text(placeholder_names(text)[0]), value),
            ),
            None => Err(Fault::UndefinedVariable(placeholder_names(text)[0])),
        },
{
    let names = placeholder_names(text);
    assert(names.take(0) =~= Seq::<Seq<char>>::empty());
    match lookup(table, names[0]) {
        Some(value) => {
            lemma_seen_names(replace_all(text, placeholder_text(names[0]), value), names, 1, table);
        },
        None => {},
    }
}

/// Names that all stand earlier too change nothing.
proof fn lemma_seen_names(
    text: Seq<char>,
    names: Seq<Seq<char>>,
    k: int,
    table: Seq<(Seq<char>, Seq<char>)>,
)
    requires
        1 <= k,
        forall|j: int| 0 <= j < names.len() ==> #[trigger] names[j] == names[0],
    ensures
        substitute_from(text, names, k, table) == Ok::<Seq<char>, Fault>(text),
    decreases names.len() - k,
{
    if k < names.len() {
        assert(names.take(k)[0] == names[k]);
        lemma_seen_names(text, names, k + 1, table);
    }
}

/// A text without placeholders expands to itself.
pub proof fn lemma_expanded_plain(text: Seq<char>, table: Seq<(Seq<char>, Seq<char>)>)
    requires
        placeholder_names(text).len() == 0,
    ensures
        expanded(text, table) == Ok::<Seq<char>, Fault>(text),
{
}

/// Whether no string leaf of `value` holds a placeholder.
pub open spec fn placeholder_free(value: Json) -> bool
    decreases value,
{
    match value {
        Json::Text(s) => placeholder_names(s).len() == 0,
        Json::Array(items) => forall|i: int|
            0 <= i < items.len() ==> placeholder_free(#[trigger] items[i]),
        Json::Object(members) => forall|i: int|
            0 <= i < members.len() ==> placeholder_free((#[trigger] members[i]).value),
        _ => true,
    }
}

/// A value without placeholders expands to itself, from any table.
pub proof fn lemma_expansion_of_resolved(value: Json, table: Seq<(Seq<char>, Seq<char>)>)
    requires
        placeholder_free(value),
    ensures
        expanded_value(value, table) == Ok::<Json, Fault>(value),
    decreases value,
{
    match value {
        Json::Text(s) => {
            lemma_expanded_plain(s, table);
        },
        Json::Array(items) => {
            lemma_items_of_resolved(items, table);
        },
        Json::Object(members) => {
            lemma_members_of_resolved(members, table);
        },
        _ => {},
    }
}

/// Elements without placeholders expand to themselves.
pub proof fn lemma_items_of_resolved(items: Seq<Json>, table: Seq<(Seq<char>, Seq<char>)>)
    requires
        forall|i: int| 0 <= i < items.len() ==> placeholder_free(#[trigger] items[i]),
    ensures
        expanded_items(items, table) == Ok::<Seq<Json>, Fault>(items),
    decreases items,
{
    if items.len() > 0 {
        let front = items.drop_last();
        assert forall|i: int| 0 <= i < front.len() implies placeholder_free(
            #[trigger] front[i],
        ) by {
            assert(front[i] == items[i]);
        }
        lemma_items_of_resolved(front, table);
        lemma_expansion_of_resolved(items.last(), table);
        assert(front.push(items.last()) =~= items);
    } else {
        assert(items =~= Seq::<Json>::empty());
    }
}

/// Members without placeholders expand to themselves.
pub proof fn lemma_members_of_resolved(members: Seq<Member>, table: Seq<(Seq<char>, Seq<char>)>)
    requires
        forall|i: int| 0 <= i < members.len() ==> placeholder_free((#[trigger] members[i]).value),
    ensures
        expanded_members(members, table) == Ok::<Seq<Member>, Fault>(members),
    decreases members,
{
    if members.len() > 0 {
        let front = members.drop_last();
        assert forall|i: int| 0 <= i < front.len() implies placeholder_free(
            (#[trigger] front[i]).value,
        ) by {
            assert(front[i] == members[i]);
        }
        lemma_members_of_resolved(front, table);
        lemma_expansion_of_resolved(members.last().value, table);
        assert(front.push(members.last()) =~= members);
    } else {
        assert(members =~= Seq::<Member>::empty());
    }
}

/// Whether `table` defines the name of every placeholder in the string
/// leaves of `value`.
pub open spec fn names_defined(value: Json, table: Seq<(Seq<char>, Seq<char>)>) -> bool
    decreases value,
{
    match value {
        Json::Text(s) => forall|j: int|
            0 <= j < placeholder_names(s).len() ==> defines(
                table,
                #[trigger] placeholder_names(s)[j],
            ),
        Json::Array(items) => forall|i: int|
            0 <= i < items.len() ==> names_defined(#[trigger] items[i], table),
        Json::Object(members) => forall|i: int|
            0 <= i < members.len() ==> names_defined((#[trigger] members[i]).value, table),
        _ => true,
    }
}

/// Expansion is total and fails closed: a value expands exactly if the table
/// defines every name that its string leaves use, and fails in one way only,
/// with a name that the table lacks.
pub proof fn lemma_expansion_total(value: Json, table: Seq<(Seq<char>, Seq<char>)>)
    ensures
        expanded_value(value, table) is Ok <==> names_defined(value, table),
        expanded_value(value, table) matches Err(fault) ==> fault is UndefinedVariable && !defines(
            table,
            fault->UndefinedVariable_0,
        ),
    decreases value,
{
    match value {
        Json::Text(s) => {
            lemma_expanded(s, table);
        },
        Json::Array(items) => {
            lemma_items_total(items, table);
        },
        Json::Object(members) => {
            lemma_members_total(members, table);
        },
        _ => {},
    }
}

/// The elements of an array expand exactly if each of them does.
pub proof fn lemma_items_total(items: Seq<Json>, table: Seq<(Seq<char>, Seq<char>)>)
    ensures
        expanded_items(items, table) is Ok <==> forall|i: int|
            0 <= i < items.len() ==> names_defined(#[trigger] items[i], table),
        expanded_items(items, table) matches Err(fault) ==> fault is UndefinedVariable && !defines(
            table,
            fault->UndefinedVariable_0,
        ),
    decreases items,
{
    if items.len() > 0 {
        let front = items.drop_last();
        lemma_items_total(front, table);
        lemma_expansion_total(items.last(), table);
        if expanded_items(items, table) is Ok {
            assert forall|i: int| 0 <= i < items.len() implies names_defined(
                #[trigger] items[i],
                table,
            ) by {
                if i < front.len() {
                    assert(front[i] == items[i]);
                }
            }
        }
        if forall|i: int| 0 <= i < items.len() ==> names_defined(#[trigger] items[i], table) {
            assert forall|i: int| 0 <= i < front.len() implies names_defined(
                #[trigger] front[i],
                table,
            ) by {
                assert(front[i] == items[i]);
            }
        }
    }
}

/// The members of an object expand exactly if the value of each does.
pub proof fn lemma_members_total(members: Seq<Member>, table: Seq<(Seq<char>, Seq<char>)>)
    ensures
        expanded_members(members, table) is Ok <==> forall|i: int|
            0 <= i < members.len() ==> names_defined((#[trigger] members[i]).value, table),
        expanded_members(members, table) matches Err(fault) ==> fault is UndefinedVariable
            && !defines(table, fault->UndefinedVariable_0),
    decreases members,
{
    if members.len() > 0 {
        let front = members.drop_last();
        lemma_members_total(front, table);
        lemma_expansion_total(members.last().value, table);
        if expanded_members(members, table) is Ok {
            assert forall|i: int| 0 <= i < members.len() implies names_defined(
                (#[trigger] members[i]).value,
                table,
            ) by {
                if i < front.len() {
                    assert(front[i] == members[i]);
                }
            }
        }
        if forall|i: int|
            0 <= i < members.len() ==> names_defined((#[trigger] members[i]).value, table) {
            assert forall|i: int| 0 <= i < front.len() implies names_defined(
                (#[trigger] front[i]).value,
                table,
            ) by {
                assert(front[i] == members[i]);
            }
        }
    }
}

/// An expanded array has the expansion of each element in the place of the
/// element.
pub proof fn lemma_expanded_items_pointwise(items: Seq<Json>, table: Seq<(Seq<char>, Seq<char>)>)
    requires
        expanded_items(items, table) is Ok,
    ensures
        expanded_items(items, table)->Ok_0.len() == items.len(),
        forall|i: int|
            0 <= i < items.len() ==> expanded_value(#[trigger] items[i], table) == Ok::<
                Json,
                Fault,
            >(expanded_items(items, table)->Ok_0[i]),
    decreases items.len(),
{
    if items.len() > 0 {
        let front = items.drop_last();
        lemma_expanded_items_pointwise(front, table);
        assert forall|i: int| 0 <= i < items.len() implies expanded_value(
            #[trigger] items[i],
            table,
        ) == Ok::<Json, Fault>(expanded_items(items, table)->Ok_0[i]) by {
            if i < front.len() {
                assert(front[i] == items[i]);
            }
        }
    }
}

/// An expanded object has each key in its place, with the expansion of its
/// value.
pub proof fn lemma_expanded_members_pointwise(
    members: Seq<Member>,
    table: Seq<(Seq<char>, Seq<char>)>,
)
    requires
        expanded_members(members, table) is Ok,
    ensures
        expanded_members(members, table)->Ok_0.len() == members.len(),
        forall|i: int|
            0 <= i < members.len() ==> expanded_members(members, table)->Ok_0[i].key == (
            #[trigger] members[i]).key && expanded_value(members[i].value, table) == Ok::<
                Json,
                Fault,
            >(expanded_members(members, table)->Ok_0[i].value),
    decreases members.len(),
{
    if members.len() > 0 {
        let front = members.drop_last();
        lemma_expanded_members_pointwise(front, table);
        assert forall|i: int| 0 <= i < members.len() implies expanded_members(
            members,
            table,
        )->Ok_0[i].key == (#[trigger] members[i]).key && expanded_value(members[i].value, table)
            == Ok::<Json, Fault>(expanded_members(members, table)->Ok_0[i].value) by {
            if i < front.len() {
                assert(front[i] == members[i]);
            }
        }
    }
}

/// A cast fails in one way only: the text of a typed literal is not of its
/// type.
pub proof fn lemma_cast_fault(value: Json)
    ensures
        cast_value(value) matches Err(fault) ==> fault is TypeCast,
    decreases value,
{
    match value {
        Json::Array(items) => {
            lemma_cast_items_fault(items);
        },
        Json::Object(members) => {
            lemma_cast_members_fault(members);
        },
        _ => {},
    }
}

/// The cast of the elements of an array fails in one way only.
pub proof fn lemma_cast_items_fault(items: Seq<Json>)
    ensures
        cast_items(items) matches Err(fault) ==> fault is TypeCast,
    decreases items,
{
    if items.len() > 0 {
        lemma_cast_items_fault(items.drop_last());
        lemma_cast_fault(items.last());
    }
}

/// The cast of the members of an object fails in one way only.
pub proof fn lemma_cast_members_fault(members: Seq<Member>)
    ensures
        cast_members(members) matches Err(fault) ==> fault is TypeCast,
    decreases members,
{
    if members.len() > 0 {
        lemma_cast_members_fault(members.drop_last());
        lemma_cast_fault(members.last().value);
    }
}

/// The part of `value` that `path` leads to: each step goes into the element
/// of an array, or into the value of the member of an object, at that
/// position.
pub open spec fn part_at(value: Json, path: Seq<int>) -> Option<Json>
    decreases path.len(),
{
    if path.len() == 0 {
        Some(value)
    } else {
        match value {
            Json::Array(items) => if 0 <= path[0] < items.len() {
                part_at(items[path[0]], path.skip(1))
            } else {
                None
            },
            Json::Object(members) => if 0 <= path[0] < members.len() {
                part_at(members[path[0]].value, path.skip(1))
            } else {
                None
            },
            _ => None,
        }
    }
}

/// Whether `leaf` is a leaf that a cast has nothing to do with: one that is
/// no string, or a string without a typed-literal prefix.
pub open spec fn plain_leaf(leaf: Json) -> bool {
    match leaf {
        Json::Null => true,
        Json::Bool(_) => true,
        Json::Number(_) => true,
        Json::Text(s) => !has_prefix(s, number_prefix()) && !has_prefix(s, bool_prefix()),
        _ => false,
    }
}

/// A cast array has the cast of each element in the place of the element.
pub proof fn lemma_cast_items_pointwise(items: Seq<Json>)
    requires
        cast_items(items) is Ok,
    ensures
        cast_items(items)->Ok_0.len() == items.len(),
        forall|i: int|
            0 <= i < items.len() ==> cast_value(#[trigger] items[i]) == Ok::<Json, Fault>(
                cast_items(items)->Ok_0[i],
            ),
    decreases items.len(),
{
    if items.len() > 0 {
        let front = items.drop_last();
        lemma_cast_items_pointwise(front);
        assert forall|i: int| 0 <= i < items.len() implies cast_value(#[trigger] items[i]) == Ok::<
            Json,
            Fault,
        >(cast_items(items)->Ok_0[i]) by {
            if i < front.len() {
                assert(front[i] == items[i]);
            }
        }
    }
}

/// A cast object has each key in its place, with the cast of its value.
pub proof fn lemma_cast_members_pointwise(members: Seq<Member>)
    requires
        cast_members(members) is Ok,
    ensures
        cast_members(members)->Ok_0.len() == members.len(),
        forall|i: int|
            0 <= i < members.len() ==> cast_members(members)->Ok_0[i].key == (
            #[trigger] members[i]).key && cast_value(members[i].value) == Ok::<Json, Fault>(
                cast_members(members)->Ok_0[i].value,
            ),
    decreases members.len(),
{
    if members.len() > 0 {
        let front = members.drop_last();
        lemma_cast_members_pointwise(front);
        assert forall|i: int| 0 <= i < members.len() implies cast_members(members)->Ok_0[i].key == (
        #[trigger] members[i]).key && cast_value(members[i].value) == Ok::<Json, Fault>(
            cast_members(members)->Ok_0[i].value,
        ) by {
            if i < front.len() {
                assert(front[i] == members[i]);
            }
        }
    }
}

/// A cast alters no leaf that is no string, and no string leaf without a
/// typed-literal prefix: such a leaf stands in the result where it stood.
pub proof fn lemma_cast_keeps_plain_leaves(value: Json, path: Seq<int>)
    requires
        cast_value(value) is Ok,
        part_at(value, path) is Some,
        plain_leaf(part_at(value, path)->0),
    ensures
        part_at(cast_value(value)->Ok_0, path) == part_at(value, path),
    decreases path.len(),
{
    if path.len() > 0 {
        match value {
            Json::Array(items) => {
                lemma_cast_items_pointwise(items);
                lemma_cast_keeps_plain_leaves(items[path[0]], path.skip(1));
            },
            Json::Object(members) => {
                lemma_cast_members_pointwise(members);
                lemma_cast_keeps_plain_leaves(members[path[0]].value, path.skip(1));
            },
            _ => {},
        }
    }
}

/// Whether every leaf of `value` is one that a cast has nothing to do with.
pub open spec fn plain_leaves(value: Json) -> bool
    decreases value,
{
    match value {
        Json::Array(items) => forall|i: int|
            0 <= i < items.len() ==> plain_leaves(#[trigger] items[i]),
        Json::Object(members) => forall|i: int|
            0 <= i < members.len() ==> plain_leaves((#[trigger] members[i]).value),
        _ => plain_leaf(value),
    }
}

/// A value without typed literals is its own cast.
pub proof fn lemma_cast_of_plain(value: Json)
    requires
        plain_leaves(value),
    ensures
        cast_value(value) == Ok::<Json, Fault>(value),
    decreases value,
{
    match value {
        Json::Array(items) => {
            lemma_cast_items_of_plain(items);
        },
        Json::Object(members) => {
            lemma_cast_members_of_plain(members);
        },
        _ => {},
    }
}

/// Elements without typed literals are their own cast.
pub proof fn lemma_cast_items_of_plain(items: Seq<Json>)
    requires
        forall|i: int| 0 <= i < items.len() ==> plain_leaves(#[trigger] items[i]),
    ensures
        cast_items(items) == Ok::<Seq<Json>, Fault>(items),
    decreases items,
{
    if items.len() > 0 {
        let front = items.drop_last();
        assert forall|i: int| 0 <= i < front.len() implies plain_leaves(#[trigger] front[i]) by {
            assert(front[i] == items[i]);
        }
        lemma_cast_items_of_plain(front);
        lemma_cast_of_plain(items.last());
        assert(front.push(items.last()) =~= items);
    } else {
        assert(items =~= Seq::<Json>::empty());
    }
}

/// Members without typed literals are their own cast.
pub proof fn lemma_cast_members_of_plain(members: Seq<Member>)
    requires
        forall|i: int| 0 <= i < members.len() ==> plain_leaves((#[trigger] members[i]).value),
    ensures
        cast_members(members) == Ok::<Seq<Member>, Fault>(members),
    decreases members,
{
    if members.len() > 0 {
        let front = members.drop_last();
        assert forall|i: int| 0 <= i < front.len() implies plain_leaves(
            (#[trigger] front[i]).value,
        ) by {
            assert(front[i] == members[i]);
        }
        lemma_cast_members_of_plain(front);
        lemma_cast_of_plain(members.last().value);
        assert(front.push(members.last()) =~= members);
    } else {
        assert(members =~= Seq::<Member>::empty());
    }
}

/// Where each item can fail in certain ways only, so can the whole.
pub proof fn lemma_try_map_fault<A, B>(
    items: Seq<A>,
    f: spec_fn(A) -> Result<B, Fault>,
    allowed: spec_fn(Fault) -> bool,
)
    requires
        forall|item: A| (#[trigger] f(item)) matches Err(fault) ==> allowed(fault),
    ensures
        try_map(items, f) matches Err(fault) ==> allowed(fault),
    decreases items.len(),
{
    if items.len() > 0 {
        lemma_try_map_fault(items.drop_last(), f, allowed);
    }
}

/// Expanding the definitions of a request fails in one way only.
pub proof fn lemma_definitions_fault(
    defs: Seq<(Seq<char>, Seq<char>)>,
    k: int,
    done: Seq<(Seq<char>, Seq<char>)>,
    table: Seq<(Seq<char>, Seq<char>)>,
)
    requires
        0 <= k,
    ensures
        expanded_definitions_from(defs, k, done, table) matches Err(fault) ==> fault
            is UndefinedVariable,
    decreases defs.len() - k,
{
    if k < defs.len() {
        lemma_expanded(defs[k].1, table);
        if expanded(defs[k].1, table) is Ok {
            lemma_definitions_fault(
                defs,
                k + 1,
                put(done, defs[k].0, expanded(defs[k].1, table)->Ok_0),
                table,
            );
        }
    }
}

/// Expanding a request fails in one way only: a name is not defined.
pub proof fn lemma_request_fault(request: RequestView, globals: Seq<(Seq<char>, Seq<char>)>)
    ensures
        resolved_request(globals)(request) matches Err(fault) ==> fault is UndefinedVariable,
{
    match request.variables {
        Some(defs) => {
            lemma_compile_fault(defs, 0, globals);
        },
        None => {},
    }
    if request_table(request, globals) is Ok {
        let table = request_table(request, globals)->Ok_0;
        lemma_expanded(request.name, table);
        lemma_expanded(request.description, table);
        if request.variables is Some {
            lemma_definitions_fault(request.variables->0, 0, Seq::empty(), table);
        }
        lemma_expanded(request.url, table);
        let undefined = |fault: Fault| fault is UndefinedVariable;
        assert forall|pair: (Seq<char>, Seq<char>)|
            (#[trigger] expanded_pair(table)(pair)) matches Err(fault) ==> undefined(fault) by {
            lemma_expanded(pair.1, table);
        }
        lemma_try_map_fault(request.headers, expanded_pair(table), undefined);
        lemma_members_total(request.params, table);
        if request.body is Some {
            lemma_members_total(request.body->0, table);
        }
    }
}

/// A configuration that reads well fails to resolve in three ways only: a
/// name is not defined, a typed literal is not of its type, or a request name
/// occurs twice.
pub proof fn lemma_resolution_faults(doc: ConfigView)
    ensures
        resolved(doc) matches Err(fault) ==> fault is UndefinedVariable || fault is TypeCast
            || fault is DuplicateName,
        expanded_and_cast(doc) matches Err(fault) ==> fault is UndefinedVariable || fault
            is TypeCast,
{
    lemma_compile_fault(doc.variables, 0, Seq::empty());
    if compiled(doc.variables, Seq::empty()) is Ok {
        let globals = compiled(doc.variables, Seq::empty())->Ok_0;
        let undefined = |fault: Fault| fault is UndefinedVariable;
        assert forall|pair: (Seq<char>, Seq<char>)|
            (#[trigger] expanded_pair(globals)(pair)) matches Err(fault) ==> undefined(fault) by {
            lemma_expanded(pair.1, globals);
        }
        lemma_try_map_fault(doc.default_headers, expanded_pair(globals), undefined);
        assert forall|request: RequestView|
            (#[trigger] resolved_request(globals)(request)) matches Err(fault) ==> undefined(
                fault,
            ) by {
            lemma_request_fault(request, globals);
        }
        lemma_try_map_fault(doc.requests, resolved_request(globals), undefined);
        if try_map(doc.requests, resolved_request(globals)) is Ok {
            let expanded = try_map(doc.requests, resolved_request(globals))->Ok_0;
            let mistyped = |fault: Fault| fault is TypeCast;
            assert forall|request: RequestView|
                (#[trigger] cast_request()(request)) matches Err(fault) ==> mistyped(fault) by {
                if request.body is Some {
                    lemma_cast_members_fault(request.body->0);
                }
            }
            lemma_try_map_fault(expanded, cast_request(), mistyped);
        }
    }
}

/// Whether two of `requests` have the same name.
pub open spec fn shares_a_name(requests: Seq<RequestView>) -> bool {
    exists|i: int, j: int|
        0 <= i < j < requests.len() && (#[trigger] requests[i]).name == (
        #[trigger] requests[j]).name
}

/// From `k` on a duplicate is found exactly if some request from `k` on has
/// the name of one before it.
proof fn lemma_duplicate_from(requests: Seq<RequestView>, k: int)
    requires
        0 <= k,
    ensures
        duplicate_from(requests, k) is Some <==> exists|i: int, j: int|
            0 <= i < j < requests.len() && k <= j && (#[trigger] requests[i]).name == (
            #[trigger] requests[j]).name,
    decreases requests.len() - k,
{
    if k < requests.len() {
        lemma_duplicate_from(requests, k + 1);
        if exists|i: int| 0 <= i < k && requests[i].name == requests[k].name {
            let i = choose|i: int| 0 <= i < k && requests[i].name == requests[k].name;
            assert(requests[i].name == requests[k].name);
        }
    }
}

/// A name is reported as occurring twice exactly if two requests share one.
pub proof fn lemma_duplicate_name(requests: Seq<RequestView>)
    ensures
        duplicate_name(requests) is Some <==> shares_a_name(requests),
{
    lemma_duplicate_from(requests, 0);
}

/// A configuration of which two requests have the same name once it is
/// expanded and cast fails with `DuplicateName`, however well the rest of it
/// resolves; and one without such a pair resolves to what it is then.
pub proof fn lemma_shared_name_fails(doc: ConfigView)
    requires
        expanded_and_cast(doc) is Ok,
    ensures
        shares_a_name(expanded_and_cast(doc)->Ok_0.requests) ==> resolved(doc) is Err && resolved(
            doc,
        )->Err_0 is DuplicateName,
        !shares_a_name(expanded_and_cast(doc)->Ok_0.requests) ==> resolved(doc)
            == expanded_and_cast(doc),
{
    lemma_duplicate_name(expanded_and_cast(doc)->Ok_0.requests);
}

} // verus!
