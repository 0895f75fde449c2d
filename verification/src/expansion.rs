//! The template expander: replaces the placeholders in every string leaf of
//! a structured value.

use crate::error::ConfigError;
use crate::error::Fault;
use crate::placeholder::expand_text;
use crate::placeholder::expanded;
use crate::table::table_entries;
use crate::value::Json;
use crate::value::JsonValue;
use crate::value::Member;
use crate::value::array_view;
use crate::value::lemma_view_array;
use crate::value::lemma_view_object;
use crate::value::object_view;
use indexmap::IndexMap;
use vstd::prelude::*;

verus! {

/// `value` with the placeholders of every string leaf replaced from `table`.
/// The keys of objects, and leaves that are no strings, stay as they are. The
/// leaves are taken in the order of the tree, and the first name that
/// `table` lacks is the failure of the whole.
pub open spec fn expanded_value(value: Json, table: Seq<(Seq<char>, Seq<char>)>) -> Result<
    Json,
    Fault,
>
    decreases value,
{
    match value {
        Json::Text(s) => match expanded(s, table) {
            Ok(t) => Ok(Json::Text(t)),
            Err(fault) => Err(fault),
        },
        Json::Array(items) => match expanded_items(items, table) {
            Ok(out) => Ok(Json::Array(out)),
            Err(fault) => Err(fault),
        },
        Json::Object(members) => match expanded_members(members, table) {
            Ok(out) => Ok(Json::Object(out)),
            Err(fault) => Err(fault),
        },
        _ => Ok(value),
    }
}

/// The elements of an array, each expanded from `table`; the failure of the
/// first that fails.
pub open spec fn expanded_items(items: Seq<Json>, table: Seq<(Seq<char>, Seq<char>)>) -> Result<
    Seq<Json>,
    Fault,
>
    decreases items,
{
    if items.len() == 0 {
        Ok(Seq::empty())
    } else {
        match expanded_items(items.drop_last(), table) {
            Err(fault) => Err(fault),
            Ok(done) => match expanded_value(items.last(), table) {
                Err(fault) => Err(fault),
                Ok(item) => Ok(done.push(item)),
            },
        }
    }
}

/// The members of an object, the value of each expanded from `table`; the
/// failure of the first that fails.
pub open spec fn expanded_members(members: Seq<Member>, table: Seq<(Seq<char>, Seq<char>)>)
    -> Result<Seq<Member>, Fault>
    decreases members,
{
    if members.len() == 0 {
        Ok(Seq::empty())
    } else {
        match expanded_members(members.drop_last(), table) {
            Err(fault) => Err(fault),
            Ok(done) => match expanded_value(members.last().value, table) {
                Err(fault) => Err(fault),
                Ok(value) => Ok(done.push(Member { key: members.last().key, value })),
            },
        }
    }
}

/// Where the first elements of an array fail, the array fails as they do.
pub proof fn lemma_expanded_items_prefix(
    items: Seq<Json>,
    k: int,
    table: Seq<(Seq<char>, Seq<char>)>,
)
    requires
        0 <= k <= items.len(),
        expanded_items(items.take(k), table) is Err,
    ensures
        expanded_items(items, table) == expanded_items(items.take(k), table),
    decreases items.len() - k,
{
    if k < items.len() {
        assert(items.take(k + 1).drop_last() =~= items.take(k));
        lemma_expanded_items_prefix(items, k + 1, table);
    } else {
        assert(items.take(k) =~= items);
    }
}

/// Where the first members of an object fail, the object fails as they do.
pub proof fn lemma_expanded_members_prefix(
    members: Seq<Member>,
    k: int,
    table: Seq<(Seq<char>, Seq<char>)>,
)
    requires
        0 <= k <= members.len(),
        expanded_members(members.take(k), table) is Err,
    ensures
        expanded_members(members, table) == expanded_members(members.take(k), table),
    decreases members.len() - k,
{
    if k < members.len() {
        assert(members.take(k + 1).drop_last() =~= members.take(k));
        lemma_expanded_members_prefix(members, k + 1, table);
    } else {
        assert(members.take(k) =~= members);
    }
}

/// A result over a value as contracts see it.
pub open spec fn value_result(r: Result<JsonValue, ConfigError>) -> Result<Json, Fault> {
    match r {
        Ok(v) => Ok(v@),
        Err(e) => Err(e@),
    }
}

/// Expands the elements of an array in turn.
pub fn expand_items(items: &Vec<JsonValue>, variables: &IndexMap<String, String>) -> (r: Result<
    Vec<JsonValue>,
    ConfigError,
>)
    ensures
        match r {
            Ok(out) => expanded_items(array_view(items@), table_entries(*variables)) == Ok::<
                Seq<Json>,
                Fault,
            >(array_view(out@)),
            Err(e) => expanded_items(array_view(items@), table_entries(*variables)) == Err::<
                Seq<Json>,
                Fault,
            >(e@),
        },
    decreases items,
{
    let ghost all = array_view(items@);
    let ghost table = table_entries(*variables);
    let mut out: Vec<JsonValue> = Vec::new();
    let mut k: usize = 0;
    proof {
        assert(all.take(0) =~= Seq::empty());
        assert(array_view(out@) =~= Seq::empty());
    }
    while k < items.len()
        invariant
            k <= items.len(),
            all == array_view(items@),
            table == table_entries(*variables),
            expanded_items(all.take(k as int), table) == Ok::<Seq<Json>, Fault>(array_view(out@)),
        decreases items.len() - k,
    {
        proof {
            assert(all.take(k + 1).drop_last() =~= all.take(k as int));
            assert(all.take(k + 1).last() == items@[k as int]@);
        }
        match variable_expansion(&items[k], variables) {
            Err(e) => {
                proof {
                    lemma_expanded_items_prefix(all, k + 1, table);
                }
                return Err(e);
            },
            Ok(item) => {
                let ghost before = array_view(out@);
                out.push(item);
                proof {
                    assert(array_view(out@) =~= before.push(item@));
                }
            },
        }
        k += 1;
    }
    proof {
        assert(all.take(k as int) =~= all);
    }
    Ok(out)
}

/// Expands the members of an object in turn.
pub fn expand_members(
    members: &Vec<(String, JsonValue)>,
    variables: &IndexMap<String, String>,
) -> (r: Result<Vec<(String, JsonValue)>, ConfigError>)
    ensures
        match r {
            Ok(out) => expanded_members(object_view(members@), table_entries(*variables)) == Ok::<
                Seq<Member>,
                Fault,
            >(object_view(out@)),
            Err(e) => expanded_members(object_view(members@), table_entries(*variables)) == Err::<
                Seq<Member>,
                Fault,
            >(e@),
        },
    decreases members,
{
    let ghost all = object_view(members@);
    let ghost table = table_entries(*variables);
    let mut out: Vec<(String, JsonValue)> = Vec::new();
    let mut k: usize = 0;
    proof {
        assert(all.take(0) =~= Seq::empty());
        assert(object_view(out@) =~= Seq::empty());
    }
    while k < members.len()
        invariant
            k <= members.len(),
            all == object_view(members@),
            table == table_entries(*variables),
            expanded_members(all.take(k as int), table) == Ok::<Seq<Member>, Fault>(
                object_view(out@),
            ),
        decreases members.len() - k,
    {
        proof {
            assert(all.take(k + 1).drop_last() =~= all.take(k as int));
            assert(all.take(k + 1).last() == all[k as int]);
        }
        match variable_expansion(&members[k].1, variables) {
            Err(e) => {
                proof {
                    lemma_expanded_members_prefix(all, k + 1, table);
                }
                return Err(e);
            },
            Ok(item) => {
                let ghost before = object_view(out@);
                let ghost key = members@[k as int].0@;
                out.push((members[k].0.clone(), item));
                proof {
                    assert(object_view(out@) =~= before.push(Member { key, value: item@ }));
                }
            },
        }
        k += 1;
    }
    proof {
        assert(all.take(k as int) =~= all);
    }
    Ok(out)
}

/// Replaces the placeholders in every string leaf of `value` from
/// `variables`, and gives the new value, of the same shape. Nothing of it is
/// given where a placeholder names no variable: the result is then
/// `UndefinedVariable` with that name.
pub fn variable_expansion(value: &JsonValue, variables: &IndexMap<String, String>) -> (r: Result<
    JsonValue,
    ConfigError,
>)
    ensures
        value_result(r) == expanded_value(value@, table_entries(*variables)),
    decreases value,
{
    match value {
        JsonValue::Null => Ok(JsonValue::Null),
        JsonValue::Bool(b) => Ok(JsonValue::Bool(*b)),
        JsonValue::Number(n) => Ok(JsonValue::Number(n.clone())),
        JsonValue::String(s) => match expand_text(s.as_str(), variables) {
            Ok(t) => Ok(JsonValue::String(t)),
            Err(e) => Err(e),
        },
        JsonValue::Array(items) => {
            proof {
                lemma_view_array(*items);
            }
            match expand_items(items, variables) {
                Ok(out) => {
                    proof {
                        lemma_view_array(out);
                    }
                    Ok(JsonValue::Array(out))
                },
                Err(e) => Err(e),
            }
        },
        JsonValue::Object(members) => {
            proof {
                lemma_view_object(*members);
            }
            match expand_members(members, variables) {
                Ok(out) => {
                    proof {
                        lemma_view_object(out);
                    }
                    Ok(JsonValue::Object(out))
                },
                Err(e) => Err(e),
            }
        },
    }
}

} // verus!
