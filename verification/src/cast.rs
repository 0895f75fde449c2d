//! The type caster: turns string leaves that carry a typed-literal prefix,
//! `number:` or `bool:`, into numbers and booleans.

use crate::error::ConfigError;
use crate::error::Fault;
use crate::error::PathStep;
use crate::error::Step;
use crate::error::cast_fault;
use crate::error::under;
use crate::expansion::value_result;
use crate::text::chars_of;
use crate::text::has_prefix;
use crate::text::matches_at;
use crate::text::same_chars;
use crate::text::slice_chars;
use crate::text::string_of;
use crate::value::Json;
use crate::value::JsonValue;
use crate::value::Member;
use crate::value::array_view;
use crate::value::json_number;
use crate::value::lemma_view_array;
use crate::value::lemma_view_object;
use crate::value::object_view;
use crate::value::parse_number;
use vstd::prelude::*;

verus! {

/// The prefix of a string that is to become a number.
pub open spec fn number_prefix() -> Seq<char> {
    "number:"@
}

/// The prefix of a string that is to become a boolean.
pub open spec fn bool_prefix() -> Seq<char> {
    "bool:"@
}

/// What is said of a text behind `bool:` that is neither `true` nor `false`.
pub open spec fn not_a_bool() -> Seq<char> {
    "provided string was not `true` or `false`"@
}

/// What a string leaf becomes. Behind `number:` stands the text of a number,
/// behind `bool:` either `true` or `false`; a string that begins with neither
/// prefix stays the string it is.
pub open spec fn cast_text(s: Seq<char>) -> Result<Json, Fault> {
    if has_prefix(s, number_prefix()) {
        let text = s.skip(number_prefix().len() as int);
        match json_number(text) {
            Ok(n) => Ok(Json::Number(n)),
            Err(reason) => Err(cast_fault(text, reason)),
        }
    } else if has_prefix(s, bool_prefix()) {
        let text = s.skip(bool_prefix().len() as int);
        if text == "true"@ {
            Ok(Json::Bool(true))
        } else if text == "false"@ {
            Ok(Json::Bool(false))
        } else {
            Err(cast_fault(text, not_a_bool()))
        }
    } else {
        Ok(Json::Text(s))
    }
}

/// `value` with every string leaf cast; leaves that are no strings, and the
/// keys of objects, stay as they are. The leaves are taken in the order of
/// the tree, and the first that fails is the failure of the whole, with the
/// path that leads to it.
pub open spec fn cast_value(value: Json) -> Result<Json, Fault>
    decreases value,
{
    match value {
        Json::Text(s) => cast_text(s),
        Json::Array(items) => match cast_items(items) {
            Ok(out) => Ok(Json::Array(out)),
            Err(fault) => Err(fault),
        },
        Json::Object(members) => match cast_members(members) {
            Ok(out) => Ok(Json::Object(out)),
            Err(fault) => Err(fault),
        },
        _ => Ok(value),
    }
}

/// The elements of an array, each cast; the failure of the first that fails.
pub open spec fn cast_items(items: Seq<Json>) -> Result<Seq<Json>, Fault>
    decreases items,
{
    if items.len() == 0 {
        Ok(Seq::empty())
    } else {
        match cast_items(items.drop_last()) {
            Err(fault) => Err(fault),
            Ok(done) => match cast_value(items.last()) {
                Err(fault) => Err(under(Step::Index((items.len() - 1) as nat), fault)),
                Ok(item) => Ok(done.push(item)),
            },
        }
    }
}

/// The members of an object, the value of each cast; the failure of the first
/// that fails.
pub open spec fn cast_members(members: Seq<Member>) -> Result<Seq<Member>, Fault>
    decreases members,
{
    if members.len() == 0 {
        Ok(Seq::empty())
    } else {
        match cast_members(members.drop_last()) {
            Err(fault) => Err(fault),
            Ok(done) => match cast_value(members.last().value) {
                Err(fault) => Err(under(Step::Key(members.last().key), fault)),
                Ok(value) => Ok(done.push(Member { key: members.last().key, value })),
            },
        }
    }
}

/// Where the first elements of an array fail, the array fails as they do.
pub proof fn lemma_cast_items_prefix(items: Seq<Json>, k: int)
    requires
        0 <= k <= items.len(),
        cast_items(items.take(k)) is Err,
    ensures
        cast_items(items) == cast_items(items.take(k)),
    decreases items.len() - k,
{
    if k < items.len() {
        assert(items.take(k + 1).drop_last() =~= items.take(k));
        lemma_cast_items_prefix(items, k + 1);
    } else {
        assert(items.take(k) =~= items);
    }
}

/// Where the first members of an object fail, the object fails as they do.
pub proof fn lemma_cast_members_prefix(members: Seq<Member>, k: int)
    requires
        0 <= k <= members.len(),
        cast_members(members.take(k)) is Err,
    ensures
        cast_members(members) == cast_members(members.take(k)),
    decreases members.len() - k,
{
    if k < members.len() {
        assert(members.take(k + 1).drop_last() =~= members.take(k));
        lemma_cast_members_prefix(members, k + 1);
    } else {
        assert(members.take(k) =~= members);
    }
}

/// Casts one string leaf.
fn cast_string(s: &String) -> (r: Result<JsonValue, ConfigError>)
    ensures
        value_result(r) == cast_text(s@),
{
    let chars = chars_of(s.as_str());
    let number = chars_of("number:");
    let boolean = chars_of("bool:");
    if matches_at(&chars, &number, 0) {
        let text = string_of(&slice_chars(&chars, number.len(), chars.len()));
        match parse_number(text.as_str()) {
            Ok(n) => Ok(JsonValue::Number(n)),
            Err(reason) => Err(ConfigError::cast_failure(text, reason)),
        }
    } else if matches_at(&chars, &boolean, 0) {
        let tail = slice_chars(&chars, boolean.len(), chars.len());
        if same_chars(&tail, &chars_of("true")) {
            Ok(JsonValue::Bool(true))
        } else if same_chars(&tail, &chars_of("false")) {
            Ok(JsonValue::Bool(false))
        } else {
            Err(
                ConfigError::cast_failure(
                    string_of(&tail),
                    String::from_str("provided string was not `true` or `false`"),
                ),
            )
        }
    } else {
        Ok(JsonValue::String(s.clone()))
    }
}

/// Casts the elements of an array in turn.
pub fn cast_array(items: &Vec<JsonValue>) -> (r: Result<Vec<JsonValue>, ConfigError>)
    ensures
        match r {
            Ok(out) => cast_items(array_view(items@)) == Ok::<Seq<Json>, Fault>(array_view(out@)),
            Err(e) => cast_items(array_view(items@)) == Err::<Seq<Json>, Fault>(e@),
        },
    decreases items,
{
    let ghost all = array_view(items@);
    let mut out: Vec<JsonValue> = Vec::new();
    let mut k: usize = 0;
    proof {
        assert(all.take(0) =~= Seq::empty());
        assert(array_view(out@) =~= Seq::empty());
    }
    while k < items.len()
        invariant
            k <= items.len(),
            all == array_view(items@),
            cast_items(all.take(k as int)) == Ok::<Seq<Json>, Fault>(array_view(out@)),
        decreases items.len() - k,
    {
        proof {
            assert(all.take(k + 1).drop_last() =~= all.take(k as int));
            assert(all.take(k + 1).last() == items@[k as int]@);
        }
        match cast(&items[k]) {
            Err(e) => {
                proof {
                    lemma_cast_items_prefix(all, k + 1);
                }
                return Err(e.under(PathStep::Index(k)));
            },
            Ok(item) => {
                let ghost before = array_view(out@);
                out.push(item);
                proof {
                    assert(array_view(out@) =~= before.push(item@));
                }
            },
        }
        k += 1;
    }
    proof {
        assert(all.take(k as int) =~= all);
    }
    Ok(out)
}

/// Casts the members of an object in turn.
pub fn cast_object(members: &Vec<(String, JsonValue)>) -> (r: Result<
    Vec<(String, JsonValue)>,
    ConfigError,
>)
    ensures
        match r {
            Ok(out) => cast_members(object_view(members@)) == Ok::<Seq<Member>, Fault>(
                object_view(out@),
            ),
            Err(e) => cast_members(object_view(members@)) == Err::<Seq<Member>, Fault>(e@),
        },
    decreases members,
{
    let ghost all = object_view(members@);
    let mut out: Vec<(String, JsonValue)> = Vec::new();
    let mut k: usize = 0;
    proof {
        assert(all.take(0) =~= Seq::empty());
        assert(object_view(out@) =~= Seq::empty());
    }
    while k < members.len()
        invariant
            k <= members.len(),
            all == object_view(members@),
            cast_members(all.take(k as int)) == Ok::<Seq<Member>, Fault>(object_view(out@)),
        decreases members.len() - k,
    {
        proof {
            assert(all.take(k + 1).drop_last() =~= all.take(k as int));
            assert(all.take(k + 1).last() == all[k as int]);
        }
        match cast(&members[k].1) {
            Err(e) => {
                proof {
                    lemma_cast_members_prefix(all, k + 1);
                }
                return Err(e.under(PathStep::Key(members[k].0.clone())));
            },
            Ok(item) => {
                let ghost before = object_view(out@);
                let ghost key = members@[k as int].0@;
                out.push((members[k].0.clone(), item));
                proof {
                    assert(object_view(out@) =~= before.push(Member { key, value: item@ }));
                }
            },
        }
        k += 1;
    }
    proof {
        assert(all.take(k as int) =~= all);
    }
    Ok(out)
}

/// The value that `value` becomes when its typed literals are cast.
pub fn cast(value: &JsonValue) -> (r: Result<JsonValue, ConfigError>)
    ensures
        value_result(r) == cast_value(value@),
    decreases value,
{
    match value {
        JsonValue::Null => Ok(JsonValue::Null),
        JsonValue::Bool(b) => Ok(JsonValue::Bool(*b)),
        JsonValue::Number(n) => Ok(JsonValue::Number(n.clone())),
        JsonValue::String(s) => cast_string(s),
        JsonValue::Array(items) => {
            proof {
                lemma_view_array(*items);
            }
            match cast_array(items) {
                Ok(out) => {
                    proof {
                        lemma_view_array(out);
                    }
                    Ok(JsonValue::Array(out))
                },
                Err(e) => Err(e),
            }
        },
        JsonValue::Object(members) => {
            proof {
                lemma_view_object(*members);
            }
            match cast_object(members) {
                Ok(out) => {
                    proof {
                        lemma_view_object(out);
                    }
                    Ok(JsonValue::Object(out))
                },
                Err(e) => Err(e),
            }
        },
    }
}

/// Casts the typed literals of `v` where it stands. A string leaf that begins
/// with `number:` becomes the number that the rest of it writes, one that
/// begins with `bool:` the boolean that the rest of it names; every other
/// leaf stays. Where a leaf cannot be cast, `v` is left as it was and the
/// result is `TypeCast` with the text and the path of that leaf.
pub fn type_cast(v: &mut JsonValue) -> (r: Result<(), ConfigError>)
    ensures
        match r {
            Ok(()) => cast_value(old(v)@) == Ok::<Json, Fault>(final(v)@),
            Err(e) => cast_value(old(v)@) == Err::<Json, Fault>(e@) && *final(v) == *old(v),
        },
{
    match cast(v) {
        Ok(out) => {
            *v = out;
            Ok(())
        },
        Err(e) => Err(e),
    }
}

} // verus!
