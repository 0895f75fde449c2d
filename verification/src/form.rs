//! Well-formed configurations: tables, headers and objects are maps, so no
//! name or key occurs twice in one of them. Reading a document and resolving
//! a configuration keep that, and resolving adds that no request name occurs
//! twice.

use crate::cast::cast_items;
use crate::cast::cast_members;
use crate::cast::cast_value;
use crate::config::loaded_value;
use crate::config::ConfigView;
use crate::config::RequestView;
use crate::document::decoded;
use crate::document::decoded_request;
use crate::document::member;
use crate::document::member_of_either;
use crate::document::optional_pairs;
use crate::document::text_pairs;
use crate::error::Fault;
use crate::expansion::expanded_items;
use crate::expansion::expanded_members;
use crate::expansion::expanded_value;
use crate::laws::defines;
use crate::laws::lemma_cast_items_pointwise;
use crate::laws::lemma_cast_members_pointwise;
use crate::laws::lemma_duplicate_name;
use crate::laws::lemma_expanded_items_pointwise;
use crate::laws::lemma_expanded_members_pointwise;
use crate::laws::lemma_position;
use crate::laws::shares_a_name;
use crate::placeholder::expanded;
use crate::resolve::cast_request;
use crate::resolve::expanded_definitions_from;
use crate::resolve::expanded_pair;
use crate::resolve::expanded_request;
use crate::resolve::request_table;
use crate::resolve::resolved;
use crate::resolve::resolved_request;
use crate::resolve::try_map;
use crate::table::as_table;
use crate::table::distinct_names;
use crate::table::position;
use crate::table::put;
use crate::value::Json;
use crate::value::Member;
use crate::variables::compile_from;
use crate::variables::compiled;
use vstd::prelude::*;

verus! {

/// No two members have the same key.
pub open spec fn distinct_keys(members: Seq<Member>) -> bool {
    forall|i: int, j: int|
        0 <= i < j < members.len() ==> (#[trigger] members[i]).key != (#[trigger] members[j]).key
}

/// Every object in `value` has distinct keys.
pub open spec fn well_keyed(value: Json) -> bool
    decreases value,
{
    match value {
        Json::Array(items) => forall|i: int|
            0 <= i < items.len() ==> well_keyed(#[trigger] items[i]),
        Json::Object(members) => distinct_keys(members) && forall|i: int|
            0 <= i < members.len() ==> well_keyed((#[trigger] members[i]).value),
        _ => true,
    }
}

/// The members of an object have distinct keys, and so has every object in
/// their values.
pub open spec fn well_keyed_members(members: Seq<Member>) -> bool {
    well_keyed(Json::Object(members))
}

/// A request is well formed: its definitions, its headers, its parameters
/// and its body are maps.
pub open spec fn request_well_formed(request: RequestView) -> bool {
    &&& request.variables matches Some(defs) ==> distinct_names(defs)
    &&& distinct_names(request.headers)
    &&& well_keyed_members(request.params)
    &&& request.body matches Some(members) ==> well_keyed_members(members)
}

/// A configuration is well formed: its variables and its default headers are
/// maps, and each request is well formed.
pub open spec fn well_formed(config: ConfigView) -> bool {
    &&& distinct_names(config.variables)
    &&& distinct_names(config.default_headers)
    &&& forall|i: int|
        0 <= i < config.requests.len() ==> request_well_formed(#[trigger] config.requests[i])
}

/// Setting a name in a map gives a map.
pub proof fn lemma_put_distinct(
    entries: Seq<(Seq<char>, Seq<char>)>,
    name: Seq<char>,
    value: Seq<char>,
)
    requires
        distinct_names(entries),
    ensures
        distinct_names(put(entries, name, value)),
{
    let after = put(entries, name, value);
    let at = position(entries, name);
    lemma_position(entries, name);
    assert forall|i: int, j: int| 0 <= i < j < after.len() implies (#[trigger] after[i]).0 != (
    #[trigger] after[j]).0 by {
        if at < entries.len() {
            assert(after[i].0 == entries[i].0);
            assert(after[j].0 == entries[j].0);
        } else if j == entries.len() {
            assert(after[i] == entries[i]);
            if entries[i].0 == name {
                assert(defines(entries, name));
            }
        } else {
            assert(after[i] == entries[i]);
            assert(after[j] == entries[j]);
        }
    }
}

/// Pairs entered in turn into a table give a map.
pub proof fn lemma_as_table_distinct(pairs: Seq<(Seq<char>, Seq<char>)>)
    ensures
        distinct_names(as_table(pairs)),
    decreases pairs.len(),
{
    if pairs.len() > 0 {
        lemma_as_table_distinct(pairs.drop_last());
        lemma_put_distinct(as_table(pairs.drop_last()), pairs.last().0, pairs.last().1);
    }
}

/// Compiling on top of a map gives a map.
pub proof fn lemma_compile_distinct(
    raw: Seq<(Seq<char>, Seq<char>)>,
    k: int,
    table: Seq<(Seq<char>, Seq<char>)>,
)
    requires
        0 <= k,
        distinct_names(table),
        compile_from(raw, k, table) is Ok,
    ensures
        distinct_names(compile_from(raw, k, table)->Ok_0),
    decreases raw.len() - k,
{
    if k < raw.len() {
        let value = expanded(raw[k].1, table)->Ok_0;
        lemma_put_distinct(table, raw[k].0, value);
        lemma_compile_distinct(raw, k + 1, put(table, raw[k].0, value));
    }
}

/// Expanding the definitions of a request gives a map.
pub proof fn lemma_definitions_distinct(
    defs: Seq<(Seq<char>, Seq<char>)>,
    k: int,
    done: Seq<(Seq<char>, Seq<char>)>,
    table: Seq<(Seq<char>, Seq<char>)>,
)
    requires
        0 <= k,
        distinct_names(done),
        expanded_definitions_from(defs, k, done, table) is Ok,
    ensures
        distinct_names(expanded_definitions_from(defs, k, done, table)->Ok_0),
    decreases defs.len() - k,
{
    if k < defs.len() {
        let value = expanded(defs[k].1, table)->Ok_0;
        lemma_put_distinct(done, defs[k].0, value);
        lemma_definitions_distinct(defs, k + 1, put(done, defs[k].0, value), table);
    }
}

/// What succeeds for the whole has the result of each item in its place.
pub proof fn lemma_try_map_pointwise<A, B>(items: Seq<A>, f: spec_fn(A) -> Result<B, Fault>)
    requires
        try_map(items, f) is Ok,
    ensures
        try_map(items, f)->Ok_0.len() == items.len(),
        forall|i: int|
            0 <= i < items.len() ==> f(#[trigger] items[i]) == Ok::<B, Fault>(
                try_map(items, f)->Ok_0[i],
            ),
    decreases items.len(),
{
    if items.len() > 0 {
        let front = items.drop_last();
        lemma_try_map_pointwise(front, f);
        assert forall|i: int| 0 <= i < items.len() implies f(#[trigger] items[i]) == Ok::<
            B,
            Fault,
        >(try_map(items, f)->Ok_0[i]) by {
            if i < front.len() {
                assert(front[i] == items[i]);
            }
        }
    }
}

/// Expanding the values of pairs keeps their names.
pub proof fn lemma_expanded_pairs_distinct(
    pairs: Seq<(Seq<char>, Seq<char>)>,
    table: Seq<(Seq<char>, Seq<char>)>,
)
    requires
        distinct_names(pairs),
        try_map(pairs, expanded_pair(table)) is Ok,
    ensures
        distinct_names(try_map(pairs, expanded_pair(table))->Ok_0),
{
    let out = try_map(pairs, expanded_pair(table))->Ok_0;
    lemma_try_map_pointwise(pairs, expanded_pair(table));
    assert forall|i: int, j: int| 0 <= i < j < out.len() implies (#[trigger] out[i]).0 != (
    #[trigger] out[j]).0 by {
        assert(expanded_pair(table)(pairs[i]) == Ok::<(Seq<char>, Seq<char>), Fault>(out[i]));
        assert(expanded_pair(table)(pairs[j]) == Ok::<(Seq<char>, Seq<char>), Fault>(out[j]));
    }
}

/// Expansion keeps the keys of every object.
pub proof fn lemma_expansion_keeps_keys(value: Json, table: Seq<(Seq<char>, Seq<char>)>)
    requires
        well_keyed(value),
        expanded_value(value, table) is Ok,
    ensures
        well_keyed(expanded_value(value, table)->Ok_0),
    decreases value,
{
    match value {
        Json::Array(items) => {
            let out = expanded_items(items, table)->Ok_0;
            lemma_expanded_items_pointwise(items, table);
            assert forall|i: int| 0 <= i < out.len() implies well_keyed(#[trigger] out[i]) by {
                assert(well_keyed(items[i]));
                lemma_expansion_keeps_keys(items[i], table);
            }
        },
        Json::Object(members) => {
            let out = expanded_members(members, table)->Ok_0;
            lemma_expanded_members_pointwise(members, table);
            assert forall|i: int| 0 <= i < out.len() implies well_keyed(
                (#[trigger] out[i]).value,
            ) by {
                assert(well_keyed(members[i].value));
                lemma_expansion_keeps_keys(members[i].value, table);
            }
            assert forall|i: int, j: int| 0 <= i < j < out.len() implies (#[trigger] out[i]).key
                != (#[trigger] out[j]).key by {
                assert(out[i].key == members[i].key);
                assert(out[j].key == members[j].key);
            }
        },
        _ => {},
    }
}

/// A cast keeps the keys of every object.
pub proof fn lemma_cast_keeps_keys(value: Json)
    requires
        well_keyed(value),
        cast_value(value) is Ok,
    ensures
        well_keyed(cast_value(value)->Ok_0),
    decreases value,
{
    match value {
        Json::Array(items) => {
            let out = cast_items(items)->Ok_0;
            lemma_cast_items_pointwise(items);
            assert forall|i: int| 0 <= i < out.len() implies well_keyed(#[trigger] out[i]) by {
                assert(well_keyed(items[i]));
                lemma_cast_keeps_keys(items[i]);
            }
        },
        Json::Object(members) => {
            let out = cast_members(members)->Ok_0;
            lemma_cast_members_pointwise(members);
            assert forall|i: int| 0 <= i < out.len() implies well_keyed(
                (#[trigger] out[i]).value,
            ) by {
                assert(well_keyed(members[i].value));
                lemma_cast_keeps_keys(members[i].value);
            }
            assert forall|i: int, j: int| 0 <= i < j < out.len() implies (#[trigger] out[i]).key
                != (#[trigger] out[j]).key by {
                assert(out[i].key == members[i].key);
                assert(out[j].key == members[j].key);
            }
        },
        _ => {},
    }
}

/// Expanding a well-formed request gives a well-formed request.
pub proof fn lemma_request_keeps_form(request: RequestView, globals: Seq<(Seq<char>, Seq<char>)>)
    requires
        request_well_formed(request),
        resolved_request(globals)(request) is Ok,
    ensures
        request_well_formed(resolved_request(globals)(request)->Ok_0),
{
    let table = request_table(request, globals)->Ok_0;
    let out = expanded_request(request, table)->Ok_0;
    if request.variables is Some {
        assert(distinct_names(Seq::<(Seq<char>, Seq<char>)>::empty()));
        lemma_definitions_distinct(request.variables->0, 0, Seq::empty(), table);
    }
    lemma_expanded_pairs_distinct(request.headers, table);
    lemma_expansion_keeps_keys(Json::Object(request.params), table);
    if request.body is Some {
        lemma_expansion_keeps_keys(Json::Object(request.body->0), table);
    }
}

/// Casting the body of a well-formed request gives a well-formed request.
pub proof fn lemma_cast_request_keeps_form(request: RequestView)
    requires
        request_well_formed(request),
        cast_request()(request) is Ok,
    ensures
        request_well_formed(cast_request()(request)->Ok_0),
{
    if request.body is Some {
        lemma_cast_keeps_keys(Json::Object(request.body->0));
    }
}

/// Resolving keeps a configuration well formed, and the names of the
/// requests of a resolved configuration differ from one another.
pub proof fn lemma_resolution_keeps_form(doc: ConfigView)
    requires
        resolved(doc) is Ok,
    ensures
        !shares_a_name(resolved(doc)->Ok_0.requests),
        distinct_names(resolved(doc)->Ok_0.variables),
        well_formed(doc) ==> well_formed(resolved(doc)->Ok_0),
{
    let out = resolved(doc)->Ok_0;
    lemma_duplicate_name(out.requests);
    assert(distinct_names(Seq::<(Seq<char>, Seq<char>)>::empty()));
    lemma_compile_distinct(doc.variables, 0, Seq::empty());
    if well_formed(doc) {
        let globals = compiled(doc.variables, Seq::empty())->Ok_0;
        lemma_expanded_pairs_distinct(doc.default_headers, globals);
        let expanded = try_map(doc.requests, resolved_request(globals))->Ok_0;
        lemma_try_map_pointwise(doc.requests, resolved_request(globals));
        lemma_try_map_pointwise(expanded, cast_request());
        assert forall|i: int| 0 <= i < out.requests.len() implies request_well_formed(
            #[trigger] out.requests[i],
        ) by {
            assert(request_well_formed(doc.requests[i]));
            assert(resolved_request(globals)(doc.requests[i]) == Ok::<RequestView, Fault>(
                expanded[i],
            ));
            lemma_request_keeps_form(doc.requests[i], globals);
            assert(cast_request()(expanded[i]) == Ok::<RequestView, Fault>(out.requests[i]));
            lemma_cast_request_keeps_form(expanded[i]);
        }
    }
}

/// What is found under a key is the value of one of the members.
pub proof fn lemma_member(members: Seq<Member>, key: Seq<char>)
    ensures
        member(members, key) matches Some(value) ==> exists|i: int|
            0 <= i < members.len() && (#[trigger] members[i]).value == value,
    decreases members.len(),
{
    if members.len() > 0 {
        if members[0].key == key {
            assert(members[0].value == member(members, key)->0);
        } else {
            let rest = members.skip(1);
            lemma_member(rest, key);
            if member(rest, key) is Some {
                let i = choose|i: int|
                    0 <= i < rest.len() && (#[trigger] rest[i]).value == member(rest, key)->0;
                assert(members[i + 1] == rest[i]);
            }
        }
    }
}

/// What is found in a well-keyed object is well keyed.
pub proof fn lemma_found_well_keyed(members: Seq<Member>, key: Seq<char>)
    requires
        well_keyed_members(members),
    ensures
        member(members, key) matches Some(value) ==> well_keyed(value),
{
    lemma_member(members, key);
    if member(members, key) is Some {
        let i = choose|i: int|
            0 <= i < members.len() && (#[trigger] members[i]).value == member(members, key)->0;
        assert(well_keyed(members[i].value));
    }
}

/// The pairs read from an object have the keys of its members.
pub proof fn lemma_text_pairs_distinct(members: Seq<Member>, field: Seq<char>)
    requires
        text_pairs(members, field) is Ok,
    ensures
        text_pairs(members, field)->Ok_0.len() == members.len(),
        forall|i: int|
            0 <= i < members.len() ==> text_pairs(members, field)->Ok_0[i].0 == (
            #[trigger] members[i]).key,
        distinct_keys(members) ==> distinct_names(text_pairs(members, field)->Ok_0),
    decreases members.len(),
{
    if members.len() > 0 {
        let front = members.drop_last();
        lemma_text_pairs_distinct(front, field);
        let out = text_pairs(members, field)->Ok_0;
        assert forall|i: int| 0 <= i < members.len() implies out[i].0 == (
        #[trigger] members[i]).key by {
            if i < front.len() {
                assert(front[i] == members[i]);
            }
        }
        if distinct_keys(members) {
            assert forall|i: int, j: int| 0 <= i < j < out.len() implies (#[trigger] out[i]).0 != (
            #[trigger] out[j]).0 by {
                assert(out[i].0 == members[i].key);
                assert(out[j].0 == members[j].key);
            }
        }
    }
}

/// The pairs read from what was found under a key are a map where the
/// document is well keyed.
proof fn lemma_optional_pairs_distinct(found: Option<Json>, field: Seq<char>)
    requires
        found matches Some(value) ==> well_keyed(value),
        optional_pairs(found, field) is Ok,
    ensures
        distinct_names(optional_pairs(found, field)->Ok_0),
{
    match found {
        Some(Json::Object(members)) => {
            lemma_text_pairs_distinct(members, field);
        },
        _ => {},
    }
}

/// A request read from a well-keyed value is well formed.
pub proof fn lemma_decoded_request_form(value: Json)
    requires
        well_keyed(value),
        decoded_request()(value) is Ok,
    ensures
        request_well_formed(decoded_request()(value)->Ok_0),
{
    let m = value->Object_0;
    let request = decoded_request()(value)->Ok_0;
    lemma_found_well_keyed(m, "variables"@);
    lemma_found_well_keyed(m, "headers"@);
    lemma_found_well_keyed(m, "header"@);
    lemma_found_well_keyed(m, "params"@);
    lemma_found_well_keyed(m, "body"@);
    if request.variables is Some {
        lemma_as_table_distinct(
            optional_pairs(member(m, "variables"@), "variables"@)->Ok_0,
        );
    }
    lemma_optional_pairs_distinct(member_of_either(m, "headers"@, "header"@), "headers"@);
}

/// A configuration read from a well-keyed value is well formed.
pub proof fn lemma_decoded_form(value: Json)
    requires
        well_keyed(value),
        decoded(value) is Ok,
    ensures
        well_formed(decoded(value)->Ok_0),
{
    let m = value->Object_0;
    let config = decoded(value)->Ok_0;
    lemma_found_well_keyed(m, "default_headers"@);
    lemma_found_well_keyed(m, "default_header"@);
    lemma_found_well_keyed(m, "requests"@);
    lemma_as_table_distinct(optional_pairs(member(m, "variables"@), "variables"@)->Ok_0);
    lemma_optional_pairs_distinct(
        member_of_either(m, "default_headers"@, "default_header"@),
        "default_headers"@,
    );
    let items = member(m, "requests"@)->0->Array_0;
    lemma_try_map_pointwise(items, decoded_request());
    assert forall|i: int| 0 <= i < config.requests.len() implies request_well_formed(
        #[trigger] config.requests[i],
    ) by {
        assert(well_keyed(items[i]));
        assert(decoded_request()(items[i]) == Ok::<RequestView, Fault>(config.requests[i]));
        lemma_decoded_request_form(items[i]);
    }
}

/// A configuration loaded from a well-keyed value is well formed, and the
/// names of its requests differ from one another.
pub proof fn lemma_loaded_form(value: Json)
    requires
        well_keyed(value),
        loaded_value(value) is Ok,
    ensures
        well_formed(loaded_value(value)->Ok_0),
        !shares_a_name(loaded_value(value)->Ok_0.requests),
{
    lemma_decoded_form(value);
    lemma_resolution_keeps_form(decoded(value)->Ok_0);
}

} // verus!
