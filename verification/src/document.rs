//! The shape of a configuration document: which members a document and a
//! request have, which of them must be there, and of what kind each is.

use crate::config::CLIOptions;
use crate::config::Config;
use crate::config::ConfigView;
use crate::config::HTTPMethod;
use crate::config::Request;
use crate::config::RequestView;
use crate::config::pairs_view;
use crate::config::requests_view;
use crate::error::ConfigError;
use crate::error::Fault;
use crate::resolve::config_result;
use crate::resolve::lemma_try_map_prefix;
use crate::resolve::try_map;
use crate::table::as_table;
use crate::table::table_entries;
use crate::table::table_insert;
use crate::table::table_new;
use crate::text::same_text;
use crate::value::Json;
use crate::value::JsonValue;
use crate::value::Member;
use crate::value::array_view;
use crate::value::clone_members;
use crate::value::lemma_view_array;
use crate::value::lemma_view_object;
use crate::value::object_view;
use indexmap::IndexMap;
use vstd::prelude::*;

verus! {

/// The value of the first of `members` that has the key `key`.
pub open spec fn member(members: Seq<Member>, key: Seq<char>) -> Option<Json>
    decreases members.len(),
{
    if members.len() == 0 {
        None
    } else if members[0].key == key {
        Some(members[0].value)
    } else {
        member(members.skip(1), key)
    }
}

/// The value under `key`, or under `older` where no member has `key`.
pub open spec fn member_of_either(members: Seq<Member>, key: Seq<char>, older: Seq<char>)
    -> Option<Json> {
    match member(members, key) {
        Some(value) => Some(value),
        None => member(members, older),
    }
}

/// A member that must be there is not.
pub open spec fn missing(field: Seq<char>) -> Fault {
    Fault::Parse("missing field `"@ + field + "`"@)
}

/// A member is of another kind than it must be.
pub open spec fn mistyped(field: Seq<char>, expected: Seq<char>) -> Fault {
    Fault::Parse("invalid type for `"@ + field + "`: expected "@ + expected)
}

/// A text that must be there.
pub open spec fn required_text(found: Option<Json>, field: Seq<char>) -> Result<Seq<char>, Fault> {
    match found {
        None => Err(missing(field)),
        Some(Json::Text(s)) => Ok(s),
        Some(_) => Err(mistyped(field, "a string"@)),
    }
}

/// A text that is empty where it is not there.
pub open spec fn optional_text(found: Option<Json>, field: Seq<char>) -> Result<Seq<char>, Fault> {
    match found {
        None => Ok(Seq::empty()),
        Some(Json::Text(s)) => Ok(s),
        Some(_) => Err(mistyped(field, "a string"@)),
    }
}

/// A switch that is off where it is not there.
pub open spec fn optional_flag(found: Option<Json>, field: Seq<char>) -> Result<bool, Fault> {
    match found {
        None => Ok(false),
        Some(Json::Bool(b)) => Ok(b),
        Some(_) => Err(mistyped(field, "a boolean"@)),
    }
}

/// The members of an object, each with a text for its value, as pairs.
pub open spec fn text_pairs(members: Seq<Member>, field: Seq<char>) -> Result<
    Seq<(Seq<char>, Seq<char>)>,
    Fault,
>
    decreases members.len(),
{
    if members.len() == 0 {
        Ok(Seq::empty())
    } else {
        match text_pairs(members.drop_last(), field) {
            Err(fault) => Err(fault),
            Ok(done) => match members.last().value {
                Json::Text(s) => Ok(done.push((members.last().key, s))),
                _ => Err(mistyped(field, "a map of strings"@)),
            },
        }
    }
}

/// Pairs of texts; none where the member is not there.
pub open spec fn optional_pairs(found: Option<Json>, field: Seq<char>) -> Result<
    Seq<(Seq<char>, Seq<char>)>,
    Fault,
> {
    match found {
        None => Ok(Seq::empty()),
        Some(Json::Object(members)) => text_pairs(members, field),
        Some(_) => Err(mistyped(field, "a map of strings"@)),
    }
}

/// The definitions of a document; none where the member is not there.
pub open spec fn optional_table(found: Option<Json>, field: Seq<char>) -> Result<
    Seq<(Seq<char>, Seq<char>)>,
    Fault,
> {
    match optional_pairs(found, field) {
        Ok(pairs) => Ok(as_table(pairs)),
        Err(fault) => Err(fault),
    }
}

/// The definitions of a request, which may bring none: the member is not
/// there, or is null.
pub open spec fn optional_definitions(found: Option<Json>, field: Seq<char>) -> Result<
    Option<Seq<(Seq<char>, Seq<char>)>>,
    Fault,
> {
    match found {
        None => Ok(None),
        Some(Json::Null) => Ok(None),
        Some(value) => match optional_table(found, field) {
            Ok(table) => Ok(Some(table)),
            Err(fault) => Err(fault),
        },
    }
}

/// The members of an object; none where the member is not there.
pub open spec fn optional_members(found: Option<Json>, field: Seq<char>) -> Result<
    Seq<Member>,
    Fault,
> {
    match found {
        None => Ok(Seq::empty()),
        Some(Json::Object(members)) => Ok(members),
        Some(_) => Err(mistyped(field, "a map"@)),
    }
}

/// The body of a request, which may have none: the member is not there, or
/// is null.
pub open spec fn optional_body(found: Option<Json>, field: Seq<char>) -> Result<
    Option<Seq<Member>>,
    Fault,
> {
    match found {
        None => Ok(None),
        Some(Json::Null) => Ok(None),
        Some(Json::Object(members)) => Ok(Some(members)),
        Some(_) => Err(mistyped(field, "a map"@)),
    }
}

/// The method that `text` names.
pub open spec fn method_named(text: Seq<char>) -> Option<HTTPMethod> {
    if text == "GET"@ {
        Some(HTTPMethod::Get)
    } else if text == "POST"@ {
        Some(HTTPMethod::Post)
    } else if text == "PUT"@ {
        Some(HTTPMethod::Put)
    } else if text == "DELETE"@ {
        Some(HTTPMethod::Delete)
    } else if text == "PATCH"@ {
        Some(HTTPMethod::Patch)
    } else if text == "HEAD"@ {
        Some(HTTPMethod::Head)
    } else {
        None
    }
}

/// The method of a request, which must be there.
pub open spec fn required_method(found: Option<Json>) -> Result<HTTPMethod, Fault> {
    match required_text(found, "method"@) {
        Err(fault) => Err(fault),
        Ok(text) => match method_named(text) {
            Some(method) => Ok(method),
            None => Err(
                Fault::Parse(
                    "unknown variant `"@ + text
                        + "`, expected one of `GET`, `POST`, `PUT`, `DELETE`, `PATCH`, `HEAD`"@,
                ),
            ),
        },
    }
}

/// The options of a document; all off where the member is not there.
pub open spec fn optional_options(found: Option<Json>) -> Result<CLIOptions, Fault> {
    match found {
        None => Ok(CLIOptions { show_headers: false, disable_redirect: false, verbose: false }),
        Some(Json::Object(members)) => match optional_flag(
            member_of_either(members, "show_headers"@, "show_header"@),
            "show_headers"@,
        ) {
            Err(fault) => Err(fault),
            Ok(show_headers) => match optional_flag(
                member(members, "disable_redirect"@),
                "disable_redirect"@,
            ) {
                Err(fault) => Err(fault),
                Ok(disable_redirect) => match optional_flag(
                    member(members, "verbose"@),
                    "verbose"@,
                ) {
                    Err(fault) => Err(fault),
                    Ok(verbose) => Ok(CLIOptions { show_headers, disable_redirect, verbose }),
                },
            },
        },
        Some(_) => Err(mistyped("cli_options"@, "a map"@)),
    }
}

/// The request that a value writes. Its members are read in this order:
/// `disabled`, `name`, `description`, `variables`, `url`, `method`,
/// `headers` (or `header`), `params`, `body`. The name, the address and the
/// method must be there.
pub open spec fn decoded_request() -> spec_fn(Json) -> Result<RequestView, Fault> {
    |value: Json|
        match value {
            Json::Object(m) => match optional_flag(member(m, "disabled"@), "disabled"@) {
                Err(fault) => Err(fault),
                Ok(disabled) => match required_text(member(m, "name"@), "name"@) {
                    Err(fault) => Err(fault),
                    Ok(name) => match optional_text(member(m, "description"@), "description"@) {
                        Err(fault) => Err(fault),
                        Ok(description) => match optional_definitions(
                            member(m, "variables"@),
                            "variables"@,
                        ) {
                            Err(fault) => Err(fault),
                            Ok(variables) => match required_text(member(m, "url"@), "url"@) {
                                Err(fault) => Err(fault),
                                Ok(url) => match required_method(member(m, "method"@)) {
                                    Err(fault) => Err(fault),
                                    Ok(method) => match optional_pairs(
                                        member_of_either(m, "headers"@, "header"@),
                                        "headers"@,
                                    ) {
                                        Err(fault) => Err(fault),
                                        Ok(headers) => match optional_members(
                                            member(m, "params"@),
                                            "params"@,
                                        ) {
                                            Err(fault) => Err(fault),
                                            Ok(params) => match optional_body(
                                                member(m, "body"@),
                                                "body"@,
                                            ) {
                                                Err(fault) => Err(fault),
                                                Ok(body) => Ok(
                                                    RequestView {
                                                        disabled,
                                                        name,
                                                        description,
                                                        variables,
                                                        url,
                                                        method,
                                                        headers,
                                                        params,
                                                        body,
                                                    },
                                                ),
                                            },
                                        },
                                    },
                                },
                            },
                        },
                    },
                },
            },
            _ => Err(mistyped("requests"@, "a sequence of maps"@)),
        }
}

/// The requests of a document, which must be there.
pub open spec fn required_requests(found: Option<Json>) -> Result<Seq<RequestView>, Fault> {
    match found {
        None => Err(missing("requests"@)),
        Some(Json::Array(items)) => try_map(items, decoded_request()),
        Some(_) => Err(mistyped("requests"@, "a sequence of maps"@)),
    }
}

/// The configuration that a value writes. Its members are read in this
/// order: `description`, `cli_options`, `base_url`, `variables`,
/// `default_headers` (or `default_header`), `requests`. The base address and
/// the requests must be there; members of other names are passed over.
pub open spec fn decoded(value: Json) -> Result<ConfigView, Fault> {
    match value {
        Json::Object(m) => match optional_text(member(m, "description"@), "description"@) {
            Err(fault) => Err(fault),
            Ok(description) => match optional_options(member(m, "cli_options"@)) {
                Err(fault) => Err(fault),
                Ok(cli_options) => match required_text(member(m, "base_url"@), "base_url"@) {
                    Err(fault) => Err(fault),
                    Ok(base_url) => match optional_table(member(m, "variables"@), "variables"@) {
                        Err(fault) => Err(fault),
                        Ok(variables) => match optional_pairs(
                            member_of_either(m, "default_headers"@, "default_header"@),
                            "default_headers"@,
                        ) {
                            Err(fault) => Err(fault),
                            Ok(default_headers) => match required_requests(
                                member(m, "requests"@),
                            ) {
                                Err(fault) => Err(fault),
                                Ok(requests) => Ok(
                                    ConfigView {
                                        description,
                                        cli_options,
                                        base_url,
                                        variables,
                                        default_headers,
                                        requests,
                                    },
                                ),
                            },
                        },
                    },
                },
            },
        },
        _ => Err(Fault::Parse("invalid type: expected a map"@)),
    }
}

/// What was found, as contracts see it.
pub open spec fn found_view(found: Option<&JsonValue>) -> Option<Json> {
    match found {
        Some(value) => Some(value@),
        None => None,
    }
}

/// Finds the first member with the key `key`.
pub fn find<'a>(members: &'a Vec<(String, JsonValue)>, key: &str) -> (found: Option<&'a JsonValue>)
    ensures
        found_view(found) == member(object_view(members@), key@),
{
    let ghost all = object_view(members@);
    let mut k: usize = 0;
    proof {
        assert(all.skip(0) =~= all);
    }
    while k < members.len()
        invariant
            k <= members.len(),
            all == object_view(members@),
            member(all.skip(k as int), key@) == member(all, key@),
        decreases members.len() - k,
    {
        proof {
            assert(all.skip(k as int)[0] == all[k as int]);
            assert(all.skip(k as int).skip(1) =~= all.skip(k + 1));
        }
        if same_text(members[k].0.as_str(), key) {
            return Some(&members[k].1);
        }
        k += 1;
    }
    None
}

/// Finds the first member with the key `key`, or with `older` where there is
/// none.
pub fn find_either<'a>(members: &'a Vec<(String, JsonValue)>, key: &str, older: &str) -> (found:
    Option<&'a JsonValue>)
    ensures
        found_view(found) == member_of_either(object_view(members@), key@, older@),
{
    match find(members, key) {
        Some(value) => Some(value),
        None => find(members, older),
    }
}

/// The error for a member that must be there and is not.
fn missing_error(field: &str) -> (e: ConfigError)
    ensures
        e@ == missing(field@),
{
    let mut message = String::from_str("missing field `");
    message.append(field);
    message.append("`");
    ConfigError::Parse(message)
}

/// The error for a member of another kind than it must be.
fn mistyped_error(field: &str, expected: &str) -> (e: ConfigError)
    ensures
        e@ == mistyped(field@, expected@),
{
    let mut message = String::from_str("invalid type for `");
    message.append(field);
    message.append("`: expected ");
    message.append(expected);
    ConfigError::Parse(message)
}

/// Reads a text that must be there.
fn read_required_text(found: Option<&JsonValue>, field: &str) -> (r: Result<String, ConfigError>)
    ensures
        crate::placeholder::text_result(r) == required_text(found_view(found), field@),
{
    match found {
        None => Err(missing_error(field)),
        Some(JsonValue::String(s)) => Ok(s.clone()),
        Some(_) => Err(mistyped_error(field, "a string")),
    }
}

/// Reads a text that may be missing.
fn read_optional_text(found: Option<&JsonValue>, field: &str) -> (r: Result<String, ConfigError>)
    ensures
        crate::placeholder::text_result(r) == optional_text(found_view(found), field@),
{
    match found {
        None => Ok(String::new()),
        Some(JsonValue::String(s)) => Ok(s.clone()),
        Some(_) => Err(mistyped_error(field, "a string")),
    }
}

/// Reads a switch that may be missing.
fn read_optional_flag(found: Option<&JsonValue>, field: &str) -> (r: Result<bool, ConfigError>)
    ensures
        match r {
            Ok(b) => optional_flag(found_view(found), field@) == Ok::<bool, Fault>(b),
            Err(e) => optional_flag(found_view(found), field@) == Err::<bool, Fault>(e@),
        },
{
    match found {
        None => Ok(false),
        Some(JsonValue::Bool(b)) => Ok(*b),
        Some(_) => Err(mistyped_error(field, "a boolean")),
    }
}

/// Where the first members are no texts, the whole fails as they do.
pub proof fn lemma_text_pairs_prefix(members: Seq<Member>, field: Seq<char>, k: int)
    requires
        0 <= k <= members.len(),
        text_pairs(members.take(k), field) is Err,
    ensures
        text_pairs(members, field) == text_pairs(members.take(k), field),
    decreases members.len() - k,
{
    if k < members.len() {
        assert(members.take(k + 1).drop_last() =~= members.take(k));
        lemma_text_pairs_prefix(members, field, k + 1);
    } else {
        assert(members.take(k) =~= members);
    }
}

/// Reads the members of an object as pairs of texts.
fn read_text_pairs(members: &Vec<(String, JsonValue)>, field: &str) -> (r: Result<
    Vec<(String, String)>,
    ConfigError,
>)
    ensures
        match r {
            Ok(out) => text_pairs(object_view(members@), field@) == Ok::<
                Seq<(Seq<char>, Seq<char>)>,
                Fault,
            >(pairs_view(out@)),
            Err(e) => text_pairs(object_view(members@), field@) == Err::<
                Seq<(Seq<char>, Seq<char>)>,
                Fault,
            >(e@),
        },
{
    let ghost all = object_view(members@);
    let mut out: Vec<(String, String)> = Vec::new();
    let mut k: usize = 0;
    proof {
        assert(all.take(0) =~= Seq::empty());
        assert(pairs_view(out@) =~= Seq::empty());
    }
    while k < members.len()
        invariant
            k <= members.len(),
            all == object_view(members@),
            text_pairs(all.take(k as int), field@) == Ok::<Seq<(Seq<char>, Seq<char>)>, Fault>(
                pairs_view(out@),
            ),
        decreases members.len() - k,
    {
        proof {
            assert(all.take(k + 1).drop_last() =~= all.take(k as int));
            assert(all.take(k + 1).last() == all[k as int]);
        }
        match &members[k].1 {
            JsonValue::String(s) => {
                let ghost before = pairs_view(out@);
                let ghost key = members@[k as int].0@;
                out.push((members[k].0.clone(), s.clone()));
                proof {
                    assert(pairs_view(out@) =~= before.push((key, s@)));
                }
            },
            _ => {
                proof {
                    lemma_text_pairs_prefix(all, field@, k + 1);
                }
                return Err(mistyped_error(field, "a map of strings"));
            },
        }
        k += 1;
    }
    proof {
        assert(all.take(k as int) =~= all);
    }
    Ok(out)
}

/// Reads pairs of texts that may be missing.
fn read_optional_pairs(found: Option<&JsonValue>, field: &str) -> (r: Result<
    Vec<(String, String)>,
    ConfigError,
>)
    ensures
        match r {
            Ok(out) => optional_pairs(found_view(found), field@) == Ok::<
                Seq<(Seq<char>, Seq<char>)>,
                Fault,
            >(pairs_view(out@)),
            Err(e) => optional_pairs(found_view(found), field@) == Err::<
                Seq<(Seq<char>, Seq<char>)>,
                Fault,
            >(e@),
        },
{
    match found {
        None => {
            let out: Vec<(String, String)> = Vec::new();
            proof {
                assert(pairs_view(out@) =~= Seq::empty());
            }
            Ok(out)
        },
        Some(JsonValue::Object(members)) => {
            proof {
                lemma_view_object(*members);
            }
            read_text_pairs(members, field)
        },
        Some(_) => Err(mistyped_error(field, "a map of strings")),
    }
}

/// Enters pairs in turn into a table.
fn table_of(pairs: &Vec<(String, String)>) -> (table: IndexMap<String, String>)
    ensures
        table_entries(table) == as_table(pairs_view(pairs@)),
{
    let ghost all = pairs_view(pairs@);
    let mut table = table_new();
    let mut k: usize = 0;
    proof {
        assert(all.take(0) =~= Seq::empty());
    }
    while k < pairs.len()
        invariant
            k <= pairs.len(),
            all == pairs_view(pairs@),
            table_entries(table) == as_table(all.take(k as int)),
        decreases pairs.len() - k,
    {
        proof {
            assert(all.take(k + 1).drop_last() =~= all.take(k as int));
            assert(all.take(k + 1).last() == all[k as int]);
        }
        table_insert(&mut table, pairs[k].0.clone(), pairs[k].1.clone());
        k += 1;
    }
    proof {
        assert(all.take(k as int) =~= all);
    }
    table
}

/// Reads the definitions of a document.
fn read_optional_table(found: Option<&JsonValue>, field: &str) -> (r: Result<
    IndexMap<String, String>,
    ConfigError,
>)
    ensures
        crate::variables::table_result(r) == optional_table(found_view(found), field@),
{
    match read_optional_pairs(found, field) {
        Ok(pairs) => Ok(table_of(&pairs)),
        Err(e) => Err(e),
    }
}

/// What a request may bring as definitions, as contracts see it.
pub open spec fn definitions_view(table: Option<IndexMap<String, String>>) -> Option<
    Seq<(Seq<char>, Seq<char>)>,
> {
    match table {
        Some(t) => Some(table_entries(t)),
        None => None,
    }
}

/// Reads the definitions of a request.
fn read_optional_definitions(found: Option<&JsonValue>, field: &str) -> (r: Result<
    Option<IndexMap<String, String>>,
    ConfigError,
>)
    ensures
        match r {
            Ok(table) => optional_definitions(found_view(found), field@) == Ok::<
                Option<Seq<(Seq<char>, Seq<char>)>>,
                Fault,
            >(definitions_view(table)),
            Err(e) => optional_definitions(found_view(found), field@) == Err::<
                Option<Seq<(Seq<char>, Seq<char>)>>,
                Fault,
            >(e@),
        },
{
    match found {
        None => Ok(None),
        Some(JsonValue::Null) => Ok(None),
        Some(_) => match read_optional_table(found, field) {
            Ok(table) => Ok(Some(table)),
            Err(e) => Err(e),
        },
    }
}

/// A body as contracts see it.
pub open spec fn body_view(body: Option<Vec<(String, JsonValue)>>) -> Option<Seq<Member>> {
    match body {
        Some(members) => Some(object_view(members@)),
        None => None,
    }
}

/// Reads the members of an object that may be missing.
fn read_optional_members(found: Option<&JsonValue>, field: &str) -> (r: Result<
    Vec<(String, JsonValue)>,
    ConfigError,
>)
    ensures
        match r {
            Ok(out) => optional_members(found_view(found), field@) == Ok::<Seq<Member>, Fault>(
                object_view(out@),
            ),
            Err(e) => optional_members(found_view(found), field@) == Err::<Seq<Member>, Fault>(e@),
        },
{
    match found {
        None => {
            let out: Vec<(String, JsonValue)> = Vec::new();
            proof {
                assert(object_view(out@) =~= Seq::empty());
            }
            Ok(out)
        },
        Some(JsonValue::Object(members)) => {
            proof {
                lemma_view_object(*members);
            }
            Ok(clone_members(members))
        },
        Some(_) => Err(mistyped_error(field, "a map")),
    }
}

/// Reads the body of a request.
fn read_optional_body(found: Option<&JsonValue>, field: &str) -> (r: Result<
    Option<Vec<(String, JsonValue)>>,
    ConfigError,
>)
    ensures
        match r {
            Ok(out) => optional_body(found_view(found), field@) == Ok::<
                Option<Seq<Member>>,
                Fault,
            >(body_view(out)),
            Err(e) => optional_body(found_view(found), field@) == Err::<
                Option<Seq<Member>>,
                Fault,
            >(e@),
        },
{
    match found {
        None => Ok(None),
        Some(JsonValue::Null) => Ok(None),
        Some(JsonValue::Object(members)) => {
            proof {
                lemma_view_object(*members);
            }
            Ok(Some(clone_members(members)))
        },
        Some(_) => Err(mistyped_error(field, "a map")),
    }
}

/// The method that `text` names.
pub fn method_of(text: &str) -> (method: Option<HTTPMethod>)
    ensures
        method == method_named(text@),
{
    if same_text(text, "GET") {
        Some(HTTPMethod::Get)
    } else if same_text(text, "POST") {
        Some(HTTPMethod::Post)
    } else if same_text(text, "PUT") {
        Some(HTTPMethod::Put)
    } else if same_text(text, "DELETE") {
        Some(HTTPMethod::Delete)
    } else if same_text(text, "PATCH") {
        Some(HTTPMethod::Patch)
    } else if same_text(text, "HEAD") {
        Some(HTTPMethod::Head)
    } else {
        None
    }
}

/// Reads the method of a request.
fn read_method(found: Option<&JsonValue>) -> (r: Result<HTTPMethod, ConfigError>)
    ensures
        match r {
            Ok(method) => required_method(found_view(found)) == Ok::<HTTPMethod, Fault>(method),
            Err(e) => required_method(found_view(found)) == Err::<HTTPMethod, Fault>(e@),
        },
{
    match read_required_text(found, "method") {
        Err(e) => Err(e),
        Ok(text) => match method_of(text.as_str()) {
            Some(method) => Ok(method),
            None => {
                let mut message = String::from_str("unknown variant `");
                message.append(text.as_str());
                message.append(
                    "`, expected one of `GET`, `POST`, `PUT`, `DELETE`, `PATCH`, `HEAD`",
                );
                Err(ConfigError::Parse(message))
            },
        },
    }
}

/// Reads the options of a document.
fn read_options(found: Option<&JsonValue>) -> (r: Result<CLIOptions, ConfigError>)
    ensures
        match r {
            Ok(options) => optional_options(found_view(found)) == Ok::<CLIOptions, Fault>(options),
            Err(e) => optional_options(found_view(found)) == Err::<CLIOptions, Fault>(e@),
        },
{
    match found {
        None => Ok(CLIOptions { show_headers: false, disable_redirect: false, verbose: false }),
        Some(JsonValue::Object(members)) => {
            proof {
                lemma_view_object(*members);
            }
            let show_headers = match read_optional_flag(
                find_either(members, "show_headers", "show_header"),
                "show_headers",
            ) {
                Ok(b) => b,
                Err(e) => {
                    return Err(e);
                },
            };
            let disable_redirect = match read_optional_flag(
                find(members, "disable_redirect"),
                "disable_redirect",
            ) {
                Ok(b) => b,
                Err(e) => {
                    return Err(e);
                },
            };
            let verbose = match read_optional_flag(find(members, "verbose"), "verbose") {
                Ok(b) => b,
                Err(e) => {
                    return Err(e);
                },
            };
            Ok(CLIOptions { show_headers, disable_redirect, verbose })
        },
        Some(_) => Err(mistyped_error("cli_options", "a map")),
    }
}

impl Request {
    /// Reads a request from the value that writes it.
    pub fn from_value(value: &JsonValue) -> (r: Result<Request, ConfigError>)
        ensures
            match r {
                Ok(request) => decoded_request()(value@) == Ok::<RequestView, Fault>(request@),
                Err(e) => decoded_request()(value@) == Err::<RequestView, Fault>(e@),
            },
    {
        let m = match value {
            JsonValue::Object(members) => {
                proof {
                    lemma_view_object(*members);
                }
                members
            },
            _ => {
                return Err(mistyped_error("requests", "a sequence of maps"));
            },
        };
        let disabled = match read_optional_flag(find(m, "disabled"), "disabled") {
            Ok(b) => b,
            Err(e) => {
                return Err(e);
            },
        };
        let name = match read_required_text(find(m, "name"), "name") {
            Ok(t) => t,
            Err(e) => {
                return Err(e);
            },
        };
        let description = match read_optional_text(find(m, "description"), "description") {
            Ok(t) => t,
            Err(e) => {
                return Err(e);
            },
        };
        let variables = match read_optional_definitions(find(m, "variables"), "variables") {
            Ok(t) => t,
            Err(e) => {
                return Err(e);
            },
        };
        let url = match read_required_text(find(m, "url"), "url") {
            Ok(t) => t,
            Err(e) => {
                return Err(e);
            },
        };
        let method = match read_method(find(m, "method")) {
            Ok(t) => t,
            Err(e) => {
                return Err(e);
            },
        };
        let headers = match read_optional_pairs(find_either(m, "headers", "header"), "headers") {
            Ok(t) => t,
            Err(e) => {
                return Err(e);
            },
        };
        let params = match read_optional_members(find(m, "params"), "params") {
            Ok(t) => t,
            Err(e) => {
                return Err(e);
            },
        };
        let body = match read_optional_body(find(m, "body"), "body") {
            Ok(t) => t,
            Err(e) => {
                return Err(e);
            },
        };
        Ok(Request { disabled, name, description, variables, url, method, headers, params, body })
    }
}

/// Reads the requests of a document.
fn read_requests(found: Option<&JsonValue>) -> (r: Result<Vec<Request>, ConfigError>)
    ensures
        match r {
            Ok(out) => required_requests(found_view(found)) == Ok::<Seq<RequestView>, Fault>(
                requests_view(out@),
            ),
            Err(e) => required_requests(found_view(found)) == Err::<Seq<RequestView>, Fault>(e@),
        },
{
    let items = match found {
        None => {
            return Err(missing_error("requests"));
        },
        Some(JsonValue::Array(items)) => {
            proof {
                lemma_view_array(*items);
            }
            items
        },
        Some(_) => {
            return Err(mistyped_error("requests", "a sequence of maps"));
        },
    };
    let ghost all = array_view(items@);
    let ghost f = decoded_request();
    let mut out: Vec<Request> = Vec::new();
    let mut k: usize = 0;
    proof {
        assert(all.take(0) =~= Seq::empty());
        assert(requests_view(out@) =~= Seq::empty());
    }
    while k < items.len()
        invariant
            k <= items.len(),
            all == array_view(items@),
            found_view(found) == Some(Json::Array(all)),
            f == decoded_request(),
            try_map(all.take(k as int), f) == Ok::<Seq<RequestView>, Fault>(requests_view(out@)),
        decreases items.len() - k,
    {
        proof {
            assert(all.take(k + 1).drop_last() =~= all.take(k as int));
            assert(all.take(k + 1).last() == items@[k as int]@);
        }
        match Request::from_value(&items[k]) {
            Err(e) => {
                proof {
                    lemma_try_map_prefix(all, f, k + 1);
                }
                return Err(e);
            },
            Ok(request) => {
                let ghost before = requests_view(out@);
                out.push(request);
                proof {
                    assert(requests_view(out@) =~= before.push(request@));
                }
            },
        }
        k += 1;
    }
    proof {
        assert(all.take(k as int) =~= all);
    }
    Ok(out)
}

impl Config {
    /// Reads a configuration from the value that writes it, as it stands:
    /// nothing is resolved yet.
    pub fn from_value(value: &JsonValue) -> (r: Result<Config, ConfigError>)
        ensures
            config_result(r) == decoded(value@),
    {
        let m = match value {
            JsonValue::Object(members) => {
                proof {
                    lemma_view_object(*members);
                }
                members
            },
            _ => {
                return Err(ConfigError::Parse(String::from_str("invalid type: expected a map")));
            },
        };
        let description = match read_optional_text(find(m, "description"), "description") {
            Ok(t) => t,
            Err(e) => {
                return Err(e);
            },
        };
        let cli_options = match read_options(find(m, "cli_options")) {
            Ok(t) => t,
            Err(e) => {
                return Err(e);
            },
        };
        let base_url = match read_required_text(find(m, "base_url"), "base_url") {
            Ok(t) => t,
            Err(e) => {
                return Err(e);
            },
        };
        let variables = match read_optional_table(find(m, "variables"), "variables") {
            Ok(t) => t,
            Err(e) => {
                return Err(e);
            },
        };
        let default_headers = match read_optional_pairs(
            find_either(m, "default_headers", "default_header"),
            "default_headers",
        ) {
            Ok(t) => t,
            Err(e) => {
                return Err(e);
            },
        };
        let requests = match read_requests(find(m, "requests")) {
            Ok(t) => t,
            Err(e) => {
                return Err(e);
            },
        };
        Ok(Config { description, cli_options, base_url, variables, default_headers, requests })
    }
}

} // verus!
