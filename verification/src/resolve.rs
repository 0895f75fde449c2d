//! The steps of resolving a configuration, each with what it computes.

use crate::cast::cast_members;
use crate::cast::cast_object;
use crate::config::Config;
use crate::config::ConfigView;
use crate::config::Request;
use crate::config::RequestView;
use crate::config::duplicate_name;
use crate::config::pairs_view;
use crate::config::requests_view;
use crate::error::ConfigError;
use crate::error::Fault;
use crate::expansion::expand_members;
use crate::expansion::expanded_members;
use crate::placeholder::expand_text;
use crate::placeholder::expanded;
use crate::table::put;
use crate::table::table_entries;
use crate::table::table_entry;
use crate::table::table_insert;
use crate::table::table_len;
use crate::table::table_new;
use crate::variables::compiled;
use crate::variables::create_local_variables;
use indexmap::IndexMap;
use vstd::prelude::*;

verus! {

/// `f` applied to each of `items` in turn: all the results where each
/// succeeded, else the failure of the first that failed.
pub open spec fn try_map<A, B>(items: Seq<A>, f: spec_fn(A) -> Result<B, Fault>) -> Result<
    Seq<B>,
    Fault,
>
    decreases items.len(),
{
    if items.len() == 0 {
        Ok(Seq::empty())
    } else {
        match try_map(items.drop_last(), f) {
            Err(fault) => Err(fault),
            Ok(done) => match f(items.last()) {
                Err(fault) => Err(fault),
                Ok(item) => Ok(done.push(item)),
            },
        }
    }
}

/// Where the first items fail, the whole fails as they do.
pub proof fn lemma_try_map_prefix<A, B>(items: Seq<A>, f: spec_fn(A) -> Result<B, Fault>, k: int)
    requires
        0 <= k <= items.len(),
        try_map(items.take(k), f) is Err,
    ensures
        try_map(items, f) == try_map(items.take(k), f),
    decreases items.len() - k,
{
    if k < items.len() {
        assert(items.take(k + 1).drop_last() =~= items.take(k));
        lemma_try_map_prefix(items, f, k + 1);
    } else {
        assert(items.take(k) =~= items);
    }
}

/// A pair with its second text expanded from `table`.
pub open spec fn expanded_pair(table: Seq<(Seq<char>, Seq<char>)>) -> spec_fn(
    (Seq<char>, Seq<char>),
) -> Result<(Seq<char>, Seq<char>), Fault> {
    |pair: (Seq<char>, Seq<char>)|
        match expanded(pair.1, table) {
            Ok(value) => Ok((pair.0, value)),
            Err(fault) => Err(fault),
        }
}

/// Pairs with the second text of each expanded from `table`.
pub open spec fn expanded_pairs(
    pairs: Seq<(Seq<char>, Seq<char>)>,
    table: Seq<(Seq<char>, Seq<char>)>,
) -> Result<Seq<(Seq<char>, Seq<char>)>, Fault> {
    try_map(pairs, expanded_pair(table))
}

/// The definitions `defs[k..]`, the value of each expanded from `table`,
/// entered in turn into `done` under their names.
pub open spec fn expanded_definitions_from(
    defs: Seq<(Seq<char>, Seq<char>)>,
    k: int,
    done: Seq<(Seq<char>, Seq<char>)>,
    table: Seq<(Seq<char>, Seq<char>)>,
) -> Result<Seq<(Seq<char>, Seq<char>)>, Fault>
    decreases defs.len() - k,
{
    if k < 0 || k >= defs.len() {
        Ok(done)
    } else {
        match expanded(defs[k].1, table) {
            Err(fault) => Err(fault),
            Ok(value) => expanded_definitions_from(defs, k + 1, put(done, defs[k].0, value), table),
        }
    }
}

/// The definitions that a request brings, as they read once their values are
/// expanded from `table`.
pub open spec fn expanded_definitions(
    defs: Option<Seq<(Seq<char>, Seq<char>)>>,
    table: Seq<(Seq<char>, Seq<char>)>,
) -> Result<Option<Seq<(Seq<char>, Seq<char>)>>, Fault> {
    match defs {
        None => Ok(None),
        Some(entries) => match expanded_definitions_from(entries, 0, Seq::empty(), table) {
            Ok(done) => Ok(Some(done)),
            Err(fault) => Err(fault),
        },
    }
}

/// The body of a request with the value of each member expanded.
pub open spec fn expanded_body(body: Option<Seq<crate::value::Member>>, table: Seq<
    (Seq<char>, Seq<char>),
>) -> Result<Option<Seq<crate::value::Member>>, Fault> {
    match body {
        None => Ok(None),
        Some(members) => match expanded_members(members, table) {
            Ok(done) => Ok(Some(done)),
            Err(fault) => Err(fault),
        },
    }
}

/// A request with every text of the record expanded from `table`: the name,
/// the description, the values of its own definitions, the address, the
/// values of the headers, and the string leaves of the parameters and of the
/// body, in this order. The first name that `table` lacks is the failure.
pub open spec fn expanded_request(request: RequestView, table: Seq<(Seq<char>, Seq<char>)>)
    -> Result<RequestView, Fault> {
    match expanded(request.name, table) {
        Err(fault) => Err(fault),
        Ok(name) => match expanded(request.description, table) {
            Err(fault) => Err(fault),
            Ok(description) => match expanded_definitions(request.variables, table) {
                Err(fault) => Err(fault),
                Ok(variables) => match expanded(request.url, table) {
                    Err(fault) => Err(fault),
                    Ok(url) => match expanded_pairs(request.headers, table) {
                        Err(fault) => Err(fault),
                        Ok(headers) => match expanded_members(request.params, table) {
                            Err(fault) => Err(fault),
                            Ok(params) => match expanded_body(request.body, table) {
                                Err(fault) => Err(fault),
                                Ok(body) => Ok(
                                    RequestView {
                                        disabled: request.disabled,
                                        name,
                                        description,
                                        variables,
                                        url,
                                        method: request.method,
                                        headers,
                                        params,
                                        body,
                                    },
                                ),
                            },
                        },
                    },
                },
            },
        },
    }
}

/// The table that a request is expanded from: its own definitions compiled on
/// top of the globals, or the globals where it brings none.
pub open spec fn request_table(request: RequestView, globals: Seq<(Seq<char>, Seq<char>)>)
    -> Result<Seq<(Seq<char>, Seq<char>)>, Fault> {
    match request.variables {
        Some(defs) => compiled(defs, globals),
        None => Ok(globals),
    }
}

/// A request expanded from its own table.
pub open spec fn resolved_request(globals: Seq<(Seq<char>, Seq<char>)>) -> spec_fn(
    RequestView,
) -> Result<RequestView, Fault> {
    |request: RequestView|
        match request_table(request, globals) {
            Err(fault) => Err(fault),
            Ok(table) => expanded_request(request, table),
        }
}

/// A request with the typed literals of its body cast.
pub open spec fn cast_request() -> spec_fn(RequestView) -> Result<RequestView, Fault> {
    |request: RequestView|
        match request.body {
            None => Ok(request),
            Some(members) => match cast_members(members) {
                Err(fault) => Err(fault),
                Ok(body) => Ok(RequestView { body: Some(body), ..request }),
            },
        }
}

/// `doc` with its variables compiled, its default headers and requests
/// expanded and the bodies of its requests cast, in this order: the global
/// variables are compiled; the default headers are expanded from them; each
/// request is expanded from its own table; then the bodies are cast. The
/// first step that fails gives the failure of the whole.
pub open spec fn expanded_and_cast(doc: ConfigView) -> Result<ConfigView, Fault> {
    match compiled(doc.variables, Seq::empty()) {
        Err(fault) => Err(fault),
        Ok(globals) => match expanded_pairs(doc.default_headers, globals) {
            Err(fault) => Err(fault),
            Ok(default_headers) => match try_map(doc.requests, resolved_request(globals)) {
                Err(fault) => Err(fault),
                Ok(expanded) => match try_map(expanded, cast_request()) {
                    Err(fault) => Err(fault),
                    Ok(requests) => Ok(
                        ConfigView {
                            description: doc.description,
                            cli_options: doc.cli_options,
                            base_url: doc.base_url,
                            variables: globals,
                            default_headers,
                            requests,
                        },
                    ),
                },
            },
        },
    }
}

/// The configuration that `doc` resolves to: `doc` expanded and cast, unless
/// two of its requests then have the same name.
pub open spec fn resolved(doc: ConfigView) -> Result<ConfigView, Fault> {
    match expanded_and_cast(doc) {
        Err(fault) => Err(fault),
        Ok(config) => match duplicate_name(config.requests) {
            Some(name) => Err(Fault::DuplicateName(name)),
            None => Ok(config),
        },
    }
}

/// Expands the second text of each pair.
pub fn expand_pairs(pairs: &Vec<(String, String)>, variables: &IndexMap<String, String>) -> (r:
    Result<Vec<(String, String)>, ConfigError>)
    ensures
        match r {
            Ok(out) => expanded_pairs(pairs_view(pairs@), table_entries(*variables)) == Ok::<
                Seq<(Seq<char>, Seq<char>)>,
                Fault,
            >(pairs_view(out@)),
            Err(e) => expanded_pairs(pairs_view(pairs@), table_entries(*variables)) == Err::<
                Seq<(Seq<char>, Seq<char>)>,
                Fault,
            >(e@),
        },
{
    let ghost all = pairs_view(pairs@);
    let ghost f = expanded_pair(table_entries(*variables));
    let mut out: Vec<(String, String)> = Vec::new();
    let mut k: usize = 0;
    proof {
        assert(all.take(0) =~= Seq::empty());
        assert(pairs_view(out@) =~= Seq::empty());
    }
    while k < pairs.len()
        invariant
            k <= pairs.len(),
            all == pairs_view(pairs@),
            f == expanded_pair(table_entries(*variables)),
            try_map(all.take(k as int), f) == Ok::<Seq<(Seq<char>, Seq<char>)>, Fault>(
                pairs_view(out@),
            ),
        decreases pairs.len() - k,
    {
        proof {
            assert(all.take(k + 1).drop_last() =~= all.take(k as int));
            assert(all.take(k + 1).last() == all[k as int]);
        }
        match expand_text(pairs[k].1.as_str(), variables) {
            Err(e) => {
                proof {
                    lemma_try_map_prefix(all, f, k + 1);
                }
                return Err(e);
            },
            Ok(value) => {
                let ghost before = pairs_view(out@);
                let ghost key = pairs@[k as int].0@;
                out.push((pairs[k].0.clone(), value));
                proof {
                    assert(pairs_view(out@) =~= before.push((key, value@)));
                }
            },
        }
        k += 1;
    }
    proof {
        assert(all.take(k as int) =~= all);
    }
    Ok(out)
}

/// Expands the value of each definition of a table.
pub fn expand_definitions(defs: &IndexMap<String, String>, variables: &IndexMap<String, String>)
    -> (r: Result<IndexMap<String, String>, ConfigError>)
    ensures
        match r {
            Ok(out) => expanded_definitions_from(
                table_entries(*defs),
                0,
                Seq::empty(),
                table_entries(*variables),
            ) == Ok::<Seq<(Seq<char>, Seq<char>)>, Fault>(table_entries(out)),
            Err(e) => expanded_definitions_from(
                table_entries(*defs),
                0,
                Seq::empty(),
                table_entries(*variables),
            ) == Err::<Seq<(Seq<char>, Seq<char>)>, Fault>(e@),
        },
{
    let ghost all = table_entries(*defs);
    let ghost table = table_entries(*variables);
    let mut out = table_new();
    let n = table_len(defs);
    let mut k: usize = 0;
    while k < n
        invariant
            k <= n == all.len(),
            all == table_entries(*defs),
            table == table_entries(*variables),
            expanded_definitions_from(all, k as int, table_entries(out), table)
                == expanded_definitions_from(all, 0, Seq::empty(), table),
        decreases n - k,
    {
        let (name, value) = table_entry(defs, k);
        match expand_text(value.as_str(), variables) {
            Err(e) => {
                return Err(e);
            },
            Ok(expanded_value) => {
                table_insert(&mut out, name, expanded_value);
            },
        }
        k += 1;
    }
    Ok(out)
}

/// Expands every text of a request from `variables`.
pub fn expand_request(request: &Request, variables: &IndexMap<String, String>) -> (r: Result<
    Request,
    ConfigError,
>)
    ensures
        match r {
            Ok(out) => expanded_request(request@, table_entries(*variables)) == Ok::<
                RequestView,
                Fault,
            >(out@),
            Err(e) => expanded_request(request@, table_entries(*variables)) == Err::<
                RequestView,
                Fault,
            >(e@),
        },
{
    let name = match expand_text(request.name.as_str(), variables) {
        Ok(t) => t,
        Err(e) => {
            return Err(e);
        },
    };
    let description = match expand_text(request.description.as_str(), variables) {
        Ok(t) => t,
        Err(e) => {
            return Err(e);
        },
    };
    let definitions = match &request.variables {
        None => None,
        Some(defs) => match expand_definitions(defs, variables) {
            Ok(t) => Some(t),
            Err(e) => {
                return Err(e);
            },
        },
    };
    let url = match expand_text(request.url.as_str(), variables) {
        Ok(t) => t,
        Err(e) => {
            return Err(e);
        },
    };
    let headers = match expand_pairs(&request.headers, variables) {
        Ok(t) => t,
        Err(e) => {
            return Err(e);
        },
    };
    let params = match expand_members(&request.params, variables) {
        Ok(t) => t,
        Err(e) => {
            return Err(e);
        },
    };
    let body = match &request.body {
        None => None,
        Some(members) => match expand_members(members, variables) {
            Ok(t) => Some(t),
            Err(e) => {
                return Err(e);
            },
        },
    };
    Ok(
        Request {
            disabled: request.disabled,
            name,
            description,
            variables: definitions,
            url,
            method: request.method,
            headers,
            params,
            body,
        },
    )
}

/// Expands a request from its own table: its definitions compiled on top of
/// `globals`, or `globals` where it brings none.
pub fn resolve_request(request: &Request, globals: &IndexMap<String, String>) -> (r: Result<
    Request,
    ConfigError,
>)
    ensures
        match r {
            Ok(out) => resolved_request(table_entries(*globals))(request@) == Ok::<
                RequestView,
                Fault,
            >(out@),
            Err(e) => resolved_request(table_entries(*globals))(request@) == Err::<
                RequestView,
                Fault,
            >(e@),
        },
{
    match &request.variables {
        Some(defs) => match create_local_variables(defs, Some(globals)) {
            Ok(table) => expand_request(request, &table),
            Err(e) => Err(e),
        },
        None => expand_request(request, globals),
    }
}

/// Casts the typed literals of the body of a request.
pub fn cast_body(request: Request) -> (r: Result<Request, ConfigError>)
    ensures
        match r {
            Ok(out) => cast_request()(request@) == Ok::<RequestView, Fault>(out@),
            Err(e) => cast_request()(request@) == Err::<RequestView, Fault>(e@),
        },
{
    match &request.body {
        None => Ok(request),
        Some(members) => match cast_object(members) {
            Err(e) => Err(e),
            Ok(body) => Ok(
                Request {
                    disabled: request.disabled,
                    name: request.name,
                    description: request.description,
                    variables: request.variables,
                    url: request.url,
                    method: request.method,
                    headers: request.headers,
                    params: request.params,
                    body: Some(body),
                },
            ),
        },
    }
}

/// Expands each request from its own table.
pub fn resolve_requests(requests: &Vec<Request>, globals: &IndexMap<String, String>) -> (r: Result<
    Vec<Request>,
    ConfigError,
>)
    ensures
        match r {
            Ok(out) => try_map(requests_view(requests@), resolved_request(table_entries(*globals)))
                == Ok::<Seq<RequestView>, Fault>(requests_view(out@)),
            Err(e) => try_map(requests_view(requests@), resolved_request(table_entries(*globals)))
                == Err::<Seq<RequestView>, Fault>(e@),
        },
{
    let ghost all = requests_view(requests@);
    let ghost f = resolved_request(table_entries(*globals));
    let mut out: Vec<Request> = Vec::new();
    let mut k: usize = 0;
    proof {
        assert(all.take(0) =~= Seq::empty());
        assert(requests_view(out@) =~= Seq::empty());
    }
    while k < requests.len()
        invariant
            k <= requests.len(),
            all == requests_view(requests@),
            f == resolved_request(table_entries(*globals)),
            try_map(all.take(k as int), f) == Ok::<Seq<RequestView>, Fault>(requests_view(out@)),
        decreases requests.len() - k,
    {
        proof {
            assert(all.take(k + 1).drop_last() =~= all.take(k as int));
            assert(all.take(k + 1).last() == requests@[k as int]@);
        }
        match resolve_request(&requests[k], globals) {
            Err(e) => {
                proof {
                    lemma_try_map_prefix(all, f, k + 1);
                }
                return Err(e);
            },
            Ok(request) => {
                let ghost before = requests_view(out@);
                out.push(request);
                proof {
                    assert(requests_view(out@) =~= before.push(request@));
                }
            },
        }
        k += 1;
    }
    proof {
        assert(all.take(k as int) =~= all);
    }
    Ok(out)
}

/// Casts the body of each request.
pub fn cast_bodies(requests: Vec<Request>) -> (r: Result<Vec<Request>, ConfigError>)
    ensures
        match r {
            Ok(out) => try_map(requests_view(requests@), cast_request()) == Ok::<
                Seq<RequestView>,
                Fault,
            >(requests_view(out@)),
            Err(e) => try_map(requests_view(requests@), cast_request()) == Err::<
                Seq<RequestView>,
                Fault,
            >(e@),
        },
{
    let ghost all = requests_view(requests@);
    let ghost f = cast_request();
    let mut out: Vec<Request> = Vec::new();
    let mut k: usize = 0;
    proof {
        assert(all.take(0) =~= Seq::empty());
        assert(requests_view(out@) =~= Seq::empty());
    }
    while k < requests.len()
        invariant
            k <= requests.len(),
            all == requests_view(requests@),
            f == cast_request(),
            try_map(all.take(k as int), f) == Ok::<Seq<RequestView>, Fault>(requests_view(out@)),
        decreases requests.len() - k,
    {
        proof {
            assert(all.take(k + 1).drop_last() =~= all.take(k as int));
            assert(all.take(k + 1).last() == requests@[k as int]@);
        }
        match cast_body(requests[k].clone()) {
            Err(e) => {
                proof {
                    lemma_try_map_prefix(all, f, k + 1);
                }
                return Err(e);
            },
            Ok(request) => {
                let ghost before = requests_view(out@);
                out.push(request);
                proof {
                    assert(requests_view(out@) =~= before.push(request@));
                }
            },
        }
        k += 1;
    }
    proof {
        assert(all.take(k as int) =~= all);
    }
    Ok(out)
}

/// A result over a configuration as contracts see it.
pub open spec fn config_result(r: Result<Config, ConfigError>) -> Result<ConfigView, Fault> {
    match r {
        Ok(config) => Ok(config@),
        Err(e) => Err(e@),
    }
}

impl Config {
    /// Resolves the configuration: compiles the global variables, expands the
    /// default headers and every request, casts the typed literals of the
    /// bodies, and checks the request names. Gives the resolved configuration
    /// or the first failure; nothing is given of a configuration that fails.
    pub fn resolve(self) -> (r: Result<Config, ConfigError>)
        ensures
            config_result(r) == resolved(self@),
    {
        let globals = match create_local_variables(&self.variables, None) {
            Ok(table) => table,
            Err(e) => {
                return Err(e);
            },
        };
        let default_headers = match expand_pairs(&self.default_headers, &globals) {
            Ok(pairs) => pairs,
            Err(e) => {
                return Err(e);
            },
        };
        let expanded = match resolve_requests(&self.requests, &globals) {
            Ok(requests) => requests,
            Err(e) => {
                return Err(e);
            },
        };
        let requests = match cast_bodies(expanded) {
            Ok(requests) => requests,
            Err(e) => {
                return Err(e);
            },
        };
        let config = Config {
            description: self.description,
            cli_options: self.cli_options,
            base_url: self.base_url,
            variables: globals,
            default_headers,
            requests,
        };
        match config.validate() {
            Ok(()) => Ok(config),
            Err(e) => Err(e),
        }
    }
}

} // verus!
