//! The configuration document and its requests, and the loader that resolves
//! one: variables first, then the placeholders of every text, then the typed
//! literals of the request bodies, then the check that no request name occurs
//! twice.

use crate::comment::strip_comments;
use crate::comment::without_comments;
use crate::document::decoded;
use crate::error::ConfigError;
use crate::error::Fault;
use crate::resolve::config_result;
use crate::resolve::resolved;
use crate::table::table_clone;
use crate::table::table_entries;
use crate::text::chars_of;
use crate::text::same_chars;
use crate::value::Json;
use crate::value::JsonValue;
use crate::value::Member;
use crate::value::clone_members;
use crate::value::json_document;
use crate::value::object_view;
use indexmap::IndexMap;
use vstd::prelude::*;

verus! {

/// The method of a request.
#[derive(Debug, Clone, Copy, PartialEq, Eq, Structural)]
pub enum HTTPMethod {
    Get,
    Post,
    Put,
    Delete,
    Patch,
    Head,
}

/// What the command line can switch on for a whole run.
#[derive(Debug, Clone, Copy, PartialEq, Eq, Structural)]
pub struct CLIOptions {
    pub show_headers: bool,
    pub disable_redirect: bool,
    pub verbose: bool,
}

impl Default for CLIOptions {
    fn default() -> (options: Self)
        ensures
            options == (CLIOptions {
                show_headers: false,
                disable_redirect: false,
                verbose: false,
            }),
    {
        CLIOptions { show_headers: false, disable_redirect: false, verbose: false }
    }
}

/// One request of a configuration.
#[derive(Debug, PartialEq, Eq)]
pub struct Request {
    pub disabled: bool,
    pub name: String,
    pub description: String,
    pub variables: Option<IndexMap<String, String>>,
    pub url: String,
    pub method: HTTPMethod,
    pub headers: Vec<(String, String)>,
    pub params: Vec<(String, JsonValue)>,
    pub body: Option<Vec<(String, JsonValue)>>,
}

/// A configuration: what all requests share, and the requests.
#[derive(Debug, PartialEq, Eq)]
pub struct Config {
    pub description: String,
    pub cli_options: CLIOptions,
    pub base_url: String,
    pub variables: IndexMap<String, String>,
    pub default_headers: Vec<(String, String)>,
    pub requests: Vec<Request>,
}

/// Pairs of texts as contracts see them.
pub open spec fn pairs_view(pairs: Seq<(String, String)>) -> Seq<(Seq<char>, Seq<char>)> {
    Seq::new(pairs.len(), |i: int| (pairs[i].0@, pairs[i].1@))
}

/// A request as contracts see it.
pub struct RequestView {
    pub disabled: bool,
    pub name: Seq<char>,
    pub description: Seq<char>,
    pub variables: Option<Seq<(Seq<char>, Seq<char>)>>,
    pub url: Seq<char>,
    pub method: HTTPMethod,
    pub headers: Seq<(Seq<char>, Seq<char>)>,
    pub params: Seq<Member>,
    pub body: Option<Seq<Member>>,
}

impl View for Request {
    type V = RequestView;

    open spec fn view(&self) -> RequestView {
        RequestView {
            disabled: self.disabled,
            name: self.name@,
            description: self.description@,
            variables: match self.variables {
                Some(table) => Some(table_entries(table)),
                None => None,
            },
            url: self.url@,
            method: self.method,
            headers: pairs_view(self.headers@),
            params: object_view(self.params@),
            body: match self.body {
                Some(members) => Some(object_view(members@)),
                None => None,
            },
        }
    }
}

/// Requests as contracts see them.
pub open spec fn requests_view(requests: Seq<Request>) -> Seq<RequestView> {
    Seq::new(requests.len(), |i: int| requests[i]@)
}

/// A configuration as contracts see it.
pub struct ConfigView {
    pub description: Seq<char>,
    pub cli_options: CLIOptions,
    pub base_url: Seq<char>,
    pub variables: Seq<(Seq<char>, Seq<char>)>,
    pub default_headers: Seq<(Seq<char>, Seq<char>)>,
    pub requests: Seq<RequestView>,
}

impl View for Config {
    type V = ConfigView;

    open spec fn view(&self) -> ConfigView {
        ConfigView {
            description: self.description@,
            cli_options: self.cli_options,
            base_url: self.base_url@,
            variables: table_entries(self.variables),
            default_headers: pairs_view(self.default_headers@),
            requests: requests_view(self.requests@),
        }
    }
}

/// A copy of pairs of texts.
pub fn clone_pairs(pairs: &Vec<(String, String)>) -> (out: Vec<(String, String)>)
    ensures
        pairs_view(out@) == pairs_view(pairs@),
{
    let mut out: Vec<(String, String)> = Vec::new();
    let mut k: usize = 0;
    while k < pairs.len()
        invariant
            k <= pairs.len(),
            pairs_view(out@) == pairs_view(pairs@).take(k as int),
        decreases pairs.len() - k,
    {
        let ghost before = pairs_view(out@);
        let ghost pair = pairs_view(pairs@)[k as int];
        out.push((pairs[k].0.clone(), pairs[k].1.clone()));
        proof {
            assert(pairs_view(out@) =~= before.push(pair));
            assert(pairs_view(pairs@).take(k + 1) =~= before.push(pair));
        }
        k += 1;
    }
    proof {
        assert(pairs_view(pairs@).take(k as int) =~= pairs_view(pairs@));
    }
    out
}

impl Clone for Request {
    fn clone(&self) -> (copy: Self)
        ensures
            copy@ == self@,
    {
        Request {
            disabled: self.disabled,
            name: self.name.clone(),
            description: self.description.clone(),
            variables: match &self.variables {
                Some(table) => Some(table_clone(table)),
                None => None,
            },
            url: self.url.clone(),
            method: self.method,
            headers: clone_pairs(&self.headers),
            params: clone_members(&self.params),
            body: match &self.body {
                Some(members) => Some(clone_members(members)),
                None => None,
            },
        }
    }
}

/// A copy of requests.
pub fn clone_requests(requests: &Vec<Request>) -> (out: Vec<Request>)
    ensures
        requests_view(out@) == requests_view(requests@),
{
    let mut out: Vec<Request> = Vec::new();
    let mut k: usize = 0;
    while k < requests.len()
        invariant
            k <= requests.len(),
            requests_view(out@) == requests_view(requests@).take(k as int),
        decreases requests.len() - k,
    {
        let ghost before = requests_view(out@);
        out.push(requests[k].clone());
        proof {
            assert(requests_view(out@) =~= before.push(requests@[k as int]@));
            assert(requests_view(requests@).take(k + 1) =~= before.push(requests@[k as int]@));
        }
        k += 1;
    }
    proof {
        assert(requests_view(requests@).take(k as int) =~= requests_view(requests@));
    }
    out
}

impl Clone for Config {
    fn clone(&self) -> (copy: Self)
        ensures
            copy@ == self@,
    {
        Config {
            description: self.description.clone(),
            cli_options: self.cli_options,
            base_url: self.base_url.clone(),
            variables: table_clone(&self.variables),
            default_headers: clone_pairs(&self.default_headers),
            requests: clone_requests(&self.requests),
        }
    }
}

/// The first request name, in the order of the requests from `k` on, that an
/// earlier request has too.
pub open spec fn duplicate_from(requests: Seq<RequestView>, k: int) -> Option<Seq<char>>
    decreases requests.len() - k,
{
    if k < 0 || k >= requests.len() {
        None
    } else if exists|i: int| 0 <= i < k && requests[i].name == requests[k].name {
        Some(requests[k].name)
    } else {
        duplicate_from(requests, k + 1)
    }
}

/// The first request name that occurs a second time, if any does.
pub open spec fn duplicate_name(requests: Seq<RequestView>) -> Option<Seq<char>> {
    duplicate_from(requests, 0)
}

/// The configuration that the value of a document resolves to: the value is
/// read as a configuration, which is then resolved.
pub open spec fn loaded_value(value: Json) -> Result<ConfigView, Fault> {
    match decoded(value) {
        Err(fault) => Err(fault),
        Ok(doc) => resolved(doc),
    }
}

/// The configuration that the text of a document resolves to: the text is
/// read as a value, the value as a configuration, which is then resolved. A
/// text that writes no value fails with what is said against it.
pub open spec fn loaded(text: Seq<char>) -> Result<ConfigView, Fault> {
    match json_document(text) {
        Err(reason) => Err(Fault::Parse(reason)),
        Ok(value) => loaded_value(value),
    }
}

impl Config {
    /// Resolves the configuration that `value` writes: reads it, compiles
    /// the variables, expands every text, casts the bodies and checks the
    /// names. The first failure is the result.
    pub fn new_with_json_value(value: &JsonValue) -> (r: Result<Config, ConfigError>)
        ensures
            config_result(r) == loaded_value(value@),
    {
        match Config::from_value(value) {
            Ok(doc) => doc.resolve(),
            Err(e) => Err(e),
        }
    }

    /// Resolves the configuration that `json_string` writes.
    pub fn new_with_json_string(json_string: &str) -> (r: Result<Config, ConfigError>)
        ensures
            config_result(r) == loaded(json_string@),
    {
        match JsonValue::parse(json_string) {
            Ok(value) => Config::new_with_json_value(&value),
            Err(e) => Err(e),
        }
    }

    /// Resolves the configuration that the text of a file writes: the
    /// comment lines are left out first.
    pub fn load(text: &str) -> (r: Result<Config, ConfigError>)
        ensures
            config_result(r) == loaded(without_comments(text@)),
    {
        let stripped = strip_comments(text);
        Config::new_with_json_string(stripped.as_str())
    }

    /// Checks that no two requests have the same name. The error names the
    /// first request, in their order, whose name an earlier one has.
    pub fn validate(&self) -> (r: Result<(), ConfigError>)
        ensures
            match r {
                Ok(()) => duplicate_name(self@.requests) is None,
                Err(e) => duplicate_name(self@.requests) is Some && e@ == Fault::DuplicateName(
                    duplicate_name(self@.requests)->0,
                ),
            },
    {
        let ghost all = self@.requests;
        let mut k: usize = 0;
        while k < self.requests.len()
            invariant
                k <= self.requests.len(),
                all == self@.requests,
                duplicate_from(all, k as int) == duplicate_name(all),
            decreases self.requests.len() - k,
        {
            let name = chars_of(self.requests[k].name.as_str());
            let mut i: usize = 0;
            while i < k
                invariant
                    i <= k < self.requests.len(),
                    all == self@.requests,
                    name@ == all[k as int].name,
                    duplicate_from(all, k as int) == duplicate_name(all),
                    forall|j: int| 0 <= j < i ==> all[j].name != all[k as int].name,
                decreases k - i,
            {
                let other = chars_of(self.requests[i].name.as_str());
                if same_chars(&other, &name) {
                    assert(all[i as int].name == all[k as int].name);
                    return Err(ConfigError::DuplicateName(self.requests[k].name.clone()));
                }
                i += 1;
            }
            k += 1;
        }
        Ok(())
    }
}

} // verus!
