//! Configuration resolution for a runner of named requests: variables are
//! compiled in the order in which they are defined, placeholders are replaced
//! in every text of a configuration, typed literals are cast, and the
//! requests are checked and listed.

pub mod args;
pub mod cast;
pub mod client;
pub mod comment;
pub mod config;
pub mod document;
pub mod error;
pub mod expansion;
pub mod form;
pub mod laws;
pub mod placeholder;
pub mod resolve;
pub mod response;
pub mod select;
pub mod table;
pub mod text;
pub mod value;
pub mod variables;

use crate::config::Config;
use crate::config::RequestView;
use crate::text::append_chars;
use crate::text::chars_of;
use crate::text::decimal;
use crate::text::joined;
use crate::text::push_decimal;
use crate::text::replace_all;
use crate::text::replace_chars;
use crate::text::string_of;
use vstd::prelude::*;

verus! {

/// The line that lists the request at `index`.
pub open spec fn request_line(index: nat, request: RequestView) -> Seq<char> {
    "{\"index\": "@ + decimal(index) + ", \"name\": \""@ + request.name + "\", \"url\": \""@
        + request.url + "\"}"@
}

/// The lines that list the requests that are not disabled, each with its
/// index among all requests.
pub open spec fn enabled_lines(requests: Seq<RequestView>) -> Seq<Seq<char>>
    decreases requests.len(),
{
    if requests.len() == 0 {
        Seq::empty()
    } else {
        let front = enabled_lines(requests.drop_last());
        if requests.last().disabled {
            front
        } else {
            front.push(request_line((requests.len() - 1) as nat, requests.last()))
        }
    }
}

/// The names of the requests, in their order.
pub open spec fn request_names(requests: Seq<RequestView>) -> Seq<Seq<char>> {
    Seq::new(requests.len(), |i: int| requests[i].name)
}

/// The options that the command line takes, as a completion offers them.
pub open spec fn option_words() -> Seq<char> {
    "-f --file --show-headers --disable-redirect --complete -v --verbose"@
}

/// The words that a completion offers: the request names, then the options.
pub open spec fn completion_words(requests: Seq<RequestView>) -> Seq<char> {
    joined(request_names(requests), " "@) + " "@ + option_words()
}

/// The shell command that installs the completion.
pub open spec fn completion_command(requests: Seq<RequestView>) -> Seq<char> {
    "complete -f -W '"@ + completion_words(requests) + "' -X '!@("@ + replace_all(
        completion_words(requests),
        " "@,
        "|"@,
    ) + "|*.json)' ycurl"@
}

/// The listing of the requests that are not disabled: one line for each, with
/// its index among all requests, its name and its address, the lines
/// separated by a line feed.
pub fn show_requests(config: &Config) -> (listing: String)
    ensures
        listing@ == joined(enabled_lines(config@.requests), "\n"@),
{
    let ghost all = config@.requests;
    let ghost mut lines: Seq<Seq<char>> = Seq::empty();
    let mut out: Vec<char> = Vec::new();
    let mut any = false;
    let mut k: usize = 0;
    proof {
        assert(all.take(0) =~= Seq::empty());
    }
    while k < config.requests.len()
        invariant
            k <= config.requests.len(),
            all == config@.requests,
            lines == enabled_lines(all.take(k as int)),
            any == (lines.len() > 0),
            out@ == joined(lines, "\n"@),
        decreases config.requests.len() - k,
    {
        proof {
            assert(all.take(k + 1).drop_last() =~= all.take(k as int));
            assert(all.take(k + 1).last() == config.requests@[k as int]@);
        }
        if !config.requests[k].disabled {
            let ghost before = out@;
            if any {
                append_chars(&mut out, &chars_of("\n"));
            }
            append_chars(&mut out, &chars_of("{\"index\": "));
            push_decimal(&mut out, k);
            append_chars(&mut out, &chars_of(", \"name\": \""));
            append_chars(&mut out, &chars_of(config.requests[k].name.as_str()));
            append_chars(&mut out, &chars_of("\", \"url\": \""));
            append_chars(&mut out, &chars_of(config.requests[k].url.as_str()));
            append_chars(&mut out, &chars_of("\"}"));
            proof {
                let line = request_line(k as nat, config.requests@[k as int]@);
                assert(lines.push(line).drop_last() =~= lines);
                if any {
                    assert(out@ =~= before + "\n"@ + line);
                } else {
                    assert(out@ =~= line);
                }
                lines = lines.push(line);
            }
            any = true;
        }
        k += 1;
    }
    proof {
        assert(all.take(k as int) =~= all);
    }
    string_of(&out)
}

/// The shell command that installs a completion for the request names and
/// the options of the command line.
pub fn show_complete(config: &Config) -> (command: String)
    ensures
        command@ == completion_command(config@.requests),
{
    let ghost names = request_names(config@.requests);
    let mut words: Vec<char> = Vec::new();
    let mut k: usize = 0;
    proof {
        assert(names.take(0) =~= Seq::empty());
    }
    while k < config.requests.len()
        invariant
            k <= config.requests.len(),
            names == request_names(config@.requests),
            words@ == joined(names.take(k as int), " "@),
        decreases config.requests.len() - k,
    {
        let ghost before = words@;
        proof {
            assert(names.take(k + 1).drop_last() =~= names.take(k as int));
            assert(names.take(k + 1).last() == config.requests@[k as int].name@);
        }
        if k > 0 {
            append_chars(&mut words, &chars_of(" "));
        }
        append_chars(&mut words, &chars_of(config.requests[k].name.as_str()));
        proof {
            if k > 0 {
                assert(words@ =~= before + " "@ + names[k as int]);
            } else {
                assert(words@ =~= names[k as int]);
            }
        }
        k += 1;
    }
    proof {
        assert(names.take(k as int) =~= names);
    }
    append_chars(&mut words, &chars_of(" "));
    append_chars(
        &mut words,
        &chars_of("-f --file --show-headers --disable-redirect --complete -v --verbose"),
    );
    let bars = replace_chars(&words, &chars_of(" "), &chars_of("|"));
    let mut out = chars_of("complete -f -W '");
    append_chars(&mut out, &words);
    append_chars(&mut out, &chars_of("' -X '!@("));
    append_chars(&mut out, &bars);
    append_chars(&mut out, &chars_of("|*.json)' ycurl"));
    string_of(&out)
}

} // verus!
