//! What is sent for a request: the address, the headers and the kind of
//! body, as the configuration and the request give them.

use crate::config::Config;
use crate::config::Request;
use crate::config::pairs_view;
use crate::form::lemma_as_table_distinct;
use crate::table::as_table;
use crate::table::distinct_names;
use crate::table::position;
use crate::table::put;
use crate::text::append_chars;
use crate::text::chars_of;
use crate::text::contains_chars;
use crate::text::contains_text;
use crate::text::has_prefix;
use crate::text::matches_at;
use crate::text::same_chars;
use crate::text::string_of;
use vstd::prelude::*;

verus! {

/// How the body of a request is written.
#[derive(Debug, Clone, Copy, PartialEq, Eq, Structural)]
pub enum BodyKind {
    /// The request has no body.
    Absent,
    /// The members of the body are written as a form.
    Form,
    /// The body is written as a document.
    Document,
}

/// The address that a request goes to: its own where that begins with
/// `http`, else the base address with its own behind it.
pub open spec fn joined_url(base_url: Seq<char>, url: Seq<char>) -> Seq<char> {
    if has_prefix(url, "http"@) {
        url
    } else {
        base_url + url
    }
}

/// The headers that a request goes with: the default headers, then its own;
/// where a name occurs again, the later value stands in the first place of
/// the name.
pub open spec fn merged_headers(
    defaults: Seq<(Seq<char>, Seq<char>)>,
    own: Seq<(Seq<char>, Seq<char>)>,
) -> Seq<(Seq<char>, Seq<char>)> {
    as_table(defaults + own)
}

/// The name of the header that says how the body is written.
pub open spec fn content_type() -> Seq<char> {
    "content-type"@
}

/// What a content type holds where the body is a form.
pub open spec fn form_type() -> Seq<char> {
    "application/x-www-form-urlencoded"@
}

/// The kind of the body of a request that goes with `headers`: a form where
/// the content type says so, else a document.
pub open spec fn kind_of_body(headers: Seq<(Seq<char>, Seq<char>)>, has_body: bool) -> BodyKind {
    if !has_body {
        BodyKind::Absent
    } else {
        let at = position(headers, content_type());
        if at < headers.len() && contains_text(headers[at].1, form_type()) {
            BodyKind::Form
        } else {
            BodyKind::Document
        }
    }
}

/// Sets `name` to `value` among `pairs`: in the first place of the name, or
/// at the end where the name is new.
pub fn put_pair(pairs: &mut Vec<(String, String)>, name: String, value: String)
    ensures
        pairs_view(final(pairs)@) == put(pairs_view(old(pairs)@), name@, value@),
{
    let ghost before = pairs_view(pairs@);
    let key = chars_of(name.as_str());
    let mut k: usize = 0;
    proof {
        assert(before.skip(0) =~= before);
    }
    while k < pairs.len()
        invariant
            k <= pairs.len(),
            pairs@ == old(pairs)@,
            before == pairs_view(pairs@),
            key@ == name@,
            position(before, name@) == k + position(before.skip(k as int), name@),
        decreases pairs.len() - k,
    {
        proof {
            assert(before.skip(k as int)[0] == before[k as int]);
            assert(before.skip(k as int).skip(1) =~= before.skip(k + 1));
        }
        if same_chars(&chars_of(pairs[k].0.as_str()), &key) {
            pairs.set(k, (name, value));
            proof {
                assert(pairs_view(pairs@) =~= before.update(k as int, (name@, value@)));
            }
            return ;
        }
        k += 1;
    }
    pairs.push((name, value));
    proof {
        assert(pairs_view(pairs@) =~= before.push((name@, value@)));
    }
}

impl Config {
    /// The address that `request` goes to.
    pub fn request_url(&self, request: &Request) -> (url: String)
        ensures
            url@ == joined_url(self@.base_url, request@.url),
    {
        let own = chars_of(request.url.as_str());
        if matches_at(&own, &chars_of("http"), 0) {
            request.url.clone()
        } else {
            let mut out = chars_of(self.base_url.as_str());
            append_chars(&mut out, &own);
            string_of(&out)
        }
    }

    /// The headers that `request` goes with: its own over the defaults.
    pub fn request_headers(&self, request: &Request) -> (headers: Vec<(String, String)>)
        ensures
            pairs_view(headers@) == merged_headers(self@.default_headers, request@.headers),
            distinct_names(pairs_view(headers@)),
    {
        let ghost defaults = pairs_view(self.default_headers@);
        let ghost own = pairs_view(request.headers@);
        let ghost all = defaults + own;
        let mut out: Vec<(String, String)> = Vec::new();
        let mut k: usize = 0;
        proof {
            assert(all.take(0) =~= Seq::empty());
            assert(pairs_view(out@) =~= Seq::empty());
        }
        while k < self.default_headers.len()
            invariant
                k <= self.default_headers.len(),
                defaults == pairs_view(self.default_headers@),
                all == defaults + own,
                pairs_view(out@) == as_table(all.take(k as int)),
            decreases self.default_headers.len() - k,
        {
            proof {
                assert(all.take(k + 1).drop_last() =~= all.take(k as int));
                assert(all.take(k + 1).last() == defaults[k as int]);
            }
            put_pair(
                &mut out,
                self.default_headers[k].0.clone(),
                self.default_headers[k].1.clone(),
            );
            k += 1;
        }
        let n = self.default_headers.len();
        let mut j: usize = 0;
        while j < request.headers.len()
            invariant
                j <= request.headers.len(),
                n == defaults.len(),
                own == pairs_view(request.headers@),
                all == defaults + own,
                pairs_view(out@) == as_table(all.take(n + j)),
            decreases request.headers.len() - j,
        {
            proof {
                assert(all.take(n + j + 1).drop_last() =~= all.take(n + j));
                assert(all.take(n + j + 1).last() == own[j as int]);
            }
            put_pair(&mut out, request.headers[j].0.clone(), request.headers[j].1.clone());
            j += 1;
        }
        proof {
            assert(all.take(n + j) =~= all);
            lemma_as_table_distinct(all);
        }
        out
    }
}

/// The kind of the body of `request` when it goes with `headers`.
pub fn body_kind(headers: &Vec<(String, String)>, request: &Request) -> (kind: BodyKind)
    ensures
        kind == kind_of_body(pairs_view(headers@), request@.body is Some),
{
    if request.body.is_none() {
        return BodyKind::Absent;
    }
    let ghost all = pairs_view(headers@);
    let name = chars_of("content-type");
    let mut k: usize = 0;
    proof {
        assert(all.skip(0) =~= all);
    }
    while k < headers.len()
        invariant
            k <= headers.len(),
            all == pairs_view(headers@),
            name@ == content_type(),
            request@.body is Some,
            position(all, content_type()) == k + position(all.skip(k as int), content_type()),
        decreases headers.len() - k,
    {
        proof {
            assert(all.skip(k as int)[0] == all[k as int]);
            assert(all.skip(k as int).skip(1) =~= all.skip(k + 1));
        }
        if same_chars(&chars_of(headers[k].0.as_str()), &name) {
            let form = chars_of("application/x-www-form-urlencoded");
            if contains_chars(&chars_of(headers[k].1.as_str()), &form) {
                return BodyKind::Form;
            } else {
                return BodyKind::Document;
            }
        }
        k += 1;
    }
    BodyKind::Document
}

} // verus!
