//! Placeholders: `${name}` tokens in a text, and their replacement from a
//! variable table.
//!
//! A placeholder begins with `${`, goes on over one or more characters other
//! than `}`, which are its name, and ends with the first `}`. A text is read
//! from left to right; the search goes on behind a placeholder that was
//! found, and one character further where none begins.

use crate::error::ConfigError;
use crate::error::Fault;
use crate::table::lookup;
use crate::table::table_entries;
use crate::table::table_get;
use crate::text::append_chars;
use crate::text::chars_of;
use crate::text::replace_all;
use crate::text::replace_chars;
use crate::text::same_chars;
use crate::text::slice_chars;
use crate::text::string_of;
use crate::text::texts;
use indexmap::IndexMap;
use vstd::prelude::*;

verus! {

/// The position of the first `}` of `s` at or behind `from`, or `s.len()`.
pub open spec fn closing(s: Seq<char>, from: int) -> int
    decreases s.len() - from,
{
    if from < 0 || from >= s.len() {
        s.len() as int
    } else if s[from] == '}' {
        from
    } else {
        closing(s, from + 1)
    }
}

/// `closing(s, from)` lies between `from` and the end of `s`, no `}` stands
/// before it, and one stands at it unless it is the end.
pub proof fn lemma_closing(s: Seq<char>, from: int)
    requires
        0 <= from <= s.len(),
    ensures
        from <= closing(s, from) <= s.len(),
        closing(s, from) < s.len() ==> s[closing(s, from)] == '}',
        forall|j: int| from <= j < closing(s, from) ==> s[j] != '}',
    decreases s.len() - from,
{
    if from < s.len() && s[from] != '}' {
        lemma_closing(s, from + 1);
    }
}

/// Where the placeholder that begins at `at` ends, if one begins there: the
/// position behind its `}`.
pub open spec fn placeholder_at(s: Seq<char>, at: int) -> Option<int> {
    if 0 <= at && at + 3 < s.len() && s[at] == '$' && s[at + 1] == '{' && s[at + 2] != '}'
        && closing(s, at + 3) < s.len() {
        Some(closing(s, at + 3) + 1)
    } else {
        None
    }
}

/// The names of the placeholders of `s` from `from` on, in the order in which
/// they occur, a name as often as it occurs.
pub open spec fn names_from(s: Seq<char>, from: int) -> Seq<Seq<char>>
    decreases s.len() - from,
{
    if from < 0 || from >= s.len() {
        Seq::empty()
    } else {
        match placeholder_at(s, from) {
            Some(end) => {
                proof {
                    lemma_closing(s, from + 3);
                }
                seq![s.subrange(from + 2, end - 1)] + names_from(s, end)
            },
            None => names_from(s, from + 1),
        }
    }
}

/// The names of the placeholders of `s`.
pub open spec fn placeholder_names(s: Seq<char>) -> Seq<Seq<char>> {
    names_from(s, 0)
}

/// The placeholder that stands for `name`.
pub open spec fn placeholder_text(name: Seq<char>) -> Seq<char> {
    seq!['$', '{'] + name + seq!['}']
}

/// `text` after the names `names[k..]` are resolved in turn. A name that
/// stands earlier in `names` is passed over. Any other name is looked up in
/// `table`: every occurrence of its placeholder in the text as it then is
/// gives way to the value, or the name is the error.
pub open spec fn substitute_from(
    text: Seq<char>,
    names: Seq<Seq<char>>,
    k: int,
    table: Seq<(Seq<char>, Seq<char>)>,
) -> Result<Seq<char>, Fault>
    decreases names.len() - k,
{
    if k < 0 || k >= names.len() {
        Ok(text)
    } else if names.take(k).contains(names[k]) {
        substitute_from(text, names, k + 1, table)
    } else {
        match lookup(table, names[k]) {
            None => Err(Fault::UndefinedVariable(names[k])),
            Some(value) => substitute_from(
                replace_all(text, placeholder_text(names[k]), value),
                names,
                k + 1,
                table,
            ),
        }
    }
}

/// `text` with its placeholders replaced from `table`, or the first name, in
/// the order of the text, that `table` lacks.
pub open spec fn expanded(text: Seq<char>, table: Seq<(Seq<char>, Seq<char>)>) -> Result<
    Seq<char>,
    Fault,
> {
    substitute_from(text, placeholder_names(text), 0, table)
}

/// A result over characters as contracts see it.
pub open spec fn chars_result(r: Result<Vec<char>, ConfigError>) -> Result<Seq<char>, Fault> {
    match r {
        Ok(v) => Ok(v@),
        Err(e) => Err(e@),
    }
}

/// A result over a string as contracts see it.
pub open spec fn text_result(r: Result<String, ConfigError>) -> Result<Seq<char>, Fault> {
    match r {
        Ok(s) => Ok(s@),
        Err(e) => Err(e@),
    }
}

/// Finds the first `}` of `s` at or behind `from`.
fn find_closing(s: &Vec<char>, from: usize) -> (at: usize)
    ensures
        at == closing(s@, from as int),
{
    let mut j: usize = from;
    while j < s.len() && s[j] != '}'
        invariant
            from <= j,
            closing(s@, j as int) == closing(s@, from as int),
        decreases s.len() - j,
    {
        j += 1;
    }
    if j >= s.len() {
        s.len()
    } else {
        j
    }
}

/// Tells whether a placeholder begins at `at`, and where it ends.
fn placeholder_end(s: &Vec<char>, at: usize) -> (end: Option<usize>)
    ensures
        match end {
            Some(e) => placeholder_at(s@, at as int) == Some(e as int),
            None => placeholder_at(s@, at as int) is None,
        },
{
    if s.len() < 4 || at >= s.len() - 3 {
        return None;
    }
    if s[at] != '$' || s[at + 1] != '{' || s[at + 2] == '}' {
        return None;
    }
    let close = find_closing(s, at + 3);
    if close < s.len() {
        Some(close + 1)
    } else {
        None
    }
}

/// The names of the placeholders of `s`, in the order in which they occur.
pub fn scan_placeholders(s: &Vec<char>) -> (names: Vec<Vec<char>>)
    ensures
        texts(names@) == placeholder_names(s@),
{
    let mut names: Vec<Vec<char>> = Vec::new();
    let mut i: usize = 0;
    proof {
        assert(texts(names@) + names_from(s@, 0) =~= names_from(s@, 0));
    }
    while i < s.len()
        invariant
            i <= s.len(),
            texts(names@) + names_from(s@, i as int) == placeholder_names(s@),
        decreases s.len() - i,
    {
        match placeholder_end(s, i) {
            Some(end) => {
                proof {
                    lemma_closing(s@, i + 3);
                }
                let ghost before = texts(names@);
                let name = slice_chars(s, i + 2, end - 1);
                names.push(name);
                proof {
                    assert(texts(names@) =~= before + seq![s@.subrange(i + 2, end - 1)]);
                    assert(texts(names@) + names_from(s@, end as int) =~= before + names_from(
                        s@,
                        i as int,
                    ));
                }
                i = end;
            },
            None => {
                i += 1;
            },
        }
    }
    proof {
        assert(texts(names@) + names_from(s@, i as int) =~= texts(names@));
    }
    names
}

/// Whether the name at `k` stands earlier in `names` too.
fn seen_before(names: &Vec<Vec<char>>, k: usize) -> (seen: bool)
    requires
        k < names.len(),
    ensures
        seen == texts(names@).take(k as int).contains(texts(names@)[k as int]),
{
    let ghost all = texts(names@);
    let mut j: usize = 0;
    while j < k
        invariant
            j <= k < names.len(),
            all == texts(names@),
            forall|i: int| 0 <= i < j ==> all[i] != all[k as int],
        decreases k - j,
    {
        if same_chars(&names[j], &names[k]) {
            proof {
                assert(all.take(k as int)[j as int] == all[k as int]);
            }
            return true;
        }
        j += 1;
    }
    proof {
        assert forall|i: int| 0 <= i < all.take(k as int).len() implies all.take(k as int)[i]
            != all[k as int] by {}
    }
    false
}

/// The placeholder that stands for `name`.
fn placeholder_for(name: &Vec<char>) -> (out: Vec<char>)
    ensures
        out@ == placeholder_text(name@),
{
    let mut out: Vec<char> = Vec::new();
    out.push('$');
    out.push('{');
    append_chars(&mut out, name);
    out.push('}');
    proof {
        assert(out@ =~= placeholder_text(name@));
    }
    out
}

/// Resolves `names` in turn in `text`: the work that follows the scan.
pub fn substitute(text: Vec<char>, names: &Vec<Vec<char>>, table: &IndexMap<String, String>) -> (r:
    Result<Vec<char>, ConfigError>)
    ensures
        chars_result(r) == substitute_from(text@, texts(names@), 0, table_entries(*table)),
{
    let ghost all = texts(names@);
    let ghost entries = table_entries(*table);
    let ghost start = text@;
    let mut current = text;
    let mut k: usize = 0;
    while k < names.len()
        invariant
            k <= names.len(),
            start == text@,
            all == texts(names@),
            entries == table_entries(*table),
            substitute_from(current@, all, k as int, entries) == substitute_from(
                start,
                all,
                0,
                entries,
            ),
        decreases names.len() - k,
    {
        if !seen_before(names, k) {
            let name = string_of(&names[k]);
            assert(name@ == all[k as int]);
            match table_get(table, name.as_str()) {
                None => {
                    return Err(ConfigError::UndefinedVariable(name));
                },
                Some(value) => {
                    let with = chars_of(value.as_str());
                    let pat = placeholder_for(&names[k]);
                    current = replace_chars(&current, &pat, &with);
                },
            }
        }
        k += 1;
    }
    Ok(current)
}

/// Replaces the placeholders of `text` from `table`.
pub fn expand_text(text: &str, table: &IndexMap<String, String>) -> (r: Result<
    String,
    ConfigError,
>)
    ensures
        text_result(r) == expanded(text@, table_entries(*table)),
{
    let chars = chars_of(text);
    let names = scan_placeholders(&chars);
    match substitute(chars, &names, table) {
        Ok(out) => Ok(string_of(&out)),
        Err(e) => Err(e),
    }
}

} // verus!
