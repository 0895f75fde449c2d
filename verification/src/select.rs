//! Which request a run sends: the one at an index, or the one of a name.

use crate::config::Config;
use crate::config::RequestView;
use crate::text::chars_of;
use crate::text::same_chars;
use vstd::prelude::*;

verus! {

/// Why no request was chosen.
#[derive(Debug, Clone, Copy, PartialEq, Eq, Structural)]
pub enum SelectError {
    /// The index is not below the number of requests.
    IndexOutOfBounds,
    /// No request has the name.
    UnknownName,
    /// The request is disabled, and disabled requests were not asked for.
    Disabled,
}

/// The message of a `SelectError`.
pub open spec fn select_message(e: SelectError) -> Seq<char> {
    match e {
        SelectError::IndexOutOfBounds => "index out of bounds"@,
        SelectError::UnknownName => "no entry found for the name"@,
        SelectError::Disabled => "disabled request"@,
    }
}

impl SelectError {
    /// The message to show to the user.
    pub fn to_string(&self) -> (message: String)
        ensures
            message@ == select_message(*self),
    {
        match self {
            SelectError::IndexOutOfBounds => String::from_str("index out of bounds"),
            SelectError::UnknownName => String::from_str("no entry found for the name"),
            SelectError::Disabled => String::from_str("disabled request"),
        }
    }
}

/// The number that a digit writes.
pub open spec fn digit_value(c: char) -> Option<nat> {
    if '0' <= c <= '9' {
        Some((c as nat - '0' as nat) as nat)
    } else {
        None
    }
}

/// The number that `digits` write in decimal, if each of them is a digit.
pub open spec fn number_of(digits: Seq<char>) -> Option<nat>
    decreases digits.len(),
{
    if digits.len() == 0 {
        Some(0)
    } else {
        match (number_of(digits.drop_last()), digit_value(digits.last())) {
            (Some(front), Some(last)) => Some(front * 10 + last),
            _ => None,
        }
    }
}

/// The index that `text` writes: one or more digits, a `+` before them or
/// not, that write a number which a `usize` holds.
pub open spec fn index_written(text: Seq<char>) -> Option<nat> {
    let digits = if text.len() > 0 && text[0] == '+' {
        text.skip(1)
    } else {
        text
    };
    if digits.len() == 0 {
        None
    } else {
        match number_of(digits) {
            Some(n) => if n <= usize::MAX {
                Some(n)
            } else {
                None
            },
            None => None,
        }
    }
}

/// The position of the first request named `name`, or `requests.len()`.
pub open spec fn named(requests: Seq<RequestView>, name: Seq<char>) -> int
    decreases requests.len(),
{
    if requests.len() == 0 {
        0
    } else if requests[0].name == name {
        0
    } else {
        1 + named(requests.skip(1), name)
    }
}

/// The request that `index` asks for, before it is known whether it may be
/// sent: the one at the index that `index` writes, or, where it writes none,
/// the first of that name.
pub open spec fn asked_for(requests: Seq<RequestView>, index: Seq<char>) -> Result<
    int,
    SelectError,
> {
    match index_written(index) {
        Some(i) => if i >= requests.len() {
            Err(SelectError::IndexOutOfBounds)
        } else {
            Ok(i as int)
        },
        None => if named(requests, index) < requests.len() {
            Ok(named(requests, index))
        } else {
            Err(SelectError::UnknownName)
        },
    }
}

/// The position of the request to send: the one asked for, unless it is
/// disabled and disabled requests are not included.
pub open spec fn selected(requests: Seq<RequestView>, index: Seq<char>, include_disabled: bool)
    -> Result<int, SelectError> {
    match asked_for(requests, index) {
        Err(e) => Err(e),
        Ok(at) => if requests[at].disabled && !include_disabled {
            Err(SelectError::Disabled)
        } else {
            Ok(at)
        },
    }
}

/// More digits do not make a number smaller, and a sequence that holds
/// something else than digits writes no number.
pub proof fn lemma_number_of_prefix(digits: Seq<char>, k: int)
    requires
        0 <= k <= digits.len(),
    ensures
        number_of(digits) is Some ==> number_of(digits.take(k)) is Some && number_of(
            digits.take(k),
        )->0 <= number_of(digits)->0,
    decreases digits.len() - k,
{
    if k < digits.len() {
        assert(digits.take(k + 1).drop_last() =~= digits.take(k));
        lemma_number_of_prefix(digits, k + 1);
    } else {
        assert(digits.take(k) =~= digits);
    }
}

/// Reads the index that `text` writes.
pub fn parse_index(text: &str) -> (index: Option<usize>)
    ensures
        match index {
            Some(i) => index_written(text@) == Some(i as nat),
            None => index_written(text@) is None,
        },
{
    let chars = chars_of(text);
    let start: usize = if chars.len() > 0 && chars[0] == '+' {
        1
    } else {
        0
    };
    if start >= chars.len() {
        return None;
    }
    let ghost digits = chars@.skip(start as int);
    let mut value: usize = 0;
    let mut k: usize = start;
    proof {
        assert(digits.take(0) =~= Seq::empty());
    }
    while k < chars.len()
        invariant
            start <= k <= chars.len(),
            chars@ == text@,
            start < chars.len(),
            start == (if text@.len() > 0 && text@[0] == '+' {
                1int
            } else {
                0int
            }),
            digits == chars@.skip(start as int),
            number_of(digits.take(k - start)) == Some(value as nat),
        decreases chars.len() - k,
    {
        let c = chars[k];
        proof {
            assert(digits.take(k - start + 1).drop_last() =~= digits.take(k - start));
            assert(digits.take(k - start + 1).last() == c);
            lemma_number_of_prefix(digits, k - start + 1);
        }
        proof {
            assert(chars@.skip(0) =~= chars@);
        }
        if c < '0' || c > '9' {
            return None;
        }
        let d: usize = (c as u32 - '0' as u32) as usize;
        if value > (usize::MAX - d) / 10 {
            return None;
        }
        value = value * 10 + d;
        k += 1;
    }
    proof {
        assert(digits.take(k - start) =~= digits);
        assert(chars@.skip(0) =~= chars@);
    }
    Some(value)
}

impl Config {
    /// Chooses the request that `index` asks for: the one at that index where
    /// `index` writes one, else the first of that name. A disabled request is
    /// chosen only where `include_disabled` says so.
    pub fn select(&self, index: &str, include_disabled: bool) -> (r: Result<usize, SelectError>)
        ensures
            match r {
                Ok(at) => selected(self@.requests, index@, include_disabled) == Ok::<
                    int,
                    SelectError,
                >(at as int) && at < self.requests.len(),
                Err(e) => selected(self@.requests, index@, include_disabled) == Err::<
                    int,
                    SelectError,
                >(e),
            },
    {
        let ghost all = self@.requests;
        let at = match parse_index(index) {
            Some(i) => {
                if i >= self.requests.len() {
                    return Err(SelectError::IndexOutOfBounds);
                }
                i
            },
            None => {
                let name = chars_of(index);
                let mut k: usize = 0;
                proof {
                    assert(all.skip(0) =~= all);
                }
                while k < self.requests.len() && !same_chars(
                    &chars_of(self.requests[k].name.as_str()),
                    &name,
                )
                    invariant
                        k <= self.requests.len(),
                        all == self@.requests,
                        name@ == index@,
                        named(all, index@) == k + named(all.skip(k as int), index@),
                    decreases self.requests.len() - k,
                {
                    proof {
                        assert(all.skip(k as int)[0] == all[k as int]);
                        assert(all.skip(k as int).skip(1) =~= all.skip(k + 1));
                    }
                    k += 1;
                }
                if k >= self.requests.len() {
                    return Err(SelectError::UnknownName);
                }
                proof {
                    assert(all.skip(k as int)[0] == all[k as int]);
                }
                k
            },
        };
        if self.requests[at].disabled && !include_disabled {
            Err(SelectError::Disabled)
        } else {
            Ok(at)
        }
    }
}

} // verus!
