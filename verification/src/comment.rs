//! Comment lines: a line of which the first character that is no white
//! space is `#` is left out of a document before it is read.

use crate::text::append_chars;
use crate::text::chars_of;
use crate::text::is_white_space;
use crate::text::joined;
use crate::text::string_of;
use crate::text::texts;
use crate::text::white_space;
use vstd::prelude::*;

verus! {

/// The position of the first line feed of `s` at or behind `from`, or
/// `s.len()`.
pub open spec fn line_end(s: Seq<char>, from: int) -> int
    decreases s.len() - from,
{
    if from < 0 || from >= s.len() {
        s.len() as int
    } else if s[from] == '\n' {
        from
    } else {
        line_end(s, from + 1)
    }
}

/// `line_end(s, from)` lies between `from` and the end of `s`.
pub proof fn lemma_line_end(s: Seq<char>, from: int)
    requires
        0 <= from <= s.len(),
    ensures
        from <= line_end(s, from) <= s.len(),
    decreases s.len() - from,
{
    if from < s.len() && s[from] != '\n' {
        lemma_line_end(s, from + 1);
    }
}

/// The line that stands in `s` from `from` up to `end`: without the carriage
/// return that may stand before the line feed that ends it.
pub open spec fn line_between(s: Seq<char>, from: int, end: int) -> Seq<char> {
    if end < s.len() && from < end && s[end - 1] == '\r' {
        s.subrange(from, end - 1)
    } else {
        s.subrange(from, end)
    }
}

/// The lines of `s` from `from` on. A line ends with a line feed, or with a
/// carriage return and a line feed, or with the text; the end of a line is
/// no part of it. Nothing follows the line feed that ends the text.
pub open spec fn lines_from(s: Seq<char>, from: int) -> Seq<Seq<char>>
    decreases s.len() - from,
{
    if from < 0 || from >= s.len() {
        Seq::empty()
    } else {
        proof {
            lemma_line_end(s, from);
        }
        let end = line_end(s, from);
        if end < s.len() {
            seq![line_between(s, from, end)] + lines_from(s, end + 1)
        } else {
            seq![line_between(s, from, end)]
        }
    }
}

/// The position of the first character of `line` at or behind `from` that is
/// no white space, or `line.len()`.
pub open spec fn first_mark(line: Seq<char>, from: int) -> int
    decreases line.len() - from,
{
    if from < 0 || from >= line.len() {
        line.len() as int
    } else if !white_space(line[from]) {
        from
    } else {
        first_mark(line, from + 1)
    }
}

/// Whether `line` is a comment: its first character that is no white space
/// is `#`.
pub open spec fn is_comment(line: Seq<char>) -> bool {
    first_mark(line, 0) < line.len() && line[first_mark(line, 0)] == '#'
}

/// The lines among `lines` that are no comments, in their order.
pub open spec fn kept(lines: Seq<Seq<char>>) -> Seq<Seq<char>>
    decreases lines.len(),
{
    if lines.len() == 0 {
        Seq::empty()
    } else if is_comment(lines.last()) {
        kept(lines.drop_last())
    } else {
        kept(lines.drop_last()).push(lines.last())
    }
}

/// `text` without its comment lines: the other lines, with a line feed
/// between each two.
pub open spec fn without_comments(text: Seq<char>) -> Seq<char> {
    joined(kept(lines_from(text, 0)), "\n"@)
}

/// Tells whether `line` is a comment.
pub fn is_comment_line(line: &Vec<char>) -> (b: bool)
    ensures
        b == is_comment(line@),
{
    let mut i: usize = 0;
    while i < line.len() && is_white_space(line[i])
        invariant
            i <= line.len(),
            first_mark(line@, i as int) == first_mark(line@, 0),
        decreases line.len() - i,
    {
        i += 1;
    }
    i < line.len() && line[i] == '#'
}

/// The lines of `s`.
pub fn split_lines(s: &Vec<char>) -> (lines: Vec<Vec<char>>)
    ensures
        texts(lines@) == lines_from(s@, 0),
{
    let mut lines: Vec<Vec<char>> = Vec::new();
    let mut from: usize = 0;
    proof {
        assert(texts(lines@) + lines_from(s@, 0) =~= lines_from(s@, 0));
    }
    while from < s.len()
        invariant
            from <= s.len(),
            texts(lines@) + lines_from(s@, from as int) == lines_from(s@, 0),
        decreases s.len() - from,
    {
        let mut end: usize = from;
        while end < s.len() && s[end] != '\n'
            invariant
                from <= end <= s.len(),
                line_end(s@, end as int) == line_end(s@, from as int),
            decreases s.len() - end,
        {
            end += 1;
        }
        let stop = if end < s.len() && from < end && s[end - 1] == '\r' {
            end - 1
        } else {
            end
        };
        let mut line: Vec<char> = Vec::new();
        let mut i: usize = from;
        while i < stop
            invariant
                from <= i <= stop <= s.len(),
                line@ == s@.subrange(from as int, i as int),
            decreases stop - i,
        {
            line.push(s[i]);
            i += 1;
        }
        let ghost before = texts(lines@);
        lines.push(line);
        proof {
            assert(texts(lines@) =~= before + seq![line_between(s@, from as int, end as int)]);
            if end < s.len() {
                assert(texts(lines@) + lines_from(s@, end + 1) =~= before + lines_from(
                    s@,
                    from as int,
                ));
            } else {
                assert(texts(lines@) + lines_from(s@, end as int) =~= before + lines_from(
                    s@,
                    from as int,
                ));
            }
        }
        if end < s.len() {
            from = end + 1;
        } else {
            from = end;
        }
    }
    proof {
        assert(texts(lines@) + lines_from(s@, from as int) =~= texts(lines@));
    }
    lines
}

/// Leaves the comment lines out of `text`. The lines that stay are written
/// with a line feed between each two, and none behind the last.
pub fn strip_comments(text: &str) -> (out: String)
    ensures
        out@ == without_comments(text@),
{
    let lines = split_lines(&chars_of(text));
    let ghost all = texts(lines@);
    let ghost mut stay: Seq<Seq<char>> = Seq::empty();
    let mut out: Vec<char> = Vec::new();
    let mut any = false;
    let mut k: usize = 0;
    proof {
        assert(all.take(0) =~= Seq::empty());
    }
    while k < lines.len()
        invariant
            k <= lines.len(),
            all == texts(lines@),
            stay == kept(all.take(k as int)),
            any == (stay.len() > 0),
            out@ == joined(stay, "\n"@),
        decreases lines.len() - k,
    {
        proof {
            assert(all.take(k + 1).drop_last() =~= all.take(k as int));
            assert(all.take(k + 1).last() == lines@[k as int]@);
        }
        if !is_comment_line(&lines[k]) {
            let ghost before = out@;
            if any {
                append_chars(&mut out, &chars_of("\n"));
            }
            append_chars(&mut out, &lines[k]);
            proof {
                let line = lines@[k as int]@;
                assert(stay.push(line).drop_last() =~= stay);
                if any {
                    assert(out@ =~= before + "\n"@ + line);
                } else {
                    assert(out@ =~= line);
                }
                stay = stay.push(line);
            }
            any = true;
        }
        k += 1;
    }
    proof {
        assert(all.take(k as int) =~= all);
    }
    string_of(&out)
}

} // verus!
