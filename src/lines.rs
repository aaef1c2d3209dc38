use vstd::prelude::*;
use vstd::string::StrSliceExecFns;

use crate::order::{chars_of, views};

verus! {

/// A line as it was ended by a newline: one carriage return before the
/// newline belongs to the line ending, not to the line.
pub open spec fn strip_cr(line: Seq<char>) -> Seq<char> {
    if line.len() > 0 && line.last() == '\r' {
        line.drop_last()
    } else {
        line
    }
}

/// The lines of `rest`, where `cur` holds the characters already read of the
/// line in progress. A last line that no newline ends keeps its characters as
/// they are; text that ends in a newline has no empty line after it.
pub open spec fn lines_from(rest: Seq<char>, cur: Seq<char>) -> Seq<Seq<char>>
    decreases rest.len(),
{
    if rest.len() == 0 {
        if cur.len() == 0 {
            Seq::empty()
        } else {
            seq![cur]
        }
    } else if rest[0] == '\n' {
        seq![strip_cr(cur)] + lines_from(rest.drop_first(), Seq::empty())
    } else {
        lines_from(rest.drop_first(), cur.push(rest[0]))
    }
}

/// The lines of a newline-delimited text, in order.
pub open spec fn text_lines(text: Seq<char>) -> Seq<Seq<char>> {
    lines_from(text, Seq::empty())
}

/// Splits `text` into its lines.
pub fn split_lines(text: &str) -> (r: Vec<String>)
    ensures
        views(r@) == text_lines(text@),
{
    let chars = chars_of(text);
    let ghost t = text@;
    let mut out: Vec<String> = Vec::new();
    let mut start: usize = 0;
    let mut i: usize = 0;
    assert(t.skip(0) =~= t);
    assert(t.subrange(0, 0) =~= Seq::<char>::empty());
    while i < chars.len()
        invariant
            chars@ == t,
            t == text@,
            start <= i <= chars.len(),
            views(out@) + lines_from(t.skip(i as int), t.subrange(start as int, i as int))
                == text_lines(t),
        decreases chars.len() - i,
    {
        let ghost out_before = out@;
        assert(t.skip(i as int).drop_first() =~= t.skip(i + 1));
        if chars[i] == '\n' {
            let end = if i > start && chars[i - 1] == '\r' {
                i - 1
            } else {
                i
            };
            let line = text.substring_char(start, end).to_owned();
            assert(line@ =~= strip_cr(t.subrange(start as int, i as int)));
            out.push(line);
            start = i + 1;
            assert(views(out@) =~= views(out_before).push(line@));
            assert(t.subrange(start as int, start as int) =~= Seq::<char>::empty());
            assert(views(out@) + lines_from(t.skip(i + 1), Seq::empty()) =~= views(out_before)
                + (seq![line@] + lines_from(t.skip(i + 1), Seq::empty())));
        } else {
            assert(t.subrange(start as int, i as int).push(t[i as int]) =~= t.subrange(
                start as int,
                i + 1,
            ));
        }
        i = i + 1;
    }
    assert(t.skip(i as int) =~= Seq::<char>::empty());
    if start < i {
        let ghost out_before = out@;
        let line = text.substring_char(start, i).to_owned();
        out.push(line);
        assert(views(out@) =~= views(out_before).push(line@));
        assert(views(out@) =~= views(out_before) + seq![line@]);
    } else {
        assert(t.subrange(start as int, i as int) =~= Seq::<char>::empty());
        assert(views(out@) =~= views(out@) + Seq::<Seq<char>>::empty());
    }
    out
}

} // verus!
