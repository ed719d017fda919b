//! Splitting text into lines.
//!
//! A line ends at a line feed; a carriage return directly before the line
//! feed belongs to the terminator, not to the line. A terminator at the very
//! end of the text does not open an empty final line, and a final line
//! without a terminator is kept as it stands, including a trailing carriage
//! return.

use vstd::prelude::*;
use vstd::string::StrSliceExecFns;

verus! {

/// Remove one trailing carriage return, if present. Applied to the text
/// collected before a line feed.
pub open spec fn strip_cr(line: Seq<char>) -> Seq<char> {
    if line.len() > 0 && line.last() == '\r' {
        line.drop_last()
    } else {
        line
    }
}

/// The lines of `s`, with `cur` holding the characters of the line opened so
/// far. On a line feed the open line is closed (with a carriage return
/// directly before the feed stripped); at the end of the text a non-empty
/// open line is kept unstripped.
pub open spec fn lines_rec(s: Seq<char>, cur: Seq<char>) -> Seq<Seq<char>>
    decreases s.len(),
{
    if s.len() == 0 {
        if cur.len() == 0 {
            Seq::empty()
        } else {
            seq![cur]
        }
    } else if s[0] == '\n' {
        seq![strip_cr(cur)] + lines_rec(s.drop_first(), Seq::empty())
    } else {
        lines_rec(s.drop_first(), cur.push(s[0]))
    }
}

/// The lines of a text.
pub open spec fn spec_lines(s: Seq<char>) -> Seq<Seq<char>> {
    lines_rec(s, Seq::empty())
}

/// Split a text into its lines. The returned slices borrow from `contents`.
pub fn split_lines<'a>(contents: &'a str) -> (r: Vec<&'a str>)
    ensures
        r.deep_view() == spec_lines(contents@),
{
    let n = contents.unicode_len();
    let mut r: Vec<&'a str> = Vec::new();
    let mut start: usize = 0;
    let mut i: usize = 0;
    proof {
        assert(r.deep_view() =~= Seq::<Seq<char>>::empty());
        assert(contents@.subrange(0, n as int) =~= contents@);
        assert(contents@.subrange(0, 0) =~= Seq::<char>::empty());
    }
    while i < n
        invariant
            n == contents@.len(),
            start <= i <= n,
            spec_lines(contents@) == r.deep_view() + lines_rec(
                contents@.subrange(i as int, n as int),
                contents@.subrange(start as int, i as int),
            ),
        decreases n - i,
    {
        let ghost rest = contents@.subrange(i as int, n as int);
        let ghost cur = contents@.subrange(start as int, i as int);
        proof {
            assert(rest[0] == contents@[i as int]);
            assert(rest.drop_first() =~= contents@.subrange(i + 1, n as int));
        }
        let c = contents.get_char(i);
        if c == '\n' {
            let end = if i > start && contents.get_char(i - 1) == '\r' {
                i - 1
            } else {
                i
            };
            let line = contents.substring_char(start, end);
            proof {
                if i > start && contents@[i - 1] == '\r' {
                    assert(cur.last() == '\r');
                    assert(cur.drop_last() =~= contents@.subrange(start as int, i - 1));
                    assert(strip_cr(cur) == line@);
                } else {
                    assert(strip_cr(cur) == line@);
                }
                assert(lines_rec(rest, cur) == seq![strip_cr(cur)] + lines_rec(
                    rest.drop_first(),
                    Seq::<char>::empty(),
                ));
                assert(contents@.subrange(i + 1, i + 1) =~= Seq::<char>::empty());
            }
            let ghost dv = r.deep_view();
            r.push(line);
            proof {
                assert(r.deep_view() =~= dv.push(line@));
                assert(dv + (seq![line@] + lines_rec(
                    contents@.subrange(i + 1, n as int),
                    Seq::<char>::empty(),
                )) =~= dv.push(line@) + lines_rec(
                    contents@.subrange(i + 1, n as int),
                    Seq::<char>::empty(),
                ));
            }
            start = i + 1;
        } else {
            proof {
                assert(lines_rec(rest, cur) == lines_rec(rest.drop_first(), cur.push(rest[0])));
                assert(cur.push(contents@[i as int]) =~= contents@.subrange(start as int, i + 1));
            }
        }
        i += 1;
    }
    proof {
        assert(contents@.subrange(n as int, n as int) =~= Seq::<char>::empty());
    }
    if start < n {
        let line = contents.substring_char(start, n);
        let ghost dv = r.deep_view();
        r.push(line);
        proof {
            assert(line@ == contents@.subrange(start as int, n as int));
            assert(lines_rec(Seq::<char>::empty(), line@) == seq![line@]);
            assert(r.deep_view() =~= dv.push(line@));
            assert(dv + seq![line@] =~= dv.push(line@));
        }
    } else {
        proof {
            assert(contents@.subrange(start as int, n as int).len() == 0);
            assert(r.deep_view() + Seq::<Seq<char>>::empty() =~= r.deep_view());
        }
    }
    r
}

} // verus!
