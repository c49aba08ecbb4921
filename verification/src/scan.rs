//! Splitting source text into lines and lines into whitespace-separated
//! tokens.
//!
//! A program file is line-oriented: lines are separated by `'\n'`, and each
//! line is a sequence of tokens separated by runs of blanks (space, tab, or
//! the carriage return a Windows line ending leaves behind).

use vstd::prelude::*;

verus! {

/// A blank character inside a line: space, tab, or carriage return.
pub open spec fn is_space_char(c: char) -> bool {
    c == ' ' || c == '\t' || c == '\r'
}

/// The lines of `s`, split on `'\n'`.  Empty lines are kept (they are
/// skipped later, when a program is decoded), so empty text is one empty
/// line and a trailing newline produces a final empty line.
pub open spec fn lines_of(s: Seq<char>) -> Seq<Seq<char>>
    decreases s.len(),
{
    if s.len() == 0 {
        seq![Seq::<char>::empty()]
    } else {
        let init = lines_of(s.drop_last());
        if s.last() == '\n' {
            init.push(Seq::<char>::empty())
        } else {
            init.update(init.len() - 1, init.last().push(s.last()))
        }
    }
}

/// The tokens of one line: the maximal runs of non-blank characters, in
/// order.
pub open spec fn tokens_of(s: Seq<char>) -> Seq<Seq<char>>
    decreases s.len(),
{
    if s.len() == 0 {
        Seq::<Seq<char>>::empty()
    } else {
        let init = tokens_of(s.drop_last());
        let c = s.last();
        if is_space_char(c) {
            init
        } else if s.len() >= 2 && !is_space_char(s[s.len() - 2]) {
            init.update(init.len() - 1, init.last().push(c))
        } else {
            init.push(seq![c])
        }
    }
}

/// Whether `c` is a blank character inside a line.
pub fn is_space(c: char) -> (r: bool)
    ensures
        r == is_space_char(c),
{
    c == ' ' || c == '\t' || c == '\r'
}

/// Splits source text into its lines, exactly as [`lines_of`] describes.
pub fn split_lines(text: &str) -> (r: Vec<String>)
    ensures
        r.deep_view() == lines_of(text@),
{
    let n = text.unicode_len();
    let mut lines: Vec<String> = Vec::new();
    let mut start: usize = 0;
    let mut i: usize = 0;
    proof {
        assert(lines.deep_view() =~= Seq::<Seq<char>>::empty());
        assert(lines_of(text@.take(0)) =~~= lines.deep_view().push(text@.subrange(0, 0)));
    }
    while i < n
        invariant
            start <= i <= n,
            n == text@.len(),
            lines_of(text@.take(i as int)) == lines.deep_view().push(
                text@.subrange(start as int, i as int),
            ),
        decreases n - i,
    {
        let c = text.get_char(i);
        proof {
            assert(text@.take(i + 1).drop_last() =~= text@.take(i as int));
            assert(text@.take(i + 1).last() == text@[i as int]);
        }
        if c == '\n' {
            let ghost old_dv = lines.deep_view();
            let line = text.substring_char(start, i).to_owned();
            lines.push(line);
            proof {
                assert(lines.deep_view() =~~= old_dv.push(text@.subrange(start as int, i as int)));
                assert(lines_of(text@.take(i + 1)) =~~= lines.deep_view().push(
                    text@.subrange(i + 1, i + 1),
                ));
            }
            start = i + 1;
        } else {
            proof {
                let dv = lines.deep_view();
                let cur = text@.subrange(start as int, i as int);
                assert(cur.push(c) =~= text@.subrange(start as int, i + 1));
                assert(lines_of(text@.take(i + 1)) =~~= dv.push(
                    text@.subrange(start as int, i + 1),
                ));
            }
        }
        i += 1;
    }
    let ghost old_dv = lines.deep_view();
    let last_line = text.substring_char(start, n).to_owned();
    lines.push(last_line);
    proof {
        assert(lines.deep_view() =~~= old_dv.push(text@.subrange(start as int, n as int)));
        assert(text@.take(n as int) =~= text@);
    }
    lines
}

/// Splits one line into its tokens, exactly as [`tokens_of`] describes.
pub fn tokenize(line: &str) -> (r: Vec<String>)
    ensures
        r.deep_view() == tokens_of(line@),
{
    let n = line.unicode_len();
    let mut tokens: Vec<String> = Vec::new();
    let mut in_token: bool = false;
    let mut start: usize = 0;
    let mut i: usize = 0;
    proof {
        assert(tokens.deep_view() =~= Seq::<Seq<char>>::empty());
        assert(tokens.deep_view() =~= tokens_of(line@.take(0)));
    }
    while i < n
        invariant
            i <= n,
            n == line@.len(),
            !in_token ==> tokens.deep_view() == tokens_of(line@.take(i as int)) && (i == 0
                || is_space_char(line@[i - 1])),
            in_token ==> start < i && (start == 0 || is_space_char(line@[start - 1])) && (forall|
                j: int,
            |
                start <= j < i ==> !is_space_char(#[trigger] line@[j])) && tokens_of(
                line@.take(i as int),
            ) == tokens.deep_view().push(line@.subrange(start as int, i as int)),
        decreases n - i,
    {
        let c = line.get_char(i);
        proof {
            assert(line@.take(i + 1).drop_last() =~= line@.take(i as int));
            assert(line@.take(i + 1).last() == line@[i as int]);
        }
        if is_space(c) {
            if in_token {
                let ghost old_dv = tokens.deep_view();
                let token = line.substring_char(start, i).to_owned();
                tokens.push(token);
                proof {
                    assert(tokens.deep_view() =~~= old_dv.push(
                        line@.subrange(start as int, i as int),
                    ));
                }
                in_token = false;
            }
        } else {
            if in_token {
                proof {
                    let dv = tokens.deep_view();
                    let cur = line@.subrange(start as int, i as int);
                    assert(line@.take(i + 1)[i - 1] == line@[i - 1]);
                    assert(cur.push(c) =~= line@.subrange(start as int, i + 1));
                    assert(tokens_of(line@.take(i + 1)) =~~= dv.push(
                        line@.subrange(start as int, i + 1),
                    ));
                }
            } else {
                proof {
                    let dv = tokens.deep_view();
                    assert(seq![c] =~= line@.subrange(i as int, i + 1));
                    assert(tokens_of(line@.take(i + 1)) =~~= dv.push(line@.subrange(i as int, i + 1)));
                }
                start = i;
                in_token = true;
            }
        }
        i += 1;
    }
    if in_token {
        let ghost old_dv = tokens.deep_view();
        let token = line.substring_char(start, n).to_owned();
        tokens.push(token);
        proof {
            assert(tokens.deep_view() =~~= old_dv.push(line@.subrange(start as int, n as int)));
        }
    }
    proof {
        assert(line@.take(n as int) =~= line@);
    }
    tokens
}

} // verus!
