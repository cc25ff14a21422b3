use vstd::prelude::*;

verus! {

/// Characters with the Unicode `White_Space` property.
pub open spec fn is_white(c: char) -> bool {
    ('\u{9}' <= c && c <= '\u{d}') || c == ' ' || c == '\u{85}' || c == '\u{a0}' || c
        == '\u{1680}' || ('\u{2000}' <= c && c <= '\u{200a}') || c == '\u{2028}' || c
        == '\u{2029}' || c == '\u{202f}' || c == '\u{205f}' || c == '\u{3000}'
}

pub open spec fn trim_start(s: Seq<char>) -> Seq<char>
    decreases s.len(),
{
    if s.len() > 0 && is_white(s[0]) {
        trim_start(s.drop_first())
    } else {
        s
    }
}

pub open spec fn trim_end(s: Seq<char>) -> Seq<char>
    decreases s.len(),
{
    if s.len() > 0 && is_white(s.last()) {
        trim_end(s.drop_last())
    } else {
        s
    }
}

/// The text without white space at either end.
pub open spec fn trim(s: Seq<char>) -> Seq<char> {
    trim_end(trim_start(s))
}

/// Adds a piece of a line to the tokens, trimmed, unless nothing is left of it.
pub open spec fn add_piece(acc: Seq<Seq<char>>, piece: Seq<char>) -> Seq<Seq<char>> {
    if trim(piece).len() == 0 {
        acc
    } else {
        acc.push(trim(piece))
    }
}

/// Splits `s` on single spaces from position `i` on, where the current piece
/// began at `start`, appending the pieces to `acc`.
pub open spec fn split_from(s: Seq<char>, start: int, i: int, acc: Seq<Seq<char>>) -> Seq<
    Seq<char>,
>
    decreases s.len() - i,
{
    if i >= s.len() {
        add_piece(acc, s.subrange(start, s.len() as int))
    } else if s[i] == ' ' {
        split_from(s, i + 1, i + 1, add_piece(acc, s.subrange(start, i)))
    } else {
        split_from(s, start, i + 1, acc)
    }
}

/// The tokens of a text given line by line: each line is split on single spaces,
/// each piece is trimmed, and empty pieces are dropped.
pub open spec fn tokens_of(lines: Seq<Seq<char>>) -> Seq<Seq<char>>
    decreases lines.len(),
{
    if lines.len() == 0 {
        Seq::empty()
    } else {
        split_from(lines.last(), 0, 0, tokens_of(lines.drop_last()))
    }
}

pub open spec fn lines_view(lines: Seq<String>) -> Seq<Seq<char>> {
    lines.map_values(|l: String| l@)
}

pub fn is_white_space(c: char) -> (r: bool)
    ensures
        r == is_white(c),
{
    ('\u{9}' <= c && c <= '\u{d}') || c == ' ' || c == '\u{85}' || c == '\u{a0}' || c
        == '\u{1680}' || ('\u{2000}' <= c && c <= '\u{200a}') || c == '\u{2028}' || c
        == '\u{2029}' || c == '\u{202f}' || c == '\u{205f}' || c == '\u{3000}'
}

/// The text without white space at either end.
pub fn trimmed(s: &str) -> (r: String)
    ensures
        r@ == trim(s@),
{
    let n = s.unicode_len();
    let mut a: usize = 0;
    assert(s@.subrange(0, n as int) =~= s@);
    while a < n && is_white_space(s.get_char(a))
        invariant
            a <= n,
            n == s@.len(),
            trim_start(s@.subrange(a as int, n as int)) == trim_start(s@),
        decreases n - a,
    {
        assert(s@.subrange(a as int, n as int).drop_first() =~= s@.subrange(a + 1, n as int));
        a = a + 1;
    }
    let mut b: usize = n;
    while b > a && is_white_space(s.get_char(b - 1))
        invariant
            a <= b <= n,
            n == s@.len(),
            trim_start(s@) == s@.subrange(a as int, n as int),
            trim_end(s@.subrange(a as int, b as int)) == trim(s@),
        decreases b,
    {
        assert(s@.subrange(a as int, b as int).drop_last() =~= s@.subrange(a as int, b - 1));
        b = b - 1;
    }
    String::from_str(s.substring_char(a, b))
}

/// Appends the tokens of one line to `out`.
fn split_line(line: &str, out: &mut Vec<String>)
    ensures
        final(out)@.map_values(|t: String| t@) == split_from(
            line@,
            0,
            0,
            old(out)@.map_values(|t: String| t@),
        ),
{
    let n = line.unicode_len();
    let mut start: usize = 0;
    let mut i: usize = 0;
    while i < n
        invariant
            start <= i <= n,
            n == line@.len(),
            split_from(line@, start as int, i as int, out@.map_values(|t: String| t@))
                == split_from(line@, 0, 0, old(out)@.map_values(|t: String| t@)),
        decreases n - i,
    {
        if line.get_char(i) == ' ' {
            let ghost acc = out@.map_values(|t: String| t@);
            let piece = trimmed(line.substring_char(start, i));
            if piece.as_str().unicode_len() > 0 {
                out.push(piece);
            }
            assert(out@.map_values(|t: String| t@) =~= add_piece(
                acc,
                line@.subrange(start as int, i as int),
            ));
            start = i + 1;
        }
        i = i + 1;
    }
    let ghost acc = out@.map_values(|t: String| t@);
    let piece = trimmed(line.substring_char(start, n));
    if piece.as_str().unicode_len() > 0 {
        out.push(piece);
    }
    assert(out@.map_values(|t: String| t@) =~= add_piece(
        acc,
        line@.subrange(start as int, n as int),
    ));
}

/// The tokens of a text given line by line.
pub fn tokenize(lines: &Vec<String>) -> (r: Vec<String>)
    ensures
        r@.map_values(|t: String| t@) == tokens_of(lines_view(lines@)),
{
    let mut out: Vec<String> = Vec::new();
    let mut i: usize = 0;
    while i < lines.len()
        invariant
            i <= lines@.len(),
            out@.map_values(|t: String| t@) == tokens_of(lines_view(lines@.take(i as int))),
        decreases lines@.len() - i,
    {
        proof {
            assert(lines_view(lines@.take(i + 1)).drop_last() =~= lines_view(lines@.take(i as int)));
            assert(lines_view(lines@.take(i + 1)).last() == lines@[i as int]@);
        }
        split_line(lines[i].as_str(), &mut out);
        i = i + 1;
    }
    assert(lines@.take(i as int) =~= lines@);
    out
}

} // verus!
