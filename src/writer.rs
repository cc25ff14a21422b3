use vstd::prelude::*;

use crate::grammar::{keys_unique, AlternativesView, ProductionView, TableView};
use crate::parser::{close_marker, end_marker, newline_escape, open_marker};
use crate::symbol::is_non_terminal_text;

verus! {

/// The token that writes a body symbol: a newline is written as the escape `\n`.
pub open spec fn escaped(s: Seq<char>) -> Seq<char> {
    if s == seq!['\n'] {
        newline_escape()
    } else {
        s
    }
}

pub open spec fn production_tokens(p: ProductionView) -> Seq<Seq<char>> {
    p.map_values(|s: Seq<char>| escaped(s))
}

/// Each alternative's symbols, each alternative closed by `;`.
pub open spec fn alternatives_tokens(a: AlternativesView) -> Seq<Seq<char>>
    decreases a.len(),
{
    if a.len() == 0 {
        Seq::empty()
    } else {
        alternatives_tokens(a.drop_last()) + production_tokens(a.last()).push(end_marker())
    }
}

/// One definition: `{`, the left-hand side, its alternatives, `}`.
pub open spec fn block_tokens(h: Seq<char>, a: AlternativesView) -> Seq<Seq<char>> {
    seq![open_marker(), h] + alternatives_tokens(a) + seq![close_marker()]
}

/// The tokens that write a table, one definition after another.
pub open spec fn serialize(t: TableView) -> Seq<Seq<char>>
    decreases t.len(),
{
    if t.len() == 0 {
        Seq::empty()
    } else {
        serialize(t.drop_last()) + block_tokens(t.last().0, t.last().1)
    }
}

/// A body symbol that reads back as itself: no marker, and not the escape text.
pub open spec fn writable_symbol(s: Seq<char>) -> bool {
    s != open_marker() && s != close_marker() && s != end_marker() && s != newline_escape()
}

/// A table that its tokens describe exactly: at least one definition, each
/// left-hand side a non-terminal defined once, every body symbol writable.
pub open spec fn writable(t: TableView) -> bool {
    &&& t.len() > 0
    &&& keys_unique(t)
    &&& forall|i: int| 0 <= i < t.len() ==> is_non_terminal_text(#[trigger] t[i].0)
    &&& forall|i: int, a: int, j: int|
        0 <= i < t.len() && 0 <= a < t[i].1.len() && 0 <= j < t[i].1[a].len()
            ==> writable_symbol(#[trigger] t[i].1[a][j])
}

} // verus!
