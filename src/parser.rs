use vstd::prelude::*;

use crate::grammar::{
    alternatives_view, define, has_key, key_index, keys_unique, symbols_view, AlternativesView, Grammar, ProductionView,
    SymbolTable, TableView,
};
use crate::symbol::{is_non_terminal_text, newSymbol, Symbol};
use crate::tokens::{lines_view, tokenize, tokens_of};

verus! {

/// Where the parser stands in the token stream.
#[derive(Clone, Copy, Debug, PartialEq, Eq, Structural)]
pub enum ParseMode {
    /// Between definitions, waiting for `{`.
    Outside,
    /// Just after `{`, waiting for a left-hand side or `}`.
    ReadingHead,
    /// Reading the alternatives of the current left-hand side.
    ReadingBody,
}

/// A structural fault of the grammar text; each carries the position of the
/// offending token in the token stream.
#[derive(Clone, Copy, Debug, PartialEq, Eq, Structural)]
pub enum GrammarError {
    /// `{` inside a definition.
    UnexpectedOpen(usize),
    /// `}` outside any definition.
    UnexpectedClose(usize),
    /// `;` where a left-hand side is expected.
    MissingHead(usize),
    /// A left-hand side that is not a non-terminal.
    InvalidHead(usize),
    /// `}` while a production is still open (its `;` is missing).
    UnterminatedProduction(usize),
    /// The text ends inside a definition; the position is the number of tokens.
    UnterminatedBlock(usize),
    /// The text defines no non-terminal at all.
    NoProductions,
}

/// The parser's state as values.
pub struct ParseState {
    pub mode: ParseMode,
    pub table: TableView,
    pub start: Option<Seq<char>>,
    pub head: Seq<char>,
    pub alts: AlternativesView,
    pub pending: ProductionView,
}

pub open spec fn initial_state() -> ParseState {
    ParseState {
        mode: ParseMode::Outside,
        table: Seq::empty(),
        start: None,
        head: Seq::empty(),
        alts: Seq::empty(),
        pending: Seq::empty(),
    }
}

pub open spec fn open_marker() -> Seq<char> {
    seq!['{']
}

pub open spec fn close_marker() -> Seq<char> {
    seq!['}']
}

pub open spec fn end_marker() -> Seq<char> {
    seq![';']
}

pub open spec fn newline_escape() -> Seq<char> {
    seq!['\\', 'n']
}

/// The symbol text that a body token stands for: the escape `\n` is a newline.
pub open spec fn body_symbol(t: Seq<char>) -> Seq<char> {
    if t == newline_escape() {
        seq!['\n']
    } else {
        t
    }
}

/// One token `t`, at position `i`, read in state `st`.
pub open spec fn step(st: ParseState, t: Seq<char>, i: int) -> Result<ParseState, GrammarError> {
    match st.mode {
        ParseMode::Outside => {
            if t == open_marker() {
                Ok(ParseState { mode: ParseMode::ReadingHead, ..st })
            } else if t == close_marker() {
                Err(GrammarError::UnexpectedClose(i as usize))
            } else {
                Ok(st)
            }
        },
        ParseMode::ReadingHead => {
            if t == close_marker() {
                Ok(ParseState { mode: ParseMode::Outside, ..st })
            } else if t == open_marker() {
                Err(GrammarError::UnexpectedOpen(i as usize))
            } else if t == end_marker() {
                Err(GrammarError::MissingHead(i as usize))
            } else if !is_non_terminal_text(t) {
                Err(GrammarError::InvalidHead(i as usize))
            } else {
                Ok(
                    ParseState {
                        mode: ParseMode::ReadingBody,
                        start: if st.start is None {
                            Some(t)
                        } else {
                            st.start
                        },
                        head: t,
                        alts: Seq::empty(),
                        pending: Seq::empty(),
                        ..st
                    },
                )
            }
        },
        ParseMode::ReadingBody => {
            if t == close_marker() {
                if st.pending.len() > 0 {
                    Err(GrammarError::UnterminatedProduction(i as usize))
                } else {
                    Ok(
                        ParseState {
                            mode: ParseMode::Outside,
                            table: define(st.table, st.head, st.alts),
                            alts: Seq::empty(),
                            ..st
                        },
                    )
                }
            } else if t == open_marker() {
                Err(GrammarError::UnexpectedOpen(i as usize))
            } else if t == end_marker() {
                Ok(ParseState { alts: st.alts.push(st.pending), pending: Seq::empty(), ..st })
            } else {
                Ok(ParseState { pending: st.pending.push(body_symbol(t)), ..st })
            }
        },
    }
}

/// What the parser makes of the state once the tokens run out.
pub open spec fn finish(st: ParseState, n: int) -> Result<(Seq<char>, TableView), GrammarError> {
    if st.mode != ParseMode::Outside {
        Err(GrammarError::UnterminatedBlock(n as usize))
    } else {
        match st.start {
            Some(s) => Ok((s, st.table)),
            None => Err(GrammarError::NoProductions),
        }
    }
}

/// Reads the tokens from position `i` on, in state `st`.
pub open spec fn parse_from(toks: Seq<Seq<char>>, i: int, st: ParseState) -> Result<
    (Seq<char>, TableView),
    GrammarError,
>
    decreases toks.len() - i,
{
    if i >= toks.len() {
        finish(st, toks.len() as int)
    } else {
        match step(st, toks[i], i) {
            Ok(next) => parse_from(toks, i + 1, next),
            Err(e) => Err(e),
        }
    }
}

/// The start symbol and table that a token stream defines, or its first fault.
pub open spec fn parse_spec(toks: Seq<Seq<char>>) -> Result<(Seq<char>, TableView), GrammarError> {
    parse_from(toks, 0, initial_state())
}

/// Every left-hand side in the table is a non-terminal, and so is the start
/// symbol, which is defined or is the definition being read.
pub open spec fn sound(st: ParseState) -> bool {
    &&& forall|i: int| 0 <= i < st.table.len() ==> is_non_terminal_text(#[trigger] st.table[i].0)
    &&& st.mode == ParseMode::ReadingBody ==> is_non_terminal_text(st.head)
    &&& match st.start {
        Some(s) => is_non_terminal_text(s) && (has_key(st.table, s) || (st.mode
            == ParseMode::ReadingBody && st.head == s)),
        None => true,
    }
}

/// The grammar that the parser builds: each left-hand side a non-terminal, and
/// the start symbol one of them.
pub open spec fn sound_grammar(start: Seq<char>, t: TableView) -> bool {
    &&& keys_unique(t)
    &&& is_non_terminal_text(start)
    &&& has_key(t, start)
    &&& forall|i: int| 0 <= i < t.len() ==> is_non_terminal_text(#[trigger] t[i].0)
}

proof fn lemma_define_keys(t: TableView, h: Seq<char>, a: AlternativesView)
    requires
        is_non_terminal_text(h),
        forall|i: int| 0 <= i < t.len() ==> is_non_terminal_text(#[trigger] t[i].0),
    ensures
        has_key(define(t, h, a), h),
        forall|k: Seq<char>| has_key(t, k) ==> #[trigger] has_key(define(t, h, a), k),
        forall|i: int|
            0 <= i < define(t, h, a).len() ==> is_non_terminal_text(#[trigger] define(t, h, a)[i].0),
{
    let d = define(t, h, a);
    if has_key(t, h) {
        let x = key_index(t, h);
        assert(d[x].0 == h);
        assert forall|k: Seq<char>| has_key(t, k) implies #[trigger] has_key(d, k) by {
            let j = choose|j: int| 0 <= j < t.len() && t[j].0 == k;
            assert(d[j].0 == k);
        }
    } else {
        assert(d[t.len() as int].0 == h);
        assert forall|k: Seq<char>| has_key(t, k) implies #[trigger] has_key(d, k) by {
            let j = choose|j: int| 0 <= j < t.len() && t[j].0 == k;
            assert(d[j].0 == k);
        }
    }
}

/// A parse result as values: the start symbol's text and the table.
pub open spec fn result_view(r: Result<Grammar, GrammarError>) -> Result<
    (Seq<char>, TableView),
    GrammarError,
> {
    match r {
        Ok(g) => Ok((g.start_view(), g.table_view())),
        Err(e) => Err(e),
    }
}

pub open spec fn start_text(o: Option<Symbol>) -> Option<Seq<char>> {
    match o {
        Some(s) => Some(s@),
        None => None,
    }
}

fn is_token(t: &String, c: char) -> (r: bool)
    ensures
        r == (t@ == seq![c]),
{
    let s = t.as_str();
    if s.unicode_len() == 1 {
        let r = s.get_char(0) == c;
        assert(r ==> s@ =~= seq![c]);
        r
    } else {
        false
    }
}

fn is_newline_escape(t: &String) -> (r: bool)
    ensures
        r == (t@ == newline_escape()),
{
    let s = t.as_str();
    if s.unicode_len() == 2 {
        let r = s.get_char(0) == '\\' && s.get_char(1) == 'n';
        assert(r ==> s@ =~= newline_escape());
        r
    } else {
        false
    }
}

/// The symbol that a body token stands for.
fn body_token(t: &String) -> (r: Symbol)
    ensures
        r@ == body_symbol(t@),
{
    if is_newline_escape(t) {
        let s = String::from_str("\n");
        proof {
            reveal_strlit("\n");
        }
        assert(s@ =~= seq!['\n']);
        newSymbol(s)
    } else {
        newSymbol(t.clone())
    }
}

/// Builds the grammar that a token stream defines.
pub fn parse_tokens(tokens: &Vec<String>) -> (r: Result<Grammar, GrammarError>)
    ensures
        match r {
            Ok(g) => g.wf() && sound_grammar(g.start_view(), g.table_view()),
            Err(_) => true,
        },
        result_view(r) == parse_spec(tokens@.map_values(|t: String| t@)),
{
    let ghost toks = tokens@.map_values(|t: String| t@);
    let mut mode = ParseMode::Outside;
    let mut table = SymbolTable::empty();
    let mut start: Option<Symbol> = None;
    let mut head = newSymbol(String::new());
    let mut alts: Vec<Vec<Symbol>> = Vec::new();
    let mut pending: Vec<Symbol> = Vec::new();
    let ghost st0 = initial_state();
    assert(table@ =~= st0.table);
    assert(alternatives_view(alts@) =~= st0.alts);
    assert(symbols_view(pending@) =~= st0.pending);
    let mut i: usize = 0;
    while i < tokens.len()
        invariant
            i <= tokens@.len(),
            toks == tokens@.map_values(|t: String| t@),
            table.wf(),
            sound(
                ParseState {
                    mode,
                    table: table@,
                    start: start_text(start),
                    head: head@,
                    alts: alternatives_view(alts@),
                    pending: symbols_view(pending@),
                },
            ),
            parse_from(
                toks,
                i as int,
                ParseState {
                    mode,
                    table: table@,
                    start: start_text(start),
                    head: head@,
                    alts: alternatives_view(alts@),
                    pending: symbols_view(pending@),
                },
            ) == parse_spec(toks),
        decreases tokens@.len() - i,
    {
        let ghost st = ParseState {
            mode,
            table: table@,
            start: start_text(start),
            head: head@,
            alts: alternatives_view(alts@),
            pending: symbols_view(pending@),
        };
        let t = &tokens[i];
        assert(toks[i as int] == t@);
        match mode {
            ParseMode::Outside => {
                if is_token(t, '{') {
                    mode = ParseMode::ReadingHead;
                } else if is_token(t, '}') {
                    return Err(GrammarError::UnexpectedClose(i));
                }
            },
            ParseMode::ReadingHead => {
                if is_token(t, '}') {
                    mode = ParseMode::Outside;
                } else if is_token(t, '{') {
                    return Err(GrammarError::UnexpectedOpen(i));
                } else if is_token(t, ';') {
                    return Err(GrammarError::MissingHead(i));
                } else {
                    let h = newSymbol(t.clone());
                    if !h.isNonTerminal() {
                        return Err(GrammarError::InvalidHead(i));
                    }
                    if start.is_none() {
                        start = Some(newSymbol(h.getSymbol()));
                    }
                    head = h;
                    alts = Vec::new();
                    pending = Vec::new();
                    mode = ParseMode::ReadingBody;
                    assert(alternatives_view(alts@) =~= Seq::<ProductionView>::empty());
                    assert(symbols_view(pending@) =~= Seq::<Seq<char>>::empty());
                }
            },
            ParseMode::ReadingBody => {
                if is_token(t, '}') {
                    if pending.len() > 0 {
                        return Err(GrammarError::UnterminatedProduction(i));
                    }
                    proof {
                        lemma_define_keys(table@, head@, alternatives_view(alts@));
                    }
                    let mut done: Vec<Vec<Symbol>> = Vec::new();
                    std::mem::swap(&mut done, &mut alts);
                    table.define(newSymbol(head.getSymbol()), done);
                    mode = ParseMode::Outside;
                    assert(alternatives_view(alts@) =~= Seq::<ProductionView>::empty());
                } else if is_token(t, '{') {
                    return Err(GrammarError::UnexpectedOpen(i));
                } else if is_token(t, ';') {
                    let ghost a = alternatives_view(alts@);
                    let mut p: Vec<Symbol> = Vec::new();
                    std::mem::swap(&mut p, &mut pending);
                    alts.push(p);
                    assert(alternatives_view(alts@) =~= a.push(st.pending));
                    assert(symbols_view(pending@) =~= Seq::<Seq<char>>::empty());
                } else {
                    let ghost p = symbols_view(pending@);
                    pending.push(body_token(t));
                    assert(symbols_view(pending@) =~= p.push(body_symbol(t@)));
                }
            },
        }
        i = i + 1;
    }
    if mode != ParseMode::Outside {
        return Err(GrammarError::UnterminatedBlock(i));
    }
    match start {
        Some(s) => Ok(Grammar::from_parts(s, table)),
        None => Err(GrammarError::NoProductions),
    }
}

/// Builds the grammar that a text, given line by line, defines.
pub fn new(lines: &Vec<String>) -> (r: Result<Grammar, GrammarError>)
    ensures
        match r {
            Ok(g) => g.wf() && sound_grammar(g.start_view(), g.table_view()),
            Err(_) => true,
        },
        result_view(r) == parse_spec(tokens_of(lines_view(lines@))),
{
    let tokens = tokenize(lines);
    parse_tokens(&tokens)
}

} // verus!
