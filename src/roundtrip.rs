use vstd::prelude::*;

use crate::grammar::{define, has_key, keys_unique, AlternativesView, ProductionView, TableView};
use crate::parser::{
    close_marker, end_marker, initial_state, open_marker, parse_from, parse_spec, ParseMode,
    ParseState,
};
use crate::symbol::is_non_terminal_text;
use crate::writer::{
    alternatives_tokens, block_tokens, production_tokens, serialize, writable, writable_symbol,
};

verus! {

/// The tokens `x` stand in `toks` from position `i` on.
pub open spec fn holds_at(toks: Seq<Seq<char>>, i: int, x: Seq<Seq<char>>) -> bool {
    &&& 0 <= i
    &&& i + x.len() <= toks.len()
    &&& forall|j: int| 0 <= j < x.len() ==> toks[i + j] == #[trigger] x[j]
}

pub open spec fn writable_alternatives(a: AlternativesView) -> bool {
    forall|x: int, j: int|
        0 <= x < a.len() && 0 <= j < a[x].len() ==> writable_symbol(#[trigger] a[x][j])
}

/// The parser's state once the definitions of `t` have been read.
pub open spec fn state_after(t: TableView) -> ParseState {
    if t.len() == 0 {
        initial_state()
    } else {
        ParseState {
            mode: ParseMode::Outside,
            table: t,
            start: Some(t[0].0),
            head: t.last().0,
            alts: Seq::empty(),
            pending: Seq::empty(),
        }
    }
}

proof fn lemma_split(toks: Seq<Seq<char>>, i: int, x: Seq<Seq<char>>, y: Seq<Seq<char>>)
    requires
        holds_at(toks, i, x + y),
    ensures
        holds_at(toks, i, x),
        holds_at(toks, i + x.len(), y),
{
    assert forall|j: int| 0 <= j < x.len() implies toks[i + j] == #[trigger] x[j] by {
        assert((x + y)[j] == x[j]);
    }
    assert forall|j: int| 0 <= j < y.len() implies toks[i + x.len() + j] == #[trigger] y[j] by {
        assert((x + y)[x.len() + j] == y[j]);
    }
}

proof fn lemma_production(toks: Seq<Seq<char>>, i: int, st: ParseState, p: ProductionView)
    requires
        st.mode == ParseMode::ReadingBody,
        holds_at(toks, i, production_tokens(p)),
        forall|j: int| 0 <= j < p.len() ==> writable_symbol(#[trigger] p[j]),
    ensures
        parse_from(toks, i, st) == parse_from(
            toks,
            i + p.len(),
            ParseState { pending: st.pending + p, ..st },
        ),
    decreases p.len(),
{
    if p.len() == 0 {
        assert(st.pending + p =~= st.pending);
    } else {
        assert(production_tokens(p)[0] == toks[i]);
        assert(writable_symbol(p[0]));
        let st1 = ParseState { pending: st.pending.push(p[0]), ..st };
        assert(parse_from(toks, i, st) == parse_from(toks, i + 1, st1));
        let q = p.drop_first();
        assert forall|j: int| 0 <= j < q.len() implies writable_symbol(#[trigger] q[j]) by {
            assert(q[j] == p[j + 1]);
        }
        assert forall|j: int| 0 <= j < production_tokens(q).len() implies toks[i + 1 + j]
            == #[trigger] production_tokens(q)[j] by {
            assert(production_tokens(p)[j + 1] == production_tokens(q)[j]);
        }
        lemma_production(toks, i + 1, st1, q);
        assert(st.pending.push(p[0]) + q =~= st.pending + p);
    }
}

proof fn lemma_alternatives(toks: Seq<Seq<char>>, i: int, st: ParseState, a: AlternativesView)
    requires
        st.mode == ParseMode::ReadingBody,
        st.pending.len() == 0,
        holds_at(toks, i, alternatives_tokens(a)),
        writable_alternatives(a),
    ensures
        parse_from(toks, i, st) == parse_from(
            toks,
            i + alternatives_tokens(a).len(),
            ParseState { alts: st.alts + a, ..st },
        ),
    decreases a.len(),
{
    if a.len() == 0 {
        assert(st.alts + a =~= st.alts);
    } else {
        let a0 = a.drop_last();
        let p = a.last();
        let x = alternatives_tokens(a0);
        let pt = production_tokens(p);
        assert(pt.push(end_marker()) =~= pt + seq![end_marker()]);
        lemma_split(toks, i, x, pt + seq![end_marker()]);
        lemma_split(toks, i + x.len(), pt, seq![end_marker()]);
        assert forall|u: int, j: int| 0 <= u < a0.len() && 0 <= j < a0[u].len() implies writable_symbol(
            #[trigger] a0[u][j],
        ) by {
            assert(a0[u] == a[u]);
        }
        lemma_alternatives(toks, i, st, a0);
        let st1 = ParseState { alts: st.alts + a0, ..st };
        assert forall|j: int| 0 <= j < p.len() implies writable_symbol(#[trigger] p[j]) by {
            assert(p[j] == a[a.len() - 1][j]);
        }
        lemma_production(toks, i + x.len(), st1, p);
        let st2 = ParseState { pending: st1.pending + p, ..st1 };
        let k = i + x.len() + p.len();
        assert(pt.len() == p.len());
        assert(seq![end_marker()][0] == toks[k]);
        assert(end_marker()[0] != close_marker()[0] && end_marker()[0] != open_marker()[0]);
        assert(st1.pending + p =~= p);
        let st3 = ParseState { alts: st2.alts.push(p), pending: Seq::empty(), ..st2 };
        assert(parse_from(toks, k, st2) == parse_from(toks, k + 1, st3));
        assert(st.alts + a0 + seq![p] =~= st.alts + a);
        assert(st2.alts.push(p) =~= st.alts + a);
        assert(st.pending =~= Seq::<Seq<char>>::empty());
    }
}

proof fn lemma_block(toks: Seq<Seq<char>>, i: int, st: ParseState, h: Seq<char>, a: AlternativesView)
    requires
        st.mode == ParseMode::Outside,
        holds_at(toks, i, block_tokens(h, a)),
        is_non_terminal_text(h),
        writable_alternatives(a),
    ensures
        parse_from(toks, i, st) == parse_from(
            toks,
            i + block_tokens(h, a).len(),
            ParseState {
                mode: ParseMode::Outside,
                table: define(st.table, h, a),
                start: if st.start is None {
                    Some(h)
                } else {
                    st.start
                },
                head: h,
                alts: Seq::empty(),
                pending: Seq::empty(),
            },
        ),
{
    let pre = seq![open_marker(), h];
    let x = alternatives_tokens(a);
    lemma_split(toks, i, pre + x, seq![close_marker()]);
    lemma_split(toks, i, pre, x);
    assert(pre[0] == toks[i]);
    assert(pre[1] == toks[i + 1]);
    let st1 = ParseState { mode: ParseMode::ReadingHead, ..st };
    assert(parse_from(toks, i, st) == parse_from(toks, i + 1, st1));
    let st2 = ParseState {
        mode: ParseMode::ReadingBody,
        start: if st.start is None {
            Some(h)
        } else {
            st.start
        },
        head: h,
        alts: Seq::empty(),
        pending: Seq::empty(),
        ..st
    };
    assert(h != close_marker() && h != open_marker() && h != end_marker()) by {
        assert(close_marker().len() == 1 && open_marker().len() == 1 && end_marker().len() == 1);
    }
    assert(parse_from(toks, i + 1, st1) == parse_from(toks, i + 2, st2));
    lemma_alternatives(toks, i + 2, st2, a);
    let st3 = ParseState { alts: st2.alts + a, ..st2 };
    let k = i + 2 + x.len();
    assert(seq![close_marker()][0] == toks[k]);
    assert(st2.alts + a =~= a);
    assert(parse_from(toks, k, st3) == parse_from(
        toks,
        k + 1,
        ParseState {
            mode: ParseMode::Outside,
            table: define(st.table, h, a),
            alts: Seq::empty(),
            ..st3
        },
    ));
}

proof fn lemma_tables(toks: Seq<Seq<char>>, t: TableView)
    requires
        holds_at(toks, 0, serialize(t)),
        keys_unique(t),
        forall|i: int| 0 <= i < t.len() ==> is_non_terminal_text(#[trigger] t[i].0),
        forall|i: int, a: int, j: int|
            0 <= i < t.len() && 0 <= a < t[i].1.len() && 0 <= j < t[i].1[a].len()
                ==> writable_symbol(#[trigger] t[i].1[a][j]),
    ensures
        parse_from(toks, 0, initial_state()) == parse_from(
            toks,
            serialize(t).len() as int,
            state_after(t),
        ),
    decreases t.len(),
{
    if t.len() > 0 {
        let t0 = t.drop_last();
        let n = t.len() - 1;
        let (h, a) = t.last();
        lemma_split(toks, 0, serialize(t0), block_tokens(h, a));
        assert forall|i: int| 0 <= i < t0.len() implies is_non_terminal_text(#[trigger] t0[i].0) by {
            assert(t0[i] == t[i]);
        }
        assert forall|i: int, u: int, j: int|
            0 <= i < t0.len() && 0 <= u < t0[i].1.len() && 0 <= j < t0[i].1[u].len() implies writable_symbol(
            #[trigger] t0[i].1[u][j],
        ) by {
            assert(t0[i] == t[i]);
        }
        lemma_tables(toks, t0);
        assert(is_non_terminal_text(t[n].0));
        assert forall|u: int, j: int| 0 <= u < a.len() && 0 <= j < a[u].len() implies writable_symbol(
            #[trigger] a[u][j],
        ) by {
            assert(a[u][j] == t[n].1[u][j]);
        }
        assert(!has_key(t0, h)) by {
            if has_key(t0, h) {
                let k = choose|k: int| 0 <= k < t0.len() && t0[k].0 == h;
                assert(t[k].0 == t[n].0);
            }
        }
        assert(state_after(t0).table =~= t0);
        lemma_block(toks, serialize(t0).len() as int, state_after(t0), h, a);
        assert(t0.push((h, a)) =~= t);
        if t0.len() > 0 {
            assert(t0[0] == t[0]);
        }
    }
}

/// Writing a table out as tokens and parsing those tokens gives back the same
/// table, with its first left-hand side as the start symbol; so the parsed table,
/// written out again, gives the same tokens.
pub proof fn lemma_round_trip(t: TableView)
    requires
        writable(t),
    ensures
        parse_spec(serialize(t)) == Ok::<(Seq<char>, TableView), crate::parser::GrammarError>(
            (t[0].0, t),
        ),
        serialize(parse_spec(serialize(t))->Ok_0.1) == serialize(t),
{
    let toks = serialize(t);
    assert(holds_at(toks, 0, toks));
    lemma_tables(toks, t);
}

} // verus!
