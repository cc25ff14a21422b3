use vstd::prelude::*;

use crate::generate::{derivation, random_outcome, run, GenerateFault};
use crate::grammar::{has_key, key_index, lookup, ProductionView, TableView};
use crate::symbol::is_non_terminal_text;

verus! {

/// The text `s` is one of the symbols of some alternative of the table.
pub open spec fn appears(t: TableView, s: Seq<char>) -> bool {
    exists|i: int, a: int, j: int|
        0 <= i < t.len() && 0 <= a < t[i].1.len() && 0 <= j < t[i].1[a].len() && #[trigger] t[i].1[a][j]
            == s
}

pub open spec fn all_terminal(p: ProductionView) -> bool {
    forall|j: int| 0 <= j < p.len() ==> !is_non_terminal_text(#[trigger] p[j])
}

proof fn lemma_lookup_index(t: TableView, k: Seq<char>) -> (i: int)
    requires
        has_key(t, k),
    ensures
        0 <= i < t.len(),
        t[i].0 == k,
        lookup(t, k) == Some(t[i].1),
{
    key_index(t, k)
}

/// Terminals pushed in reverse come off the stack in their own order.
proof fn lemma_emit_terminals(
    t: TableView,
    s: Seq<Seq<char>>,
    p: ProductionView,
    out: Seq<Seq<char>>,
    c: Seq<int>,
)
    requires
        all_terminal(p),
    ensures
        run(t, s + p.reverse(), out, c) == run(t, s, out + p, c),
    decreases p.len(),
{
    if p.len() == 0 {
        assert(s + p.reverse() =~= s);
        assert(out + p =~= out);
    } else {
        let st = s + p.reverse();
        assert(st.last() == p[0]);
        assert(st.drop_last() =~= s + p.drop_first().reverse());
        assert(all_terminal(p.drop_first())) by {
            assert forall|j: int| 0 <= j < p.drop_first().len() implies !is_non_terminal_text(
                #[trigger] p.drop_first()[j],
            ) by {
                assert(p.drop_first()[j] == p[j + 1]);
            }
        }
        lemma_emit_terminals(t, s, p.drop_first(), out.push(p[0]), c);
        assert(out.push(p[0]) + p.drop_first() =~= out + p);
    }
}

/// An alternative made of terminals only is emitted in its own order when the
/// non-terminal that owns it is expanded by it.
pub proof fn lemma_order_preserved(t: TableView, head: Seq<char>, k: int)
    requires
        is_non_terminal_text(head),
        has_key(t, head),
        0 <= k < lookup(t, head)->Some_0.len(),
        all_terminal(lookup(t, head)->Some_0[k]),
    ensures
        derivation(t, head, seq![k]) == Ok::<Seq<Seq<char>>, crate::generate::GenerateFault>(
            lookup(t, head)->Some_0[k],
        ),
{
    let p = lookup(t, head)->Some_0[k];
    let e = Seq::<Seq<char>>::empty();
    let one = seq![head];
    assert(one.drop_last() =~= e);
    assert(seq![k].drop_first() =~= Seq::<int>::empty());
    assert(derivation(t, head, seq![k]) == run(t, e + p.reverse(), e, Seq::<int>::empty()));
    lemma_emit_terminals(t, e, p, e, Seq::<int>::empty());
    assert(e + p =~= p);
}

/// Each symbol of a finished derivation was emitted before, or is a terminal
/// that stood on the stack or in some alternative of the table.
proof fn lemma_run_output(t: TableView, stack: Seq<Seq<char>>, out: Seq<Seq<char>>, c: Seq<int>)
    requires
        run(t, stack, out, c) is Ok,
    ensures
        forall|j: int|
            0 <= j < run(t, stack, out, c)->Ok_0.len() ==> {
                let x = #[trigger] run(t, stack, out, c)->Ok_0[j];
                out.contains(x) || (!is_non_terminal_text(x) && (stack.contains(x) || appears(
                    t,
                    x,
                )))
            },
    decreases c.len(), stack.len(),
{
    if stack.len() == 0 {
    } else {
        let top = stack.last();
        if !is_non_terminal_text(top) {
            lemma_run_output(t, stack.drop_last(), out.push(top), c);
            let o = run(t, stack, out, c)->Ok_0;
            assert forall|j: int| 0 <= j < o.len() implies {
                let x = #[trigger] o[j];
                out.contains(x) || (!is_non_terminal_text(x) && (stack.contains(x) || appears(
                    t,
                    x,
                )))
            } by {
                let x = o[j];
                if out.push(top).contains(x) {
                    let m = choose|m: int| 0 <= m < out.push(top).len() && out.push(top)[m] == x;
                    if m < out.len() {
                        assert(out[m] == x);
                    } else {
                        assert(stack[stack.len() - 1] == x);
                    }
                } else if stack.drop_last().contains(x) {
                    let m = choose|m: int|
                        0 <= m < stack.drop_last().len() && stack.drop_last()[m] == x;
                    assert(stack[m] == x);
                }
            }
        } else {
            let alts = lookup(t, top)->Some_0;
            let i = lemma_lookup_index(t, top);
            let k = c[0];
            let p = alts[k];
            let ns = stack.drop_last() + p.reverse();
            lemma_run_output(t, ns, out, c.drop_first());
            let o = run(t, stack, out, c)->Ok_0;
            assert forall|j: int| 0 <= j < o.len() implies {
                let x = #[trigger] o[j];
                out.contains(x) || (!is_non_terminal_text(x) && (stack.contains(x) || appears(
                    t,
                    x,
                )))
            } by {
                let x = o[j];
                if !out.contains(x) && ns.contains(x) {
                    let m = choose|m: int| 0 <= m < ns.len() && ns[m] == x;
                    if m < stack.len() - 1 {
                        assert(stack[m] == x);
                    } else {
                        let q = p.len() - 1 - (m - (stack.len() - 1));
                        assert(t[i].1[k][q] == x);
                    }
                }
            }
        }
    }
}

/// A sentence derived from a non-terminal start symbol holds terminals only, each
/// of them a symbol of some alternative of the table: an empty symbol comes out
/// only where an alternative holds one.
pub proof fn lemma_sentence_terminal(t: TableView, start: Seq<char>, c: Seq<int>)
    requires
        is_non_terminal_text(start),
        derivation(t, start, c) is Ok,
    ensures
        forall|j: int|
            0 <= j < derivation(t, start, c)->Ok_0.len() ==> !is_non_terminal_text(
                #[trigger] derivation(t, start, c)->Ok_0[j],
            ) && appears(t, derivation(t, start, c)->Ok_0[j]),
{
    lemma_run_output(t, seq![start], Seq::empty(), c);
    let o = derivation(t, start, c)->Ok_0;
    assert forall|j: int| 0 <= j < o.len() implies !is_non_terminal_text(#[trigger] o[j])
        && appears(t, o[j]) by {
        let x = o[j];
        assert(!Seq::<Seq<char>>::empty().contains(x));
        if seq![start].contains(x) {
            let m = choose|m: int| 0 <= m < 1 && seq![start][m] == x;
            assert(x == start);
        }
    }
}

/// Every non-terminal has an alternative, no alternative is longer than `width`,
/// and each non-terminal in an alternative is defined and ranks below the
/// left-hand side that owns the alternative: no derivation runs in a cycle.
pub open spec fn ranked(t: TableView, rank: spec_fn(Seq<char>) -> nat, width: nat) -> bool {
    &&& forall|i: int| 0 <= i < t.len() ==> #[trigger] t[i].1.len() > 0
    &&& forall|i: int, a: int|
        0 <= i < t.len() && 0 <= a < t[i].1.len() ==> #[trigger] t[i].1[a].len() <= width
    &&& forall|i: int, a: int, j: int|
        0 <= i < t.len() && 0 <= a < t[i].1.len() && 0 <= j < t[i].1[a].len()
            && is_non_terminal_text(#[trigger] t[i].1[a][j]) ==> has_key(t, t[i].1[a][j])
            && rank(t[i].1[a][j]) < rank(t[i].0)
}

/// The most expansions that a non-terminal of rank `r` can take in a ranked
/// grammar whose alternatives hold at most `width` symbols.
pub open spec fn cost(r: nat, width: nat) -> nat
    decreases r,
{
    if r == 0 {
        1
    } else {
        1 + width * cost((r - 1) as nat, width)
    }
}

pub open spec fn symbol_cost(x: Seq<char>, rank: spec_fn(Seq<char>) -> nat, width: nat) -> nat {
    if is_non_terminal_text(x) {
        cost(rank(x), width)
    } else {
        0
    }
}

/// The most expansions that the symbols of a stack can take.
pub open spec fn stack_cost(s: Seq<Seq<char>>, rank: spec_fn(Seq<char>) -> nat, width: nat) -> nat
    decreases s.len(),
{
    if s.len() == 0 {
        0
    } else {
        stack_cost(s.drop_last(), rank, width) + symbol_cost(s.last(), rank, width)
    }
}

proof fn lemma_cost_monotone(r: nat, q: nat, width: nat)
    requires
        q <= r,
    ensures
        cost(q, width) <= cost(r, width),
        cost(r, width) >= 1,
    decreases r,
{
    if r > 0 {
        let c = cost((r - 1) as nat, width);
        if q < r {
            lemma_cost_monotone((r - 1) as nat, q, width);
        }
        lemma_cost_monotone((r - 1) as nat, 0, width);
        if width > 0 {
            assert(width * c >= c) by (nonlinear_arith)
                requires
                    width > 0,
            ;
        } else {
            assert(width * c == 0) by (nonlinear_arith)
                requires
                    width == 0,
            ;
            lemma_cost_zero_width((r - 1) as nat, width);
        }
    }
}

proof fn lemma_cost_zero_width(r: nat, width: nat)
    requires
        width == 0,
    ensures
        cost(r, width) == 1,
    decreases r,
{
    if r > 0 {
        assert(width * cost((r - 1) as nat, width) == 0) by (nonlinear_arith)
            requires
                width == 0,
        ;
    }
}

proof fn lemma_stack_cost_append(
    a: Seq<Seq<char>>,
    b: Seq<Seq<char>>,
    rank: spec_fn(Seq<char>) -> nat,
    width: nat,
)
    ensures
        stack_cost(a + b, rank, width) == stack_cost(a, rank, width) + stack_cost(b, rank, width),
    decreases b.len(),
{
    if b.len() == 0 {
        assert(a + b =~= a);
    } else {
        assert((a + b).drop_last() =~= a + b.drop_last());
        lemma_stack_cost_append(a, b.drop_last(), rank, width);
    }
}

proof fn lemma_stack_cost_bound(s: Seq<Seq<char>>, m: nat, rank: spec_fn(Seq<char>) -> nat, width: nat)
    requires
        forall|j: int| 0 <= j < s.len() ==> symbol_cost(#[trigger] s[j], rank, width) <= m,
    ensures
        stack_cost(s, rank, width) <= s.len() * m,
    decreases s.len(),
{
    if s.len() > 0 {
        let n = s.len() as int;
        assert forall|j: int| 0 <= j < s.drop_last().len() implies symbol_cost(
            #[trigger] s.drop_last()[j],
            rank,
            width,
        ) <= m by {
            assert(s.drop_last()[j] == s[j]);
        }
        lemma_stack_cost_bound(s.drop_last(), m, rank, width);
        assert(symbol_cost(s[n - 1], rank, width) <= m);
        assert((n - 1) * m + m == n * m) by (nonlinear_arith);
    }
}

/// In a ranked grammar a derivation from a stack of defined non-terminals and
/// terminals never meets a missing or empty entry, and runs out of choices only
/// when it is given fewer than the stack's cost.
proof fn lemma_run_total(
    t: TableView,
    rank: spec_fn(Seq<char>) -> nat,
    width: nat,
    stack: Seq<Seq<char>>,
    out: Seq<Seq<char>>,
    c: Seq<int>,
)
    requires
        ranked(t, rank, width),
        forall|j: int|
            0 <= j < stack.len() && is_non_terminal_text(#[trigger] stack[j]) ==> has_key(
                t,
                stack[j],
            ),
    ensures
        !(run(t, stack, out, c) matches Err(GenerateFault::Undefined(_))),
        !(run(t, stack, out, c) matches Err(GenerateFault::Empty(_))),
        c.len() >= stack_cost(stack, rank, width) ==> run(t, stack, out, c) != Err::<
            Seq<Seq<char>>,
            GenerateFault,
        >(GenerateFault::Exhausted),
    decreases c.len(), stack.len(),
{
    if stack.len() > 0 {
        let top = stack.last();
        let rest = stack.drop_last();
        assert forall|j: int| 0 <= j < rest.len() && is_non_terminal_text(#[trigger] rest[j]) implies has_key(
            t,
            rest[j],
        ) by {
            assert(rest[j] == stack[j]);
        }
        if !is_non_terminal_text(top) {
            lemma_run_total(t, rank, width, rest, out.push(top), c);
        } else {
            assert(has_key(t, stack[stack.len() - 1]));
            let i = lemma_lookup_index(t, top);
            let alts = t[i].1;
            assert(alts.len() > 0);
            lemma_cost_monotone(rank(top), 0, width);
            if c.len() > 0 && 0 <= c[0] < alts.len() {
                let k = c[0];
                let p = alts[k];
                let ns = rest + p.reverse();
                assert forall|j: int| 0 <= j < ns.len() && is_non_terminal_text(#[trigger] ns[j]) implies has_key(
                    t,
                    ns[j],
                ) by {
                    if j >= rest.len() {
                        let q = p.len() - 1 - (j - rest.len());
                        assert(ns[j] == t[i].1[k][q]);
                    }
                }
                lemma_run_total(t, rank, width, ns, out, c.drop_first());
                if c.len() >= stack_cost(stack, rank, width) {
                    lemma_stack_cost_append(rest, p.reverse(), rank, width);
                    let r = rank(top);
                    assert(p.len() <= width);
                    if r == 0 {
                        assert forall|j: int| 0 <= j < p.reverse().len() implies symbol_cost(
                            #[trigger] p.reverse()[j],
                            rank,
                            width,
                        ) <= 0 by {
                            let q = p.len() - 1 - j;
                            assert(p.reverse()[j] == t[i].1[k][q]);
                        }
                        lemma_stack_cost_bound(p.reverse(), 0, rank, width);
                    } else {
                        let m = cost((r - 1) as nat, width);
                        assert forall|j: int| 0 <= j < p.reverse().len() implies symbol_cost(
                            #[trigger] p.reverse()[j],
                            rank,
                            width,
                        ) <= m by {
                            let q = p.len() - 1 - j;
                            let x = t[i].1[k][q];
                            assert(p.reverse()[j] == x);
                            if is_non_terminal_text(x) {
                                lemma_cost_monotone((r - 1) as nat, rank(x), width);
                            }
                        }
                        lemma_stack_cost_bound(p.reverse(), m, rank, width);
                        assert(p.len() * m <= width * m) by (nonlinear_arith)
                            requires
                                p.len() <= width,
                        ;
                    }
                }
            }
        }
    }
}

/// A ranked grammar always yields a sentence: random generation from a defined
/// start symbol, allowed at least the start symbol's cost in expansions, ends with
/// a sentence, whatever is drawn.
pub proof fn lemma_generation_total(
    t: TableView,
    start: Seq<char>,
    rank: spec_fn(Seq<char>) -> nat,
    width: nat,
    limit: nat,
    r: Result<Seq<Seq<char>>, GenerateFault>,
)
    requires
        ranked(t, rank, width),
        is_non_terminal_text(start),
        has_key(t, start),
        limit >= cost(rank(start), width),
        random_outcome(t, start, limit, r),
    ensures
        r is Ok,
{
    let s = seq![start];
    assert(s.drop_last() =~= Seq::<Seq<char>>::empty());
    assert(stack_cost(Seq::<Seq<char>>::empty(), rank, width) == 0);
    assert(s.last() == start);
    assert(stack_cost(s, rank, width) == cost(rank(start), width));
    assert forall|j: int| 0 <= j < s.len() && is_non_terminal_text(#[trigger] s[j]) implies has_key(
        t,
        s[j],
    ) by {
        assert(s[j] == start);
    }
    match r {
        Ok(_) => {},
        Err(GenerateFault::Undefined(x)) => {
            let c = choose|c: Seq<int>| #[trigger]
                derivation(t, start, c) == Err::<Seq<Seq<char>>, GenerateFault>(
                    GenerateFault::Undefined(x),
                );
            lemma_run_total(t, rank, width, s, Seq::empty(), c);
        },
        Err(GenerateFault::Empty(x)) => {
            let c = choose|c: Seq<int>| #[trigger]
                derivation(t, start, c) == Err::<Seq<Seq<char>>, GenerateFault>(
                    GenerateFault::Empty(x),
                );
            lemma_run_total(t, rank, width, s, Seq::empty(), c);
        },
        Err(GenerateFault::Limit) => {
            let c = choose|c: Seq<int>|
                c.len() == limit && #[trigger] derivation(t, start, c) == Err::<
                    Seq<Seq<char>>,
                    GenerateFault,
                >(GenerateFault::Exhausted);
            lemma_run_total(t, rank, width, s, Seq::empty(), c);
        },
        Err(_) => {},
    }
}

} // verus!
