use vstd::prelude::*;

use rand::rngs::StdRng;
use rand::Rng;

use crate::grammar::{alternatives_view, lookup, symbols_view, Grammar, TableView};
use crate::symbol::{is_non_terminal_text, newSymbol, Symbol};

verus! {

/// rand's seedable generator, carried through as an opaque value.
#[verifier::external_type_specification]
#[verifier::external_body]
pub struct ExStdRng(StdRng);

/// Relies on `rand::Rng::gen_range`: for the non-empty range `0..n` it returns a
/// value of that range (it panics only on an empty range).
#[verifier::external_body]
fn draw_below(rng: &mut StdRng, n: usize) -> (r: usize)
    requires
        n > 0,
    ensures
        r < n,
{
    rng.gen_range(0..n)
}

/// Why a derivation stopped without a sentence.
#[derive(Clone, Debug)]
pub enum GenerateError {
    /// A non-terminal with no entry in the table.
    UndefinedNonTerminal(Symbol),
    /// A non-terminal whose entry lists no alternative.
    EmptyProductionList(Symbol),
    /// A given choice is not an index of the non-terminal's alternatives.
    ChoiceOutOfRange(Symbol),
    /// The given choices ran out before the derivation finished.
    ChoicesExhausted,
    /// The derivation reached the allowed number of expansions unfinished.
    ExpansionLimit,
}

/// A derivation failure as values.
pub enum GenerateFault {
    Undefined(Seq<char>),
    Empty(Seq<char>),
    OutOfRange(Seq<char>),
    Exhausted,
    Limit,
}

pub open spec fn fault_of(e: GenerateError) -> GenerateFault {
    match e {
        GenerateError::UndefinedNonTerminal(s) => GenerateFault::Undefined(s@),
        GenerateError::EmptyProductionList(s) => GenerateFault::Empty(s@),
        GenerateError::ChoiceOutOfRange(s) => GenerateFault::OutOfRange(s@),
        GenerateError::ChoicesExhausted => GenerateFault::Exhausted,
        GenerateError::ExpansionLimit => GenerateFault::Limit,
    }
}

pub open spec fn outcome_view(r: Result<Vec<Symbol>, GenerateError>) -> Result<
    Seq<Seq<char>>,
    GenerateFault,
> {
    match r {
        Ok(out) => Ok(symbols_view(out@)),
        Err(e) => Err(fault_of(e)),
    }
}

/// The derivation that continues from a stack of pending symbols (top last) with
/// the output `out` emitted so far, taking the alternatives named by `choices` in
/// turn: a terminal on top is emitted; a non-terminal on top is replaced by the
/// chosen alternative, pushed last symbol first so that its first symbol comes
/// next.
pub open spec fn run(
    t: TableView,
    stack: Seq<Seq<char>>,
    out: Seq<Seq<char>>,
    choices: Seq<int>,
) -> Result<Seq<Seq<char>>, GenerateFault>
    decreases choices.len(), stack.len(),
{
    if stack.len() == 0 {
        Ok(out)
    } else {
        let top = stack.last();
        if !is_non_terminal_text(top) {
            run(t, stack.drop_last(), out.push(top), choices)
        } else {
            match lookup(t, top) {
                None => Err(GenerateFault::Undefined(top)),
                Some(alts) => {
                    if alts.len() == 0 {
                        Err(GenerateFault::Empty(top))
                    } else if choices.len() == 0 {
                        Err(GenerateFault::Exhausted)
                    } else if !(0 <= choices[0] < alts.len()) {
                        Err(GenerateFault::OutOfRange(top))
                    } else {
                        run(
                            t,
                            stack.drop_last() + alts[choices[0]].reverse(),
                            out,
                            choices.drop_first(),
                        )
                    }
                },
            }
        }
    }
}

/// The derivation of a grammar from its start symbol with the given choices.
pub open spec fn derivation(t: TableView, start: Seq<char>, choices: Seq<int>) -> Result<
    Seq<Seq<char>>,
    GenerateFault,
> {
    run(t, seq![start], Seq::empty(), choices)
}

pub open spec fn choices_view(c: Seq<usize>) -> Seq<int> {
    c.map_values(|k: usize| k as int)
}

/// Pushes the symbols of `production` onto `stack`, last symbol first.
fn push_reversed(production: &Vec<Symbol>, stack: &mut Vec<Symbol>)
    ensures
        symbols_view(final(stack)@) == symbols_view(old(stack)@) + symbols_view(
            production@,
        ).reverse(),
{
    let ghost p = symbols_view(production@);
    let ghost s0 = symbols_view(stack@);
    let mut j: usize = production.len();
    assert(p.subrange(j as int, p.len() as int).reverse() =~= Seq::<Seq<char>>::empty());
    assert(s0 + Seq::<Seq<char>>::empty() =~= s0);
    while j > 0
        invariant
            j <= production@.len(),
            p == symbols_view(production@),
            symbols_view(stack@) == s0 + p.subrange(j as int, p.len() as int).reverse(),
        decreases j,
    {
        let ghost before = symbols_view(stack@);
        stack.push(newSymbol(production[j - 1].getSymbol()));
        assert(symbols_view(stack@) =~= before.push(p[j - 1]));
        assert(p.subrange(j - 1, p.len() as int).reverse() =~= p.subrange(
            j as int,
            p.len() as int,
        ).reverse().push(p[j - 1]));
        j = j - 1;
    }
    assert(p.subrange(0, p.len() as int) =~= p);
}

/// Derives a sentence taking, at the i-th expansion, the alternative whose index
/// is `choices[i]`.
pub fn generate_with_choices(grammar: &Grammar, choices: &Vec<usize>) -> (r: Result<
    Vec<Symbol>,
    GenerateError,
>)
    requires
        grammar.wf(),
    ensures
        outcome_view(r) == derivation(
            grammar.table_view(),
            grammar.start_view(),
            choices_view(choices@),
        ),
{
    let ghost t = grammar.table_view();
    let ghost cv = choices_view(choices@);
    let table = grammar.table();
    let mut stack: Vec<Symbol> = Vec::new();
    stack.push(newSymbol(grammar.start().getSymbol()));
    let mut out: Vec<Symbol> = Vec::new();
    let mut c: usize = 0;
    assert(symbols_view(stack@) =~= seq![grammar.start_view()]);
    assert(symbols_view(out@) =~= Seq::<Seq<char>>::empty());
    assert(cv.skip(0) =~= cv);
    while stack.len() > 0
        invariant
            table.wf(),
            table@ == t,
            t == grammar.table_view(),
            cv == choices_view(choices@),
            c <= choices@.len(),
            run(t, symbols_view(stack@), symbols_view(out@), cv.skip(c as int)) == derivation(
                t,
                grammar.start_view(),
                cv,
            ),
        decreases choices@.len() - c, stack@.len(),
    {
        let ghost sv = symbols_view(stack@);
        let ghost ov = symbols_view(out@);
        let top = stack.pop().unwrap();
        assert(symbols_view(stack@) =~= sv.drop_last());
        assert(top@ == sv.last());
        if top.isTerminal() {
            out.push(top);
            assert(symbols_view(out@) =~= ov.push(sv.last()));
        } else {
            match table.get(&top) {
                None => {
                    return Err(GenerateError::UndefinedNonTerminal(top));
                },
                Some(alts) => {
                    if alts.len() == 0 {
                        return Err(GenerateError::EmptyProductionList(top));
                    }
                    if c >= choices.len() {
                        return Err(GenerateError::ChoicesExhausted);
                    }
                    let k = choices[c];
                    assert(cv.skip(c as int)[0] == k as int);
                    if k >= alts.len() {
                        return Err(GenerateError::ChoiceOutOfRange(top));
                    }
                    assert(alternatives_view(alts@)[k as int] == symbols_view(alts@[k as int]@));
                    push_reversed(&alts[k], &mut stack);
                    assert(cv.skip(c as int).drop_first() =~= cv.skip(c + 1));
                    c = c + 1;
                },
            }
        }
    }
    Ok(out)
}

/// What holds of a sentence derived with random choices, whatever was drawn: a
/// sentence is the derivation for some choices, at most `limit` of them; a
/// missing or empty entry is met by some choices; the limit is reported only
/// when `limit` choices leave the derivation unfinished.
pub open spec fn random_outcome(
    t: TableView,
    start: Seq<char>,
    limit: nat,
    r: Result<Seq<Seq<char>>, GenerateFault>,
) -> bool {
    match r {
        Ok(out) => exists|c: Seq<int>| c.len() <= limit && #[trigger] derivation(t, start, c) == Ok::<
            Seq<Seq<char>>,
            GenerateFault,
        >(out),
        Err(GenerateFault::Undefined(s)) => exists|c: Seq<int>| #[trigger]
            derivation(t, start, c) == Err::<Seq<Seq<char>>, GenerateFault>(GenerateFault::Undefined(s)),
        Err(GenerateFault::Empty(s)) => exists|c: Seq<int>| #[trigger]
            derivation(t, start, c) == Err::<Seq<Seq<char>>, GenerateFault>(GenerateFault::Empty(s)),
        Err(GenerateFault::Limit) => exists|c: Seq<int>| c.len() == limit && #[trigger] derivation(
            t,
            start,
            c,
        ) == Err::<Seq<Seq<char>>, GenerateFault>(GenerateFault::Exhausted),
        Err(_) => false,
    }
}

/// Derives a sentence from the start symbol, drawing each alternative uniformly
/// from `rng`, with at most `limit` expansions.
pub fn generate(grammar: &Grammar, rng: &mut StdRng, limit: usize) -> (r: Result<
    Vec<Symbol>,
    GenerateError,
>)
    requires
        grammar.wf(),
    ensures
        random_outcome(grammar.table_view(), grammar.start_view(), limit as nat, outcome_view(r)),
{
    let ghost t = grammar.table_view();
    let ghost e = Seq::<Seq<char>>::empty();
    let ghost init = seq![grammar.start_view()];
    let table = grammar.table();
    let mut stack: Vec<Symbol> = Vec::new();
    stack.push(newSymbol(grammar.start().getSymbol()));
    let mut out: Vec<Symbol> = Vec::new();
    let mut count: usize = 0;
    let ghost mut made = Seq::<int>::empty();
    assert(symbols_view(stack@) =~= init);
    assert(symbols_view(out@) =~= e);
    assert forall|f: Seq<int>| #[trigger] run(t, init, e, made + f) == run(t, init, e, f) by {
        assert(made + f =~= f);
    }
    while stack.len() > 0
        invariant
            table.wf(),
            table@ == t,
            t == grammar.table_view(),
            init == seq![grammar.start_view()],
            e == Seq::<Seq<char>>::empty(),
            count <= limit,
            made.len() == count,
            forall|f: Seq<int>| #[trigger]
                run(t, init, e, made + f) == run(t, symbols_view(stack@), symbols_view(out@), f),
        decreases limit - count, stack@.len(),
    {
        let ghost sv = symbols_view(stack@);
        let ghost ov = symbols_view(out@);
        let top = stack.pop().unwrap();
        assert(symbols_view(stack@) =~= sv.drop_last());
        assert(top@ == sv.last());
        if top.isTerminal() {
            out.push(top);
            assert(symbols_view(out@) =~= ov.push(sv.last()));
            assert forall|f: Seq<int>| #[trigger]
                run(t, init, e, made + f) == run(t, symbols_view(stack@), symbols_view(out@), f) by {
                assert(run(t, init, e, made + f) == run(t, sv, ov, f));
            }
        } else {
            match table.get(&top) {
                None => {
                    assert(run(t, init, e, made + Seq::empty()) == run(t, sv, ov, Seq::empty()));
                    assert(made + Seq::<int>::empty() =~= made);
                    assert(derivation(t, grammar.start_view(), made) == run(t, sv, ov, Seq::empty()));
                    return Err(GenerateError::UndefinedNonTerminal(top));
                },
                Some(alts) => {
                    if alts.len() == 0 {
                        assert(run(t, init, e, made + Seq::empty()) == run(t, sv, ov, Seq::empty()));
                        assert(made + Seq::<int>::empty() =~= made);
                        assert(derivation(t, grammar.start_view(), made) == run(t, sv, ov, Seq::empty()));
                        return Err(GenerateError::EmptyProductionList(top));
                    }
                    if count >= limit {
                        assert(run(t, init, e, made + Seq::empty()) == run(t, sv, ov, Seq::empty()));
                        assert(made + Seq::<int>::empty() =~= made);
                        return Err(GenerateError::ExpansionLimit);
                    }
                    let k = draw_below(rng, alts.len());
                    assert(alternatives_view(alts@)[k as int] == symbols_view(alts@[k as int]@));
                    push_reversed(&alts[k], &mut stack);
                    let ghost before = made;
                    proof {
                        made = made.push(k as int);
                    }
                    assert forall|f: Seq<int>| #[trigger]
                        run(t, init, e, made + f) == run(
                            t,
                            symbols_view(stack@),
                            symbols_view(out@),
                            f,
                        ) by {
                        let g = seq![k as int] + f;
                        assert(made + f =~= before + g);
                        assert(g.drop_first() =~= f);
                        assert(run(t, init, e, before + g) == run(t, sv, ov, g));
                    }
                    count = count + 1;
                },
            }
        }
    }
    assert(run(t, init, e, made + Seq::empty()) == run(t, symbols_view(stack@), symbols_view(out@), Seq::empty()));
    assert(made + Seq::<int>::empty() =~= made);
    assert(derivation(t, grammar.start_view(), made) == Ok::<Seq<Seq<char>>, GenerateFault>(symbols_view(out@)));
    Ok(out)
}

} // verus!
