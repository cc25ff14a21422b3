use vstd::prelude::*;

use crate::symbol::{newSymbol, Symbol};
use crate::writer::{alternatives_tokens, escaped, production_tokens, serialize};

verus! {

/// One production as texts.
pub type ProductionView = Seq<Seq<char>>;

/// The alternatives of one non-terminal as texts, in the order they were read.
pub type AlternativesView = Seq<ProductionView>;

/// A table as a sequence of (left-hand side, alternatives), in order of definition.
pub type TableView = Seq<(Seq<char>, AlternativesView)>;

pub open spec fn symbols_view(p: Seq<Symbol>) -> ProductionView {
    p.map_values(|s: Symbol| s@)
}

pub open spec fn alternatives_view(a: Seq<Vec<Symbol>>) -> AlternativesView {
    a.map_values(|p: Vec<Symbol>| symbols_view(p@))
}

/// No left-hand side is defined twice.
pub open spec fn keys_unique(t: TableView) -> bool {
    forall|i: int, j: int| 0 <= i < t.len() && 0 <= j < t.len() && t[i].0 == t[j].0 ==> i == j
}

pub open spec fn has_key(t: TableView, k: Seq<char>) -> bool {
    exists|i: int| 0 <= i < t.len() && t[i].0 == k
}

/// The position of `k` among the left-hand sides, where it is one.
pub open spec fn key_index(t: TableView, k: Seq<char>) -> int {
    choose|i: int| 0 <= i < t.len() && t[i].0 == k
}

/// The alternatives recorded for `k`, if `k` is a left-hand side of the table.
pub open spec fn lookup(t: TableView, k: Seq<char>) -> Option<AlternativesView> {
    if has_key(t, k) {
        Some(t[key_index(t, k)].1)
    } else {
        None
    }
}

/// Defines `k` with alternatives `a`: an earlier definition of `k` is replaced in
/// place, otherwise the definition is added at the end.
pub open spec fn define(t: TableView, k: Seq<char>, a: AlternativesView) -> TableView {
    if has_key(t, k) {
        t.update(key_index(t, k), (k, a))
    } else {
        t.push((k, a))
    }
}

/// The token that writes a body symbol.
fn escape_token(s: &Symbol) -> (r: String)
    ensures
        r@ == escaped(s@),
{
    let text = s.getSymbol();
    let n = text.as_str().unicode_len();
    if n == 1 && text.as_str().get_char(0) == '\n' {
        let r = String::from_str("\\n");
        proof {
            reveal_strlit("\\n");
        }
        assert(text@ =~= seq!['\n']);
        assert(r@ =~= seq!['\\', 'n']);
        r
    } else {
        assert(n == 1 ==> (text@ == seq!['\n'] ==> text@[0] == '\n'));
        text
    }
}

/// A non-terminal together with its alternatives.
pub struct Rule {
    head: Symbol,
    alternatives: Vec<Vec<Symbol>>,
}

/// The productions of each non-terminal, in order of definition, with each
/// non-terminal defined once.
pub struct SymbolTable {
    rules: Vec<Rule>,
}

impl View for SymbolTable {
    type V = TableView;

    closed spec fn view(&self) -> TableView {
        self.rules@.map_values(|r: Rule| (r.head@, alternatives_view(r.alternatives@)))
    }
}

impl SymbolTable {
    /// No left-hand side is defined twice.
    pub open spec fn wf(&self) -> bool {
        keys_unique(self@)
    }

    /// An empty table.
    pub fn empty() -> (r: SymbolTable)
        ensures
            r@ == Seq::<(Seq<char>, AlternativesView)>::empty(),
            r.wf(),
    {
        SymbolTable { rules: Vec::new() }
    }

    /// The number of non-terminals defined.
    pub fn len(&self) -> (r: usize)
        ensures
            r == self@.len(),
    {
        self.rules.len()
    }

    /// The position of `key` in the table.
    fn position(&self, key: &Symbol) -> (r: Option<usize>)
        requires
            self.wf(),
        ensures
            match r {
                Some(i) => i < self@.len() && self@[i as int].0 == key@,
                None => !has_key(self@, key@),
            },
    {
        let mut i: usize = 0;
        while i < self.rules.len()
            invariant
                i <= self.rules@.len(),
                forall|j: int| 0 <= j < i ==> self@[j].0 != key@,
            decreases self.rules@.len() - i,
        {
            if self.rules[i].head == *key {
                return Some(i);
            }
            i = i + 1;
        }
        None
    }

    /// The alternatives of `key`, if it is defined.
    pub fn get(&self, key: &Symbol) -> (r: Option<&Vec<Vec<Symbol>>>)
        requires
            self.wf(),
        ensures
            match r {
                Some(a) => lookup(self@, key@) == Some(alternatives_view(a@)),
                None => lookup(self@, key@).is_none(),
            },
    {
        match self.position(key) {
            Some(i) => {
                proof {
                    let k = key_index(self@, key@);
                    assert(k == i);
                }
                Some(&self.rules[i].alternatives)
            },
            None => None,
        }
    }

    /// The non-terminals defined, in order of definition.
    pub fn heads(&self) -> (r: Vec<Symbol>)
        ensures
            r@.len() == self@.len(),
            forall|i: int| 0 <= i < r@.len() ==> r@[i]@ == self@[i].0,
    {
        let mut r: Vec<Symbol> = Vec::new();
        let mut i: usize = 0;
        while i < self.rules.len()
            invariant
                i <= self.rules@.len(),
                r@.len() == i,
                forall|j: int| 0 <= j < i ==> r@[j]@ == self@[j].0,
            decreases self.rules@.len() - i,
        {
            r.push(crate::symbol::newSymbol(self.rules[i].head.getSymbol()));
            i = i + 1;
        }
        r
    }

    /// The tokens that write this table back in the grammar text format.
    pub fn to_tokens(&self) -> (r: Vec<String>)
        ensures
            r@.map_values(|t: String| t@) == serialize(self@),
    {
        let mut out: Vec<String> = Vec::new();
        let mut i: usize = 0;
        while i < self.rules.len()
            invariant
                i <= self.rules@.len(),
                out@.map_values(|t: String| t@) == serialize(self@.take(i as int)),
            decreases self.rules@.len() - i,
        {
            let ghost before = out@.map_values(|t: String| t@);
            let rule = &self.rules[i];
            let ghost a = alternatives_view(rule.alternatives@);
            let open = String::from_str("{");
            proof {
                reveal_strlit("{");
            }
            assert(open@ =~= seq!['{']);
            out.push(open);
            out.push(rule.head.getSymbol());
            assert(out@.map_values(|t: String| t@) =~= before + seq![seq!['{'], rule.head@]);
            let mut j: usize = 0;
            assert(alternatives_tokens(a.take(0)) =~= Seq::<Seq<char>>::empty());
            while j < rule.alternatives.len()
                invariant
                    j <= rule.alternatives@.len(),
                    a == alternatives_view(rule.alternatives@),
                    out@.map_values(|t: String| t@) == before + seq![seq!['{'], rule.head@]
                        + alternatives_tokens(a.take(j as int)),
                decreases rule.alternatives@.len() - j,
            {
                let p = &rule.alternatives[j];
                let ghost pv = a[j as int];
                let ghost mid = out@.map_values(|t: String| t@);
                let mut m: usize = 0;
                assert(mid + production_tokens(pv.take(0)) =~= mid);
                while m < p.len()
                    invariant
                        m <= p@.len(),
                        pv == symbols_view(p@),
                        out@.map_values(|t: String| t@) == mid + production_tokens(
                            pv.take(m as int),
                        ),
                    decreases p@.len() - m,
                {
                    let ghost cur = out@.map_values(|t: String| t@);
                    out.push(escape_token(&p[m]));
                    assert(production_tokens(pv.take(m + 1)) =~= production_tokens(
                        pv.take(m as int),
                    ).push(escaped(pv[m as int])));
                    assert(out@.map_values(|t: String| t@) =~= cur.push(escaped(pv[m as int])));
                    m = m + 1;
                }
                assert(pv.take(m as int) =~= pv);
                let ghost cur = out@.map_values(|t: String| t@);
                let end = String::from_str(";");
                proof {
                    reveal_strlit(";");
                }
                assert(end@ =~= seq![';']);
                out.push(end);
                assert(out@.map_values(|t: String| t@) =~= cur.push(seq![';']));
                assert(a.take(j + 1).drop_last() =~= a.take(j as int));
                assert(out@.map_values(|t: String| t@) =~= before + seq![seq!['{'], rule.head@]
                    + alternatives_tokens(a.take(j + 1)));
                j = j + 1;
            }
            assert(a.take(j as int) =~= a);
            let ghost cur = out@.map_values(|t: String| t@);
            let close = String::from_str("}");
            proof {
                reveal_strlit("}");
            }
            assert(close@ =~= seq!['}']);
            out.push(close);
            assert(out@.map_values(|t: String| t@) =~= cur.push(seq!['}']));
            assert(self@.take(i + 1).drop_last() =~= self@.take(i as int));
            assert(out@.map_values(|t: String| t@) =~= serialize(self@.take(i + 1)));
            i = i + 1;
        }
        assert(self@.take(i as int) =~= self@);
        out
    }

    /// Defines `head` with `alternatives`, replacing an earlier definition of it.
    pub fn define(&mut self, head: Symbol, alternatives: Vec<Vec<Symbol>>)
        requires
            old(self).wf(),
        ensures
            final(self).wf(),
            final(self)@ == define(old(self)@, head@, alternatives_view(alternatives@)),
    {
        let ghost a = alternatives_view(alternatives@);
        match self.position(&head) {
            Some(i) => {
                proof {
                    let k = key_index(self@, head@);
                    assert(k == i);
                }
                self.rules.remove(i);
                self.rules.insert(i, Rule { head, alternatives });
                assert(self@ =~= define(old(self)@, head@, a));
            },
            None => {
                self.rules.push(Rule { head, alternatives });
                assert(self@ =~= define(old(self)@, head@, a));
            },
        }
    }
}

/// A parsed grammar: its start symbol and the productions of each non-terminal.
pub struct Grammar {
    start: Symbol,
    table: SymbolTable,
}

impl Grammar {
    pub closed spec fn start_view(&self) -> Seq<char> {
        self.start@
    }

    pub closed spec fn table_view(&self) -> TableView {
        self.table@
    }

    /// No left-hand side is defined twice.
    pub open spec fn wf(&self) -> bool {
        keys_unique(self.table_view())
    }

    /// Assembles a grammar from its start symbol and its table.
    pub fn from_parts(start: Symbol, table: SymbolTable) -> (r: Grammar)
        ensures
            r.start_view() == start@,
            r.table_view() == table@,
            r.wf() == table.wf(),
    {
        Grammar { start, table }
    }

    /// The grammar's table of productions.
    pub fn getSymbolTable(self) -> (r: SymbolTable)
        ensures
            r@ == self.table_view(),
            r.wf() == self.wf(),
    {
        self.table
    }

    /// The grammar's start symbol.
    pub fn getStartSymbol(self) -> (r: Symbol)
        ensures
            r@ == self.start_view(),
    {
        self.start
    }

    /// The table, borrowed.
    pub fn table(&self) -> (r: &SymbolTable)
        ensures
            r@ == self.table_view(),
            r.wf() == self.wf(),
    {
        &self.table
    }

    /// The start symbol, borrowed.
    pub fn start(&self) -> (r: &Symbol)
        ensures
            r@ == self.start_view(),
    {
        &self.start
    }
}

} // verus!
