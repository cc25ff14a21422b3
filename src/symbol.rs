use vstd::prelude::*;

verus! {

/// True when the text names a non-terminal: it starts with `<` and ends with `>`.
pub open spec fn is_non_terminal_text(t: Seq<char>) -> bool {
    t.len() >= 2 && t[0] == '<' && t[t.len() - 1] == '>'
}

/// Relies on `regex::Regex::new` and `regex::Regex::is_match`. The pattern is
/// anchored at both ends of the text (`^`, `$` without the multi-line flag), and
/// the `s` flag lets `.` match every character, newline included, so the text
/// matches exactly when it is at least two characters long, starts with `<` and
/// ends with `>`. The pattern is valid, so `unwrap` does not panic.
#[verifier::external_body]
fn matches_non_terminal_pattern(text: &str) -> (r: bool)
    ensures
        r == is_non_terminal_text(text@),
{
    regex::Regex::new(r"(?s)^<.*>$").unwrap().is_match(text)
}

/// A grammar symbol: an immutable piece of text. Two symbols are equal exactly
/// when their texts are equal.
#[derive(Clone, Debug, Hash)]
pub struct Symbol {
    value: String,
}

impl View for Symbol {
    type V = Seq<char>;

    closed spec fn view(&self) -> Seq<char> {
        self.value@
    }
}

/// Builds the symbol whose text is `value`.
pub fn newSymbol(value: String) -> (r: Symbol)
    ensures
        r@ == value@,
{
    Symbol { value }
}

impl Symbol {
    /// The symbol's text.
    pub fn getSymbol(&self) -> (r: String)
        ensures
            r@ == self@,
    {
        self.value.clone()
    }

    /// A symbol is a non-terminal when its text is wrapped in `<` and `>`.
    pub fn isNonTerminal(&self) -> (r: bool)
        ensures
            r == is_non_terminal_text(self@),
    {
        matches_non_terminal_pattern(self.value.as_str())
    }

    /// Every symbol that is not a non-terminal is a terminal.
    pub fn isTerminal(&self) -> (r: bool)
        ensures
            r == !is_non_terminal_text(self@),
    {
        !self.isNonTerminal()
    }
}

impl PartialEq for Symbol {
    fn eq(&self, other: &Symbol) -> (r: bool)
        ensures
            r == (self@ == other@),
    {
        self.value == other.value
    }
}

impl Eq for Symbol {}

impl vstd::std_specs::cmp::PartialEqSpecImpl for Symbol {
    open spec fn obeys_eq_spec() -> bool {
        true
    }

    open spec fn eq_spec(&self, other: &Symbol) -> bool {
        self@ == other@
    }
}

} // verus!
