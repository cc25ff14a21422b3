use grammar_gen::{
    generate, generate_with_choices, new, newSymbol, parse_tokens, tokenize, trimmed,
    GenerateError, Grammar, GrammarError, Symbol,
};
use rand::rngs::StdRng;
use rand::SeedableRng;

fn sym(s: &str) -> Symbol {
    newSymbol(s.to_string())
}

fn lines(text: &[&str]) -> Vec<String> {
    text.iter().map(|l| l.to_string()).collect()
}

fn parse(text: &[&str]) -> Grammar {
    new(&lines(text)).expect("grammar parses")
}

fn texts(symbols: &[Symbol]) -> Vec<String> {
    symbols.iter().map(|s| s.getSymbol()).collect()
}

fn alternatives(g: &Grammar, head: &str) -> Vec<Vec<String>> {
    g.table()
        .get(&sym(head))
        .expect("head is defined")
        .iter()
        .map(|p| texts(p))
        .collect()
}

#[test]
fn classification_of_symbols() {
    assert!(sym("<S>").isNonTerminal());
    assert!(sym("<>").isNonTerminal());
    assert!(sym("<a b>").isNonTerminal());
    assert!(sym("<a\nb>").isNonTerminal());
    assert!(!sym("<").isNonTerminal());
    assert!(!sym(">").isNonTerminal());
    assert!(!sym("<a").isNonTerminal());
    assert!(!sym("a>").isNonTerminal());
    assert!(!sym("x").isNonTerminal());
    assert!(!sym("").isNonTerminal());
    assert!(!sym(" <a>").isNonTerminal());
    assert!(sym("x").isTerminal());
    assert!(!sym("<S>").isTerminal());
}

#[test]
fn symbols_compare_by_text() {
    assert!(sym("abc") == sym("abc"));
    assert!(sym("abc") != sym("abd"));
    assert_eq!(sym("<A>").getSymbol(), "<A>");
}

#[test]
fn trimmed_strips_white_space_at_both_ends() {
    assert_eq!(trimmed("\t x y \r"), "x y");
    assert_eq!(trimmed("   "), "");
    assert_eq!(trimmed("a"), "a");
    assert_eq!(trimmed("\u{3000}a\u{a0}"), "a");
}

#[test]
fn tokenize_splits_on_spaces_and_lines() {
    let t = tokenize(&lines(&["  a\tb  c ", "", "{ <S>", "x\r"]));
    assert_eq!(t, vec!["a\tb", "c", "{", "<S>", "x"]);
}

#[test]
fn example_grammar_parses() {
    let g = parse(&["{ <S> <A> <A> ; }", "{ <A> x ; y ; }"]);
    assert_eq!(g.start().getSymbol(), "<S>");
    assert_eq!(g.table().len(), 2);
    assert_eq!(texts(&g.table().heads()), vec!["<S>", "<A>"]);
    assert_eq!(alternatives(&g, "<S>"), vec![vec!["<A>", "<A>"]]);
    assert_eq!(alternatives(&g, "<A>"), vec![vec!["x"], vec!["y"]]);
    assert!(g.table().get(&sym("<B>")).is_none());
}

#[test]
fn getters_hand_out_parts() {
    let g = parse(&["{ <S> a ; }"]);
    let start = parse(&["{ <S> a ; }"]).getStartSymbol();
    assert_eq!(start.getSymbol(), "<S>");
    let table = g.getSymbolTable();
    assert_eq!(table.len(), 1);
}

#[test]
fn example_grammar_sentences() {
    let g = parse(&["{ <S> <A> <A> ; }", "{ <A> x ; y ; }"]);
    let cases = [([0, 0, 0], ["x", "x"]), ([0, 0, 1], ["x", "y"]), ([0, 1, 0], ["y", "x"]), ([0, 1, 1], ["y", "y"])];
    for (choices, expected) in cases {
        let out = generate_with_choices(&g, &choices.to_vec()).expect("sentence");
        assert_eq!(texts(&out), expected.to_vec());
    }
    let mut rng = StdRng::seed_from_u64(7);
    for _ in 0..200 {
        let out = texts(&generate(&g, &mut rng, 100).expect("sentence"));
        assert_eq!(out.len(), 2);
        assert!(out.iter().all(|s| s == "x" || s == "y"));
    }
}

#[test]
fn example_grammar_each_sentence_about_a_quarter() {
    let g = parse(&["{ <S> <A> <A> ; }", "{ <A> x ; y ; }"]);
    let mut rng = StdRng::seed_from_u64(11);
    let mut counts = [0usize; 4];
    let n = 2000;
    for _ in 0..n {
        let out = texts(&generate(&g, &mut rng, 100).expect("sentence"));
        let i = (if out[0] == "y" { 2 } else { 0 }) + (if out[1] == "y" { 1 } else { 0 });
        counts[i] += 1;
    }
    for c in counts {
        assert!(c > 400 && c < 600, "count {}", c);
    }
}

#[test]
fn order_is_kept() {
    let g = parse(&["{ <S> a b c ; }"]);
    assert_eq!(texts(&generate_with_choices(&g, &vec![0]).unwrap()), vec!["a", "b", "c"]);
    for seed in 0..20 {
        let mut rng = StdRng::seed_from_u64(seed);
        assert_eq!(texts(&generate(&g, &mut rng, 10).unwrap()), vec!["a", "b", "c"]);
    }
}

#[test]
fn nested_expansion_is_left_to_right() {
    let g = parse(&["{ <S> <A> m <B> ; }", "{ <A> a1 a2 ; }", "{ <B> b1 <A> ; }"]);
    let out = generate_with_choices(&g, &vec![0, 0, 0, 0]).unwrap();
    assert_eq!(texts(&out), vec!["a1", "a2", "m", "b1", "a1", "a2"]);
}

#[test]
fn alternatives_drawn_uniformly() {
    let g = parse(&["{ <S> p ; q ; r ; }"]);
    let mut rng = StdRng::seed_from_u64(42);
    let n = 3000;
    let mut counts = [0usize; 3];
    for _ in 0..n {
        let out = texts(&generate(&g, &mut rng, 10).unwrap());
        let i = ["p", "q", "r"].iter().position(|s| *s == out[0]).unwrap();
        counts[i] += 1;
    }
    for c in counts {
        assert!(c > 880 && c < 1120, "count {}", c);
    }
}

#[test]
fn newline_escape_becomes_newline() {
    let g = parse(&["{ <S> a \\n b ; }"]);
    assert_eq!(alternatives(&g, "<S>"), vec![vec!["a", "\n", "b"]]);
    let out = texts(&generate_with_choices(&g, &vec![0]).unwrap());
    assert_eq!(out, vec!["a", "\n", "b"]);
    assert_ne!(out[1], "\\n");
    let g = parse(&["{ <S> \\\\n x\\n ; }"]);
    assert_eq!(alternatives(&g, "<S>"), vec![vec!["\\\\n", "x\\n"]]);
}

#[test]
fn blank_tokens_and_lines_are_tolerated() {
    let g = parse(&["", "{   <S>", "", "a    b ;", "  c ;  }  ", ""]);
    assert_eq!(alternatives(&g, "<S>"), vec![vec!["a", "b"], vec!["c"]]);
}

#[test]
fn text_outside_blocks_is_ignored() {
    let g = parse(&["a comment", "{ <S> a ; }", "more ; words"]);
    assert_eq!(g.start().getSymbol(), "<S>");
    assert_eq!(g.table().len(), 1);
}

#[test]
fn later_definition_replaces_earlier() {
    let g = parse(&["{ <A> x ; }", "{ <B> z ; }", "{ <A> y ; }"]);
    assert_eq!(g.start().getSymbol(), "<A>");
    assert_eq!(texts(&g.table().heads()), vec!["<A>", "<B>"]);
    assert_eq!(alternatives(&g, "<A>"), vec![vec!["y"]]);
}

#[test]
fn empty_blocks_and_empty_alternatives() {
    let g = parse(&["{ }", "{ <S> ; }", "{ <E> }"]);
    assert_eq!(g.start().getSymbol(), "<S>");
    assert_eq!(alternatives(&g, "<S>"), vec![Vec::<String>::new()]);
    assert_eq!(alternatives(&g, "<E>"), Vec::<Vec<String>>::new());
    assert!(generate_with_choices(&g, &vec![0]).unwrap().is_empty());
}

#[test]
fn structural_errors() {
    assert_eq!(new(&lines(&["{ <S> a { ; }"])).err(), Some(GrammarError::UnexpectedOpen(3)));
    assert_eq!(new(&lines(&["{ { }"])).err(), Some(GrammarError::UnexpectedOpen(1)));
    assert_eq!(new(&lines(&["x }"])).err(), Some(GrammarError::UnexpectedClose(1)));
    assert_eq!(new(&lines(&["{ ; }"])).err(), Some(GrammarError::MissingHead(1)));
    assert_eq!(new(&lines(&["{ S a ; }"])).err(), Some(GrammarError::InvalidHead(1)));
    assert_eq!(new(&lines(&["{ <S> a b }"])).err(), Some(GrammarError::UnterminatedProduction(4)));
    assert_eq!(new(&lines(&["{ <S> a ;"])).err(), Some(GrammarError::UnterminatedBlock(4)));
    assert_eq!(new(&lines(&["{"])).err(), Some(GrammarError::UnterminatedBlock(1)));
    assert_eq!(new(&lines(&["no blocks here"])).err(), Some(GrammarError::NoProductions));
    assert_eq!(new(&lines(&[])).err(), Some(GrammarError::NoProductions));
    assert_eq!(new(&lines(&["{ }"])).err(), Some(GrammarError::NoProductions));
}

#[test]
fn parse_tokens_reads_token_lists() {
    let toks: Vec<String> = ["{", "<S>", "a", ";", "}"].iter().map(|s| s.to_string()).collect();
    let g = parse_tokens(&toks).unwrap();
    assert_eq!(alternatives(&g, "<S>"), vec![vec!["a"]]);
}

#[test]
fn generation_errors() {
    let g = parse(&["{ <S> a <B> ; }"]);
    match generate_with_choices(&g, &vec![0]) {
        Err(GenerateError::UndefinedNonTerminal(s)) => assert_eq!(s.getSymbol(), "<B>"),
        other => panic!("unexpected {:?}", other),
    }
    let mut rng = StdRng::seed_from_u64(1);
    assert!(matches!(generate(&g, &mut rng, 10), Err(GenerateError::UndefinedNonTerminal(_))));

    let g = parse(&["{ <S> a <E> ; }", "{ <E> }"]);
    match generate_with_choices(&g, &vec![0]) {
        Err(GenerateError::EmptyProductionList(s)) => assert_eq!(s.getSymbol(), "<E>"),
        other => panic!("unexpected {:?}", other),
    }
    assert!(matches!(generate(&g, &mut rng, 10), Err(GenerateError::EmptyProductionList(_))));

    let g = parse(&["{ <S> <A> ; }", "{ <A> x ; }"]);
    assert!(matches!(generate_with_choices(&g, &vec![0]), Err(GenerateError::ChoicesExhausted)));
    match generate_with_choices(&g, &vec![0, 1]) {
        Err(GenerateError::ChoiceOutOfRange(s)) => assert_eq!(s.getSymbol(), "<A>"),
        other => panic!("unexpected {:?}", other),
    }
    assert!(matches!(generate(&g, &mut rng, 1), Err(GenerateError::ExpansionLimit)));
    assert_eq!(texts(&generate(&g, &mut rng, 2).unwrap()), vec!["x"]);

    let g = parse(&["{ <S> a <S> ; }"]);
    assert!(matches!(generate(&g, &mut rng, 50), Err(GenerateError::ExpansionLimit)));
}

#[test]
fn recursive_grammar_with_exit_terminates() {
    let g = parse(&["{ <L> ; x <L> ; }"]);
    let out = generate_with_choices(&g, &vec![1, 1, 0]).unwrap();
    assert_eq!(texts(&out), vec!["x", "x"]);
    let mut rng = StdRng::seed_from_u64(3);
    for _ in 0..100 {
        if let Ok(out) = generate(&g, &mut rng, 1000) {
            assert!(out.iter().all(|s| s.isTerminal() && s.getSymbol() == "x"));
        }
    }
}

#[test]
fn written_tokens_parse_back_to_the_same_table() {
    let text = ["{ <S> <A> <A> ; }", "{ <A> x ; y ; }"];
    let g = parse(&text);
    let written = g.table().to_tokens();
    assert_eq!(written, tokenize(&lines(&text)));
    let again = parse_tokens(&written).unwrap();
    assert_eq!(again.start().getSymbol(), "<S>");
    assert_eq!(again.table().to_tokens(), written);
    assert_eq!(alternatives(&again, "<A>"), vec![vec!["x"], vec!["y"]]);
}

#[test]
fn newline_is_written_as_its_escape() {
    let g = parse(&["{ <S> a \\n ; <S> ; }"]);
    let written = g.table().to_tokens();
    assert_eq!(written, vec!["{", "<S>", "a", "\\n", ";", "<S>", ";", "}"]);
    let again = parse_tokens(&written).unwrap();
    assert_eq!(alternatives(&again, "<S>"), vec![vec!["a", "\n"], vec!["<S>"]]);
}
