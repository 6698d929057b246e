use earley::grammar::{Rule, RulePart};
use earley::recognizer::parse;
use earley::state::State;

fn term(s: &str) -> RulePart {
    RulePart::Terminal(s.to_string())
}

fn nonterm(s: &str) -> RulePart {
    RulePart::NonTerminal(s.to_string())
}

fn rule(name: &str, parts: Vec<RulePart>) -> Rule {
    Rule { name: name.to_string(), parts }
}

fn toks(s: &str) -> Vec<String> {
    s.chars().map(|c| c.to_string()).collect()
}

fn arith_grammar() -> Vec<Rule> {
    vec![
        rule("P", vec![nonterm("S")]),
        rule("S", vec![nonterm("S"), term("+"), nonterm("M")]),
        rule("S", vec![nonterm("M")]),
        rule("M", vec![nonterm("M"), term("*"), nonterm("T")]),
        rule("M", vec![nonterm("T")]),
        rule("T", vec![term("1")]),
        rule("T", vec![term("2")]),
        rule("T", vec![term("3")]),
        rule("T", vec![term("4")]),
    ]
}

#[test]
fn arithmetic_expression_accepts() {
    let grammar = arith_grammar();
    let tokens = toks("2+3*4");
    let chart = parse(&tokens, &grammar).expect("2+3*4 is derivable");
    // One column per position, 0 through 5.
    assert_eq!(chart.len(), 6);
    // The final column holds a complete start-rule state spanning the whole
    // input: rule 0 is `P -> S`, one part, so a dot position of 1 and
    // origin 0.
    let spanning = State { rule: 0, dot: 1, origin: 0 };
    assert!(chart[5].0.contains(&spanning));
}

#[test]
fn dangling_operator_rejects() {
    let grammar = arith_grammar();
    let tokens = toks("2+3*4+");
    assert_eq!(parse(&tokens, &grammar), None);
}

#[test]
fn terminal_mismatch_rejects() {
    let grammar = vec![rule("P", vec![term("a")])];
    let tokens = toks("b");
    assert_eq!(parse(&tokens, &grammar), None);
}

#[test]
fn empty_grammar_rejects() {
    let grammar: Vec<Rule> = vec![];
    let tokens = toks("a");
    assert_eq!(parse(&tokens, &grammar), None);
}

#[test]
fn empty_tokens_reject() {
    let grammar = vec![rule("P", vec![term("a")])];
    let tokens: Vec<String> = vec![];
    assert_eq!(parse(&tokens, &grammar), None);
}

#[test]
fn single_terminal_accepts() {
    let grammar = vec![rule("P", vec![term("a")])];
    let tokens = toks("a");
    let chart = parse(&tokens, &grammar).expect("a matches P -> \"a\"");
    assert_eq!(chart.len(), 2);
    assert!(chart[1].0.contains(&State { rule: 0, dot: 1, origin: 0 }));
}

#[test]
fn left_recursion_terminates_and_accepts() {
    // S -> S "a" | "a": left recursion saturates each column and stops.
    let grammar = vec![
        rule("S", vec![nonterm("S"), term("a")]),
        rule("S", vec![term("a")]),
    ];
    let tokens = toks("aaa");
    let chart = parse(&tokens, &grammar).expect("aaa is derivable");
    assert_eq!(chart.len(), 4);
    assert!(chart[3].0.contains(&State { rule: 0, dot: 2, origin: 0 }));
}

#[test]
fn left_recursion_rejects_other_token() {
    let grammar = vec![
        rule("S", vec![nonterm("S"), term("a")]),
        rule("S", vec![term("a")]),
    ];
    let tokens = toks("aab");
    assert_eq!(parse(&tokens, &grammar), None);
}

#[test]
fn identical_runs_are_identical() {
    let grammar = arith_grammar();
    let accepted = toks("2+3*4");
    let rejected = toks("2+3*4+");
    assert_eq!(parse(&accepted, &grammar), parse(&accepted, &grammar));
    assert_eq!(parse(&rejected, &grammar), parse(&rejected, &grammar));
}

#[test]
fn undefined_nonterminal_degrades_gracefully() {
    // A nonterminal with no rules never finds a prediction; the run still
    // finishes and rejects rather than failing.
    let grammar = vec![rule("P", vec![nonterm("Q")])];
    let tokens = toks("x");
    assert_eq!(parse(&tokens, &grammar), None);
}

#[test]
fn empty_right_hand_side_is_handled() {
    // A rule with no parts completes where it starts; it cannot span a real
    // token, so this run rejects without failing.
    let grammar = vec![rule("P", vec![])];
    let tokens = toks("a");
    assert_eq!(parse(&tokens, &grammar), None);
}

#[test]
fn nullable_completion_reaches_states_added_during_its_walk() {
    // Completing a nullable nonterminal walks its own growing column, so an
    // expectation advanced by that very walk is advanced in turn: both
    // back-to-back nullable expectations are satisfied here.
    let grammar = vec![
        rule("S", vec![nonterm("A"), nonterm("A"), term("x")]),
        rule("A", vec![]),
    ];
    let tokens = toks("x");
    assert!(parse(&tokens, &grammar).is_some());
}

#[test]
fn nullable_completion_is_not_replayed_for_later_predictions() {
    // Each state is processed once: a completion already performed is not
    // replayed for an expectation predicted only after that walk ended. The
    // nullable A here completes before C's rule is predicted, so C never
    // advances past A and this derivable input is rejected — the inference
    // rules, not a spanning derivation, decide acceptance.
    let grammar = vec![
        rule("S", vec![nonterm("A"), nonterm("C")]),
        rule("A", vec![]),
        rule("C", vec![nonterm("A"), term("x")]),
    ];
    let tokens = toks("x");
    assert_eq!(parse(&tokens, &grammar), None);
}

#[test]
fn eof_spelling_is_an_ordinary_terminal() {
    // The closure-only pass at the last column is an explicit mode, not a
    // sentinel token, so a terminal spelled "eof" behaves like any other.
    let grammar = vec![rule("P", vec![term("eof")])];
    let tokens = vec!["eof".to_string()];
    let chart = parse(&tokens, &grammar).expect("the token eof matches the terminal eof");
    assert!(chart[1].0.contains(&State { rule: 0, dot: 1, origin: 0 }));
}

#[test]
fn alternative_productions_reachable_from_the_start_rule() {
    // Acceptance compares complete states against the first rule itself, not
    // against every production sharing its name; alternatives count when the
    // start rule derives through them.
    let grammar = vec![
        rule("P", vec![nonterm("Q")]),
        rule("Q", vec![term("a")]),
        rule("Q", vec![term("b")]),
    ];
    assert!(parse(&toks("a"), &grammar).is_some());
    assert!(parse(&toks("b"), &grammar).is_some());
    assert_eq!(parse(&toks("c"), &grammar), None);
}

#[test]
fn start_alternatives_do_not_stand_in_for_the_first_rule() {
    // A second production named like the start rule completing over the whole
    // input is not the start rule: the first rule must span the input itself.
    let grammar = vec![
        rule("P", vec![term("a")]),
        rule("P", vec![term("b")]),
    ];
    assert!(parse(&toks("a"), &grammar).is_some());
    assert_eq!(parse(&toks("b"), &grammar), None);
}
