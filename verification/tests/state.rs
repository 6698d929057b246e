use earley::grammar::{Rule, RulePart};
use earley::state::{State, StateSet};

fn term(s: &str) -> RulePart {
    RulePart::Terminal(s.to_string())
}

fn nonterm(s: &str) -> RulePart {
    RulePart::NonTerminal(s.to_string())
}

#[test]
fn insertion_is_idempotent_and_order_preserving() {
    let a = State { rule: 0, dot: 0, origin: 0 };
    let b = State { rule: 1, dot: 0, origin: 0 };
    let mut set = StateSet::new();
    set.add_to_set(a);
    set.add_to_set(b);
    // Re-inserting an equal (rule, dot, origin) is a no-op: exactly one
    // entry remains, at the position of first insertion.
    set.add_to_set(a);
    assert_eq!(set.0, vec![a, b]);
    set.add_to_set(b);
    assert_eq!(set.0, vec![a, b]);
}

#[test]
fn insertion_distinguishes_all_three_fields() {
    let a = State { rule: 0, dot: 0, origin: 0 };
    let mut set = StateSet::new();
    set.add_to_set(a);
    set.add_to_set(State { rule: 1, dot: 0, origin: 0 });
    set.add_to_set(State { rule: 0, dot: 1, origin: 0 });
    set.add_to_set(State { rule: 0, dot: 0, origin: 1 });
    set.add_to_set(a);
    assert_eq!(set.0.len(), 4);
    assert_eq!(set.0[0], a);
}

#[test]
fn next_element_walks_the_rule() {
    let grammar = vec![Rule {
        name: "S".to_string(),
        parts: vec![nonterm("S"), term("a")],
    }];
    let at_start = State { rule: 0, dot: 0, origin: 0 };
    let past_one = State { rule: 0, dot: 1, origin: 0 };
    let complete = State { rule: 0, dot: 2, origin: 0 };
    assert_eq!(at_start.next_element(&grammar), Some(&nonterm("S")));
    assert_eq!(past_one.next_element(&grammar), Some(&term("a")));
    assert_eq!(complete.next_element(&grammar), None);
}
