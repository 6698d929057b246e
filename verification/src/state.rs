//! Dotted-rule states and the deduplicating, order-preserving state set that
//! forms one chart column.

use vstd::prelude::*;

use crate::grammar::{Rule, RulePart, SpecRule, SpecRulePart, view_grammar};

verus! {

/// A dotted-rule application: which grammar rule (by its index in the
/// grammar, a stable handle), how many of its parts are already matched (the
/// dot), and the chart column where this application began (the origin).
#[derive(Debug, Clone, Copy, PartialEq, Eq, Structural)]
pub struct State {
    pub rule: usize,
    pub dot: usize,
    pub origin: usize,
}

/// The rule part a state expects next, or `None` when the state is complete.
pub open spec fn next_part(g: Seq<SpecRule>, st: State) -> Option<SpecRulePart> {
    if st.dot < g[st.rule as int].parts.len() {
        Some(g[st.rule as int].parts[st.dot as int])
    } else {
        None
    }
}

/// `st` with its dot advanced past one matched part.
pub open spec fn advance(st: State) -> State {
    State { rule: st.rule, dot: (st.dot + 1) as usize, origin: st.origin }
}

impl State {
    /// The rule part at the dot, or `None` if the state is complete.
    pub fn next_element<'a>(&self, grammar: &'a Vec<Rule>) -> (r: Option<&'a RulePart>)
        requires
            self.rule < grammar@.len(),
        ensures
            match r {
                Some(p) => next_part(view_grammar(grammar@), *self) == Some(p@),
                None => next_part(view_grammar(grammar@), *self) is None,
            },
    {
        let rule = &grammar[self.rule];
        if self.dot < rule.parts.len() {
            Some(&rule.parts[self.dot])
        } else {
            None
        }
    }
}

/// What inserting a state into a column means: a no-op if a structurally
/// equal state is already present, an append otherwise.
pub open spec fn insert_state(col: Seq<State>, st: State) -> Seq<State> {
    if col.contains(st) {
        col
    } else {
        col.push(st)
    }
}

/// One chart column: distinct states, indexed by insertion order. Content
/// only grows; duplicate insertion is a no-op.
#[derive(Debug, Clone, PartialEq, Eq)]
pub struct StateSet(pub Vec<State>);

impl View for StateSet {
    type V = Seq<State>;

    open spec fn view(&self) -> Seq<State> {
        self.0@
    }
}

impl StateSet {
    /// An empty column.
    pub fn new() -> (r: StateSet)
        ensures
            r@ == Seq::<State>::empty(),
    {
        StateSet(Vec::new())
    }

    /// Append `state` unless a structurally equal state is already present.
    pub fn add_to_set(&mut self, state: State)
        ensures
            final(self)@ == insert_state(old(self)@, state),
    {
        let n = self.0.len();
        let mut i: usize = 0;
        let mut found = false;
        while i < n
            invariant
                i <= n,
                n == self.0@.len(),
                self.0@ == old(self).0@,
                found <==> exists|j: int| 0 <= j < i && self.0@[j] == state,
            decreases n - i,
        {
            if self.0[i] == state {
                found = true;
            }
            i += 1;
        }
        if !found {
            self.0.push(state);
        }
    }
}

/// Law: insertion is idempotent — inserting an equal state a second time
/// changes nothing.
pub proof fn lemma_insert_idempotent(col: Seq<State>, st: State)
    ensures
        insert_state(insert_state(col, st), st) == insert_state(col, st),
{
    if !col.contains(st) {
        assert(col.push(st)[col.len() as int] == st);
        assert(col.push(st).contains(st));
    }
}

/// Law: insertion preserves the position of every entry already present; a
/// genuinely new state lands at the end, an already-present one changes
/// nothing, and the inserted state is present afterwards.
pub proof fn lemma_insert_order_preserving(col: Seq<State>, st: State)
    ensures
        forall|j: int| 0 <= j < col.len() ==> insert_state(col, st)[j] == col[j],
        col.contains(st) ==> insert_state(col, st) == col,
        !col.contains(st) ==> insert_state(col, st).len() == col.len() + 1
            && insert_state(col, st)[col.len() as int] == st,
        insert_state(col, st).contains(st),
{
    if !col.contains(st) {
        assert(col.push(st)[col.len() as int] == st);
        assert(col.push(st).contains(st));
    }
}

/// Law: insertion never introduces a duplicate into a duplicate-free column.
pub proof fn lemma_insert_no_duplicates(col: Seq<State>, st: State)
    requires
        col.no_duplicates(),
    ensures
        insert_state(col, st).no_duplicates(),
{
    if !col.contains(st) {
        let r = col.push(st);
        assert forall|i: int, j: int| 0 <= i < r.len() && 0 <= j < r.len() && i != j implies r[i]
            != r[j] by {
            if i < col.len() && j < col.len() {
                assert(col[i] != col[j]);
            } else if i < col.len() {
                assert(r[j] == st);
                assert(!col.contains(st));
                assert(col[i] == r[i]);
            } else {
                assert(r[i] == st);
                assert(col[j] == r[j]);
            }
        }
    }
}

} // verus!
