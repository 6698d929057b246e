//! The grammar model: production rules made of terminal and nonterminal parts.

use vstd::prelude::*;

verus! {

/// One symbol on a rule's right-hand side: either a literal token matched by
/// exact string equality, or the name of a rule family expected to be
/// satisfied by some complete derivation.
#[derive(Debug, Clone, PartialEq, Eq)]
pub enum RulePart {
    Terminal(String),
    NonTerminal(String),
}

/// Mathematical mirror of [`RulePart`], over character sequences.
#[verifier::ext_equal]
pub enum SpecRulePart {
    Terminal(Seq<char>),
    NonTerminal(Seq<char>),
}

impl View for RulePart {
    type V = SpecRulePart;

    open spec fn view(&self) -> SpecRulePart {
        match self {
            RulePart::Terminal(t) => SpecRulePart::Terminal(t@),
            RulePart::NonTerminal(n) => SpecRulePart::NonTerminal(n@),
        }
    }
}

/// A production: a nonterminal name and the ordered parts of its right-hand
/// side. Several rules may share a name (alternative productions). A grammar
/// is an ordered list of rules; the first rule is the start rule.
#[derive(Debug, Clone, PartialEq, Eq)]
pub struct Rule {
    pub name: String,
    pub parts: Vec<RulePart>,
}

/// Mathematical mirror of [`Rule`].
#[verifier::ext_equal]
pub struct SpecRule {
    pub name: Seq<char>,
    pub parts: Seq<SpecRulePart>,
}

impl View for Rule {
    type V = SpecRule;

    open spec fn view(&self) -> SpecRule {
        SpecRule { name: self.name@, parts: self.parts@.map(|i: int, p: RulePart| p@) }
    }
}

/// The grammar a `Vec<Rule>` stands for: the sequence of its rules' views.
pub open spec fn view_grammar(g: Seq<Rule>) -> Seq<SpecRule> {
    g.map(|i: int, r: Rule| r@)
}

/// The token sequence a `Vec<String>` stands for.
pub open spec fn view_tokens(t: Seq<String>) -> Seq<Seq<char>> {
    t.map(|i: int, s: String| s@)
}

/// Structural equality of two rule parts, decided by exact string comparison.
pub fn rule_part_eq(a: &RulePart, b: &RulePart) -> (r: bool)
    ensures
        r == (a@ == b@),
{
    match (a, b) {
        (RulePart::Terminal(x), RulePart::Terminal(y)) => *x == *y,
        (RulePart::NonTerminal(x), RulePart::NonTerminal(y)) => *x == *y,
        _ => false,
    }
}

/// Structural equality of two rules: same name and the same parts in order.
pub fn rule_eq(a: &Rule, b: &Rule) -> (r: bool)
    ensures
        r == (a@ == b@),
{
    if !(a.name == b.name) {
        proof {
            assert(a@.name == a.name@);
            assert(b@.name == b.name@);
        }
        return false;
    }
    if a.parts.len() != b.parts.len() {
        proof {
            assert(a@.parts.len() == a.parts@.len());
            assert(b@.parts.len() == b.parts@.len());
        }
        return false;
    }
    let n = a.parts.len();
    let mut i: usize = 0;
    while i < n
        invariant
            i <= n,
            n == a.parts@.len() == b.parts@.len(),
            a@.name == b@.name,
            forall|j: int| 0 <= j < i ==> a@.parts[j] == b@.parts[j],
        decreases n - i,
    {
        if !rule_part_eq(&a.parts[i], &b.parts[i]) {
            assert(a@.parts[i as int] != b@.parts[i as int]);
            return false;
        }
        i += 1;
    }
    proof {
        assert(a@.parts =~= b@.parts);
        assert(a@ =~= b@);
    }
    true
}

} // verus!
