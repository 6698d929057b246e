//! Why the fixpoint passes terminate: a duplicate-free column of valid states
//! can never exceed [`column_bound`], because each valid (rule, dot, origin)
//! triple encodes injectively into an integer below that bound.

use vstd::prelude::*;
use vstd::set_lib::{lemma_int_range, lemma_len_subset, set_int_range};

use crate::grammar::SpecRule;
use crate::semantics::{column_bound, max_parts, valid_state, wf_col};
use crate::state::State;

verus! {

/// A state's place in the mixed-radix numbering of (rule, dot, origin)
/// triples.
pub open spec fn encode(g: Seq<SpecRule>, st: State) -> int {
    st.rule + g.len() * (st.dot + (max_parts(g) + 1) * st.origin)
}

/// No rule's right-hand side is longer than `max_parts`.
pub proof fn lemma_max_parts(g: Seq<SpecRule>, j: int)
    requires
        0 <= j < g.len(),
    ensures
        g[j].parts.len() <= max_parts(g),
    decreases g.len(),
{
    if j < g.len() - 1 {
        lemma_max_parts(g.drop_last(), j);
        assert(g.drop_last()[j] == g[j]);
    }
}

/// A valid state's encoding lies below the column bound.
pub proof fn lemma_encode_in_range(g: Seq<SpecRule>, n: nat, c: int, st: State)
    requires
        valid_state(g, c, st),
        0 <= c <= n,
    ensures
        0 <= encode(g, st) < column_bound(g, n),
{
    let r = st.rule as int;
    let d = st.dot as int;
    let o = st.origin as int;
    let rn = g.len() as int;
    let l = max_parts(g) as int;
    lemma_max_parts(g, r);
    assert(r + rn * (d + (l + 1) * o) < rn * (l + 1) * (n + 1)) by (nonlinear_arith)
        requires
            0 <= r < rn,
            0 <= d <= l,
            0 <= o <= n,
    ;
    assert(r + rn * (d + (l + 1) * o) >= 0) by (nonlinear_arith)
        requires
            0 <= r,
            0 <= d,
            0 <= o,
            0 <= l,
            0 <= rn,
    ;
}

/// The encoding is injective on valid states.
pub proof fn lemma_encode_injective(g: Seq<SpecRule>, c1: int, c2: int, a: State, b: State)
    requires
        valid_state(g, c1, a),
        valid_state(g, c2, b),
        encode(g, a) == encode(g, b),
    ensures
        a == b,
{
    let rn = g.len() as int;
    let l = max_parts(g) as int;
    let xa = a.dot + (l + 1) * a.origin;
    let xb = b.dot + (l + 1) * b.origin;
    lemma_max_parts(g, a.rule as int);
    lemma_max_parts(g, b.rule as int);
    assert(a.rule == b.rule && xa == xb) by (nonlinear_arith)
        requires
            0 <= a.rule < rn,
            0 <= b.rule < rn,
            xa >= 0,
            xb >= 0,
            a.rule + rn * xa == b.rule + rn * xb,
    ;
    assert(a.dot == b.dot && a.origin == b.origin) by (nonlinear_arith)
        requires
            0 <= a.dot <= l,
            0 <= b.dot <= l,
            a.origin >= 0,
            b.origin >= 0,
            xa == a.dot + (l + 1) * a.origin,
            xb == b.dot + (l + 1) * b.origin,
            xa == xb,
    ;
}

/// A well-formed column never outgrows the column bound: its states are
/// distinct and each encodes to a distinct integer below the bound.
pub proof fn lemma_col_len_bounded(g: Seq<SpecRule>, n: nat, c: int, col: Seq<State>)
    requires
        wf_col(g, c, col),
        0 <= c <= n,
    ensures
        col.len() <= column_bound(g, n),
{
    let bound = column_bound(g, n) as int;
    let enc = Seq::new(col.len(), |i: int| encode(g, col[i]));
    assert forall|i: int, j: int|
        0 <= i < enc.len() && 0 <= j < enc.len() && i != j implies enc[i] != enc[j] by {
        if enc[i] == enc[j] {
            lemma_encode_injective(g, c, c, col[i], col[j]);
        }
    }
    enc.unique_seq_to_set();
    assert(enc.to_set().subset_of(set_int_range(0, bound))) by {
        assert forall|x: int| enc.to_set().contains(x) implies set_int_range(
            0,
            bound,
        ).contains(x) by {
            let i = choose|i: int| 0 <= i < enc.len() && enc[i] == x;
            lemma_encode_in_range(g, n, c, col[i]);
        }
    }
    lemma_int_range(0, bound);
    lemma_len_subset(enc.to_set(), set_int_range(0, bound));
}

} // verus!
