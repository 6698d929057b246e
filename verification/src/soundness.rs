//! Soundness of acceptance: every state the chart construction records is
//! justified by a real derivation, so the recognizer never accepts without
//! one. The converse — that every derivable input is accepted — is not
//! stated here.

use vstd::prelude::*;

use crate::derivation::{
    derives_part, derives_parts, lemma_derives_extend, lemma_derives_part_mono,
    lemma_derives_parts_mono,
};
use crate::grammar::{Rule, SpecRule, SpecRulePart, view_grammar, view_tokens};
use crate::semantics::{
    SpecChart, accepts_col, column_bound, complete_from, init_chart, is_complete, lemma_wf_insert,
    predict_from, run_chart, run_column, seed_state, spec_parse, step_state, valid_state, wf_chart,
};
use crate::state::{State, advance, insert_state, next_part};

verus! {

/// A grammar that fits in memory: the rule list and every right-hand side
/// are indexable, as they are for any grammar held in a vector.
pub open spec fn bounded_grammar(g: Seq<SpecRule>) -> bool {
    &&& g.len() <= usize::MAX
    &&& forall|j: int| 0 <= j < g.len() ==> (#[trigger] g[j].parts).len() <= usize::MAX
}

/// A state is justified at column `k`: the matched prefix of its rule
/// derives exactly the tokens from its origin through `k`.
pub open spec fn sound_state(g: Seq<SpecRule>, t: Seq<Seq<char>>, k: int, st: State) -> bool {
    exists|d: nat|
        derives_parts(
            g,
            g[st.rule as int].parts.subrange(0, st.dot as int),
            t.subrange(st.origin as int, k),
            d,
        )
}

/// Every state in every column is justified.
pub open spec fn sound_chart(g: Seq<SpecRule>, t: Seq<Seq<char>>, chart: SpecChart) -> bool {
    forall|c: int, i: int|
        0 <= c < chart.len() && 0 <= i < chart[c].len() ==> sound_state(
            g,
            t,
            c,
            #[trigger] chart[c][i],
        )
}

/// Inserting a justified state keeps the chart justified.
proof fn lemma_sound_insert(
    g: Seq<SpecRule>,
    t: Seq<Seq<char>>,
    chart: SpecChart,
    c: int,
    st: State,
)
    requires
        sound_chart(g, t, chart),
        0 <= c < chart.len(),
        sound_state(g, t, c, st),
    ensures
        sound_chart(g, t, chart.update(c, insert_state(chart[c], st))),
{
    let chart2 = chart.update(c, insert_state(chart[c], st));
    assert forall|c2: int, i: int|
        0 <= c2 < chart2.len() && 0 <= i < chart2[c2].len() implies sound_state(
        g,
        t,
        c2,
        #[trigger] chart2[c2][i],
    ) by {
        if c2 == c {
            if i < chart[c].len() {
                assert(chart2[c2][i] == chart[c2][i]);
                assert(sound_state(g, t, c2, chart[c2][i]));
            } else {
                assert(chart2[c2][i] == st);
            }
        } else {
            assert(chart2[c2][i] == chart[c2][i]);
            assert(sound_state(g, t, c2, chart[c2][i]));
        }
    }
}

/// The predictor's insertions are justified: a fresh state has matched
/// nothing over the empty span from `k` to `k`.
proof fn lemma_predict_sound(
    g: Seq<SpecRule>,
    t: Seq<Seq<char>>,
    chart: SpecChart,
    k: int,
    nt: Seq<char>,
    j: int,
)
    requires
        wf_chart(g, t.len() as nat, chart),
        sound_chart(g, t, chart),
        bounded_grammar(g),
        t.len() <= usize::MAX,
        0 <= k <= t.len(),
    ensures
        predict_from(g, chart, k, nt, j).len() == chart.len(),
        wf_chart(g, t.len() as nat, predict_from(g, chart, k, nt, j)),
        sound_chart(g, t, predict_from(g, chart, k, nt, j)),
    decreases g.len() - j,
{
    if j < 0 || j >= g.len() {
    } else {
        if g[j].name == nt {
            let st = State { rule: j as usize, dot: 0, origin: k as usize };
            let chart2 = chart.update(k, insert_state(chart[k], st));
            assert(st.rule == j && st.origin == k);
            assert(g[st.rule as int].parts.subrange(0, 0) =~= Seq::<SpecRulePart>::empty());
            assert(t.subrange(k, k).len() == 0);
            assert(derives_parts(
                g,
                g[st.rule as int].parts.subrange(0, st.dot as int),
                t.subrange(st.origin as int, k),
                0,
            ));
            assert(sound_state(g, t, k, st));
            assert(valid_state(g, k, st));
            lemma_wf_insert(g, t.len() as nat, chart, k, st);
            lemma_sound_insert(g, t, chart, k, st);
            lemma_predict_sound(g, t, chart2, k, nt, j + 1);
        } else {
            lemma_predict_sound(g, t, chart, k, nt, j + 1);
        }
    }
}

/// The completer's insertions are justified: the advanced state's new part
/// is the nonterminal `name`, which derives the tokens from `pos` to `k`.
proof fn lemma_complete_sound(
    g: Seq<SpecRule>,
    t: Seq<Seq<char>>,
    chart: SpecChart,
    k: int,
    name: Seq<char>,
    pos: int,
    j: int,
    fuel: nat,
    dnt: nat,
)
    requires
        wf_chart(g, t.len() as nat, chart),
        sound_chart(g, t, chart),
        bounded_grammar(g),
        t.len() <= usize::MAX,
        0 <= pos <= k <= t.len(),
        derives_part(g, SpecRulePart::NonTerminal(name), t.subrange(pos, k), dnt),
    ensures
        complete_from(g, chart, k, name, pos, j, fuel).len() == chart.len(),
        wf_chart(g, t.len() as nat, complete_from(g, chart, k, name, pos, j, fuel)),
        sound_chart(g, t, complete_from(g, chart, k, name, pos, j, fuel)),
    decreases fuel,
{
    if fuel == 0 || j < 0 || j >= chart[pos].len() {
    } else {
        let st = chart[pos][j];
        assert(valid_state(g, pos, st));
        assert(sound_state(g, t, pos, st));
        let chart2 = match next_part(g, st) {
            Some(SpecRulePart::NonTerminal(nt)) => if nt == name {
                chart.update(k, insert_state(chart[k], advance(st)))
            } else {
                chart
            },
            _ => chart,
        };
        match next_part(g, st) {
            Some(SpecRulePart::NonTerminal(nt)) => {
                if nt == name {
                    let adv = advance(st);
                    let o = st.origin as int;
                    let ps = g[st.rule as int].parts;
                    assert(st.dot < ps.len());
                    assert(ps[st.dot as int] == SpecRulePart::NonTerminal(name));
                    assert(adv.dot == st.dot + 1);
                    let d2 = choose|d: nat|
                        derives_parts(g, ps.subrange(0, st.dot as int), t.subrange(o, pos), d);
                    let dd = (d2 + dnt) as nat;
                    lemma_derives_parts_mono(
                        g,
                        ps.subrange(0, st.dot as int),
                        t.subrange(o, pos),
                        d2,
                        dd,
                    );
                    lemma_derives_part_mono(
                        g,
                        SpecRulePart::NonTerminal(name),
                        t.subrange(pos, k),
                        dnt,
                        dd,
                    );
                    lemma_derives_extend(
                        g,
                        ps,
                        st.dot as int,
                        t.subrange(o, pos),
                        t.subrange(pos, k),
                        dd,
                    );
                    assert(t.subrange(o, pos) + t.subrange(pos, k) =~= t.subrange(o, k));
                    assert(derives_parts(
                        g,
                        g[adv.rule as int].parts.subrange(0, adv.dot as int),
                        t.subrange(adv.origin as int, k),
                        dd,
                    ));
                    assert(sound_state(g, t, k, adv));
                    assert(valid_state(g, k, adv));
                    lemma_wf_insert(g, t.len() as nat, chart, k, adv);
                    lemma_sound_insert(g, t, chart, k, adv);
                }
            },
            _ => {},
        }
        lemma_complete_sound(g, t, chart2, k, name, pos, j + 1, (fuel - 1) as nat, dnt);
    }
}

/// One inference step keeps the chart justified.
proof fn lemma_step_sound(
    g: Seq<SpecRule>,
    t: Seq<Seq<char>>,
    chart: SpecChart,
    k: int,
    i: int,
    fuel: nat,
)
    requires
        wf_chart(g, t.len() as nat, chart),
        sound_chart(g, t, chart),
        bounded_grammar(g),
        t.len() <= usize::MAX,
        0 <= k <= t.len(),
        0 <= i < chart[k].len(),
    ensures
        step_state(g, t, chart, k, i, fuel).len() == chart.len(),
        wf_chart(g, t.len() as nat, step_state(g, t, chart, k, i, fuel)),
        sound_chart(g, t, step_state(g, t, chart, k, i, fuel)),
{
    let st = chart[k][i];
    assert(valid_state(g, k, st));
    assert(sound_state(g, t, k, st));
    let o = st.origin as int;
    let ps = g[st.rule as int].parts;
    match next_part(g, st) {
        Some(SpecRulePart::NonTerminal(nt)) => {
            lemma_predict_sound(g, t, chart, k, nt, 0);
        },
        Some(SpecRulePart::Terminal(term)) => {
            if k < t.len() && t[k] == term {
                let adv = advance(st);
                assert(st.dot < ps.len());
                assert(ps[st.dot as int] == SpecRulePart::Terminal(term));
                let d2 = choose|d: nat|
                    derives_parts(g, ps.subrange(0, st.dot as int), t.subrange(o, k), d);
                assert(t.subrange(k, k + 1) =~= seq![term]);
                assert(derives_part(g, SpecRulePart::Terminal(term), t.subrange(k, k + 1), d2));
                lemma_derives_extend(
                    g,
                    ps,
                    st.dot as int,
                    t.subrange(o, k),
                    t.subrange(k, k + 1),
                    d2,
                );
                assert(t.subrange(o, k) + t.subrange(k, k + 1) =~= t.subrange(o, k + 1));
                assert(derives_parts(
                    g,
                    g[adv.rule as int].parts.subrange(0, adv.dot as int),
                    t.subrange(adv.origin as int, k + 1),
                    d2,
                ));
                assert(sound_state(g, t, k + 1, adv));
                assert(valid_state(g, k + 1, adv));
                lemma_wf_insert(g, t.len() as nat, chart, k + 1, adv);
                lemma_sound_insert(g, t, chart, k + 1, adv);
            }
        },
        None => {
            // The state is complete: its whole right-hand side derives the
            // span, so its nonterminal does too, one expansion deeper.
            assert(st.dot == ps.len());
            assert(ps.subrange(0, st.dot as int) =~= ps);
            let d2 = choose|d: nat| derives_parts(g, ps.subrange(0, st.dot as int), t.subrange(o, k), d);
            let name = g[st.rule as int].name;
            assert(derives_parts(g, g[st.rule as int].parts, t.subrange(o, k), d2));
            assert(derives_part(g, SpecRulePart::NonTerminal(name), t.subrange(o, k), d2 + 1))
                by {
                assert(0 <= st.rule < g.len() && g[st.rule as int].name == name && derives_parts(
                    g,
                    g[st.rule as int].parts,
                    t.subrange(o, k),
                    ((d2 + 1) - 1) as nat,
                ));
            }
            lemma_complete_sound(g, t, chart, k, name, o, 0, fuel, (d2 + 1) as nat);
        },
    }
}

/// A whole column pass keeps the chart justified.
proof fn lemma_run_column_sound(
    g: Seq<SpecRule>,
    t: Seq<Seq<char>>,
    chart: SpecChart,
    k: int,
    i: int,
    full: nat,
    fuel: nat,
)
    requires
        wf_chart(g, t.len() as nat, chart),
        sound_chart(g, t, chart),
        bounded_grammar(g),
        t.len() <= usize::MAX,
        0 <= k <= t.len(),
    ensures
        run_column(g, t, chart, k, i, full, fuel).len() == chart.len(),
        wf_chart(g, t.len() as nat, run_column(g, t, chart, k, i, full, fuel)),
        sound_chart(g, t, run_column(g, t, chart, k, i, full, fuel)),
    decreases fuel,
{
    if fuel == 0 || i < 0 || i >= chart[k].len() {
    } else {
        lemma_step_sound(g, t, chart, k, i, full);
        lemma_run_column_sound(
            g,
            t,
            step_state(g, t, chart, k, i, full),
            k,
            i + 1,
            full,
            (fuel - 1) as nat,
        );
    }
}

/// All column passes keep the chart justified.
proof fn lemma_run_chart_sound(
    g: Seq<SpecRule>,
    t: Seq<Seq<char>>,
    chart: SpecChart,
    k: int,
    fuel: nat,
)
    requires
        wf_chart(g, t.len() as nat, chart),
        sound_chart(g, t, chart),
        bounded_grammar(g),
        t.len() <= usize::MAX,
    ensures
        run_chart(g, t, chart, k, fuel).len() == chart.len(),
        wf_chart(g, t.len() as nat, run_chart(g, t, chart, k, fuel)),
        sound_chart(g, t, run_chart(g, t, chart, k, fuel)),
    decreases t.len() + 1 - k,
{
    if k < 0 || k > t.len() {
    } else {
        lemma_run_column_sound(g, t, chart, k, 0, fuel, fuel);
        lemma_run_chart_sound(g, t, run_column(g, t, chart, k, 0, fuel, fuel), k + 1, fuel);
    }
}

/// The freshly seeded chart is well-formed and justified.
proof fn lemma_init_sound(g: Seq<SpecRule>, t: Seq<Seq<char>>)
    requires
        0 < g.len(),
    ensures
        wf_chart(g, t.len() as nat, init_chart(t.len())),
        sound_chart(g, t, init_chart(t.len())),
{
    let chart = init_chart(t.len());
    let seed = seed_state();
    assert(seq![seed].no_duplicates());
    assert(valid_state(g, 0, seed));
    assert(g[seed.rule as int].parts.subrange(0, 0) =~= Seq::<SpecRulePart>::empty());
    assert(t.subrange(0, 0).len() == 0);
    assert(derives_parts(
        g,
        g[seed.rule as int].parts.subrange(0, seed.dot as int),
        t.subrange(seed.origin as int, 0),
        0,
    ));
    assert(sound_state(g, t, 0, seed));
    assert forall|c: int, i: int|
        0 <= c < chart.len() && 0 <= i < chart[c].len() implies sound_state(
        g,
        t,
        c,
        #[trigger] chart[c][i],
    ) by {
        assert(c == 0 && i == 0);
        assert(chart[c][i] == seed);
    }
}

/// Law (soundness of acceptance): whenever recognition succeeds, the start
/// rule's right-hand side really derives the tokens from some position
/// through the input's end — acceptance is never reported without a
/// derivation in the grammar. `bounded_grammar` only asks that each rule's
/// right-hand side be indexable, which holds of any grammar held in memory.
pub proof fn theorem_accept_has_derivation(g: Seq<SpecRule>, t: Seq<Seq<char>>)
    requires
        bounded_grammar(g),
        t.len() <= usize::MAX,
        spec_parse(g, t) is Some,
    ensures
        exists|o: int, d: nat|
            0 <= o <= t.len() && derives_parts(g, g[0].parts, t.subrange(o, t.len() as int), d),
{
    let n = t.len() as int;
    let fuel = column_bound(g, t.len());
    let chart = run_chart(g, t, init_chart(t.len()), 0, fuel);
    lemma_init_sound(g, t);
    lemma_run_chart_sound(g, t, init_chart(t.len()), 0, fuel);
    assert(accepts_col(g, chart[n]));
    let i = choose|i: int|
        0 <= i < chart[n].len() && is_complete(g, #[trigger] chart[n][i])
            && g[chart[n][i].rule as int] == g[0];
    let st = chart[n][i];
    assert(valid_state(g, n, st));
    assert(sound_state(g, t, n, st));
    let o = st.origin as int;
    let d = choose|d: nat|
        derives_parts(
            g,
            g[st.rule as int].parts.subrange(0, st.dot as int),
            t.subrange(o, n),
            d,
        );
    assert(st.dot == g[st.rule as int].parts.len());
    assert(g[st.rule as int].parts.subrange(0, st.dot as int) =~= g[st.rule as int].parts);
    assert(g[st.rule as int].parts == g[0].parts);
    assert(derives_parts(g, g[0].parts, t.subrange(o, n), d));
    assert(0 <= o <= t.len());
}

/// Grammars and token lists held in vectors meet the in-memory bounds.
pub proof fn lemma_vec_inputs_bounded(grammar: &Vec<Rule>, tokens: &Vec<String>)
    ensures
        bounded_grammar(view_grammar(grammar@)),
        view_tokens(tokens@).len() <= usize::MAX,
{
    let g = view_grammar(grammar@);
    assert(tokens.len() == tokens@.len());
    assert(grammar.len() == grammar@.len());
    assert forall|j: int| 0 <= j < g.len() implies (#[trigger] g[j].parts).len()
        <= usize::MAX by {
        assert(g[j] == grammar@[j]@);
        assert(grammar@[j].parts.len() == grammar@[j].parts@.len());
        assert(g[j].parts.len() == grammar@[j].parts@.len());
    }
}

/// Law (soundness of acceptance), over the recognizer's own argument types:
/// whenever recognition of `tokens` under `grammar` succeeds, the start
/// rule's right-hand side derives the tokens from some position through the
/// input's end.
pub proof fn theorem_parse_accept_sound(grammar: &Vec<Rule>, tokens: &Vec<String>)
    requires
        spec_parse(view_grammar(grammar@), view_tokens(tokens@)) is Some,
    ensures
        exists|o: int, d: nat|
            0 <= o <= tokens@.len() && derives_parts(
                view_grammar(grammar@),
                view_grammar(grammar@)[0].parts,
                view_tokens(tokens@).subrange(o, tokens@.len() as int),
                d,
            ),
{
    lemma_vec_inputs_bounded(grammar, tokens);
    theorem_accept_has_derivation(view_grammar(grammar@), view_tokens(tokens@));
    assert(view_tokens(tokens@).len() == tokens@.len());
}

} // verus!
