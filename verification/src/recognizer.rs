//! The executable recognizer: seeds the chart, runs the
//! predictor/scanner/completer fixpoint over every column, and reads off the
//! accept-or-reject outcome. Each function is proved to compute exactly its spec-level
//! counterpart from [`crate::semantics`].

use vstd::prelude::*;

use crate::bounds::lemma_col_len_bounded;
use crate::derivation::derives_parts;
use crate::soundness::theorem_parse_accept_sound;
use crate::grammar::{Rule, RulePart, rule_eq, view_grammar, view_tokens};
use crate::semantics::{
    SpecChart, column_bound, complete_from, init_chart, is_complete, predict_from, run_chart,
    accepts_col, lemma_wf_insert, run_column, seed_state, spec_parse, step_state, valid_state,
    wf_chart,
};
use crate::state::{State, StateSet, advance, insert_state};

verus! {

/// The chart a `Vec<StateSet>` stands for: the sequence of its columns'
/// views.
pub open spec fn view_chart(c: Seq<StateSet>) -> SpecChart {
    c.map(|i: int, s: StateSet| s@)
}

/// The recognizer's result, seen at the spec level.
pub open spec fn chart_option_view(r: Option<Vec<StateSet>>) -> Option<SpecChart> {
    match r {
        Some(c) => Some(view_chart(c@)),
        None => None,
    }
}

/// Insert `st` into column `c` of the chart, deduplicating.
fn chart_add(chart: &mut Vec<StateSet>, c: usize, st: State)
    requires
        c < old(chart)@.len(),
    ensures
        final(chart)@.len() == old(chart)@.len(),
        view_chart(final(chart)@) == view_chart(old(chart)@).update(
            c as int,
            insert_state(view_chart(old(chart)@)[c as int], st),
        ),
{
    let col = &mut chart[c];
    col.add_to_set(st);
    proof {
        assert(view_chart(chart@) =~= view_chart(old(chart)@).update(
            c as int,
            insert_state(view_chart(old(chart)@)[c as int], st),
        ));
    }
}

/// The predictor at column `k`: for every grammar rule named `nt`, in
/// declaration order, insert a fresh zero-progress state with origin `k`.
fn predict(chart: &mut Vec<StateSet>, grammar: &Vec<Rule>, k: usize, nt: &String, Ghost(n): Ghost<nat>)
    requires
        old(chart)@.len() == n + 1,
        k <= n,
        wf_chart(view_grammar(grammar@), n, view_chart(old(chart)@)),
    ensures
        final(chart)@.len() == old(chart)@.len(),
        view_chart(final(chart)@) == predict_from(
            view_grammar(grammar@),
            view_chart(old(chart)@),
            k as int,
            nt@,
            0,
        ),
        wf_chart(view_grammar(grammar@), n, view_chart(final(chart)@)),
{
    let ghost g = view_grammar(grammar@);
    let ghost c0 = view_chart(old(chart)@);
    let rcount = grammar.len();
    let mut j: usize = 0;
    while j < rcount
        invariant
            j <= rcount,
            rcount == grammar@.len(),
            g == view_grammar(grammar@),
            c0 == view_chart(old(chart)@),
            chart@.len() == n + 1,
            k <= n,
            wf_chart(g, n, view_chart(chart@)),
            predict_from(g, c0, k as int, nt@, 0) == predict_from(
                g,
                view_chart(chart@),
                k as int,
                nt@,
                j as int,
            ),
        decreases rcount - j,
    {
        let ghost prev = view_chart(chart@);
        if grammar[j].name == *nt {
            proof {
                assert(g[j as int] == grammar@[j as int]@);
                assert(valid_state(g, k as int, State { rule: j, dot: 0, origin: k }));
                lemma_wf_insert(g, n, prev, k as int, State { rule: j, dot: 0, origin: k });
            }
            chart_add(chart, k, State { rule: j, dot: 0, origin: k });
        } else {
            proof {
                assert(g[j as int] == grammar@[j as int]@);
            }
        }
        proof {
            assert(predict_from(g, prev, k as int, nt@, j as int) == predict_from(
                g,
                view_chart(chart@),
                k as int,
                nt@,
                j + 1,
            ));
        }
        j += 1;
    }
}

/// The completer: a rule named `name` finished at column `k` having begun at
/// column `pos`, so every state in column `pos` expecting that nonterminal
/// advances into column `k`. When `pos == k`, an insertion lengthens the very
/// column being walked; dedup keeps that growth below [`column_bound`].
fn complete(
    chart: &mut Vec<StateSet>,
    grammar: &Vec<Rule>,
    k: usize,
    name: &String,
    pos: usize,
    Ghost(n): Ghost<nat>,
)
    requires
        old(chart)@.len() == n + 1,
        pos <= k <= n,
        wf_chart(view_grammar(grammar@), n, view_chart(old(chart)@)),
    ensures
        final(chart)@.len() == old(chart)@.len(),
        view_chart(final(chart)@) == complete_from(
            view_grammar(grammar@),
            view_chart(old(chart)@),
            k as int,
            name@,
            pos as int,
            0,
            column_bound(view_grammar(grammar@), n),
        ),
        wf_chart(view_grammar(grammar@), n, view_chart(final(chart)@)),
{
    let ghost g = view_grammar(grammar@);
    let ghost c0 = view_chart(old(chart)@);
    let ghost fuel = column_bound(g, n);
    let mut j: usize = 0;
    while j < chart[pos].0.len()
        invariant
            chart@.len() == n + 1,
            pos <= k <= n,
            g == view_grammar(grammar@),
            c0 == view_chart(old(chart)@),
            fuel == column_bound(g, n),
            j <= fuel,
            wf_chart(g, n, view_chart(chart@)),
            complete_from(g, c0, k as int, name@, pos as int, 0, fuel) == complete_from(
                g,
                view_chart(chart@),
                k as int,
                name@,
                pos as int,
                j as int,
                (fuel - j) as nat,
            ),
        decreases fuel - j,
    {
        let ghost prev = view_chart(chart@);
        let st2 = chart[pos].0[j];
        proof {
            assert(st2 == prev[pos as int][j as int]);
            assert(valid_state(g, pos as int, st2));
            lemma_col_len_bounded(g, n, pos as int, prev[pos as int]);
        }
        match st2.next_element(grammar) {
            Some(p) => {
                match p {
                    RulePart::NonTerminal(nt2) => {
                        if *nt2 == *name {
                            let rlen = grammar[st2.rule].parts.len();
                            proof {
                                assert(g[st2.rule as int] == grammar@[st2.rule as int]@);
                                assert(rlen == g[st2.rule as int].parts.len());
                                assert(st2.dot < rlen);
                            }
                            let adv = State { rule: st2.rule, dot: st2.dot + 1, origin: st2.origin };
                            proof {
                                assert(adv == advance(st2));
                                assert(valid_state(g, k as int, adv));
                                lemma_wf_insert(g, n, prev, k as int, adv);
                            }
                            chart_add(chart, k, adv);
                        }
                    },
                    RulePart::Terminal(_) => {},
                }
            },
            None => {},
        }
        proof {
            assert(complete_from(g, prev, k as int, name@, pos as int, j as int, (fuel - j) as nat)
                == complete_from(
                g,
                view_chart(chart@),
                k as int,
                name@,
                pos as int,
                j + 1,
                (fuel - (j + 1)) as nat,
            ));
        }
        j += 1;
    }
}

/// One full fixpoint pass over column `k`: apply the inference step to every
/// state in the column, including states the pass itself appends, until none
/// is left. The pass scans only where a real token exists, so the pass at
/// column `tokens.len()` is closure-only — an explicit no-scan mode, never a
/// sentinel token that a grammar's terminal could collide with.
fn process_column(chart: &mut Vec<StateSet>, grammar: &Vec<Rule>, tokens: &Vec<String>, k: usize)
    requires
        old(chart)@.len() == tokens@.len() + 1,
        k <= tokens@.len(),
        wf_chart(view_grammar(grammar@), tokens@.len() as nat, view_chart(old(chart)@)),
    ensures
        final(chart)@.len() == old(chart)@.len(),
        view_chart(final(chart)@) == run_column(
            view_grammar(grammar@),
            view_tokens(tokens@),
            view_chart(old(chart)@),
            k as int,
            0,
            column_bound(view_grammar(grammar@), tokens@.len() as nat),
            column_bound(view_grammar(grammar@), tokens@.len() as nat),
        ),
        wf_chart(view_grammar(grammar@), tokens@.len() as nat, view_chart(final(chart)@)),
{
    let ghost g = view_grammar(grammar@);
    let ghost ts = view_tokens(tokens@);
    let ghost n = tokens@.len() as nat;
    let ghost c0 = view_chart(old(chart)@);
    let ghost fuel = column_bound(g, n);
    let mut i: usize = 0;
    while i < chart[k].0.len()
        invariant
            chart@.len() == n + 1,
            k <= n,
            n == tokens@.len(),
            g == view_grammar(grammar@),
            ts == view_tokens(tokens@),
            c0 == view_chart(old(chart)@),
            fuel == column_bound(g, n),
            i <= fuel,
            wf_chart(g, n, view_chart(chart@)),
            run_column(g, ts, c0, k as int, 0, fuel, fuel) == run_column(
                g,
                ts,
                view_chart(chart@),
                k as int,
                i as int,
                fuel,
                (fuel - i) as nat,
            ),
        decreases fuel - i,
    {
        let ghost prev = view_chart(chart@);
        let st = chart[k].0[i];
        proof {
            assert(st == prev[k as int][i as int]);
            assert(valid_state(g, k as int, st));
            lemma_col_len_bounded(g, n, k as int, prev[k as int]);
        }
        match st.next_element(grammar) {
            Some(p) => match p {
                RulePart::NonTerminal(nt) => {
                    predict(chart, grammar, k, nt, Ghost(n));
                },
                RulePart::Terminal(term) => {
                    if k < tokens.len() && *term == tokens[k] {
                        let rlen = grammar[st.rule].parts.len();
                        proof {
                            assert(g[st.rule as int] == grammar@[st.rule as int]@);
                            assert(rlen == g[st.rule as int].parts.len());
                            assert(st.dot < rlen);
                        }
                        let adv = State { rule: st.rule, dot: st.dot + 1, origin: st.origin };
                        proof {
                            assert(adv == advance(st));
                            assert(ts[k as int] == tokens@[k as int]@);
                            assert(valid_state(g, k + 1, adv));
                            lemma_wf_insert(g, n, prev, k + 1, adv);
                        }
                        chart_add(chart, k + 1, adv);
                    } else {
                        proof {
                            if k < tokens@.len() {
                                assert(ts[k as int] == tokens@[k as int]@);
                            }
                        }
                    }
                },
            },
            None => {
                let name = &grammar[st.rule].name;
                let pos = st.origin;
                proof {
                    assert(g[st.rule as int] == grammar@[st.rule as int]@);
                    assert(name@ == g[st.rule as int].name);
                }
                complete(chart, grammar, k, name, pos, Ghost(n));
            },
        }
        proof {
            assert(view_chart(chart@) == step_state(g, ts, prev, k as int, i as int, fuel));
            assert(run_column(g, ts, prev, k as int, i as int, fuel, (fuel - i) as nat)
                == run_column(
                g,
                ts,
                view_chart(chart@),
                k as int,
                i + 1,
                fuel,
                (fuel - (i + 1)) as nat,
            ));
        }
        i += 1;
    }
}

/// The recognizer: build the chart for `tokens` under `grammar` and report
/// its outcome: the full chart is returned iff the final column holds a complete
/// state whose rule is structurally equal to the start rule; returns `None`
/// on that failing, as well as on an empty grammar or an empty token
/// sequence, where no chart is built at all. The result is exactly
/// [`spec_parse`] of the inputs, so equal inputs always give structurally
/// identical charts and the same outcome.
pub fn parse(tokens: &Vec<String>, grammar: &Vec<Rule>) -> (r: Option<Vec<StateSet>>)
    ensures
        chart_option_view(r) == spec_parse(view_grammar(grammar@), view_tokens(tokens@)),
        grammar@.len() == 0 ==> r is None,
        tokens@.len() == 0 ==> r is None,
        r matches Some(c) ==> wf_chart(
            view_grammar(grammar@),
            tokens@.len() as nat,
            view_chart(c@),
        ),
        // Soundness: acceptance is never reported without a derivation; the
        // start rule's right-hand side derives the tokens from some position
        // through the input's end.
        r is Some ==> exists|o: int, d: nat|
            0 <= o <= tokens@.len() && derives_parts(
                view_grammar(grammar@),
                view_grammar(grammar@)[0].parts,
                view_tokens(tokens@).subrange(o, tokens@.len() as int),
                d,
            ),
{
    let ghost g = view_grammar(grammar@);
    let ghost ts = view_tokens(tokens@);
    if grammar.len() == 0 {
        return None;
    }
    let n = tokens.len();
    if n == 0 {
        return None;
    }
    let ghost fuel = column_bound(g, n as nat);

    // One empty column per input position, 0 through n inclusive.
    let mut chart: Vec<StateSet> = Vec::new();
    chart.push(StateSet::new());
    let mut c: usize = 0;
    while c < n
        invariant
            c <= n,
            chart@.len() == c + 1,
            forall|q: int| 0 <= q < chart@.len() ==> #[trigger] chart@[q]@ == Seq::<State>::empty(),
        decreases n - c,
    {
        chart.push(StateSet::new());
        c += 1;
    }

    // Seed: the start rule, nothing matched, origin 0.
    chart_add(&mut chart, 0, State { rule: 0, dot: 0, origin: 0 });
    proof {
        assert(insert_state(Seq::<State>::empty(), seed_state()) =~= seq![seed_state()]);
        assert(view_chart(chart@) =~= init_chart(n as nat));
        assert(seq![seed_state()].no_duplicates());
        assert(g[0] == grammar@[0]@);
        assert(valid_state(g, 0, seed_state()));
        assert(wf_chart(g, n as nat, view_chart(chart@)));
    }

    // Process every column left to right; the pass at column n never scans.
    let mut k: usize = 0;
    loop
        invariant_except_break
            k <= n,
            run_chart(g, ts, init_chart(n as nat), 0, fuel) == run_chart(
                g,
                ts,
                view_chart(chart@),
                k as int,
                fuel,
            ),
        invariant
            n == tokens@.len(),
            0 < n,
            g == view_grammar(grammar@),
            0 < g.len(),
            ts == view_tokens(tokens@),
            fuel == column_bound(g, n as nat),
            chart@.len() == n + 1,
            wf_chart(g, n as nat, view_chart(chart@)),
        ensures
            view_chart(chart@) == run_chart(g, ts, init_chart(n as nat), 0, fuel),
        decreases n - k,
    {
        let ghost prev = view_chart(chart@);
        process_column(&mut chart, grammar, tokens, k);
        proof {
            assert(run_chart(g, ts, prev, k as int, fuel) == run_chart(
                g,
                ts,
                view_chart(chart@),
                k + 1,
                fuel,
            ));
        }
        if k == n {
            proof {
                assert(run_chart(g, ts, view_chart(chart@), k + 1, fuel) == view_chart(chart@));
            }
            break;
        }
        k += 1;
    }

    // Acceptance: a complete state in the final column whose rule equals the
    // start rule.
    let ghost fc = view_chart(chart@);
    let m = chart[n].0.len();
    let mut accept = false;
    let mut i: usize = 0;
    while i < m
        invariant
            i <= m,
            n < chart@.len(),
            n == tokens@.len(),
            g == view_grammar(grammar@),
            0 < g.len(),
            fc == view_chart(chart@),
            m == fc[n as int].len(),
            wf_chart(g, n as nat, fc),
            accept <==> exists|q: int|
                0 <= q < i && is_complete(g, #[trigger] fc[n as int][q])
                    && g[fc[n as int][q].rule as int] == g[0],
        decreases m - i,
    {
        let st = chart[n].0[i];
        proof {
            assert(st == fc[n as int][i as int]);
            assert(valid_state(g, n as int, st));
        }
        let rlen = grammar[st.rule].parts.len();
        proof {
            assert(g[st.rule as int] == grammar@[st.rule as int]@);
            assert(rlen == g[st.rule as int].parts.len());
        }
        if st.dot >= rlen {
            if rule_eq(&grammar[st.rule], &grammar[0]) {
                proof {
                    assert(g[0] == grammar@[0]@);
                    assert(is_complete(g, fc[n as int][i as int]));
                }
                accept = true;
            }
        }
        i += 1;
    }
    proof {
        assert(accept == accepts_col(g, fc[n as int]));
        assert(ts.len() == n);
    }
    if accept {
        proof {
            theorem_parse_accept_sound(grammar, tokens);
        }
        Some(chart)
    } else {
        None
    }
}

} // verus!
