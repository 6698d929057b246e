//! The mathematical model of chart construction: spec-level predictor,
//! scanner and completer, the per-column fixpoint, and the recognizer's
//! accept-or-reject outcome. The executable recognizer is proved to return exactly what
//! [`spec_parse`] denotes, so two runs on equal inputs return structurally
//! identical results.

use vstd::prelude::*;

use crate::grammar::SpecRule;
use crate::grammar::SpecRulePart;
use crate::state::{State, advance, insert_state, lemma_insert_no_duplicates, next_part};

verus! {

/// A chart: one column of states per input position, `tokens + 1` in all.
pub type SpecChart = Seq<Seq<State>>;

/// The state every chart starts from: the grammar's first rule, nothing
/// matched yet, beginning at column 0.
pub open spec fn seed_state() -> State {
    State { rule: 0, dot: 0, origin: 0 }
}

/// The chart before any inference: `n + 1` columns, all empty but column 0,
/// which holds exactly the seed state.
pub open spec fn init_chart(n: nat) -> SpecChart {
    Seq::new(n + 1, |i: int| if i == 0 { seq![seed_state()] } else { Seq::<State>::empty() })
}

/// Predictor, from rule index `j` upward: for every rule named `nt`, insert a
/// fresh zero-progress state with origin `k` into column `k`.
pub open spec fn predict_from(
    g: Seq<SpecRule>,
    chart: SpecChart,
    k: int,
    nt: Seq<char>,
    j: int,
) -> SpecChart
    decreases g.len() - j,
{
    if j < 0 || j >= g.len() {
        chart
    } else {
        let chart2 = if g[j].name == nt {
            chart.update(
                k,
                insert_state(chart[k], State { rule: j as usize, dot: 0, origin: k as usize }),
            )
        } else {
            chart
        };
        predict_from(g, chart2, k, nt, j + 1)
    }
}

/// Completer, from position `j` of column `pos` upward: for every state there
/// that expects the nonterminal `name`, insert its advanced form into column
/// `k`. Column `pos` is re-read as it stands after each insertion, since an
/// insertion into `k == pos` lengthens the very column being walked; the fuel
/// bounds that walk and never runs out when it is at least as large as the
/// column can grow.
pub open spec fn complete_from(
    g: Seq<SpecRule>,
    chart: SpecChart,
    k: int,
    name: Seq<char>,
    pos: int,
    j: int,
    fuel: nat,
) -> SpecChart
    decreases fuel,
{
    if fuel == 0 {
        chart
    } else if j < 0 || j >= chart[pos].len() {
        chart
    } else {
        let st = chart[pos][j];
        let chart2 = match next_part(g, st) {
            Some(SpecRulePart::NonTerminal(nt)) => if nt == name {
                chart.update(k, insert_state(chart[k], advance(st)))
            } else {
                chart
            },
            _ => chart,
        };
        complete_from(g, chart2, k, name, pos, j + 1, (fuel - 1) as nat)
    }
}

/// One state's inference step at column `k`, position `i`: predict on a
/// nonterminal, scan on a terminal that matches the real token at `k` (no
/// token exists at `k == t.len()`, so that final pass never scans), complete
/// on a finished rule.
pub open spec fn step_state(
    g: Seq<SpecRule>,
    t: Seq<Seq<char>>,
    chart: SpecChart,
    k: int,
    i: int,
    fuel: nat,
) -> SpecChart {
    let st = chart[k][i];
    match next_part(g, st) {
        Some(SpecRulePart::NonTerminal(nt)) => predict_from(g, chart, k, nt, 0),
        Some(SpecRulePart::Terminal(term)) => if k < t.len() && t[k] == term {
            chart.update(k + 1, insert_state(chart[k + 1], advance(st)))
        } else {
            chart
        },
        None => complete_from(g, chart, k, g[st.rule as int].name, st.origin as int, 0, fuel),
    }
}

/// The fixpoint pass over column `k`, from position `i` upward: apply one
/// inference step per state, including states the pass itself appends.
/// `full` is the fuel handed to each completer walk; `fuel` bounds this walk.
pub open spec fn run_column(
    g: Seq<SpecRule>,
    t: Seq<Seq<char>>,
    chart: SpecChart,
    k: int,
    i: int,
    full: nat,
    fuel: nat,
) -> SpecChart
    decreases fuel,
{
    if fuel == 0 {
        chart
    } else if i < 0 || i >= chart[k].len() {
        chart
    } else {
        run_column(g, t, step_state(g, t, chart, k, i, full), k, i + 1, full, (fuel - 1) as nat)
    }
}

/// All column passes from `k` through the closure-only pass at `t.len()`.
pub open spec fn run_chart(
    g: Seq<SpecRule>,
    t: Seq<Seq<char>>,
    chart: SpecChart,
    k: int,
    fuel: nat,
) -> SpecChart
    decreases t.len() + 1 - k,
{
    if k < 0 || k > t.len() {
        chart
    } else {
        run_chart(g, t, run_column(g, t, chart, k, 0, fuel, fuel), k + 1, fuel)
    }
}

/// Whether a state has matched all of its rule's parts.
pub open spec fn is_complete(g: Seq<SpecRule>, st: State) -> bool {
    st.dot >= g[st.rule as int].parts.len()
}

/// Acceptance, read off a final column: some complete state whose rule is
/// structurally equal to the grammar's first rule.
pub open spec fn accepts_col(g: Seq<SpecRule>, col: Seq<State>) -> bool {
    exists|i: int|
        0 <= i < col.len() && is_complete(g, #[trigger] col[i]) && g[col[i].rule as int] == g[0]
}

/// The longest right-hand side in the grammar.
pub open spec fn max_parts(g: Seq<SpecRule>) -> nat
    decreases g.len(),
{
    if g.len() == 0 {
        0
    } else {
        let rest = max_parts(g.drop_last());
        if g.last().parts.len() > rest {
            g.last().parts.len()
        } else {
            rest
        }
    }
}

/// How many distinct states a column of a chart over `n` tokens can hold: one
/// per (rule, dot, origin) triple. Dedup keeps every column below this bound,
/// which is why the fixpoint passes terminate even on left-recursive
/// grammars.
pub open spec fn column_bound(g: Seq<SpecRule>, n: nat) -> nat {
    g.len() * (max_parts(g) + 1) * (n + 1)
}

/// What the recognizer returns: `None` on an empty grammar or empty token
/// sequence and on non-acceptance; otherwise the fully built chart.
pub open spec fn spec_parse(g: Seq<SpecRule>, t: Seq<Seq<char>>) -> Option<SpecChart> {
    if g.len() == 0 || t.len() == 0 {
        None
    } else {
        let chart = run_chart(g, t, init_chart(t.len()), 0, column_bound(g, t.len()));
        if accepts_col(g, chart[t.len() as int]) {
            Some(chart)
        } else {
            None
        }
    }
}

/// Law: recognition is deterministic. The denoted outcome is a function of
/// the grammar and the tokens alone, and the recognizer is proved to return
/// exactly that outcome, so two runs on equal inputs produce structurally
/// identical charts and the same outcome.
pub proof fn lemma_parse_deterministic(
    g1: Seq<SpecRule>,
    t1: Seq<Seq<char>>,
    g2: Seq<SpecRule>,
    t2: Seq<Seq<char>>,
)
    requires
        g1 == g2,
        t1 == t2,
    ensures
        spec_parse(g1, t1) == spec_parse(g2, t2),
{
}

/// A state a column at index `c` may hold: its rule exists, its dot is within
/// the rule, and its origin is no later than the column itself.
pub open spec fn valid_state(g: Seq<SpecRule>, c: int, st: State) -> bool {
    &&& (st.rule as int) < g.len()
    &&& st.dot <= g[st.rule as int].parts.len()
    &&& st.origin <= c
}

/// A well-formed column at index `c`: duplicate-free, holding only states
/// valid there.
pub open spec fn wf_col(g: Seq<SpecRule>, c: int, col: Seq<State>) -> bool {
    &&& col.no_duplicates()
    &&& forall|i: int| 0 <= i < col.len() ==> valid_state(g, c, #[trigger] col[i])
}

/// A well-formed chart over `n` tokens: `n + 1` well-formed columns.
pub open spec fn wf_chart(g: Seq<SpecRule>, n: nat, chart: SpecChart) -> bool {
    &&& chart.len() == n + 1
    &&& forall|c: int| 0 <= c < chart.len() ==> wf_col(g, c, #[trigger] chart[c])
}

/// Inserting a state valid for column `c` keeps a chart well-formed.
pub proof fn lemma_wf_insert(g: Seq<SpecRule>, n: nat, chart: SpecChart, c: int, st: State)
    requires
        wf_chart(g, n, chart),
        0 <= c < chart.len(),
        valid_state(g, c, st),
    ensures
        wf_chart(g, n, chart.update(c, insert_state(chart[c], st))),
{
    let col2 = insert_state(chart[c], st);
    lemma_insert_no_duplicates(chart[c], st);
    assert forall|i: int| 0 <= i < col2.len() implies valid_state(g, c, #[trigger] col2[i]) by {
        if i < chart[c].len() {
            assert(valid_state(g, c, chart[c][i]));
        }
    }
    assert(wf_col(g, c, col2));
}

} // verus!
