//! Telling beforehand whether a prompt can be laid out in a given width,
//! and building its data only then.

use vstd::prelude::*;
use crate::prompt::{
    build_prompt_data, choices_ok, fixed_len, fixed_ok, formatted, formatting_ok, fragment_text,
    frags, is_fixed, is_shortenable, or_empty, remaining_space, shortenable_count, shorten_ok,
    allowed_len, shortening_applies, too_wide, unroll_ok, unrolled, GrammarFragment, GrammarType,
    FragmentView, PromptData,
};
use crate::text::chars_of;
use crate::utf8_len::{byte_len, char_width_exec, is_boundary, lemma_byte_len_concat, lemma_char_width};

verus! {

/// Whether byte offset `n` falls between two characters of `v`.
pub fn is_boundary_chars(v: &Vec<char>, n: usize) -> (b: bool)
    ensures
        b == is_boundary(v@, n as int),
{
    let mut i: usize = 0;
    let mut used: usize = 0;
    assert(v@.skip(0) =~= v@);
    while i < v.len() && used < n
        invariant
            i <= v.len(),
            used <= n,
            is_boundary(v@, n as int) == is_boundary(v@.skip(i as int), n - used),
        decreases v.len() - i,
    {
        let ghost t = v@.skip(i as int);
        let w = char_width_exec(v[i]);
        proof {
            lemma_char_width(v@[i as int]);
            assert(t.drop_first() =~= v@.skip(i + 1));
            assert(t[0] == v@[i as int]);
        }
        if w > n - used {
            assert(is_boundary(t, n - used) == is_boundary(t.drop_first(), n - used - w));
            assert(!is_boundary(t.drop_first(), n - used - w));
            return false;
        }
        used = used + w;
        i += 1;
    }
    used == n
}

fn opt_len(o: &Option<String>) -> (n: usize)
    ensures
        n == byte_len(or_empty(crate::prompt::opt_view(*o))),
{
    match o {
        Some(s) => s.as_str().as_bytes().len(),
        None => 0,
    }
}

/// Bytes of the texts of fragments `0..k` in the full prompt.
proof fn lemma_unrolled_step(gs: Seq<FragmentView>, k: int)
    requires
        0 <= k < gs.len(),
    ensures
        byte_len(unrolled(gs.take(k + 1), false, false)) == byte_len(
            unrolled(gs.take(k), false, false),
        ) + byte_len(fragment_text(gs[k], false, false)),
{
    assert(gs.take(k + 1).drop_last() =~= gs.take(k));
    lemma_byte_len_concat(unrolled(gs.take(k), false, false), fragment_text(gs[k], false, false));
}

proof fn lemma_text_parts(a: Seq<char>, b: Seq<char>, c: Seq<char>)
    ensures
        byte_len(a + b + c) == byte_len(a) + byte_len(b) + byte_len(c),
{
    lemma_byte_len_concat(a, b);
    lemma_byte_len_concat(a + b, c);
}

proof fn lemma_fixed_step(gs: Seq<FragmentView>, k: int)
    requires
        0 <= k < gs.len(),
    ensures
        fixed_len(gs.take(k + 1)) == fixed_len(gs.take(k)) + (if is_fixed(gs[k].grammar_type) {
            byte_len(or_empty(gs[k].prefix)) + byte_len(or_empty(gs[k].original)) + byte_len(
                or_empty(gs[k].suffix),
            )
        } else {
            0
        }),
        shortenable_count(gs.take(k + 1)) == shortenable_count(gs.take(k)) + (if is_shortenable(
            gs[k],
        ) {
            1int
        } else {
            0int
        }),
{
    assert(gs.take(k + 1).drop_last() =~= gs.take(k));
}

proof fn lemma_fixed_len_grows(gs: Seq<FragmentView>, k: int)
    requires
        0 <= k <= gs.len(),
    ensures
        fixed_len(gs.take(k)) <= fixed_len(gs),
    decreases gs.len() - k,
{
    if k < gs.len() {
        lemma_fixed_step(gs, k);
        lemma_fixed_len_grows(gs, k + 1);
    } else {
        assert(gs.take(k) =~= gs);
    }
}

/// Whether the prompt can be laid out in `term_width` columns: exactly the
/// condition under which laying it out does not fail.
pub fn formatting_check(grammars: &Vec<GrammarFragment>, term_width: usize) -> (b: bool)
    ensures
        b == formatting_ok(frags(grammars@), term_width as int),
{
    let ghost gs = frags(grammars@);
    if term_width < 1 {
        return false;
    }
    // Every displayed fragment has a value, the full prompt's length fits,
    // and so does each value's.
    let mut total: usize = 0;
    let mut i: usize = 0;
    assert(gs.take(0) =~= Seq::<FragmentView>::empty());
    while i < grammars.len()
        invariant
            i <= grammars.len(),
            gs == frags(grammars@),
            forall|k: int| 0 <= k < i ==> (#[trigger] gs[k]).display_at_all ==> gs[k].original is Some,
            forall|k: int| 0 <= k < i ==> byte_len(or_empty(#[trigger] gs[k].original)) <= usize::MAX,
            total == byte_len(unrolled(gs.take(i as int), false, false)),
        decreases grammars.len() - i,
    {
        let g = &grammars[i];
        assert(gs[i as int] == g@);
        let o = opt_len(&g.original_val_for_prompt);
        proof {
            lemma_unrolled_step(gs, i as int);
        }
        if g.display_at_all {
            if g.original_val_for_prompt.is_none() {
                assert(!unroll_ok(gs, false, false));
                return false;
            }
            let p = opt_len(&g.prefix);
            let s = opt_len(&g.suffix);
            proof {
                lemma_text_parts(or_empty(g@.prefix), or_empty(g@.original), or_empty(g@.suffix));
            }
            let step = match p.checked_add(o) {
                Some(x) => x.checked_add(s),
                None => None,
            };
            let next = match step {
                Some(x) => total.checked_add(x),
                None => None,
            };
            match next {
                Some(t) => {
                    total = t;
                },
                None => {
                    proof {
                        lemma_unrolled_grows(gs, i as int + 1);
                    }
                    return false;
                },
            }
        }
        i += 1;
    }
    assert(gs.take(grammars.len() as int) =~= gs);
    assert(unroll_ok(gs, false, false));
    if total <= term_width - 1 {
        assert(!too_wide(gs, term_width as int));
        return true;
    }
    assert(too_wide(gs, term_width as int));
    // The fixed fragments have values and their length fits; count the
    // shortenable ones.
    let mut fixed: usize = 0;
    let mut n: usize = 0;
    let mut j: usize = 0;
    while j < grammars.len()
        invariant
            j <= grammars.len(),
            gs == frags(grammars@),
            n <= j,
            term_width >= 1,
            too_wide(gs, term_width as int),
            unroll_ok(gs, false, false),
            byte_len(unrolled(gs, false, false)) <= usize::MAX,
            forall|k: int| 0 <= k < gs.len() ==> byte_len(or_empty(#[trigger] gs[k].original)) <= usize::MAX,
            forall|k: int| 0 <= k < j ==> is_fixed((#[trigger] gs[k]).grammar_type) ==> gs[k].original is Some,
            fixed == fixed_len(gs.take(j as int)),
            n == shortenable_count(gs.take(j as int)),
        decreases grammars.len() - j,
    {
        let g = &grammars[j];
        assert(gs[j as int] == g@);
        proof {
            lemma_fixed_step(gs, j as int);
        }
        if g.grammar_type == GrammarType::Verbiage || g.grammar_type == GrammarType::UserChoice {
            if g.original_val_for_prompt.is_none() {
                assert(!fixed_ok(gs));
                return false;
            }
            let p = opt_len(&g.prefix);
            let o = opt_len(&g.original_val_for_prompt);
            let s = opt_len(&g.suffix);
            let step = match p.checked_add(o) {
                Some(x) => x.checked_add(s),
                None => None,
            };
            let next = match step {
                Some(x) => fixed.checked_add(x),
                None => None,
            };
            match next {
                Some(t) => {
                    fixed = t;
                },
                None => {
                    proof {
                        lemma_fixed_len_grows(gs, j as int + 1);
                    }
                    return false;
                },
            }
        } else if g.display_at_all {
            n = n + 1;
        }
        j += 1;
    }
    assert(gs.take(grammars.len() as int) =~= gs);
    assert(fixed_ok(gs));
    let ghost tw = term_width as int;
    if term_width > fixed && term_width - fixed < n || term_width > fixed && term_width - fixed - n < 5 {
        return false;
    }
    let remaining: usize = if term_width > fixed {
        term_width - fixed - (n + 5)
    } else {
        0
    };
    assert(remaining == remaining_space(gs, tw));
    if !(remaining > 3 && n > 0) {
        assert(!shortening_applies(gs, tw));
        return true;
    }
    let allowed: usize = (remaining - 3) / n;
    assert(allowed == allowed_len(gs, tw));
    let mut m: usize = 0;
    while m < grammars.len()
        invariant
            m <= grammars.len(),
            gs == frags(grammars@),
            allowed == allowed_len(gs, tw),
            tw == term_width as int,
            term_width >= 1,
            too_wide(gs, term_width as int),
            unroll_ok(gs, false, false),
            byte_len(unrolled(gs, false, false)) <= usize::MAX,
            forall|k: int| 0 <= k < gs.len() ==> byte_len(or_empty(#[trigger] gs[k].original)) <= usize::MAX,
            fixed_ok(gs),
            fixed_len(gs) <= usize::MAX,
            tw > fixed_len(gs) ==> tw - fixed_len(gs) >= shortenable_count(gs) + 5,
            shortening_applies(gs, tw),
            forall|k: int| 0 <= k < m && is_shortenable(#[trigger] gs[k]) ==> shorten_ok(
                gs[k].original->0,
                gs[k].grammar_type,
                allowed as int,
            ),
            forall|k: int| 0 <= k < gs.len() ==> (#[trigger] gs[k]).display_at_all ==> gs[k].original is Some,
        decreases grammars.len() - m,
    {
        let g = &grammars[m];
        assert(gs[m as int] == g@);
        if g.grammar_type != GrammarType::Verbiage && g.grammar_type != GrammarType::UserChoice
            && g.display_at_all {
            let orig = g.original_val_for_prompt.as_ref().unwrap();
            let len = orig.as_str().as_bytes().len();
            let chars = chars_of(orig.as_str());
            if len > allowed {
                let ok = if g.grammar_type == GrammarType::Image {
                    allowed >= 1 && is_boundary_chars(&chars, allowed - 1)
                } else {
                    is_boundary_chars(&chars, len - allowed)
                };
                if !ok {
                    assert(!shorten_ok(gs[m as int].original->0, gs[m as int].grammar_type, allowed as int));
                    return false;
                }
            }
        }
        m += 1;
    }
    true
}

proof fn lemma_unrolled_grows(gs: Seq<FragmentView>, k: int)
    requires
        0 <= k <= gs.len(),
    ensures
        byte_len(unrolled(gs.take(k), false, false)) <= byte_len(unrolled(gs, false, false)),
    decreases gs.len() - k,
{
    if k < gs.len() {
        lemma_unrolled_step(gs, k);
        lemma_unrolled_grows(gs, k + 1);
    } else {
        assert(gs.take(k) =~= gs);
    }
}

/// Builds the prompt's data when it can be laid out in `term_width`
/// columns and every choice has a value; otherwise leaves the fragments as
/// they are and gives nothing.
pub fn try_build_prompt_data(grammars: &mut Vec<GrammarFragment>, term_width: usize) -> (r: Option<PromptData>)
    ensures
        r is None <==> !(formatting_ok(frags(old(grammars)@), term_width as int) && old(grammars).len()
            + 5 <= usize::MAX && choices_ok(frags(old(grammars)@))),
        r is None ==> final(grammars)@ == old(grammars)@,
        r matches Some(d) ==> {
            &&& frags(final(grammars)@) == formatted(frags(old(grammars)@), term_width as int)
            &&& d.prompt_string@ == unrolled(frags(final(grammars)@), false, true)
            &&& crate::text::str_views(d.user_choices@) == crate::makefile::add_unique(
                seq![],
                crate::prompt::choice_values(frags(final(grammars)@)),
            )
            &&& crate::prompt::opt_view(d.default_choice) == crate::prompt::default_choice_of(
                frags(final(grammars)@),
            )
        },
{
    if grammars.len() > usize::MAX - 5 {
        return None;
    }
    if !formatting_check(grammars, term_width) {
        return None;
    }
    let ghost gs = frags(grammars@);
    let mut i: usize = 0;
    while i < grammars.len()
        invariant
            i <= grammars.len(),
            gs == frags(grammars@),
            forall|k: int|
                0 <= k < i && #[trigger] gs[k].grammar_type == GrammarType::UserChoice
                    ==> gs[k].original is Some,
        decreases grammars.len() - i,
    {
        assert(gs[i as int] == grammars@[i as int]@);
        if grammars[i].grammar_type == GrammarType::UserChoice
            && grammars[i].original_val_for_prompt.is_none() {
            assert(gs[i as int].grammar_type == GrammarType::UserChoice && gs[i as int].original is None);
            assert(!choices_ok(gs));
            return None;
        }
        i += 1;
    }
    Some(build_prompt_data(grammars, term_width))
}

} // verus!
