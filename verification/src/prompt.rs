//! Prompts built from grammar fragments: laying a prompt out in the width of
//! the terminal, shortening the fragments that may be shortened, and the
//! choices a user may enter.

use vstd::prelude::*;
use crate::text::{chars_of, str_views, string_from_chars, trim, trim_chars, views};
use crate::utf8_len::{
    byte_drop, byte_drop_chars, byte_len, byte_prefix, byte_prefix_chars, is_boundary,
    lemma_byte_len_concat, lemma_byte_drop_is_suffix, lemma_byte_prefix_is_prefix,
    lemma_byte_drop_len, lemma_byte_prefix_len,
};

verus! {

/// What a fragment of a prompt stands for.
#[derive(Debug, Clone, Copy, PartialEq, Eq, Structural)]
pub enum GrammarType {
    Verbiage,
    UserChoice,
    Image,
    DockerComposePath,
    ContainerName,
    FileName,
}

/// One piece of a prompt.
#[derive(Debug)]
pub struct GrammarFragment {
    pub original_val_for_prompt: Option<String>,
    pub shortened_val_for_prompt: Option<String>,
    pub pos: u8,
    pub prefix: Option<String>,
    pub suffix: Option<String>,
    pub grammar_type: GrammarType,
    pub display_at_all: bool,
    pub can_shorten: bool,
    pub is_default_choice: bool,
}

/// A fragment with its texts as character sequences.
pub struct FragmentView {
    pub original: Option<Seq<char>>,
    pub shortened: Option<Seq<char>>,
    pub pos: u8,
    pub prefix: Option<Seq<char>>,
    pub suffix: Option<Seq<char>>,
    pub grammar_type: GrammarType,
    pub display_at_all: bool,
    pub can_shorten: bool,
    pub is_default_choice: bool,
}

/// The text of an optional string, or nothing.
pub open spec fn opt_view(o: Option<String>) -> Option<Seq<char>> {
    match o {
        Some(s) => Some(s@),
        None => None,
    }
}

/// The characters of an optional text, empty when absent.
pub open spec fn or_empty(o: Option<Seq<char>>) -> Seq<char> {
    match o {
        Some(s) => s,
        None => seq![],
    }
}

impl View for GrammarFragment {
    type V = FragmentView;

    open spec fn view(&self) -> FragmentView {
        FragmentView {
            original: opt_view(self.original_val_for_prompt),
            shortened: opt_view(self.shortened_val_for_prompt),
            pos: self.pos,
            prefix: opt_view(self.prefix),
            suffix: opt_view(self.suffix),
            grammar_type: self.grammar_type,
            display_at_all: self.display_at_all,
            can_shorten: self.can_shorten,
            is_default_choice: self.is_default_choice,
        }
    }
}

impl Default for GrammarFragment {
    /// A fragment of verbiage at position 0 with no text yet, followed by a
    /// space, shown and not shortened.
    fn default() -> (g: Self)
        ensures
            g@ == (FragmentView {
                original: None,
                shortened: None,
                pos: 0,
                prefix: None,
                suffix: Some(" "@),
                grammar_type: GrammarType::Verbiage,
                display_at_all: true,
                can_shorten: false,
                is_default_choice: false,
            }),
    {
        GrammarFragment {
            original_val_for_prompt: None,
            shortened_val_for_prompt: None,
            pos: 0,
            prefix: None,
            suffix: Some(" ".to_owned()),
            grammar_type: GrammarType::Verbiage,
            display_at_all: true,
            can_shorten: false,
            is_default_choice: false,
        }
    }
}

/// The fragments of a prompt, as views.
pub open spec fn frags(gs: Seq<GrammarFragment>) -> Seq<FragmentView> {
    gs.map_values(|g: GrammarFragment| g@)
}

/// The text that one fragment contributes to the prompt.
pub open spec fn fragment_text(g: FragmentView, excl: bool, use_short: bool) -> Seq<char> {
    if !g.display_at_all {
        seq![]
    } else if excl && g.can_shorten {
        seq![' ']
    } else {
        or_empty(g.prefix) + (if use_short && g.shortened is Some {
            g.shortened->0
        } else {
            or_empty(g.original)
        }) + or_empty(g.suffix)
    }
}

/// A displayed fragment whose original value the prompt shows has one.
pub open spec fn unroll_ok(gs: Seq<FragmentView>, excl: bool, use_short: bool) -> bool {
    forall|i: int|
        0 <= i < gs.len() && #[trigger] gs[i].display_at_all && !(excl && gs[i].can_shorten) && !(
        use_short && gs[i].shortened is Some) ==> gs[i].original is Some
}

/// The prompt text: the texts of the fragments in order.
pub open spec fn unrolled(gs: Seq<FragmentView>, excl: bool, use_short: bool) -> Seq<char>
    decreases gs.len(),
{
    if gs.len() == 0 {
        seq![]
    } else {
        unrolled(gs.drop_last(), excl, use_short) + fragment_text(gs.last(), excl, use_short)
    }
}

fn push_str_chars(out: &mut Vec<char>, s: &String)
    ensures
        final(out)@ == old(out)@ + s@,
{
    let mut c = chars_of(s.as_str());
    out.append(&mut c);
}

/// The prompt that the fragments make: each displayed fragment's prefix,
/// value and suffix; a single space for a shortenable fragment when
/// `excl_if_not_in_base_prompt`; the shortened value when asked for and set.
pub fn unroll_grammar_into_string(
    grammars: &Vec<GrammarFragment>,
    excl_if_not_in_base_prompt: bool,
    use_shortened_val: bool,
) -> (r: String)
    requires
        unroll_ok(frags(grammars@), excl_if_not_in_base_prompt, use_shortened_val),
    ensures
        r@ == unrolled(frags(grammars@), excl_if_not_in_base_prompt, use_shortened_val),
{
    let ghost fs = frags(grammars@);
    let mut out: Vec<char> = Vec::new();
    let mut i: usize = 0;
    assert(fs.take(0) =~= Seq::<FragmentView>::empty());
    while i < grammars.len()
        invariant
            i <= grammars.len(),
            fs == frags(grammars@),
            unroll_ok(fs, excl_if_not_in_base_prompt, use_shortened_val),
            out@ == unrolled(fs.take(i as int), excl_if_not_in_base_prompt, use_shortened_val),
        decreases grammars.len() - i,
    {
        let g = &grammars[i];
        assert(fs[i as int] == g@);
        assert(fs.take(i + 1).drop_last() =~= fs.take(i as int));
        assert(fs.take(i + 1).last() == g@);
        let ghost before = out@;
        if g.display_at_all {
            if excl_if_not_in_base_prompt && g.can_shorten {
                out.push(' ');
                assert(out@ =~= before + seq![' ']);
            } else {
                if let Some(p) = &g.prefix {
                    push_str_chars(&mut out, p);
                }
                let ghost after_prefix = out@;
                assert(after_prefix == before + or_empty(g@.prefix));
                if use_shortened_val && g.shortened_val_for_prompt.is_some() {
                    let s = g.shortened_val_for_prompt.as_ref().unwrap();
                    push_str_chars(&mut out, s);
                } else {
                    assert(fs[i as int].display_at_all);
                    let o = g.original_val_for_prompt.as_ref().unwrap();
                    push_str_chars(&mut out, o);
                }
                let ghost after_value = out@;
                if let Some(s) = &g.suffix {
                    push_str_chars(&mut out, s);
                }
                assert(out@ == after_value + or_empty(g@.suffix));
                assert(out@ =~= before + fragment_text(g@, excl_if_not_in_base_prompt, use_shortened_val));
            }
        } else {
            assert(out@ =~= before + fragment_text(g@, excl_if_not_in_base_prompt, use_shortened_val));
        }
        i += 1;
    }
    assert(fs.take(grammars.len() as int) =~= fs);
    string_from_chars(&out)
}


/// Verbiage and user choices are never shortened.
pub open spec fn is_fixed(t: GrammarType) -> bool {
    t == GrammarType::Verbiage || t == GrammarType::UserChoice
}

/// Bytes that the fixed fragments take: prefix, value and suffix of each
/// Verbiage or UserChoice fragment, displayed or not.
pub open spec fn fixed_len(gs: Seq<FragmentView>) -> int
    decreases gs.len(),
{
    if gs.len() == 0 {
        0
    } else {
        let g = gs.last();
        fixed_len(gs.drop_last()) + (if is_fixed(g.grammar_type) {
            byte_len(or_empty(g.prefix)) + byte_len(or_empty(g.original)) + byte_len(
                or_empty(g.suffix),
            )
        } else {
            0
        })
    }
}

/// Every fixed fragment has a value.
pub open spec fn fixed_ok(gs: Seq<FragmentView>) -> bool {
    forall|i: int|
        0 <= i < gs.len() && is_fixed(#[trigger] gs[i].grammar_type) ==> gs[i].original is Some
}

/// A displayed fragment that is neither verbiage nor a choice.
pub open spec fn is_shortenable(g: FragmentView) -> bool {
    !is_fixed(g.grammar_type) && g.display_at_all
}

/// Number of shortenable fragments.
pub open spec fn shortenable_count(gs: Seq<FragmentView>) -> nat
    decreases gs.len(),
{
    if gs.len() == 0 {
        0
    } else {
        shortenable_count(gs.drop_last()) + (if is_shortenable(gs.last()) {
            1nat
        } else {
            0nat
        })
    }
}

/// Space left for the shortenable fragments: the width less the fixed
/// fragments, one column per shortenable fragment and five more.
pub open spec fn remaining_space(gs: Seq<FragmentView>, term_width: int) -> int {
    if term_width > fixed_len(gs) {
        term_width - fixed_len(gs) - (shortenable_count(gs) + 5)
    } else {
        0
    }
}

/// Fragments are shortened when there is room for more than an ellipsis.
pub open spec fn shortening_applies(gs: Seq<FragmentView>, term_width: int) -> bool {
    remaining_space(gs, term_width) > 3 && shortenable_count(gs) > 0
}

/// Bytes allowed to each shortenable fragment.
pub open spec fn allowed_len(gs: Seq<FragmentView>, term_width: int) -> int {
    (remaining_space(gs, term_width) - 3) / (shortenable_count(gs) as int)
}

/// A value cut to `allowed` bytes: an image keeps its start and ends in
/// `...`; anything else keeps its end and starts with `...`.
pub open spec fn shorten_text(o: Seq<char>, t: GrammarType, allowed: int) -> Seq<char> {
    if byte_len(o) > allowed {
        if t == GrammarType::Image {
            byte_prefix(o, allowed - 1) + "..."@
        } else {
            "..."@ + byte_drop(o, byte_len(o) - allowed)
        }
    } else {
        o
    }
}

/// The cut falls between two characters (and, for an image, is not before
/// the start).
pub open spec fn shorten_ok(o: Seq<char>, t: GrammarType, allowed: int) -> bool {
    byte_len(o) > allowed ==> if t == GrammarType::Image {
        allowed >= 1 && is_boundary(o, allowed - 1)
    } else {
        is_boundary(o, byte_len(o) - allowed)
    }
}

/// `g` with another shortened value.
pub open spec fn with_shortened(g: FragmentView, s: Option<Seq<char>>) -> FragmentView {
    FragmentView {
        original: g.original,
        shortened: s,
        pos: g.pos,
        prefix: g.prefix,
        suffix: g.suffix,
        grammar_type: g.grammar_type,
        display_at_all: g.display_at_all,
        can_shorten: g.can_shorten,
        is_default_choice: g.is_default_choice,
    }
}

/// A fragment after the prompt was laid out: shortened if shortening
/// applies to it, and given its original value as its shortened value if it
/// is displayed and still has none.
pub open spec fn formatted_fragment(g: FragmentView, gs: Seq<FragmentView>, term_width: int) -> FragmentView {
    let g1 = if shortening_applies(gs, term_width) && is_shortenable(g) {
        with_shortened(
            g,
            Some(shorten_text(g.original->0, g.grammar_type, allowed_len(gs, term_width))),
        )
    } else {
        g
    };
    if g1.display_at_all && g1.shortened is None {
        with_shortened(g1, g1.original)
    } else {
        g1
    }
}

/// The full prompt is wider than the terminal leaves room for.
pub open spec fn too_wide(gs: Seq<FragmentView>, term_width: int) -> bool {
    byte_len(unrolled(gs, false, false)) > term_width - 1
}

/// The fragments after the prompt was laid out in `term_width` columns.
pub open spec fn formatted(gs: Seq<FragmentView>, term_width: int) -> Seq<FragmentView> {
    if too_wide(gs, term_width) {
        gs.map_values(|g: FragmentView| formatted_fragment(g, gs, term_width))
    } else {
        gs
    }
}

/// The inputs on which laying out the prompt does not panic: a width of at
/// least one column, a value for every displayed fragment, and, when the
/// prompt is too wide, values for the fixed fragments, a width that leaves
/// room for the reserved columns, and cuts that fall between characters.
pub open spec fn formatting_ok(gs: Seq<FragmentView>, term_width: int) -> bool {
    &&& term_width >= 1
    &&& unroll_ok(gs, false, false)
    &&& byte_len(unrolled(gs, false, false)) <= usize::MAX
    &&& forall|i: int| 0 <= i < gs.len() ==> byte_len(or_empty(#[trigger] gs[i].original)) <= usize::MAX
    &&& too_wide(gs, term_width) ==> {
        &&& fixed_ok(gs)
        &&& fixed_len(gs) <= usize::MAX
        &&& term_width > fixed_len(gs) ==> term_width - fixed_len(gs) >= shortenable_count(gs) + 5
        &&& shortening_applies(gs, term_width) ==> forall|i: int|
            0 <= i < gs.len() && is_shortenable(#[trigger] gs[i]) ==> shorten_ok(
                gs[i].original->0,
                gs[i].grammar_type,
                allowed_len(gs, term_width),
            )
    }
}

/// Bytes that the fixed fragments take.
fn calculate_fixed_length(grammars: &Vec<GrammarFragment>) -> (n: usize)
    requires
        fixed_ok(frags(grammars@)),
        fixed_len(frags(grammars@)) <= usize::MAX,
    ensures
        n == fixed_len(frags(grammars@)),
{
    let ghost fs = frags(grammars@);
    let mut total: usize = 0;
    let mut i: usize = 0;
    assert(fs.take(0) =~= Seq::<FragmentView>::empty());
    while i < grammars.len()
        invariant
            i <= grammars.len(),
            fs == frags(grammars@),
            fixed_ok(fs),
            fixed_len(fs) <= usize::MAX,
            total == fixed_len(fs.take(i as int)),
        decreases grammars.len() - i,
    {
        let g = &grammars[i];
        assert(fs[i as int] == g@);
        assert(fs.take(i + 1).drop_last() =~= fs.take(i as int));
        assert(fs.take(i + 1).last() == g@);
        proof {
            lemma_fixed_len_prefix(fs, i + 1);
        }
        if g.grammar_type == GrammarType::Verbiage || g.grammar_type == GrammarType::UserChoice {
            assert(is_fixed(fs[i as int].grammar_type));
            let p = match &g.prefix {
                Some(s) => s.as_str().len(),
                None => 0,
            };
            let o = g.original_val_for_prompt.as_ref().unwrap().as_str().len();
            let s = match &g.suffix {
                Some(s) => s.as_str().len(),
                None => 0,
            };
            total = total + p + o + s;
        }
        i += 1;
    }
    assert(fs.take(grammars.len() as int) =~= fs);
    total
}

proof fn lemma_fixed_len_prefix(gs: Seq<FragmentView>, k: int)
    requires
        0 <= k <= gs.len(),
    ensures
        0 <= fixed_len(gs.take(k)) <= fixed_len(gs),
    decreases gs.len(),
{
    if k == gs.len() {
        assert(gs.take(k) =~= gs);
        lemma_fixed_len_nonneg(gs);
    } else {
        assert(gs.drop_last().take(k) =~= gs.take(k));
        lemma_fixed_len_prefix(gs.drop_last(), k);
    }
}

proof fn lemma_fixed_len_nonneg(gs: Seq<FragmentView>)
    ensures
        fixed_len(gs) >= 0,
    decreases gs.len(),
{
    if gs.len() > 0 {
        lemma_fixed_len_nonneg(gs.drop_last());
    }
}

/// Positions of the fragments that may be shortened.
fn collect_shortenable_fragments(grammars: &Vec<GrammarFragment>) -> (r: Vec<usize>)
    ensures
        r.len() == shortenable_count(frags(grammars@)),
        forall|k: int| 0 <= k < r.len() ==> r@[k] < grammars.len() && is_shortenable(
            frags(grammars@)[r@[k] as int],
        ),
{
    let ghost fs = frags(grammars@);
    let mut r: Vec<usize> = Vec::new();
    let mut i: usize = 0;
    assert(fs.take(0) =~= Seq::<FragmentView>::empty());
    while i < grammars.len()
        invariant
            i <= grammars.len(),
            fs == frags(grammars@),
            r.len() == shortenable_count(fs.take(i as int)),
            forall|k: int| 0 <= k < r.len() ==> r@[k] < i && is_shortenable(fs[r@[k] as int]),
        decreases grammars.len() - i,
    {
        let g = &grammars[i];
        assert(fs[i as int] == g@);
        assert(fs.take(i + 1).drop_last() =~= fs.take(i as int));
        assert(fs.take(i + 1).last() == g@);
        if g.grammar_type != GrammarType::Verbiage && g.grammar_type != GrammarType::UserChoice
            && g.display_at_all {
            r.push(i);
        }
        i += 1;
    }
    assert(fs.take(grammars.len() as int) =~= fs);
    r
}

/// Sets the shortened value of `grammar` to its value cut to `allowed_len`
/// bytes.
fn shorten_fragment(grammar: &mut GrammarFragment, allowed_len: usize)
    requires
        old(grammar)@.original is Some,
        byte_len(old(grammar)@.original->0) <= usize::MAX,
        shorten_ok(old(grammar)@.original->0, old(grammar)@.grammar_type, allowed_len as int),
    ensures
        final(grammar)@ == with_shortened(
            old(grammar)@,
            Some(
                shorten_text(old(grammar)@.original->0, old(grammar)@.grammar_type, allowed_len as int),
            ),
        ),
{
    let orig = grammar.original_val_for_prompt.as_ref().unwrap();
    let len = orig.as_str().len();
    let chars = chars_of(orig.as_str());
    let dots = chars_of("...");
    let ghost o = old(grammar)@.original->0;
    assert(orig@ == o);
    assert(len == byte_len(o));
    if len > allowed_len {
        if grammar.grammar_type == GrammarType::Image {
            let mut head = byte_prefix_chars(&chars, allowed_len - 1);
            let mut d = dots;
            head.append(&mut d);
            assert(head@ == shorten_text(o, old(grammar)@.grammar_type, allowed_len as int));
            grammar.shortened_val_for_prompt = Some(string_from_chars(&head));
        } else {
            let mut tail = byte_drop_chars(&chars, len - allowed_len);
            let mut d = dots;
            d.append(&mut tail);
            grammar.shortened_val_for_prompt = Some(string_from_chars(&d));
        }
    } else {
        let copy = orig.clone();
        grammar.shortened_val_for_prompt = Some(copy);
    }
}

/// A fragment that shows nothing: no texts, not displayed, verbiage at
/// position 0.
fn placeholder_fragment() -> (g: GrammarFragment)
    ensures
        g@ == (FragmentView {
            original: None,
            shortened: None,
            pos: 0,
            prefix: None,
            suffix: None,
            grammar_type: GrammarType::Verbiage,
            display_at_all: false,
            can_shorten: false,
            is_default_choice: false,
        }),
{
    GrammarFragment {
        original_val_for_prompt: None,
        shortened_val_for_prompt: None,
        pos: 0,
        prefix: None,
        suffix: None,
        grammar_type: GrammarType::Verbiage,
        display_at_all: false,
        can_shorten: false,
        is_default_choice: false,
    }
}


/// Lays the prompt out in `term_width` columns. When the full prompt is
/// too wide, each shortenable fragment is cut to an equal share of the room
/// left after the fixed fragments and the reserved columns, and every
/// displayed fragment gets a shortened value. Returns the prompt with the
/// shortened values.
pub fn do_prompt_formatting(grammars: &mut Vec<GrammarFragment>, term_width: usize) -> (r: String)
    requires
        formatting_ok(frags(old(grammars)@), term_width as int),
        old(grammars).len() + 5 <= usize::MAX,
    ensures
        frags(final(grammars)@) == formatted(frags(old(grammars)@), term_width as int),
        r@ == unrolled(formatted(frags(old(grammars)@), term_width as int), false, true),
        !too_wide(frags(old(grammars)@), term_width as int) && (forall|i: int|
            0 <= i < old(grammars).len() ==> (#[trigger] frags(old(grammars)@)[i]).shortened is None)
            ==> frags(final(grammars)@) == frags(old(grammars)@) && r@ == unrolled(
            frags(old(grammars)@),
            false,
            false,
        ),
        forall|i: int|
            0 <= i < old(grammars).len() && (#[trigger] frags(final(grammars)@)[i]).shortened != frags(
                old(grammars)@,
            )[i].shortened ==> cut_as_laid_out(frags(final(grammars)@)[i]),
        forall|i: int|
            0 <= i < old(grammars).len() && (#[trigger] frags(final(grammars)@)[i]).shortened != frags(
                old(grammars)@,
            )[i].shortened && frags(final(grammars)@)[i].shortened != Some(
                frags(old(grammars)@)[i].original->0,
            ) ==> byte_len(frags(final(grammars)@)[i].shortened->0) == allowed_len(
                frags(old(grammars)@),
                term_width as int,
            ) + if frags(old(grammars)@)[i].grammar_type == GrammarType::Image {
                2int
            } else {
                3int
            },
{
    let ghost gs0 = frags(grammars@);
    let ghost tw = term_width as int;
    let initial = unroll_grammar_into_string(grammars, false, false);
    if initial.as_str().len() > term_width - 1 {
        assert(too_wide(gs0, tw));
        let fixed = calculate_fixed_length(grammars);
        let idxs = collect_shortenable_fragments(grammars);
        let n = idxs.len();
        let total_remaining_space = if term_width > fixed {
            term_width - fixed - (n + 5)
        } else {
            0
        };
        assert(total_remaining_space == remaining_space(gs0, tw));
        let apply = total_remaining_space > 0 && n > 0 && total_remaining_space > 3;
        assert(apply == shortening_applies(gs0, tw));
        let allowed = if apply {
            (total_remaining_space - 3) / n
        } else {
            0
        };
        assert(apply ==> allowed == allowed_len(gs0, tw));
        let mut i: usize = 0;
        while i < grammars.len()
            invariant
                i <= grammars.len(),
                grammars.len() == gs0.len(),
                formatting_ok(gs0, tw),
                too_wide(gs0, tw),
                apply == shortening_applies(gs0, tw),
                apply ==> allowed == allowed_len(gs0, tw),
                forall|k: int|
                    0 <= k < i ==> #[trigger] frags(grammars@)[k] == formatted_fragment(
                        gs0[k],
                        gs0,
                        tw,
                    ),
                forall|k: int| i <= k < grammars.len() ==> #[trigger] frags(grammars@)[k] == gs0[k],
            decreases grammars.len() - i,
        {
            let ghost before = frags(grammars@);
            let ghost before_vec = grammars@;
            assert(before[i as int] == gs0[i as int]);
            assert(before[i as int] == before_vec[i as int]@);
            let mut g = placeholder_fragment();
            grammars.set_and_swap(i, &mut g);
            assert(g == before_vec[i as int]);
            assert(g@ == gs0[i as int]);
            if apply && g.grammar_type != GrammarType::Verbiage && g.grammar_type
                != GrammarType::UserChoice && g.display_at_all {
                assert(is_shortenable(gs0[i as int]));
                assert(gs0[i as int].display_at_all);
                assert(byte_len(or_empty(gs0[i as int].original)) <= usize::MAX);
                shorten_fragment(&mut g, allowed);
            }
            if g.display_at_all && g.shortened_val_for_prompt.is_none() {
                let copy = match &g.original_val_for_prompt {
                    Some(o) => Some(o.clone()),
                    None => None,
                };
                g.shortened_val_for_prompt = copy;
            }
            assert(g@ == formatted_fragment(gs0[i as int], gs0, tw));
            let ghost gv = g;
            let mut spare = g;
            grammars.set_and_swap(i, &mut spare);
            assert forall|k: int| 0 <= k < grammars.len() implies #[trigger] frags(grammars@)[k] == (
            if k <= i {
                formatted_fragment(gs0[k], gs0, tw)
            } else {
                gs0[k]
            }) by {
                if k != i {
                    assert(grammars@[k] == before_vec[k]);
                    assert(before[k] == before_vec[k]@);
                } else {
                    assert(grammars@[k] == gv);
                }
            }
            i += 1;
        }
        assert(frags(grammars@) =~= formatted(gs0, tw));
    } else {
        assert(!too_wide(gs0, tw));
    }
    let ghost gs1 = frags(grammars@);
    assert(unroll_ok(gs1, false, true)) by {
        assert forall|k: int|
            0 <= k < gs1.len() && #[trigger] gs1[k].display_at_all && !(false && gs1[k].can_shorten)
                && !(true && gs1[k].shortened is Some) implies gs1[k].original is Some by {
            assert(gs0[k].display_at_all);
        }
    }
    proof {
        if !too_wide(gs0, tw) && (forall|i: int| 0 <= i < gs0.len() ==> (#[trigger] gs0[i]).shortened is None) {
            lemma_fitting_prompt_unchanged(gs0, tw);
        }
        lemma_formatted_cuts(gs0, tw);
        lemma_formatted_cut_lengths(gs0, tw);
    }
    unroll_grammar_into_string(grammars, false, true)
}


/// What a prompt offers: its text, the choices a user may enter, and the
/// choice that an empty answer stands for.
pub struct PromptData {
    pub prompt_string: String,
    pub user_choices: Vec<String>,
    pub default_choice: Option<String>,
}

/// The values of the user-choice fragments, in order.
pub open spec fn choice_values(gs: Seq<FragmentView>) -> Seq<Seq<char>>
    decreases gs.len(),
{
    if gs.len() == 0 {
        seq![]
    } else {
        choice_values(gs.drop_last()) + (if gs.last().grammar_type == GrammarType::UserChoice {
            seq![or_empty(gs.last().original)]
        } else {
            seq![]
        })
    }
}

/// Every user-choice fragment has a value.
pub open spec fn choices_ok(gs: Seq<FragmentView>) -> bool {
    forall|i: int|
        0 <= i < gs.len() && #[trigger] gs[i].grammar_type == GrammarType::UserChoice
            ==> gs[i].original is Some
}

/// The value of the first user-choice fragment marked as the default.
pub open spec fn default_choice_of(gs: Seq<FragmentView>) -> Option<Seq<char>>
    decreases gs.len(),
{
    if gs.len() == 0 {
        None
    } else if gs[0].grammar_type == GrammarType::UserChoice && gs[0].is_default_choice {
        gs[0].original
    } else {
        default_choice_of(gs.drop_first())
    }
}

/// The distinct values of the user-choice fragments, in order of first
/// appearance.
fn collect_user_choices(grammars: &Vec<GrammarFragment>) -> (r: Vec<String>)
    requires
        choices_ok(frags(grammars@)),
    ensures
        str_views(r@) == crate::makefile::add_unique(seq![], choice_values(frags(grammars@))),
{
    let ghost fs = frags(grammars@);
    let mut acc: Vec<Vec<char>> = Vec::new();
    let mut i: usize = 0;
    assert(fs.take(0) =~= Seq::<FragmentView>::empty());
    while i < grammars.len()
        invariant
            i <= grammars.len(),
            fs == frags(grammars@),
            choices_ok(fs),
            views(acc@) == crate::makefile::add_unique(seq![], choice_values(fs.take(i as int))),
        decreases grammars.len() - i,
    {
        let g = &grammars[i];
        assert(fs[i as int] == g@);
        assert(fs.take(i + 1).drop_last() =~= fs.take(i as int));
        assert(fs.take(i + 1).last() == g@);
        if g.grammar_type == GrammarType::UserChoice {
            assert(fs[i as int].grammar_type == GrammarType::UserChoice);
            let v = chars_of(g.original_val_for_prompt.as_ref().unwrap().as_str());
            let ghost pre = choice_values(fs.take(i as int));
            assert(choice_values(fs.take(i + 1)) =~= pre.push(v@));
            assert(pre.push(v@).drop_last() =~= pre);
            if !crate::makefile::contains_word(&acc, &v) {
                let ghost old_acc = views(acc@);
                acc.push(v);
                assert(views(acc@) =~= old_acc.push(v@));
            }
        } else {
            assert(choice_values(fs.take(i + 1)) =~= choice_values(fs.take(i as int)));
        }
        i += 1;
    }
    assert(fs.take(grammars.len() as int) =~= fs);
    crate::makefile::strings_of(&acc)
}

/// The value of the first user-choice fragment marked as the default.
fn find_default_choice(grammars: &Vec<GrammarFragment>) -> (r: Option<String>)
    ensures
        opt_view(r) == default_choice_of(frags(grammars@)),
{
    let ghost fs = frags(grammars@);
    let mut i: usize = 0;
    assert(fs.skip(0) =~= fs);
    while i < grammars.len()
        invariant
            i <= grammars.len(),
            fs == frags(grammars@),
            default_choice_of(fs) == default_choice_of(fs.skip(i as int)),
        decreases grammars.len() - i,
    {
        let g = &grammars[i];
        assert(fs.skip(i as int)[0] == g@);
        assert(fs.skip(i as int).drop_first() =~= fs.skip(i + 1));
        if g.grammar_type == GrammarType::UserChoice && g.is_default_choice {
            return match &g.original_val_for_prompt {
                Some(o) => Some(o.clone()),
                None => None,
            };
        }
        i += 1;
    }
    None
}

/// Lays the prompt out in `term_width` columns and collects what it
/// offers.
pub fn build_prompt_data(grammars: &mut Vec<GrammarFragment>, term_width: usize) -> (r: PromptData)
    requires
        formatting_ok(frags(old(grammars)@), term_width as int),
        old(grammars).len() + 5 <= usize::MAX,
        choices_ok(frags(old(grammars)@)),
    ensures
        frags(final(grammars)@) == formatted(frags(old(grammars)@), term_width as int),
        r.prompt_string@ == unrolled(frags(final(grammars)@), false, true),
        str_views(r.user_choices@) == crate::makefile::add_unique(
            seq![],
            choice_values(frags(final(grammars)@)),
        ),
        opt_view(r.default_choice) == default_choice_of(frags(final(grammars)@)),
        (forall|i: int|
            0 <= i < old(grammars).len() ==> !((#[trigger] frags(old(grammars)@)[i]).grammar_type
                == GrammarType::UserChoice && frags(old(grammars)@)[i].is_default_choice))
            ==> r.default_choice is None,
        forall|i: int|
            0 <= i < old(grammars).len() && (#[trigger] frags(old(grammars)@)[i]).grammar_type
                == GrammarType::UserChoice && frags(old(grammars)@)[i].is_default_choice && (forall|j: int|
                0 <= j < i ==> !((#[trigger] frags(old(grammars)@)[j]).grammar_type
                    == GrammarType::UserChoice && frags(old(grammars)@)[j].is_default_choice))
                ==> opt_view(r.default_choice) == frags(old(grammars)@)[i].original,
{
    let prompt_string = do_prompt_formatting(grammars, term_width);
    proof {
        let gs0 = frags(old(grammars)@);
        let gs1 = frags(grammars@);
        assert forall|i: int|
            0 <= i < gs1.len() && #[trigger] gs1[i].grammar_type == GrammarType::UserChoice
                implies gs1[i].original is Some by {
            assert(gs0[i].grammar_type == GrammarType::UserChoice);
        }
    }
    let user_choices = collect_user_choices(grammars);
    let default_choice = find_default_choice(grammars);
    proof {
        lemma_default_choice_after_layout(frags(old(grammars)@), term_width as int);
    }
    PromptData { prompt_string, user_choices, default_choice }
}

/// How an answer to a prompt is taken.
pub enum InputProcessResult {
    Valid(String),
    Empty,
    Invalid,
}

/// A valid answer is one of the choices; a blank one is empty; anything
/// else is invalid.
pub fn process_user_input(input: &str, user_choices: &Vec<String>) -> (r: InputProcessResult)
    ensures
        str_views(user_choices@).contains(input@) ==> (r matches InputProcessResult::Valid(v)
            && v@ == input@),
        !str_views(user_choices@).contains(input@) && trim(input@).len() == 0 ==> r
            is Empty,
        !str_views(user_choices@).contains(input@) && trim(input@).len() > 0 ==> r
            is Invalid,
{
    let v = chars_of(input);
    let mut i: usize = 0;
    while i < user_choices.len()
        invariant
            i <= user_choices.len(),
            v@ == input@,
            forall|k: int| 0 <= k < i ==> str_views(user_choices@)[k] != input@,
        decreases user_choices.len() - i,
    {
        let c = chars_of(user_choices[i].as_str());
        if crate::text::chars_eq(&c, &v) {
            assert(str_views(user_choices@)[i as int] == input@);
            return InputProcessResult::Valid(string_from_chars(&v));
        }
        i += 1;
    }
    let t = trim_chars(&v);
    if v.len() == 0 || t.len() == 0 {
        if v.len() == 0 {
            assert(trim(v@) =~= v@);
        }
        InputProcessResult::Empty
    } else {
        InputProcessResult::Invalid
    }
}

/// The answer a prompt has produced so far.
pub struct ReadValResult {
    pub user_entered_val: Option<String>,
    pub was_interrupted: bool,
}

/// Takes one processed answer: a valid answer is kept, an empty one stands
/// for the default choice; both end the prompt. An invalid one asks again.
pub fn apply_user_input(
    result: &mut ReadValResult,
    processed: InputProcessResult,
    default_choice: &Option<String>,
) -> (done: bool)
    ensures
        done == !(processed is Invalid),
        final(result).was_interrupted == old(result).was_interrupted,
        processed matches InputProcessResult::Valid(v) ==> opt_view(final(result).user_entered_val)
            == Some(v@),
        processed is Empty ==> opt_view(final(result).user_entered_val) == opt_view(*default_choice),
        processed is Invalid ==> final(result).user_entered_val == old(result).user_entered_val,
{
    match processed {
        InputProcessResult::Valid(v) => {
            result.user_entered_val = Some(v);
            true
        },
        InputProcessResult::Empty => {
            result.user_entered_val = match default_choice {
                Some(d) => Some(d.clone()),
                None => None,
            };
            true
        },
        InputProcessResult::Invalid => false,
    }
}

/// The helper to use: the one given, else the default.
pub fn resolve_stdin_wrapper<'a, T>(stdin_helper: Option<&'a T>, default_wrapper: &'a T) -> (r: &'a T)
    ensures
        r == (match stdin_helper {
            Some(h) => h,
            None => default_wrapper,
        }),
{
    match stdin_helper {
        Some(h) => h,
        None => default_wrapper,
    }
}


/// A fragment with a value and no prefix, not shortened yet.
pub open spec fn frag_spec(
    text: Seq<char>,
    pos: u8,
    suffix: Option<Seq<char>>,
    t: GrammarType,
    can_shorten: bool,
    display_at_all: bool,
) -> FragmentView {
    FragmentView {
        original: Some(text),
        shortened: None,
        pos,
        prefix: None,
        suffix,
        grammar_type: t,
        display_at_all,
        can_shorten,
        is_default_choice: false,
    }
}

/// A fragment with a value and no prefix, not shortened yet.
pub fn make_fragment(
    text: &str,
    pos: u8,
    suffix: Option<&str>,
    grammar_type: GrammarType,
    can_shorten: bool,
    display_at_all: bool,
) -> (g: GrammarFragment)
    ensures
        g@ == frag_spec(
            text@,
            pos,
            match suffix {
                Some(s) => Some(s@),
                None => None,
            },
            grammar_type,
            can_shorten,
            display_at_all,
        ),
{
    GrammarFragment {
        original_val_for_prompt: Some(text.to_owned()),
        shortened_val_for_prompt: None,
        pos,
        prefix: None,
        suffix: match suffix {
            Some(s) => Some(s.to_owned()),
            None => None,
        },
        grammar_type,
        display_at_all,
        can_shorten,
        is_default_choice: false,
    }
}

/// User choices at positions from `first_pos`, each followed by `/`, the
/// last by `: `.
pub open spec fn choice_list(cs: Seq<Seq<char>>, first_pos: int) -> Seq<FragmentView> {
    Seq::new(
        cs.len(),
        |i: int|
            frag_spec(
                cs[i],
                (first_pos + i) as u8,
                Some(
                    if i == cs.len() - 1 {
                        ": "@
                    } else {
                        "/"@
                    },
                ),
                GrammarType::UserChoice,
                false,
                true,
            ),
    )
}

/// The characters of each string slice.
pub open spec fn strs(cs: Seq<&str>) -> Seq<Seq<char>> {
    cs.map_values(|c: &str| c@)
}

/// Appends the choices `choices` to the prompt.
pub fn push_choice_fragments(grammars: &mut Vec<GrammarFragment>, choices: &[&str], first_pos: u8)
    requires
        first_pos + choices@.len() <= 255,
    ensures
        frags(final(grammars)@) == frags(old(grammars)@) + choice_list(
            strs(choices@),
            first_pos as int,
        ),
{
    let ghost g0 = frags(grammars@);
    let ghost cl = choice_list(strs(choices@), first_pos as int);
    let mut i: usize = 0;
    while i < choices.len()
        invariant
            i <= choices.len(),
            first_pos + choices@.len() <= 255,
            cl == choice_list(strs(choices@), first_pos as int),
            frags(grammars@) == g0 + cl.take(i as int),
        decreases choices.len() - i,
    {
        let sep = if i == choices.len() - 1 {
            ": "
        } else {
            "/"
        };
        let g = make_fragment(
            choices[i],
            first_pos + i as u8,
            Some(sep),
            GrammarType::UserChoice,
            false,
            true,
        );
        assert(g@ == cl[i as int]);
        let ghost before = frags(grammars@);
        grammars.push(g);
        assert(frags(grammars@) =~= before.push(g@));
        assert(cl.take(i + 1) =~= cl.take(i as int).push(cl[i as int]));
        assert(frags(grammars@) =~= g0 + cl.take(i + 1));
        i += 1;
    }
    assert(cl.take(choices.len() as int) =~= cl);
}

/// Appends the validation choices `d/N/v/a/?` at positions 2 to 6.
pub fn add_choice_options(grammars: &mut Vec<GrammarFragment>)
    ensures
        frags(final(grammars)@) == frags(old(grammars)@) + choice_list(
            seq!["d"@, "N"@, "v"@, "a"@, "?"@],
            2,
        ),
{
    let choices = ["d", "N", "v", "a", "?"];
    assert(strs(choices@) =~= seq!["d"@, "N"@, "v"@, "a"@, "?"@]);
    push_choice_fragments(grammars, &choices, 2);
}

/// Appends the upload choices `d/y/N/?` at positions 4 to 7.
pub fn add_upload_choice_options(grammars: &mut Vec<GrammarFragment>)
    ensures
        frags(final(grammars)@) == frags(old(grammars)@) + choice_list(
            seq!["d"@, "y"@, "N"@, "?"@],
            4,
        ),
{
    let choices = ["d", "y", "N", "?"];
    assert(strs(choices@) =~= seq!["d"@, "y"@, "N"@, "?"@]);
    push_choice_fragments(grammars, &choices, 4);
}


pub(crate) fn push_fragment(grammars: &mut Vec<GrammarFragment>, g: GrammarFragment)
    ensures
        frags(final(grammars)@) == frags(old(grammars)@).push(g@),
{
    let ghost before = frags(grammars@);
    grammars.push(g);
    assert(frags(grammars@) =~= before.push(g@));
}

/// Sets up the validation prompt: `Check <file>? d/N/v/a/?: `. The file
/// name is what was read from the record; when that failed, `Check` is
/// already in place and the reading's error is returned.
pub fn setup_validation_prompt(grammars: &mut Vec<GrammarFragment>, file_name: Result<&str, String>) -> (r: Result<(), String>)
    ensures
        match file_name {
            Ok(name) => r is Ok && frags(final(grammars)@) == frags(old(grammars)@) + seq![
                frag_spec("Check"@, 0, Some(" "@), GrammarType::Verbiage, false, true),
                frag_spec(name@, 1, Some("? "@), GrammarType::FileName, true, true),
            ] + choice_list(seq!["d"@, "N"@, "v"@, "a"@, "?"@], 2),
            Err(e) => r == Err::<(), String>(e) && frags(final(grammars)@) == frags(old(grammars)@).push(
                frag_spec("Check"@, 0, Some(" "@), GrammarType::Verbiage, false, true),
            ),
        },
{
    let ghost g0 = frags(grammars@);
    push_fragment(grammars, make_fragment("Check", 0, Some(" "), GrammarType::Verbiage, false, true));
    let name = match file_name {
        Ok(n) => n,
        Err(e) => return Err(e),
    };
    push_fragment(grammars, make_fragment(name, 1, Some("? "), GrammarType::FileName, true, true));
    let ghost g1 = frags(grammars@);
    add_choice_options(grammars);
    assert(g1 =~= g0 + seq![
        frag_spec("Check"@, 0, Some(" "@), GrammarType::Verbiage, false, true),
        frag_spec(name@, 1, Some("? "@), GrammarType::FileName, true, true),
    ]);
    Ok(())
}

/// The choices of the retrieve prompt: `N/y/s/d/?` when the local file
/// exists, `Y/n/d/?` when it is missing.
pub open spec fn retrieve_choices(file_exists: bool) -> Seq<Seq<char>> {
    if file_exists {
        seq!["N"@, "y"@, "s"@, "d"@, "?"@]
    } else {
        seq!["Y"@, "n"@, "d"@, "?"@]
    }
}

/// Sets up the retrieve prompt: `Files differ <file>. View diff? ...` when
/// the local file exists, `File missing <file>. Save locally? ...` when not.
pub fn setup_retrieve_prompt(grammars: &mut Vec<GrammarFragment>, file_name: &str, file_exists: bool)
    ensures
        frags(final(grammars)@) == frags(old(grammars)@) + seq![
            frag_spec(
                if file_exists {
                    "Files differ"@
                } else {
                    "File missing"@
                },
                0,
                Some(" "@),
                GrammarType::Verbiage,
                false,
                true,
            ),
            frag_spec(file_name@, 1, Some(". "@), GrammarType::FileName, true, true),
            frag_spec(
                if file_exists {
                    "View diff?"@
                } else {
                    "Save locally?"@
                },
                2,
                Some(" "@),
                GrammarType::Verbiage,
                false,
                true,
            ),
        ] + choice_list(retrieve_choices(file_exists), 3),
{
    let ghost g0 = frags(grammars@);
    let status = if file_exists {
        "Files differ"
    } else {
        "File missing"
    };
    push_fragment(grammars, make_fragment(status, 0, Some(" "), GrammarType::Verbiage, false, true));
    push_fragment(grammars, make_fragment(file_name, 1, Some(". "), GrammarType::FileName, true, true));
    let action = if file_exists {
        "View diff?"
    } else {
        "Save locally?"
    };
    push_fragment(grammars, make_fragment(action, 2, Some(" "), GrammarType::Verbiage, false, true));
    let ghost g1 = frags(grammars@);
    if file_exists {
        let choices = ["N", "y", "s", "d", "?"];
        assert(strs(choices@) =~= retrieve_choices(file_exists));
        push_choice_fragments(grammars, &choices, 3);
    } else {
        let choices = ["Y", "n", "d", "?"];
        assert(strs(choices@) =~= retrieve_choices(file_exists));
        push_choice_fragments(grammars, &choices, 3);
    }
    assert(g1 =~= g0 + seq![
        frag_spec(status@, 0, Some(" "@), GrammarType::Verbiage, false, true),
        frag_spec(file_name@, 1, Some(". "@), GrammarType::FileName, true, true),
        frag_spec(action@, 2, Some(" "@), GrammarType::Verbiage, false, true),
    ]);
}

/// Sets up the upload prompt: `Upload <size> <unit> for <file>? d/y/N/?: `,
/// from the size as `format_file_size` writes it, split at its space.
pub fn setup_upload_prompt(
    grammars: &mut Vec<GrammarFragment>,
    file_path: &str,
    size_value: &str,
    size_unit: &str,
)
    ensures
        frags(final(grammars)@) == frags(old(grammars)@) + seq![
            frag_spec("Upload"@, 0, Some(" "@), GrammarType::Verbiage, false, true),
            frag_spec(size_value@, 1, Some(" "@ + size_unit@ + " "@), GrammarType::Verbiage, false, true),
            frag_spec("for"@, 2, Some(" "@), GrammarType::Verbiage, false, true),
            frag_spec(file_path@, 3, Some("? "@), GrammarType::FileName, true, true),
        ] + choice_list(seq!["d"@, "y"@, "N"@, "?"@], 4),
{
    let ghost g0 = frags(grammars@);
    push_fragment(grammars, make_fragment("Upload", 0, Some(" "), GrammarType::Verbiage, false, true));
    let mut unit_suffix = chars_of(" ");
    let mut unit = chars_of(size_unit);
    unit_suffix.append(&mut unit);
    let mut space = chars_of(" ");
    unit_suffix.append(&mut space);
    let suffix = string_from_chars(&unit_suffix);
    let size_frag = GrammarFragment {
        original_val_for_prompt: Some(size_value.to_owned()),
        shortened_val_for_prompt: None,
        pos: 1,
        prefix: None,
        suffix: Some(suffix),
        grammar_type: GrammarType::Verbiage,
        display_at_all: true,
        can_shorten: false,
        is_default_choice: false,
    };
    assert(size_frag@ == frag_spec(size_value@, 1, Some(" "@ + size_unit@ + " "@), GrammarType::Verbiage, false, true));
    push_fragment(grammars, size_frag);
    push_fragment(grammars, make_fragment("for", 2, Some(" "), GrammarType::Verbiage, false, true));
    push_fragment(grammars, make_fragment(file_path, 3, Some("? "), GrammarType::FileName, true, true));
    let ghost g1 = frags(grammars@);
    add_upload_choice_options(grammars);
    assert(g1 =~= g0 + seq![
        frag_spec("Upload"@, 0, Some(" "@), GrammarType::Verbiage, false, true),
        frag_spec(size_value@, 1, Some(" "@ + size_unit@ + " "@), GrammarType::Verbiage, false, true),
        frag_spec("for"@, 2, Some(" "@), GrammarType::Verbiage, false, true),
        frag_spec(file_path@, 3, Some("? "@), GrammarType::FileName, true, true),
    ]);
}

/// One element of a structured prompt.
pub struct PromptGrammar {
    pub text: String,
    pub can_shorten: bool,
    pub display_at_all: bool,
    pub suffix: String,
}

/// A structured prompt: its full text and its elements.
pub struct Prompt {
    pub full_prompt: String,
    pub grammar: Vec<PromptGrammar>,
}

/// The fragment that a prompt element becomes: a file name when it may be
/// shortened, verbiage otherwise, at position 0.
pub open spec fn prompt_element_fragment(g: PromptGrammar) -> FragmentView {
    FragmentView {
        original: Some(g.text@),
        shortened: None,
        pos: 0,
        prefix: None,
        suffix: Some(g.suffix@),
        grammar_type: if g.can_shorten {
            GrammarType::FileName
        } else {
            GrammarType::Verbiage
        },
        display_at_all: g.display_at_all,
        can_shorten: g.can_shorten,
        is_default_choice: false,
    }
}

/// The fragments of a structured prompt.
pub fn prompt_fragments(prompt: &Prompt) -> (r: Vec<GrammarFragment>)
    ensures
        frags(r@) == prompt.grammar@.map_values(|g: PromptGrammar| prompt_element_fragment(g)),
{
    let ghost target = prompt.grammar@.map_values(|g: PromptGrammar| prompt_element_fragment(g));
    let mut r: Vec<GrammarFragment> = Vec::new();
    let mut i: usize = 0;
    while i < prompt.grammar.len()
        invariant
            i <= prompt.grammar.len(),
            target == prompt.grammar@.map_values(|g: PromptGrammar| prompt_element_fragment(g)),
            frags(r@) == target.take(i as int),
        decreases prompt.grammar.len() - i,
    {
        let g = &prompt.grammar[i];
        let f = GrammarFragment {
            original_val_for_prompt: Some(g.text.clone()),
            shortened_val_for_prompt: None,
            pos: 0,
            prefix: None,
            suffix: Some(g.suffix.clone()),
            grammar_type: if g.can_shorten {
                GrammarType::FileName
            } else {
                GrammarType::Verbiage
            },
            display_at_all: g.display_at_all,
            can_shorten: g.can_shorten,
            is_default_choice: false,
        };
        assert(f@ == target[i as int]);
        push_fragment(&mut r, f);
        assert(target.take(i + 1) =~= target.take(i as int).push(target[i as int]));
        i += 1;
    }
    assert(target.take(prompt.grammar.len() as int) =~= target);
    r
}

} // verus!

verus! {

/// Laying out a prompt changes no fragment but for its shortened value:
/// each keeps its value, position, prefix, suffix, type and flags; when the
/// full prompt fits, nothing changes at all.
pub proof fn lemma_formatting_keeps_fragments(gs: Seq<FragmentView>, term_width: int)
    ensures
        formatted(gs, term_width).len() == gs.len(),
        forall|i: int|
            0 <= i < gs.len() ==> {
                let f = #[trigger] formatted(gs, term_width)[i];
                &&& f.original == gs[i].original
                &&& f.pos == gs[i].pos
                &&& f.prefix == gs[i].prefix
                &&& f.suffix == gs[i].suffix
                &&& f.grammar_type == gs[i].grammar_type
                &&& f.display_at_all == gs[i].display_at_all
                &&& f.can_shorten == gs[i].can_shorten
                &&& f.is_default_choice == gs[i].is_default_choice
            },
        !too_wide(gs, term_width) ==> formatted(gs, term_width) == gs,
{
}

/// A prompt whose fragments have no shortened value reads the same whether
/// shortened values are asked for or not.
pub proof fn lemma_unrolled_without_shortened(gs: Seq<FragmentView>, excl: bool)
    requires
        forall|i: int| 0 <= i < gs.len() ==> (#[trigger] gs[i]).shortened is None,
    ensures
        unrolled(gs, excl, true) == unrolled(gs, excl, false),
    decreases gs.len(),
{
    if gs.len() > 0 {
        lemma_unrolled_without_shortened(gs.drop_last(), excl);
        assert(gs.last() == gs[gs.len() - 1]);
    }
}

/// A prompt that fits in the terminal is neither shortened nor changed:
/// laying it out leaves its fragments as they were and returns the full
/// prompt, when no fragment had a shortened value yet.
pub proof fn lemma_fitting_prompt_unchanged(gs: Seq<FragmentView>, term_width: int)
    requires
        !too_wide(gs, term_width),
        forall|i: int| 0 <= i < gs.len() ==> (#[trigger] gs[i]).shortened is None,
    ensures
        formatted(gs, term_width) == gs,
        unrolled(formatted(gs, term_width), false, true) == unrolled(gs, false, false),
{
    lemma_unrolled_without_shortened(gs, false);
}

/// How a value is cut: a value that fits stays whole; an image keeps its
/// start and ends in `...`; any other value loses its start and begins with
/// `...`.
pub proof fn lemma_shorten_text_shape(o: Seq<char>, t: GrammarType, allowed: int)
    ensures
        byte_len(o) <= allowed ==> shorten_text(o, t, allowed) == o,
        byte_len(o) > allowed && t == GrammarType::Image ==> exists|n: int|
            0 <= n <= o.len() && shorten_text(o, t, allowed) == #[trigger] o.take(n) + "..."@,
        byte_len(o) > allowed && t != GrammarType::Image ==> exists|n: int|
            0 <= n <= o.len() && shorten_text(o, t, allowed) == "..."@ + #[trigger] o.skip(n),
        byte_len(o) > allowed && shorten_ok(o, t, allowed) ==> byte_len(shorten_text(o, t, allowed))
            == if t == GrammarType::Image {
            allowed + 2
        } else {
            allowed + 3
        },
{
    if byte_len(o) > allowed && shorten_ok(o, t, allowed) {
        lemma_dots_len();
        if t == GrammarType::Image {
            lemma_byte_prefix_len(o, allowed - 1);
            lemma_byte_len_concat(byte_prefix(o, allowed - 1), "..."@);
        } else {
            lemma_byte_drop_len(o, byte_len(o) - allowed);
            lemma_byte_len_concat("..."@, byte_drop(o, byte_len(o) - allowed));
        }
    }
    if byte_len(o) > allowed {
        if t == GrammarType::Image {
            lemma_byte_prefix_is_prefix(o, allowed - 1);
            let n = byte_prefix(o, allowed - 1).len() as int;
            assert(shorten_text(o, t, allowed) == o.take(n) + "..."@);
        } else {
            lemma_byte_drop_is_suffix(o, byte_len(o) - allowed);
            let n = o.len() - byte_drop(o, byte_len(o) - allowed).len();
            assert(shorten_text(o, t, allowed) == "..."@ + o.skip(n));
        }
    }
}

/// The shortened value a fragment gets when a prompt is laid out, whenever
/// laying it out changes it: the whole value, or for an image a start of its
/// value followed by `...`, or for any other fragment `...` followed by an
/// end of its value.
pub open spec fn cut_as_laid_out(f: FragmentView) -> bool {
    let o = f.original->0;
    ||| f.shortened == Some(o)
    ||| (f.grammar_type == GrammarType::Image && exists|n: int|
        0 <= n <= o.len() && f.shortened == Some(#[trigger] o.take(n) + "..."@))
    ||| (f.grammar_type != GrammarType::Image && exists|n: int|
        0 <= n <= o.len() && f.shortened == Some("..."@ + #[trigger] o.skip(n)))
}

/// Laying out a prompt cuts each fragment it changes as `cut_as_laid_out`
/// says.
pub proof fn lemma_formatted_cuts(gs: Seq<FragmentView>, term_width: int)
    ensures
        forall|i: int|
            0 <= i < gs.len() && (#[trigger] formatted(gs, term_width)[i]).shortened != gs[i].shortened
                ==> cut_as_laid_out(formatted(gs, term_width)[i]),
{
    assert forall|i: int|
        0 <= i < gs.len() && (#[trigger] formatted(gs, term_width)[i]).shortened != gs[i].shortened
            implies cut_as_laid_out(formatted(gs, term_width)[i]) by {
        let g = gs[i];
        let f = formatted(gs, term_width)[i];
        assert(too_wide(gs, term_width));
        assert(f == formatted_fragment(g, gs, term_width));
        if shortening_applies(gs, term_width) && is_shortenable(g) {
            let o = g.original->0;
            let a = allowed_len(gs, term_width);
            lemma_shorten_text_shape(o, g.grammar_type, a);
            assert(f.original == g.original);
            if byte_len(o) > a {
                if g.grammar_type == GrammarType::Image {
                    let n = choose|n: int| 0 <= n <= o.len() && shorten_text(o, g.grammar_type, a) == #[trigger] o.take(n) + "..."@;
                    assert(f.shortened == Some(o.take(n) + "..."@));
                } else {
                    let n = choose|n: int| 0 <= n <= o.len() && shorten_text(o, g.grammar_type, a) == "..."@ + #[trigger] o.skip(n);
                    assert(f.shortened == Some("..."@ + o.skip(n)));
                }
            } else {
                assert(f.shortened == Some(o));
            }
        }
    }
}

/// The default choice is the value of the first user-choice fragment marked
/// as the default, and there is none when no such fragment is marked.
pub proof fn lemma_default_choice_is_first_marked(gs: Seq<FragmentView>)
    ensures
        (forall|i: int|
            0 <= i < gs.len() ==> !((#[trigger] gs[i]).grammar_type == GrammarType::UserChoice
                && gs[i].is_default_choice)) ==> default_choice_of(gs) is None,
        forall|i: int|
            0 <= i < gs.len() && (#[trigger] gs[i]).grammar_type == GrammarType::UserChoice
                && gs[i].is_default_choice && (forall|j: int|
                0 <= j < i ==> !((#[trigger] gs[j]).grammar_type == GrammarType::UserChoice
                    && gs[j].is_default_choice)) ==> default_choice_of(gs) == gs[i].original,
    decreases gs.len(),
{
    if gs.len() > 0 {
        let rest = gs.drop_first();
        lemma_default_choice_is_first_marked(rest);
        if !(gs[0].grammar_type == GrammarType::UserChoice && gs[0].is_default_choice) {
            if forall|i: int|
                0 <= i < gs.len() ==> !((#[trigger] gs[i]).grammar_type == GrammarType::UserChoice
                    && gs[i].is_default_choice) {
                assert forall|i: int| 0 <= i < rest.len() implies !((#[trigger] rest[i]).grammar_type
                    == GrammarType::UserChoice && rest[i].is_default_choice) by {
                    assert(rest[i] == gs[i + 1]);
                }
            }
            assert forall|i: int|
                0 <= i < gs.len() && (#[trigger] gs[i]).grammar_type == GrammarType::UserChoice
                    && gs[i].is_default_choice && (forall|j: int|
                    0 <= j < i ==> !((#[trigger] gs[j]).grammar_type == GrammarType::UserChoice
                        && gs[j].is_default_choice)) implies default_choice_of(gs) == gs[i].original by {
                assert(i > 0);
                assert(rest[i - 1] == gs[i]);
                assert forall|j: int| 0 <= j < i - 1 implies !((#[trigger] rest[j]).grammar_type
                    == GrammarType::UserChoice && rest[j].is_default_choice) by {
                    assert(rest[j] == gs[j + 1]);
                }
            }
        } else {
            assert forall|i: int|
                0 <= i < gs.len() && (#[trigger] gs[i]).grammar_type == GrammarType::UserChoice
                    && gs[i].is_default_choice && (forall|j: int|
                    0 <= j < i ==> !((#[trigger] gs[j]).grammar_type == GrammarType::UserChoice
                        && gs[j].is_default_choice)) implies default_choice_of(gs) == gs[i].original by {
                if i > 0 {
                    assert(!(gs[0].grammar_type == GrammarType::UserChoice && gs[0].is_default_choice));
                }
            }
        }
    }
}

/// Laying a prompt out keeps its default choice: the value of the first
/// user-choice fragment marked as the default, none when none is marked.
#[verifier::rlimit(30)]
pub proof fn lemma_default_choice_after_layout(gs: Seq<FragmentView>, term_width: int)
    ensures
        (forall|i: int|
            0 <= i < gs.len() ==> !((#[trigger] gs[i]).grammar_type == GrammarType::UserChoice
                && gs[i].is_default_choice)) ==> default_choice_of(formatted(gs, term_width)) is None,
        forall|i: int|
            0 <= i < gs.len() && (#[trigger] gs[i]).grammar_type == GrammarType::UserChoice
                && gs[i].is_default_choice && (forall|j: int|
                0 <= j < i ==> !((#[trigger] gs[j]).grammar_type == GrammarType::UserChoice
                    && gs[j].is_default_choice)) ==> default_choice_of(formatted(gs, term_width)) == gs[i].original,
{
    let gs0 = gs;
    let gs1 = formatted(gs, term_width);
    lemma_formatting_keeps_fragments(gs0, term_width);
    lemma_default_choice_is_first_marked(gs1);
    assert(gs1.len() == gs0.len());
    assert forall|i: int| 0 <= i < gs0.len() implies (#[trigger] gs1[i]).grammar_type == gs0[i].grammar_type
        && gs1[i].is_default_choice == gs0[i].is_default_choice && gs1[i].original == gs0[i].original by {
        assert(gs1[i] == formatted(gs0, term_width)[i]);
    }
    assert forall|i: int|
        0 <= i < gs0.len() && (#[trigger] gs0[i]).grammar_type == GrammarType::UserChoice
            && gs0[i].is_default_choice && (forall|j: int|
            0 <= j < i ==> !((#[trigger] gs0[j]).grammar_type == GrammarType::UserChoice
                && gs0[j].is_default_choice)) implies default_choice_of(gs1) == gs0[i].original by {
        assert(gs1[i].grammar_type == gs0[i].grammar_type);
        assert forall|j: int| 0 <= j < i implies !((#[trigger] gs1[j]).grammar_type
            == GrammarType::UserChoice && gs1[j].is_default_choice) by {
            assert(gs1[j].grammar_type == gs0[j].grammar_type);
            assert(!(gs0[j].grammar_type == GrammarType::UserChoice && gs0[j].is_default_choice));
        }
    }
    if forall|i: int|
        0 <= i < gs.len() ==> !((#[trigger] gs[i]).grammar_type == GrammarType::UserChoice
            && gs[i].is_default_choice) {
        assert forall|i: int| 0 <= i < gs1.len() implies !((#[trigger] gs1[i]).grammar_type
            == GrammarType::UserChoice && gs1[i].is_default_choice) by {
            assert(gs1[i].grammar_type == gs[i].grammar_type);
            assert(!(gs[i].grammar_type == GrammarType::UserChoice && gs[i].is_default_choice));
        }
    }
}

/// The ellipsis takes three bytes.
pub proof fn lemma_dots_len()
    ensures
        byte_len("..."@) == 3,
{
    reveal_strlit("...");
    crate::utf8_len::lemma_char_width('.');
    let d = "..."@;
    assert(d.len() == 3 && d[0] == '.' && d[1] == '.' && d[2] == '.');
    lemma_byte_len_concat(seq![d[0]], d.drop_first());
    assert(d =~= seq![d[0]] + d.drop_first());
    lemma_byte_len_concat(seq![d[1]], d.drop_first().drop_first());
    assert(d.drop_first() =~= seq![d[1]] + d.drop_first().drop_first());
    assert(d.drop_first().drop_first() =~= seq!['.']);
    assert(seq!['.'].drop_first() =~= Seq::<char>::empty());
    assert(vstd::utf8::encode_utf8(Seq::<char>::empty()) =~= Seq::<u8>::empty());
    assert(vstd::utf8::encode_utf8(seq!['.']) =~= vstd::utf8::encode_scalar('.' as u32));
    assert(seq![d[0]] =~= seq!['.']);
    assert(seq![d[1]] =~= seq!['.']);
}

/// A fragment that laying out the prompt cuts gets its share of the room:
/// an image keeps `allowed_len` less one bytes and gains `...` after them;
/// any other fragment keeps its last `allowed_len` bytes after `...`.
pub proof fn lemma_formatted_cut_lengths(gs: Seq<FragmentView>, term_width: int)
    requires
        formatting_ok(gs, term_width),
    ensures
        forall|i: int|
            0 <= i < gs.len() && (#[trigger] formatted(gs, term_width)[i]).shortened != gs[i].shortened
                && formatted(gs, term_width)[i].shortened != Some(gs[i].original->0) ==> byte_len(
                formatted(gs, term_width)[i].shortened->0,
            ) == allowed_len(gs, term_width) + if gs[i].grammar_type == GrammarType::Image {
                2int
            } else {
                3int
            },
{
    assert forall|i: int|
        0 <= i < gs.len() && (#[trigger] formatted(gs, term_width)[i]).shortened != gs[i].shortened
            && formatted(gs, term_width)[i].shortened != Some(gs[i].original->0) implies byte_len(
            formatted(gs, term_width)[i].shortened->0,
        ) == allowed_len(gs, term_width) + if gs[i].grammar_type == GrammarType::Image {
            2int
        } else {
            3int
        } by {
        let g = gs[i];
        assert(too_wide(gs, term_width));
        assert(formatted(gs, term_width)[i] == formatted_fragment(g, gs, term_width));
        if shortening_applies(gs, term_width) && is_shortenable(g) {
            let o = g.original->0;
            let a = allowed_len(gs, term_width);
            lemma_shorten_text_shape(o, g.grammar_type, a);
            assert(shorten_ok(o, g.grammar_type, a));
        }
    }
}

} // verus!
