//! Reading targets and the images they build out of a Makefile's text.

use vstd::prelude::*;
use crate::order::{insert_sorted_unique, strictly_sorted};
use crate::text::{
    before_char, before_char_chars, char_pos, chars_of, contains, contains_chars, find_char,
    lemma_char_pos_range, lines, slice_chars, split_lines, split_words, starts_with,
    starts_with_chars, str_views, lemma_to_set_concat, chars_eq, chars_eq_str, trim_start,
    trim_start_chars, trim_start_matches, trim_start_matches_chars, string_from_chars, trim, trim_chars, trim_end, trim_end_chars, views, words,
};

verus! {

/// A word that names a real target: not empty, not starting with `.`, and
/// with no pattern (`%`) or variable (`$`) in it.
pub open spec fn is_target_name(t: Seq<char>) -> bool {
    t.len() > 0 && t[0] != '.' && !t.contains('%') && !t.contains('$')
}

/// The rule line with its comment and trailing whitespace cut off.
pub open spec fn rule_text(line: Seq<char>) -> Seq<char> {
    trim_end(before_char(line, '#'))
}

/// The targets that a rule line declares: the target names left of its
/// first `:`, unless the line is empty or an assignment (`:=`, `::=`).
pub open spec fn declared_targets(line: Seq<char>) -> Seq<Seq<char>> {
    let l = rule_text(line);
    if l.len() == 0 || contains(l, seq![':', '=']) || contains(l, seq![':', ':', '=']) {
        seq![]
    } else if char_pos(l, ':') < 0 {
        seq![]
    } else {
        words(l.take(char_pos(l, ':'))).filter(|t: Seq<char>| is_target_name(t))
    }
}

/// The targets that a physical line of a Makefile declares: none for a
/// blank line or a line that starts with a tab or a space.
pub open spec fn line_targets(line: Seq<char>) -> Seq<Seq<char>> {
    if trim(line).len() == 0 || starts_with(line, seq!['\t']) || starts_with(line, seq![' ']) {
        seq![]
    } else {
        declared_targets(line)
    }
}

/// All targets declared over a sequence of lines, in order, repeats kept.
pub open spec fn all_targets(ls: Seq<Seq<char>>) -> Seq<Seq<char>>
    decreases ls.len(),
{
    if ls.len() == 0 {
        seq![]
    } else {
        all_targets(ls.drop_last()) + line_targets(ls.last())
    }
}

/// `acc` followed by each element of `xs` that is not already there, in order.
pub open spec fn add_unique(acc: Seq<Seq<char>>, xs: Seq<Seq<char>>) -> Seq<Seq<char>>
    decreases xs.len(),
{
    if xs.len() == 0 {
        acc
    } else {
        let a = add_unique(acc, xs.drop_last());
        if a.contains(xs.last()) {
            a
        } else {
            a.push(xs.last())
        }
    }
}

fn vec_chars(s: &str) -> (v: Vec<char>)
    ensures
        v@ == s@,
{
    chars_of(s)
}

/// The targets that `line` declares after its comment is cut off.
fn parse_declared_targets(line: &Vec<char>) -> (r: Vec<Vec<char>>)
    ensures
        views(r@) == declared_targets(line@),
{
    let before = before_char_chars(line, '#');
    let l = trim_end_chars(&before);
    let assign = vec![':', '='];
    let assign2 = vec![':', ':', '='];
    assert(assign@ =~= seq![':', '=']);
    assert(assign2@ =~= seq![':', ':', '=']);
    if l.len() == 0 || contains_chars(&l, &assign) || contains_chars(&l, &assign2) {
        return Vec::new();
    }
    let colon = match find_char(&l, ':') {
        Some(k) => k,
        None => {
            return Vec::new();
        },
    };
    proof {
        lemma_char_pos_range(l@, ':');
    }
    let left = slice_chars(&l, 0, colon);
    assert(left@ =~= l@.take(colon as int));
    let ws = split_words(&left);
    let mut r: Vec<Vec<char>> = Vec::new();
    let mut i: usize = 0;
    while i < ws.len()
        invariant
            i <= ws.len(),
            views(ws@) == words(left@),
            views(r@) == views(ws@).take(i as int).filter(|t: Seq<char>| is_target_name(t)),
        decreases ws.len() - i,
    {
        let w = &ws[i];
        let ghost wv = w@;
        assert(views(ws@)[i as int] == wv);
        let nonempty = w.len() > 0;
        let dot = nonempty && w[0] == '.';
        let has_pct = find_char(w, '%').is_some();
        let has_dollar = find_char(w, '$').is_some();
        let keep = nonempty && !dot && !has_pct && !has_dollar;
        proof {
            lemma_char_pos_range(wv, '%');
            lemma_char_pos_range(wv, '$');
            if has_pct {
                assert(wv[char_pos(wv, '%')] == '%');
                assert(wv.contains('%'));
            } else {
                assert(!wv.contains('%'));
            }
            if has_dollar {
                assert(wv[char_pos(wv, '$')] == '$');
                assert(wv.contains('$'));
            } else {
                assert(!wv.contains('$'));
            }
            assert(nonempty == (wv.len() > 0));
            assert(nonempty ==> (dot == (wv[0] == '.')));
            assert(has_pct == wv.contains('%'));
            assert(has_dollar == wv.contains('$'));
            assert(keep == is_target_name(wv));
            assert(views(ws@).take(i + 1) =~= views(ws@).take(i as int).push(wv));
            views(ws@).take(i as int).lemma_filter_push(wv, |t: Seq<char>| is_target_name(t));
        }
        if keep {
            let c = slice_chars(w, 0, w.len());
            assert(c@ =~= wv);
            let ghost old_r = views(r@);
            r.push(c);
            assert(views(r@) =~= old_r.push(wv));
        }
        i += 1;
    }
    assert(views(ws@).take(ws.len() as int) =~= views(ws@));
    r
}

/// The targets that one physical line of a Makefile declares.
fn line_targets_exec(line: &Vec<char>) -> (r: Vec<Vec<char>>)
    ensures
        views(r@) == line_targets(line@),
{
    let t = trim_chars(line);
    let tab = vec!['\t'];
    let sp = vec![' '];
    assert(tab@ =~= seq!['\t']);
    assert(sp@ =~= seq![' ']);
    if t.len() == 0 || starts_with_chars(line, &tab) || starts_with_chars(line, &sp) {
        return Vec::new();
    }
    parse_declared_targets(line)
}

/// Converts character vectors to strings.
pub fn strings_of(v: &Vec<Vec<char>>) -> (r: Vec<String>)
    ensures
        str_views(r@) == views(v@),
{
    let mut r: Vec<String> = Vec::new();
    let mut i: usize = 0;
    while i < v.len()
        invariant
            i <= v.len(),
            str_views(r@) == views(v@).take(i as int),
        decreases v.len() - i,
    {
        let st = string_from_chars(&v[i]);
        assert(views(v@)[i as int] == v@[i as int]@);
        let ghost old_r = r@;
        assert(str_views(old_r).len() == old_r.len());
        assert(old_r.len() == i);
        r.push(st);
        assert(r@ == old_r.push(st));
        assert forall|k: int| 0 <= k < i + 1 implies #[trigger] str_views(r@)[k] == views(
            v@,
        ).take(i + 1)[k] by {
            if k < i {
                assert(r@[k] == old_r[k]);
                assert(str_views(old_r)[k] == views(v@).take(i as int)[k]);
            }
        }
        assert(str_views(r@) =~= views(v@).take(i + 1));
        i += 1;
    }
    assert(views(v@).take(v.len() as int) =~= views(v@));
    r
}

/// The distinct targets that the Makefile text `content` declares, in
/// sorted order.
pub fn parse_makefile_targets(content: &str) -> (r: Vec<String>)
    ensures
        strictly_sorted(str_views(r@)),
        str_views(r@).to_set() == all_targets(lines(content@)).to_set(),
        forall|i: int|
            0 <= i < r@.len() ==> {
                let t = (#[trigger] r@[i])@;
                &&& t.len() > 0
                &&& t[0] != '.'
                &&& !t.contains('%')
                &&& !t.contains('$')
            },
{
    let text = vec_chars(content);
    let ls = split_lines(&text);
    let ghost lsv = views(ls@);
    let mut set: Vec<Vec<char>> = Vec::new();
    let mut i: usize = 0;
    assert(views(set@).to_set() =~= all_targets(lsv.take(0)).to_set());
    while i < ls.len()
        invariant
            i <= ls.len(),
            lsv == views(ls@),
            lsv == lines(text@),
            strictly_sorted(views(set@)),
            views(set@).to_set() == all_targets(lsv.take(i as int)).to_set(),
        decreases ls.len() - i,
    {
        let ts = line_targets_exec(&ls[i]);
        assert(lsv[i as int] == ls@[i as int]@);
        assert(lsv.take(i + 1).drop_last() =~= lsv.take(i as int));
        assert(lsv.take(i + 1).last() == lsv[i as int]);
        let ghost before = all_targets(lsv.take(i as int));
        let mut j: usize = 0;
        assert(views(ts@).take(0).to_set() =~= Set::<Seq<char>>::empty());
        assert(before.to_set() + Set::<Seq<char>>::empty() =~= before.to_set());
        while j < ts.len()
            invariant
                j <= ts.len(),
                strictly_sorted(views(set@)),
                views(set@).to_set() == before.to_set() + views(ts@).take(j as int).to_set(),
            decreases ts.len() - j,
        {
            assert(views(ts@)[j as int] == ts@[j as int]@);
            let c = slice_chars(&ts[j], 0, ts[j].len());
            assert(c@ =~= views(ts@)[j as int]);
            insert_sorted_unique(&mut set, c);
            proof {
                let s0 = views(ts@).take(j as int);
                let x = views(ts@)[j as int];
                assert(views(ts@).take(j + 1) =~= s0.push(x));
                s0.lemma_push_to_set_commute(x);
                assert(views(set@).to_set() =~= before.to_set() + views(ts@).take(j + 1).to_set());
            }
            j += 1;
        }
        assert(views(ts@).take(ts.len() as int) =~= views(ts@));
        proof {
            lemma_to_set_concat(before, views(ts@));
        }
        i += 1;
    }
    assert(lsv.take(ls.len() as int) =~= lsv);
    let r = strings_of(&set);
    proof {
        lemma_all_targets_are_names(lsv);
        assert forall|i: int| 0 <= i < r@.len() implies {
            let t = (#[trigger] r@[i])@;
            &&& t.len() > 0
            &&& t[0] != '.'
            &&& !t.contains('%')
            &&& !t.contains('$')
        } by {
            let t = r@[i]@;
            assert(str_views(r@)[i] == t);
            assert(str_views(r@).to_set().contains(t));
            assert(all_targets(lsv).to_set().contains(t));
            let k = choose|k: int| 0 <= k < all_targets(lsv).len() && all_targets(lsv)[k] == t;
        }
    }
    r
}

/// Every target a rule line declares is a real target name: not empty, not
/// starting with `.`, with no pattern `%` and no variable `$` in it.
pub proof fn lemma_declared_targets_are_names(line: Seq<char>)
    ensures
        forall|i: int|
            0 <= i < declared_targets(line).len() ==> {
                let t = #[trigger] declared_targets(line)[i];
                &&& t.len() > 0
                &&& t[0] != '.'
                &&& !t.contains('%')
                &&& !t.contains('$')
            },
{
    let l = rule_text(line);
    if !(l.len() == 0 || contains(l, seq![':', '=']) || contains(l, seq![':', ':', '='])) && char_pos(l, ':') >= 0 {
        let ws = words(l.take(char_pos(l, ':')));
        let f = |t: Seq<char>| is_target_name(t);
        assert forall|i: int| 0 <= i < ws.filter(f).len() implies is_target_name(ws.filter(f)[i]) by {
            ws.lemma_filter_pred(f, i);
        }
    }
}

/// Every target declared over a sequence of lines is a real target name.
pub proof fn lemma_all_targets_are_names(ls: Seq<Seq<char>>)
    ensures
        forall|i: int|
            0 <= i < all_targets(ls).len() ==> {
                let t = #[trigger] all_targets(ls)[i];
                &&& t.len() > 0
                &&& t[0] != '.'
                &&& !t.contains('%')
                &&& !t.contains('$')
            },
    decreases ls.len(),
{
    if ls.len() > 0 {
        lemma_all_targets_are_names(ls.drop_last());
        lemma_declared_targets_are_names(ls.last());
        let a = all_targets(ls.drop_last());
        let b = line_targets(ls.last());
        assert(all_targets(ls) == a + b);
        assert forall|i: int| 0 <= i < (a + b).len() implies {
            let t = #[trigger] (a + b)[i];
            &&& t.len() > 0
            &&& t[0] != '.'
            &&& !t.contains('%')
            &&& !t.contains('$')
        } by {
            if i < a.len() {
                assert((a + b)[i] == a[i]);
            } else {
                assert((a + b)[i] == b[i - a.len()]);
                assert(b.len() > 0);
                assert(b == declared_targets(ls.last()));
                let t = declared_targets(ls.last())[i - a.len()];
            }
        }
    }
}


/// One step of joining physical lines: a line whose trimmed end is a
/// backslash continues the current logical line.
pub open spec fn join_step(st: (Seq<Seq<char>>, Seq<char>), line: Seq<char>) -> (
    Seq<Seq<char>>,
    Seq<char>,
) {
    let te = trim_end(line);
    let continued = te.len() > 0 && te.last() == '\\';
    let segment = if continued {
        te.drop_last()
    } else {
        te
    };
    let cur = if st.1.len() == 0 {
        segment
    } else {
        st.1 + seq![' '] + trim_start(segment)
    };
    if continued {
        (st.0, cur)
    } else {
        (st.0.push(cur), seq![])
    }
}

/// The state after joining the physical lines `ls`: finished logical lines
/// and the logical line still open.
pub open spec fn join_scan(ls: Seq<Seq<char>>) -> (Seq<Seq<char>>, Seq<char>)
    decreases ls.len(),
{
    if ls.len() == 0 {
        (seq![], seq![])
    } else {
        join_step(join_scan(ls.drop_last()), ls.last())
    }
}

/// The logical lines of a Makefile: physical lines joined at trailing
/// backslashes, a continuation trimmed at its start and joined with a space.
pub open spec fn logical_lines(content: Seq<char>) -> Seq<Seq<char>> {
    let st = join_scan(lines(content));
    if st.1.len() > 0 {
        st.0.push(st.1)
    } else {
        st.0
    }
}

/// The image candidates of a build command's tokens: the token after each
/// `-t` or `--tag`, and the value of each `--tag=...`.
pub open spec fn tag_candidates(tokens: Seq<Seq<char>>) -> Seq<Seq<char>>
    decreases tokens.len(),
{
    if tokens.len() == 0 {
        seq![]
    } else if tokens[0] == "-t"@ || tokens[0] == "--tag"@ {
        if tokens.len() > 1 {
            seq![tokens[1]] + tag_candidates(tokens.skip(2))
        } else {
            seq![]
        }
    } else if starts_with(tokens[0], "--tag="@) {
        let im = trim_start_matches(tokens[0], "--tag="@);
        (if im.len() > 0 {
            seq![im]
        } else {
            seq![]
        }) + tag_candidates(tokens.skip(1))
    } else {
        tag_candidates(tokens.skip(1))
    }
}

/// The images that a recipe line tags, first occurrences kept, when the line
/// runs `podman build` or `docker build`.
pub open spec fn build_tags(line: Seq<char>) -> Seq<Seq<char>> {
    let c = trim(line);
    if contains(c, "podman build"@) || contains(c, "docker build"@) {
        add_unique(seq![], tag_candidates(words(c)))
    } else {
        seq![]
    }
}

/// Position of the first entry with key `k`, or -1.
pub open spec fn key_pos(m: Seq<(Seq<char>, Seq<Seq<char>>)>, k: Seq<char>) -> int
    decreases m.len(),
{
    if m.len() == 0 {
        -1
    } else if m[0].0 == k {
        0
    } else {
        let p = key_pos(m.drop_first(), k);
        if p < 0 {
            -1
        } else {
            p + 1
        }
    }
}

/// `m` with the images `imgs` added to the entry of target `t`, which is
/// created empty if missing; images already there are not repeated.
pub open spec fn add_target_images(
    m: Seq<(Seq<char>, Seq<Seq<char>>)>,
    t: Seq<char>,
    imgs: Seq<Seq<char>>,
) -> Seq<(Seq<char>, Seq<Seq<char>>)> {
    let p = key_pos(m, t);
    if p < 0 {
        m.push((t, add_unique(seq![], imgs)))
    } else {
        m.update(p, (t, add_unique(m[p].1, imgs)))
    }
}

/// `m` with the images `imgs` added to each of `targets` in turn.
pub open spec fn add_images_for(
    m: Seq<(Seq<char>, Seq<Seq<char>>)>,
    targets: Seq<Seq<char>>,
    imgs: Seq<Seq<char>>,
) -> Seq<(Seq<char>, Seq<Seq<char>>)>
    decreases targets.len(),
{
    if targets.len() == 0 {
        m
    } else {
        add_target_images(add_images_for(m, targets.drop_last(), imgs), targets.last(), imgs)
    }
}

/// A recipe line starts with a tab or four spaces.
pub open spec fn is_recipe_line(raw: Seq<char>) -> bool {
    starts_with(raw, seq!['\t']) || starts_with(raw, seq![' ', ' ', ' ', ' '])
}

/// One step over a logical line: a rule line sets the current targets, and a
/// recipe line adds the images it builds to each current target.
pub open spec fn image_step(
    st: (Seq<Seq<char>>, Seq<(Seq<char>, Seq<Seq<char>>)>),
    raw: Seq<char>,
) -> (Seq<Seq<char>>, Seq<(Seq<char>, Seq<Seq<char>>)>) {
    let trimmed = trim_end(raw);
    if trim(trimmed).len() == 0 {
        st
    } else if is_recipe_line(raw) {
        let imgs = build_tags(trimmed);
        if st.0.len() == 0 || imgs.len() == 0 {
            st
        } else {
            (st.0, add_images_for(st.1, st.0, imgs))
        }
    } else {
        (declared_targets(trimmed), st.1)
    }
}

/// The current targets and the images per target after the lines `ls`.
pub open spec fn image_scan(ls: Seq<Seq<char>>) -> (
    Seq<Seq<char>>,
    Seq<(Seq<char>, Seq<Seq<char>>)>,
)
    decreases ls.len(),
{
    if ls.len() == 0 {
        (seq![], seq![])
    } else {
        image_step(image_scan(ls.drop_last()), ls.last())
    }
}

/// The images that each target of the Makefile text `content` builds.
pub open spec fn target_images(content: Seq<char>) -> Seq<(Seq<char>, Seq<Seq<char>>)> {
    image_scan(logical_lines(content)).1
}

/// The entries of an association list of character vectors, as sequences.
pub open spec fn assoc_views(m: Seq<(Vec<char>, Vec<Vec<char>>)>) -> Seq<
    (Seq<char>, Seq<Seq<char>>),
> {
    m.map_values(|e: (Vec<char>, Vec<Vec<char>>)| (e.0@, views(e.1@)))
}

/// A copy of `v`.
pub fn copy_words(v: &Vec<Vec<char>>) -> (r: Vec<Vec<char>>)
    ensures
        views(r@) == views(v@),
{
    let mut r: Vec<Vec<char>> = Vec::new();
    let mut i: usize = 0;
    while i < v.len()
        invariant
            i <= v.len(),
            views(r@) == views(v@).take(i as int),
        decreases v.len() - i,
    {
        let c = slice_chars(&v[i], 0, v[i].len());
        assert(c@ =~= v@[i as int]@);
        let ghost old_r = views(r@);
        r.push(c);
        assert(views(r@) =~= old_r.push(c@));
        assert(views(v@).take(i + 1) =~= views(v@).take(i as int).push(v@[i as int]@));
        assert(views(r@) =~= views(v@).take(i + 1));
        i += 1;
    }
    assert(views(v@).take(v.len() as int) =~= views(v@));
    r
}

/// Whether `w` is one of the words of `v`.
pub fn contains_word(v: &Vec<Vec<char>>, w: &Vec<char>) -> (b: bool)
    ensures
        b == views(v@).contains(w@),
{
    let mut i: usize = 0;
    while i < v.len()
        invariant
            i <= v.len(),
            forall|k: int| 0 <= k < i ==> views(v@)[k] != w@,
        decreases v.len() - i,
    {
        if chars_eq(&v[i], w) {
            assert(views(v@)[i as int] == w@);
            return true;
        }
        i += 1;
    }
    false
}

/// `acc` followed by each word of `xs` that is not already there.
pub fn add_unique_words(acc: &Vec<Vec<char>>, xs: &Vec<Vec<char>>) -> (r: Vec<Vec<char>>)
    ensures
        views(r@) == add_unique(views(acc@), views(xs@)),
{
    let mut r = copy_words(acc);
    let mut i: usize = 0;
    assert(views(xs@).take(0) =~= Seq::<Seq<char>>::empty());
    while i < xs.len()
        invariant
            i <= xs.len(),
            views(r@) == add_unique(views(acc@), views(xs@).take(i as int)),
        decreases xs.len() - i,
    {
        let ghost pre = views(xs@).take(i as int);
        assert(views(xs@).take(i + 1).drop_last() =~= pre);
        assert(views(xs@).take(i + 1).last() == xs@[i as int]@);
        if !contains_word(&r, &xs[i]) {
            let c = slice_chars(&xs[i], 0, xs[i].len());
            assert(c@ =~= xs@[i as int]@);
            let ghost old_r = views(r@);
            r.push(c);
            assert(views(r@) =~= old_r.push(xs@[i as int]@));
        }
        i += 1;
    }
    assert(views(xs@).take(xs.len() as int) =~= views(xs@));
    r
}

/// Joins continued physical lines of `content` into logical lines.
fn join_makefile_lines(content: &Vec<char>) -> (r: Vec<Vec<char>>)
    ensures
        views(r@) == logical_lines(content@),
{
    let ls = split_lines(content);
    let ghost lsv = views(ls@);
    let mut logical: Vec<Vec<char>> = Vec::new();
    let mut current: Vec<char> = Vec::new();
    let mut i: usize = 0;
    assert(lsv.take(0) =~= Seq::<Seq<char>>::empty());
    while i < ls.len()
        invariant
            i <= ls.len(),
            lsv == views(ls@),
            lsv == lines(content@),
            (views(logical@), current@) == join_scan(lsv.take(i as int)),
        decreases ls.len() - i,
    {
        assert(lsv.take(i + 1).drop_last() =~= lsv.take(i as int));
        assert(lsv.take(i + 1).last() == ls@[i as int]@);
        let te = trim_end_chars(&ls[i]);
        let continued = te.len() > 0 && te[te.len() - 1] == '\\';
        let segment = if continued {
            slice_chars(&te, 0, te.len() - 1)
        } else {
            slice_chars(&te, 0, te.len())
        };
        assert(continued ==> segment@ =~= te@.drop_last());
        assert(!continued ==> segment@ =~= te@);
        let ghost st = join_scan(lsv.take(i as int));
        let ghost old_cur = current@;
        if current.len() == 0 {
            current = segment;
        } else {
            current.push(' ');
            let mut rest = trim_start_chars(&segment);
            current.append(&mut rest);
            assert(current@ =~= old_cur + seq![' '] + trim_start(segment@));
        }
        assert(current@ == join_step(st, lsv[i as int]).1 || !continued);
        if !continued {
            let ghost old_l = views(logical@);
            logical.push(current);
            current = Vec::new();
            assert(views(logical@) =~= old_l.push(views(logical@).last()));
        }
        i += 1;
    }
    assert(lsv.take(ls.len() as int) =~= lsv);
    if current.len() > 0 {
        let ghost old_l = views(logical@);
        logical.push(current);
        assert(views(logical@) =~= old_l.push(views(logical@).last()));
    }
    logical
}

/// The images that a recipe line tags with `-t`, `--tag` or `--tag=`.
fn parse_build_tags_from_recipe(line: &Vec<char>) -> (r: Vec<Vec<char>>)
    ensures
        views(r@) == build_tags(line@),
{
    let cleaned = trim_chars(line);
    let podman = vec_chars("podman build");
    let docker = vec_chars("docker build");
    if !(contains_chars(&cleaned, &podman) || contains_chars(&cleaned, &docker)) {
        return Vec::new();
    }
    let tokens = split_words(&cleaned);
    let ghost tv = views(tokens@);
    let tag_eq = vec_chars("--tag=");
    let mut images: Vec<Vec<char>> = Vec::new();
    let ghost mut prefix: Seq<Seq<char>> = seq![];
    let mut idx: usize = 0;
    assert(tv.skip(0) =~= tv);
    while idx < tokens.len()
        invariant
            tv == views(tokens@),
            tv == words(cleaned@),
            tag_eq@ == "--tag="@,
            idx <= tokens.len(),
            tag_candidates(tv) == prefix + tag_candidates(tv.skip(idx as int)),
            views(images@) == add_unique(seq![], prefix),
        decreases tokens.len() - idx,
    {
        let ghost rest = tv.skip(idx as int);
        assert(rest[0] == tokens@[idx as int]@);
        let t = &tokens[idx];
        if chars_eq_str(t, "-t") || chars_eq_str(t, "--tag") {
            if idx + 1 < tokens.len() {
                let x = &tokens[idx + 1];
                assert(rest[1] == x@);
                assert(rest.skip(2) =~= tv.skip(idx + 2));
                assert(prefix.push(x@).drop_last() =~= prefix);
                if !contains_word(&images, x) {
                    let c = slice_chars(x, 0, x.len());
                    assert(c@ =~= x@);
                    let ghost old_i = views(images@);
                    images.push(c);
                    assert(views(images@) =~= old_i.push(x@));
                }
                proof {
                    assert(prefix + (seq![x@] + tag_candidates(tv.skip(idx + 2))) =~= prefix.push(
                        x@,
                    ) + tag_candidates(tv.skip(idx + 2)));
                    prefix = prefix.push(x@);
                }
                idx += 2;
            } else {
                assert(tv.skip(idx + 1) =~= Seq::<Seq<char>>::empty());
                assert(prefix + Seq::<Seq<char>>::empty() =~= prefix);
                idx += 1;
            }
        } else if starts_with_chars(t, &tag_eq) {
            let im = trim_start_matches_chars(t, &tag_eq);
            assert(rest.skip(1) =~= tv.skip(idx + 1));
            if im.len() > 0 {
                assert(prefix.push(im@).drop_last() =~= prefix);
                if !contains_word(&images, &im) {
                    let c = slice_chars(&im, 0, im.len());
                    assert(c@ =~= im@);
                    let ghost old_i = views(images@);
                    images.push(c);
                    assert(views(images@) =~= old_i.push(im@));
                }
                proof {
                    assert(prefix + (seq![im@] + tag_candidates(tv.skip(idx + 1))) =~= prefix.push(
                        im@,
                    ) + tag_candidates(tv.skip(idx + 1)));
                    prefix = prefix.push(im@);
                }
            } else {
                assert(Seq::<Seq<char>>::empty() + tag_candidates(tv.skip(idx + 1)) =~= tag_candidates(
                    tv.skip(idx + 1),
                ));
            }
            idx += 1;
        } else {
            assert(rest.skip(1) =~= tv.skip(idx + 1));
            idx += 1;
        }
    }
    assert(tv.skip(idx as int) =~= Seq::<Seq<char>>::empty());
    assert(prefix + Seq::<Seq<char>>::empty() =~= prefix);
    images
}


proof fn lemma_key_pos(m: Seq<(Seq<char>, Seq<Seq<char>>)>, k: Seq<char>, i: int)
    requires
        -1 <= i <= m.len(),
        i < m.len() ==> m[i].0 == k,
        forall|j: int| 0 <= j < i ==> m[j].0 != k,
        i == m.len() || i >= 0,
    ensures
        key_pos(m, k) == (if i == m.len() {
            -1
        } else {
            i
        }),
    decreases m.len(),
{
    if m.len() > 0 && m[0].0 != k {
        lemma_key_pos(m.drop_first(), k, i - 1);
    }
}

/// Position of the entry with key `k` in `m`, if any.
fn find_key(m: &Vec<(Vec<char>, Vec<Vec<char>>)>, k: &Vec<char>) -> (r: Option<usize>)
    ensures
        match r {
            Some(p) => key_pos(assoc_views(m@), k@) == p && p < m.len(),
            None => key_pos(assoc_views(m@), k@) == -1,
        },
{
    let ghost mv = assoc_views(m@);
    let mut i: usize = 0;
    while i < m.len()
        invariant
            i <= m.len(),
            mv == assoc_views(m@),
            forall|j: int| 0 <= j < i ==> mv[j].0 != k@,
        decreases m.len() - i,
    {
        assert(mv[i as int].0 == m@[i as int].0@);
        if chars_eq(&m[i].0, k) {
            proof {
                lemma_key_pos(mv, k@, i as int);
            }
            return Some(i);
        }
        i += 1;
    }
    proof {
        lemma_key_pos(mv, k@, m.len() as int);
    }
    None
}

/// Adds `imgs` to the entry of target `t` in `m`.
fn add_target_images_exec(
    m: &mut Vec<(Vec<char>, Vec<Vec<char>>)>,
    t: &Vec<char>,
    imgs: &Vec<Vec<char>>,
)
    ensures
        assoc_views(final(m)@) == add_target_images(assoc_views(old(m)@), t@, views(imgs@)),
{
    let ghost mv = assoc_views(m@);
    let key = slice_chars(t, 0, t.len());
    assert(key@ =~= t@);
    match find_key(m, t) {
        None => {
            let empty: Vec<Vec<char>> = Vec::new();
            assert(views(empty@) =~= Seq::<Seq<char>>::empty());
            let entry = add_unique_words(&empty, imgs);
            m.push((key, entry));
            assert(assoc_views(m@) =~= mv.push((t@, add_unique(seq![], views(imgs@)))));
        },
        Some(p) => {
            assert(mv[p as int].1 == views(m@[p as int].1@));
            let entry = add_unique_words(&m[p].1, imgs);
            m.set(p, (key, entry));
            assert(assoc_views(m@) =~= mv.update(
                p as int,
                (t@, add_unique(mv[p as int].1, views(imgs@))),
            ));
        },
    }
}

/// Adds the images `images` to each of `current_targets`.
fn push_recipe_images(
    target_images: &mut Vec<(Vec<char>, Vec<Vec<char>>)>,
    current_targets: &Vec<Vec<char>>,
    images: &Vec<Vec<char>>,
)
    ensures
        assoc_views(final(target_images)@) == add_images_for(
            assoc_views(old(target_images)@),
            views(current_targets@),
            views(images@),
        ),
        forall|k: Seq<char>|
            #[trigger] target_lookup(assoc_views(final(target_images)@), k) == (if views(
                current_targets@,
            ).contains(k) {
                add_unique(target_lookup(assoc_views(old(target_images)@), k), views(images@))
            } else {
                target_lookup(assoc_views(old(target_images)@), k)
            }),
{
    let ghost m0 = assoc_views(target_images@);
    let ghost tv = views(current_targets@);
    let mut i: usize = 0;
    assert(tv.take(0) =~= Seq::<Seq<char>>::empty());
    while i < current_targets.len()
        invariant
            i <= current_targets.len(),
            tv == views(current_targets@),
            assoc_views(target_images@) == add_images_for(
                m0,
                tv.take(i as int),
                views(images@),
            ),
        decreases current_targets.len() - i,
    {
        assert(tv.take(i + 1).drop_last() =~= tv.take(i as int));
        assert(tv.take(i + 1).last() == current_targets@[i as int]@);
        add_target_images_exec(target_images, &current_targets[i], images);
        i += 1;
    }
    assert(tv.take(current_targets.len() as int) =~= tv);
    assert forall|k: Seq<char>|
        #[trigger] target_lookup(assoc_views(target_images@), k) == (if tv.contains(k) {
            add_unique(target_lookup(m0, k), views(images@))
        } else {
            target_lookup(m0, k)
        }) by {
        lemma_add_images_for_lookup(m0, tv, views(images@), k);
    }
}

/// The entries of an association list of strings, as sequences.
pub open spec fn str_assoc_views(m: Seq<(String, Vec<String>)>) -> Seq<
    (Seq<char>, Seq<Seq<char>>),
> {
    m.map_values(|e: (String, Vec<String>)| (e.0@, str_views(e.1@)))
}

/// The images that each target builds, as the recipe lines of the target
/// tag them.
pub struct TargetImages {
    entries: Vec<(String, Vec<String>)>,
}

impl TargetImages {
    /// The entries: each target with its images, in the order first seen.
    pub closed spec fn entries_view(&self) -> Seq<(Seq<char>, Seq<Seq<char>>)> {
        str_assoc_views(self.entries@)
    }

    /// No target with images.
    pub fn empty() -> (t: Self)
        ensures
            t.entries_view().len() == 0,
    {
        TargetImages { entries: Vec::new() }
    }

    /// Number of targets with images.
    pub fn len(&self) -> (n: usize)
        ensures
            n == self.entries_view().len(),
    {
        self.entries.len()
    }

    /// The images of `target`, if it has any.
    pub fn get(&self, target: &str) -> (r: Option<&Vec<String>>)
        ensures
            key_pos(self.entries_view(), target@) < 0 ==> r is None,
            key_pos(self.entries_view(), target@) >= 0 ==> (r matches Some(v) && str_views(v@)
                == self.entries_view()[key_pos(self.entries_view(), target@)].1),
    {
        let ghost ev = self.entries_view();
        let k = vec_chars(target);
        let mut i: usize = 0;
        while i < self.entries.len()
            invariant
                i <= self.entries.len(),
                ev == self.entries_view(),
                k@ == target@,
                forall|j: int| 0 <= j < i ==> ev[j].0 != k@,
            decreases self.entries.len() - i,
        {
            assert(ev[i as int].0 == self.entries@[i as int].0@);
            let name = vec_chars(self.entries[i].0.as_str());
            if chars_eq(&name, &k) {
                proof {
                    lemma_key_pos(ev, k@, i as int);
                }
                return Some(&self.entries[i].1);
            }
            i += 1;
        }
        proof {
            lemma_key_pos(ev, k@, self.entries.len() as int);
        }
        None
    }
}

/// The images that each target of the Makefile text `content` builds:
/// the `-t`/`--tag` values of the `podman build` and `docker build` lines
/// in its recipe, without repeats.
pub fn parse_makefile_target_images(content: &str) -> (r: TargetImages)
    ensures
        r.entries_view() == target_images(content@),
{
    let text = vec_chars(content);
    let logical = join_makefile_lines(&text);
    let ghost lv = views(logical@);
    let mut map: Vec<(Vec<char>, Vec<Vec<char>>)> = Vec::new();
    let mut current: Vec<Vec<char>> = Vec::new();
    let tab = vec!['\t'];
    let four = vec![' ', ' ', ' ', ' '];
    assert(tab@ =~= seq!['\t']);
    assert(four@ =~= seq![' ', ' ', ' ', ' ']);
    let mut i: usize = 0;
    assert(lv.take(0) =~= Seq::<Seq<char>>::empty());
    assert(assoc_views(map@) =~= Seq::<(Seq<char>, Seq<Seq<char>>)>::empty());
    assert(views(current@) =~= Seq::<Seq<char>>::empty());
    while i < logical.len()
        invariant
            i <= logical.len(),
            lv == views(logical@),
            lv == logical_lines(text@),
            tab@ == seq!['\t'],
            four@ == seq![' ', ' ', ' ', ' '],
            (views(current@), assoc_views(map@)) == image_scan(lv.take(i as int)),
        decreases logical.len() - i,
    {
        assert(lv.take(i + 1).drop_last() =~= lv.take(i as int));
        assert(lv.take(i + 1).last() == logical@[i as int]@);
        let raw = &logical[i];
        let trimmed = trim_end_chars(raw);
        let tt = trim_chars(&trimmed);
        if tt.len() == 0 {
        } else if starts_with_chars(raw, &tab) || starts_with_chars(raw, &four) {
            if current.len() > 0 {
                let images = parse_build_tags_from_recipe(&trimmed);
                if images.len() > 0 {
                    push_recipe_images(&mut map, &current, &images);
                }
            }
        } else {
            current = parse_declared_targets(&trimmed);
        }
        i += 1;
    }
    assert(lv.take(logical.len() as int) =~= lv);
    let mut entries: Vec<(String, Vec<String>)> = Vec::new();
    let mut j: usize = 0;
    while j < map.len()
        invariant
            j <= map.len(),
            str_assoc_views(entries@) == assoc_views(map@).take(j as int),
        decreases map.len() - j,
    {
        let name = string_from_chars(&map[j].0);
        let imgs = strings_of(&map[j].1);
        let ghost old_e = entries@;
        assert(str_assoc_views(old_e).len() == old_e.len());
        entries.push((name, imgs));
        assert(entries@ == old_e.push((name, imgs)));
        assert(assoc_views(map@)[j as int] == (map@[j as int].0@, views(map@[j as int].1@)));
        assert(str_assoc_views(entries@) =~= str_assoc_views(old_e).push(
            (name@, str_views(imgs@)),
        ));
        assert(str_assoc_views(entries@) =~= assoc_views(map@).take(j + 1));
        j += 1;
    }
    assert(assoc_views(map@).take(map.len() as int) =~= assoc_views(map@));
    TargetImages { entries }
}

} // verus!

verus! {

/// Keys listed once, and each key's images listed once.
pub open spec fn images_wf(m: Seq<(Seq<char>, Seq<Seq<char>>)>) -> bool {
    &&& forall|a: int, b: int| 0 <= a < b < m.len() ==> #[trigger] m[a].0 != #[trigger] m[b].0
    &&& forall|i: int| 0 <= i < m.len() ==> (#[trigger] m[i]).1.no_duplicates()
}

proof fn lemma_key_pos_facts(m: Seq<(Seq<char>, Seq<Seq<char>>)>, k: Seq<char>)
    ensures
        -1 <= key_pos(m, k) < m.len(),
        key_pos(m, k) >= 0 ==> m[key_pos(m, k)].0 == k,
        key_pos(m, k) < 0 ==> forall|j: int| 0 <= j < m.len() ==> m[j].0 != k,
    decreases m.len(),
{
    if m.len() > 0 && m[0].0 != k {
        lemma_key_pos_facts(m.drop_first(), k);
        assert forall|j: int| 0 < j < m.len() implies m[j] == m.drop_first()[j - 1] by {}
    }
}

proof fn lemma_add_unique_nodup(acc: Seq<Seq<char>>, xs: Seq<Seq<char>>)
    requires
        acc.no_duplicates(),
    ensures
        add_unique(acc, xs).no_duplicates(),
    decreases xs.len(),
{
    if xs.len() > 0 {
        lemma_add_unique_nodup(acc, xs.drop_last());
        let a = add_unique(acc, xs.drop_last());
        if !a.contains(xs.last()) {
            let b = a.push(xs.last());
            assert forall|i: int, j: int| 0 <= i < b.len() && 0 <= j < b.len() && i != j implies b[i] != b[j] by {
                if i == a.len() as int {
                    assert(!a.contains(xs.last()));
                    assert(b[j] == a[j]);
                } else if j == a.len() as int {
                    assert(b[i] == a[i]);
                }
            }
        }
    }
}

proof fn lemma_add_target_images_wf(m: Seq<(Seq<char>, Seq<Seq<char>>)>, t: Seq<char>, imgs: Seq<Seq<char>>)
    requires
        images_wf(m),
    ensures
        images_wf(add_target_images(m, t, imgs)),
{
    lemma_key_pos_facts(m, t);
    let p = key_pos(m, t);
    let r = add_target_images(m, t, imgs);
    if p < 0 {
        assert(Seq::<Seq<char>>::empty().no_duplicates());
        lemma_add_unique_nodup(seq![], imgs);
        assert forall|i: int| 0 <= i < r.len() implies (#[trigger] r[i]).1.no_duplicates() by {
            if i < m.len() {
                assert(r[i] == m[i]);
            }
        }
        assert forall|a: int, b: int| 0 <= a < b < r.len() implies #[trigger] r[a].0 != #[trigger] r[b].0 by {
            if b == m.len() {
                assert(r[a] == m[a]);
            } else {
                assert(r[a] == m[a] && r[b] == m[b]);
            }
        }
    } else {
        lemma_add_unique_nodup(m[p].1, imgs);
        assert forall|i: int| 0 <= i < r.len() implies (#[trigger] r[i]).1.no_duplicates() by {
            if i != p {
                assert(r[i] == m[i]);
            }
        }
        assert forall|a: int, b: int| 0 <= a < b < r.len() implies #[trigger] r[a].0 != #[trigger] r[b].0 by {
            assert(r[a].0 == m[a].0 && r[b].0 == m[b].0);
        }
    }
}

proof fn lemma_add_images_for_wf(m: Seq<(Seq<char>, Seq<Seq<char>>)>, targets: Seq<Seq<char>>, imgs: Seq<Seq<char>>)
    requires
        images_wf(m),
    ensures
        images_wf(add_images_for(m, targets, imgs)),
    decreases targets.len(),
{
    if targets.len() > 0 {
        lemma_add_images_for_wf(m, targets.drop_last(), imgs);
        lemma_add_target_images_wf(add_images_for(m, targets.drop_last(), imgs), targets.last(), imgs);
    }
}

proof fn lemma_image_scan_wf(ls: Seq<Seq<char>>)
    ensures
        images_wf(image_scan(ls).1),
    decreases ls.len(),
{
    if ls.len() > 0 {
        lemma_image_scan_wf(ls.drop_last());
        let st = image_scan(ls.drop_last());
        let raw = ls.last();
        let trimmed = trim_end(raw);
        if trim(trimmed).len() != 0 && is_recipe_line(raw) {
            let imgs = build_tags(trimmed);
            if st.0.len() != 0 && imgs.len() != 0 {
                lemma_add_images_for_wf(st.1, st.0, imgs);
            }
        }
    } else {
        assert(image_scan(ls).1 =~= Seq::<(Seq<char>, Seq<Seq<char>>)>::empty());
    }
}

/// In the images a Makefile's targets build, each target is listed once
/// and each of its images once.
pub proof fn lemma_target_images_distinct(content: Seq<char>)
    ensures
        images_wf(target_images(content)),
{
    lemma_image_scan_wf(logical_lines(content));
}


/// The images recorded for target `t`, none when it has no entry.
pub open spec fn target_lookup(m: Seq<(Seq<char>, Seq<Seq<char>>)>, t: Seq<char>) -> Seq<Seq<char>> {
    let p = key_pos(m, t);
    if p < 0 {
        seq![]
    } else {
        m[p].1
    }
}

proof fn lemma_key_pos_push(m: Seq<(Seq<char>, Seq<Seq<char>>)>, e: (Seq<char>, Seq<Seq<char>>), k: Seq<char>)
    ensures
        key_pos(m.push(e), k) == (if key_pos(m, k) >= 0 {
            key_pos(m, k)
        } else if e.0 == k {
            m.len() as int
        } else {
            -1
        }),
    decreases m.len(),
{
    if m.len() > 0 {
        assert(m.push(e)[0] == m[0]);
        assert(m.push(e).drop_first() =~= m.drop_first().push(e));
        lemma_key_pos_push(m.drop_first(), e, k);
    } else {
        assert(m.push(e)[0] == e);
        assert(m.push(e).drop_first() =~= Seq::<(Seq<char>, Seq<Seq<char>>)>::empty());
        assert(key_pos(Seq::<(Seq<char>, Seq<Seq<char>>)>::empty(), k) == -1);
    }
}

proof fn lemma_key_pos_update(m: Seq<(Seq<char>, Seq<Seq<char>>)>, p: int, v: (Seq<char>, Seq<Seq<char>>), k: Seq<char>)
    requires
        0 <= p < m.len(),
        v.0 == m[p].0,
    ensures
        key_pos(m.update(p, v), k) == key_pos(m, k),
    decreases m.len(),
{
    if p > 0 {
        assert(m.update(p, v).drop_first() =~= m.drop_first().update(p - 1, v));
        lemma_key_pos_update(m.drop_first(), p - 1, v, k);
    } else {
        assert(m.update(p, v).drop_first() =~= m.drop_first());
    }
}

proof fn lemma_add_unique_keeps(acc: Seq<Seq<char>>, xs: Seq<Seq<char>>, y: Seq<char>)
    requires
        acc.contains(y) || xs.contains(y),
    ensures
        add_unique(acc, xs).contains(y),
    decreases xs.len(),
{
    if xs.len() > 0 {
        let a = add_unique(acc, xs.drop_last());
        if y == xs.last() {
            if !a.contains(y) {
                assert(a.push(y)[a.len() as int] == y);
            }
        } else {
            if xs.contains(y) {
                let j = choose|j: int| 0 <= j < xs.len() && xs[j] == y;
                assert(xs.drop_last()[j] == y);
            }
            lemma_add_unique_keeps(acc, xs.drop_last(), y);
            if !a.contains(xs.last()) {
                let i = choose|i: int| 0 <= i < a.len() && a[i] == y;
                assert(a.push(xs.last())[i] == y);
            }
        }
    }
}

proof fn lemma_add_unique_noop(acc: Seq<Seq<char>>, xs: Seq<Seq<char>>)
    requires
        forall|i: int| 0 <= i < xs.len() ==> acc.contains(#[trigger] xs[i]),
    ensures
        add_unique(acc, xs) == acc,
    decreases xs.len(),
{
    if xs.len() > 0 {
        assert forall|i: int| 0 <= i < xs.drop_last().len() implies acc.contains(#[trigger] xs.drop_last()[i]) by {
            assert(xs.drop_last()[i] == xs[i]);
        }
        lemma_add_unique_noop(acc, xs.drop_last());
        assert(acc.contains(xs[xs.len() - 1]));
    }
}

/// Adding the same images twice adds them once.
proof fn lemma_add_unique_twice(acc: Seq<Seq<char>>, xs: Seq<Seq<char>>)
    ensures
        add_unique(add_unique(acc, xs), xs) == add_unique(acc, xs),
{
    assert forall|i: int| 0 <= i < xs.len() implies add_unique(acc, xs).contains(#[trigger] xs[i]) by {
        lemma_add_unique_keeps(acc, xs, xs[i]);
    }
    lemma_add_unique_noop(add_unique(acc, xs), xs);
}

proof fn lemma_add_target_images_lookup(m: Seq<(Seq<char>, Seq<Seq<char>>)>, t: Seq<char>, imgs: Seq<Seq<char>>, k: Seq<char>)
    ensures
        target_lookup(add_target_images(m, t, imgs), k) == (if k == t {
            add_unique(target_lookup(m, t), imgs)
        } else {
            target_lookup(m, k)
        }),
{
    lemma_key_pos_facts(m, t);
    lemma_key_pos_facts(m, k);
    let p = key_pos(m, t);
    if p < 0 {
        lemma_key_pos_push(m, (t, add_unique(seq![], imgs)), k);
    } else {
        lemma_key_pos_update(m, p, (t, add_unique(m[p].1, imgs)), k);
        if k != t && key_pos(m, k) >= 0 {
            assert(key_pos(m, k) != p);
        }
    }
}

/// Adding a recipe line's images to the current targets: each of them
/// gets its earlier images and then those of the line not already there,
/// in order; every other target keeps its images.
pub proof fn lemma_add_images_for_lookup(
    m: Seq<(Seq<char>, Seq<Seq<char>>)>,
    targets: Seq<Seq<char>>,
    imgs: Seq<Seq<char>>,
    k: Seq<char>,
)
    ensures
        target_lookup(add_images_for(m, targets, imgs), k) == (if targets.contains(k) {
            add_unique(target_lookup(m, k), imgs)
        } else {
            target_lookup(m, k)
        }),
    decreases targets.len(),
{
    if targets.len() > 0 {
        let prior = targets.drop_last();
        lemma_add_images_for_lookup(m, prior, imgs, k);
        lemma_add_target_images_lookup(add_images_for(m, prior, imgs), targets.last(), imgs, k);
        if k == targets.last() {
            assert(targets[targets.len() - 1] == k);
            if prior.contains(k) {
                lemma_add_unique_twice(target_lookup(m, k), imgs);
            }
        } else {
            if targets.contains(k) {
                let j = choose|j: int| 0 <= j < targets.len() && targets[j] == k;
                assert(prior[j] == k);
            }
            if prior.contains(k) {
                let j = choose|j: int| 0 <= j < prior.len() && prior[j] == k;
                assert(targets[j] == k);
            }
        }
    }
}

/// A recipe line of a Makefile adds the images it tags to each current
/// target (its earlier images, then the new ones not already there, in
/// order), when there are current targets and the line tags images; every
/// other target keeps its images, and the current targets stay.
pub proof fn lemma_recipe_line_images(
    st: (Seq<Seq<char>>, Seq<(Seq<char>, Seq<Seq<char>>)>),
    raw: Seq<char>,
    k: Seq<char>,
)
    requires
        is_recipe_line(raw),
        trim(trim_end(raw)).len() != 0,
    ensures
        image_step(st, raw).0 == st.0,
        target_lookup(image_step(st, raw).1, k) == (if st.0.len() > 0 && build_tags(trim_end(raw)).len()
            > 0 && st.0.contains(k) {
            add_unique(target_lookup(st.1, k), build_tags(trim_end(raw)))
        } else {
            target_lookup(st.1, k)
        }),
{
    let imgs = build_tags(trim_end(raw));
    if st.0.len() > 0 && imgs.len() > 0 {
        lemma_add_images_for_lookup(st.1, st.0, imgs, k);
    }
}

/// In a build command whose tokens hold no `-t` or `--tag` before position
/// `j`, a `-t` or `--tag` at `j` makes the next token an image candidate.
pub proof fn lemma_tag_flag_candidate(tokens: Seq<Seq<char>>, j: int)
    requires
        0 <= j,
        j + 1 < tokens.len(),
        tokens[j] == "-t"@ || tokens[j] == "--tag"@,
        forall|k: int| 0 <= k < j ==> #[trigger] tokens[k] != "-t"@ && tokens[k] != "--tag"@,
    ensures
        tag_candidates(tokens).contains(tokens[j + 1]),
    decreases j,
{
    if j == 0 {
        assert((seq![tokens[1]] + tag_candidates(tokens.skip(2)))[0] == tokens[1]);
    } else {
        let rest = tokens.skip(1);
        assert(tokens[0] != "-t"@ && tokens[0] != "--tag"@);
        assert forall|k: int| 0 <= k < j - 1 implies #[trigger] rest[k] != "-t"@ && rest[k] != "--tag"@ by {
            assert(rest[k] == tokens[k + 1]);
        }
        assert(rest[j - 1] == tokens[j]);
        assert(rest[j] == tokens[j + 1]);
        lemma_tag_flag_candidate(rest, j - 1);
        let tc = tag_candidates(rest);
        let q = choose|q: int| 0 <= q < tc.len() && tc[q] == tokens[j + 1];
        if starts_with(tokens[0], "--tag="@) {
            let im = trim_start_matches(tokens[0], "--tag="@);
            let head: Seq<Seq<char>> = if im.len() > 0 { seq![im] } else { seq![] };
            assert(tag_candidates(tokens) == head + tc);
            assert((head + tc)[head.len() + q] == tokens[j + 1]);
        } else {
            assert(tag_candidates(tokens) == tc);
        }
    }
}

/// A `podman build` or `docker build` line tags the image that follows its
/// first `-t` or `--tag`.
pub proof fn lemma_build_tags_flag(line: Seq<char>, j: int)
    requires
        contains(trim(line), "podman build"@) || contains(trim(line), "docker build"@),
        0 <= j,
        j + 1 < words(trim(line)).len(),
        words(trim(line))[j] == "-t"@ || words(trim(line))[j] == "--tag"@,
        forall|k: int| 0 <= k < j ==> #[trigger] words(trim(line))[k] != "-t"@ && words(trim(line))[k] != "--tag"@,
    ensures
        build_tags(line).contains(words(trim(line))[j + 1]),
{
    lemma_tag_flag_candidate(words(trim(line)), j);
    lemma_add_unique_keeps(seq![], tag_candidates(words(trim(line))), words(trim(line))[j + 1]);
}

/// The image that a recipe line's first `-t` or `--tag` names is recorded
/// for each current target.
pub proof fn lemma_recipe_tag_recorded(
    st: (Seq<Seq<char>>, Seq<(Seq<char>, Seq<Seq<char>>)>),
    raw: Seq<char>,
    j: int,
    k: Seq<char>,
)
    requires
        is_recipe_line(raw),
        trim(trim_end(raw)).len() != 0,
        st.0.contains(k),
        contains(trim(trim_end(raw)), "podman build"@) || contains(trim(trim_end(raw)), "docker build"@),
        0 <= j,
        j + 1 < words(trim(trim_end(raw))).len(),
        words(trim(trim_end(raw)))[j] == "-t"@ || words(trim(trim_end(raw)))[j] == "--tag"@,
        forall|i: int|
            0 <= i < j ==> #[trigger] words(trim(trim_end(raw)))[i] != "-t"@ && words(trim(trim_end(raw)))[i]
                != "--tag"@,
    ensures
        target_lookup(image_step(st, raw).1, k).contains(words(trim(trim_end(raw)))[j + 1]),
{
    let x = words(trim(trim_end(raw)))[j + 1];
    lemma_build_tags_flag(trim_end(raw), j);
    lemma_recipe_line_images(st, raw, k);
    assert(st.0.len() > 0);
    assert(build_tags(trim_end(raw)).len() > 0);
    lemma_add_unique_keeps(target_lookup(st.1, k), build_tags(trim_end(raw)), x);
}

} // verus!
