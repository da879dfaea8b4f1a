//! What podman reports of local images: the `localhost/` images named in
//! `podman image ls` entries, and image creation times.

use vstd::prelude::*;
use crate::secrets::models::ov;
use crate::text::{chars_of, copy_str, join2, starts_with, string_from_chars, trim};

verus! {

/// An instant: seconds since the Unix epoch and nanoseconds.
pub type Instant = (i64, u32);

/// What parsing an RFC 3339 date gives: the instant, or why it is not one.
pub uninterp spec fn rfc3339_parse(text: Seq<char>) -> Result<Instant, Seq<char>>;

/// Parses an RFC 3339 date (`chrono::DateTime::parse_from_rfc3339`) into the
/// instant it names, or the parse error's text. The contract only names the
/// result.
#[verifier::external_body]
fn parse_rfc3339(text: &str) -> (r: Result<Instant, String>)
    ensures
        match (r, rfc3339_parse(text@)) {
            (Ok(a), Ok(b)) => a == b,
            (Err(a), Err(b)) => a@ == b,
            _ => false,
        },
{
    match chrono::DateTime::parse_from_rfc3339(text) {
        Ok(d) => Ok((d.timestamp(), d.timestamp_subsec_nanos())),
        Err(e) => Err(e.to_string()),
    }
}

/// A `localhost/` image as podman lists it.
pub struct LocalImageSummary {
    pub repository: String,
    pub tag: String,
    pub created: Option<Instant>,
}

/// What an entry of `podman image ls --format json` holds: its creation
/// time, the strings of its `RepoTags`, `Names` and `RepoDigests` arrays,
/// and its `Repository` and `Tag`.
pub struct ImageEntry {
    pub created_at: Option<String>,
    pub repo_tags: Vec<String>,
    pub names: Vec<String>,
    pub repo_digests: Vec<String>,
    pub repository: Option<String>,
    pub tag: Option<String>,
}

/// The position of the last `c` in `s`, or -1.
pub open spec fn last_pos(s: Seq<char>, c: char) -> int
    decreases s.len(),
{
    if s.len() == 0 {
        -1
    } else if s.last() == c {
        s.len() - 1
    } else {
        last_pos(s.drop_last(), c)
    }
}

/// Whether `s` holds `c`.
pub open spec fn has_char(s: Seq<char>, c: char) -> bool {
    exists|i: int| 0 <= i < s.len() && s[i] == c
}

/// The part of `s` before its first `c` (all of `s` without one).
pub open spec fn before_first(s: Seq<char>, c: char) -> Seq<char>
    decreases s.len(),
{
    if s.len() == 0 {
        s
    } else if s[0] == c {
        Seq::empty()
    } else {
        seq![s[0]] + before_first(s.drop_first(), c)
    }
}

/// A tag reference `localhost/repo:tag` split at its last `:`; `None` for a
/// digest reference, one without `:`, or one not under `localhost/`.
pub open spec fn spec_split_repo_tag(raw: Seq<char>) -> Option<(Seq<char>, Seq<char>)> {
    let p = last_pos(raw, ':');
    if has_char(raw, '@') || p < 0 {
        None
    } else if !starts_with(raw.take(p), "localhost/"@) {
        None
    } else {
        Some((raw.take(p), raw.skip(p + 1)))
    }
}

/// A digest reference without its digest, split at its last `:` (tag
/// `latest` without one); `None` when not under `localhost/`.
pub open spec fn spec_digest_ref(raw: Seq<char>) -> Option<(Seq<char>, Seq<char>)> {
    let w = before_first(raw, '@');
    let p = last_pos(w, ':');
    if !starts_with(w, "localhost/"@) {
        None
    } else if p < 0 {
        Some((w, "latest"@))
    } else {
        Some((w.take(p), w.skip(p + 1)))
    }
}

proof fn lemma_last_pos(s: Seq<char>, c: char)
    ensures
        -1 <= last_pos(s, c) < s.len(),
        last_pos(s, c) >= 0 ==> s[last_pos(s, c)] == c,
        forall|k: int| last_pos(s, c) < k < s.len() ==> s[k] != c,
    decreases s.len(),
{
    if s.len() > 0 && s.last() != c {
        lemma_last_pos(s.drop_last(), c);
        assert forall|k: int| last_pos(s, c) < k < s.len() implies s[k] != c by {
            if k < s.len() - 1 {
                assert(s.drop_last()[k] == s[k]);
            }
        }
    }
}

fn last_index(v: &Vec<char>, c: char) -> (r: Option<usize>)
    ensures
        match r {
            Some(i) => i as int == last_pos(v@, c),
            None => last_pos(v@, c) < 0,
        },
{
    let mut i: usize = v.len();
    assert(v@.take(i as int) =~= v@);
    while i > 0
        invariant
            i <= v.len(),
            last_pos(v@, c) == last_pos(v@.take(i as int), c),
        decreases i,
    {
        assert(v@.take(i as int).drop_last() =~= v@.take(i - 1));
        if v[i - 1] == c {
            return Some(i - 1);
        }
        i -= 1;
    }
    None
}

fn has(v: &Vec<char>, c: char) -> (b: bool)
    ensures
        b == has_char(v@, c),
{
    let mut i: usize = 0;
    while i < v.len()
        invariant
            i <= v.len(),
            forall|k: int| 0 <= k < i ==> v@[k] != c,
        decreases v.len() - i,
    {
        if v[i] == c {
            return true;
        }
        i += 1;
    }
    false
}

proof fn lemma_before_first(s: Seq<char>, c: char, i: int)
    requires
        0 <= i <= s.len(),
        forall|k: int| 0 <= k < i ==> s[k] != c,
        i == s.len() || s[i] == c,
    ensures
        before_first(s, c) == s.take(i),
    decreases s.len(),
{
    if s.len() > 0 && s[0] != c {
        lemma_before_first(s.drop_first(), c, i - 1);
        assert(s.take(i) =~= seq![s[0]] + s.drop_first().take(i - 1));
    } else if s.len() > 0 {
        assert(i == 0);
        assert(s.take(0) =~= Seq::empty());
    } else {
        assert(s.take(0) =~= s);
    }
}

fn slice(v: &Vec<char>, lo: usize, hi: usize) -> (r: String)
    requires
        lo <= hi <= v.len(),
    ensures
        r@ == v@.subrange(lo as int, hi as int),
{
    string_from_chars(&crate::text::slice_chars(v, lo, hi))
}

/// Splits a tag reference of a `localhost/` image (`split_repo_tag`).
pub fn split_repo_tag(raw: &str) -> (r: Option<(String, String)>)
    ensures
        match (r, spec_split_repo_tag(raw@)) {
            (Some(a), Some(b)) => a.0@ == b.0 && a.1@ == b.1,
            (None, None) => true,
            _ => false,
        },
{
    let v = chars_of(raw);
    if has(&v, '@') {
        return None;
    }
    let p = match last_index(&v, ':') {
        Some(p) => p,
        None => {
            return None;
        },
    };
    proof {
        lemma_last_pos(v@, ':');
    }
    let repo = slice(&v, 0, p);
    assert(v@.subrange(0, p as int) =~= v@.take(p as int));
    let prefix = chars_of("localhost/");
    if !crate::text::starts_with_chars(&chars_of(repo.as_str()), &prefix) {
        return None;
    }
    let tag = slice(&v, p + 1, v.len());
    assert(v@.subrange(p + 1, v.len() as int) =~= v@.skip(p + 1));
    Some((repo, tag))
}

/// Reads a digest reference of a `localhost/` image (an item of
/// `RepoDigests`).
pub fn digest_ref(raw: &str) -> (r: Option<(String, String)>)
    ensures
        match (r, spec_digest_ref(raw@)) {
            (Some(a), Some(b)) => a.0@ == b.0 && a.1@ == b.1,
            (None, None) => true,
            _ => false,
        },
{
    let v = chars_of(raw);
    let mut i: usize = 0;
    while i < v.len() && v[i] != '@'
        invariant
            i <= v.len(),
            forall|k: int| 0 <= k < i ==> v@[k] != '@',
        decreases v.len() - i,
    {
        i += 1;
    }
    proof {
        lemma_before_first(v@, '@', i as int);
    }
    let w = crate::text::slice_chars(&v, 0, i);
    assert(w@ =~= v@.take(i as int));
    let prefix = chars_of("localhost/");
    if !crate::text::starts_with_chars(&w, &prefix) {
        return None;
    }
    match last_index(&w, ':') {
        None => Some((string_from_chars(&w), "latest".to_owned())),
        Some(p) => {
            proof {
                lemma_last_pos(w@, ':');
            }
            let repo = slice(&w, 0, p);
            let tag = slice(&w, p + 1, w.len());
            assert(w@.subrange(0, p as int) =~= w@.take(p as int));
            assert(w@.subrange(p + 1, w.len() as int) =~= w@.skip(p + 1));
            Some((repo, tag))
        },
    }
}

} // verus!

verus! {

/// An image summary as texts.
pub type SummaryView = (Seq<char>, Seq<char>, Option<Instant>);

/// The summary's texts.
pub open spec fn summary_view(s: LocalImageSummary) -> SummaryView {
    (s.repository@, s.tag@, s.created)
}

/// The summaries' texts.
pub open spec fn summary_views(v: Seq<LocalImageSummary>) -> Seq<SummaryView> {
    v.map_values(|s: LocalImageSummary| summary_view(s))
}

/// The `localhost/` images that tag references name, in order.
pub open spec fn tag_rows(refs: Seq<String>, created: Option<Instant>) -> Seq<SummaryView>
    decreases refs.len(),
{
    if refs.len() == 0 {
        Seq::empty()
    } else {
        tag_rows(refs.drop_last(), created) + match spec_split_repo_tag(refs.last()@) {
            Some((r, t)) => seq![(r, t, created)],
            None => Seq::empty(),
        }
    }
}

/// The `localhost/` images that digest references name, in order.
pub open spec fn digest_rows(refs: Seq<String>, created: Option<Instant>) -> Seq<SummaryView>
    decreases refs.len(),
{
    if refs.len() == 0 {
        Seq::empty()
    } else {
        digest_rows(refs.drop_last(), created) + match spec_digest_ref(refs.last()@) {
            Some((r, t)) => seq![(r, t, created)],
            None => Seq::empty(),
        }
    }
}

/// The creation time of an entry, when it reads as an RFC 3339 date.
pub open spec fn entry_created(e: ImageEntry) -> Option<Instant> {
    match e.created_at {
        Some(s) => match rfc3339_parse(s@) {
            Ok(t) => Some(t),
            Err(_) => None,
        },
        None => None,
    }
}

/// The images one entry names: its tags, its names, its digests, then its
/// repository and tag when the repository is under `localhost/`.
pub open spec fn entry_rows(e: ImageEntry) -> Seq<SummaryView> {
    let c = entry_created(e);
    tag_rows(e.repo_tags@, c) + tag_rows(e.names@, c) + digest_rows(e.repo_digests@, c) + match (
        e.repository,
        e.tag,
    ) {
        (Some(r), Some(t)) => if starts_with(r@, "localhost/"@) {
            seq![(r@, t@, c)]
        } else {
            Seq::empty()
        },
        _ => Seq::empty(),
    }
}

/// The images all entries name, entry by entry.
pub open spec fn all_entry_rows(es: Seq<ImageEntry>) -> Seq<SummaryView>
    decreases es.len(),
{
    if es.len() == 0 {
        Seq::empty()
    } else {
        all_entry_rows(es.drop_last()) + entry_rows(es.last())
    }
}

fn push_summary(out: &mut Vec<LocalImageSummary>, s: LocalImageSummary)
    ensures
        summary_views(final(out)@) == summary_views(old(out)@).push(summary_view(s)),
{
    let ghost before = summary_views(out@);
    out.push(s);
    assert(summary_views(out@) =~= before.push(summary_view(s)));
}

fn push_refs(out: &mut Vec<LocalImageSummary>, refs: &Vec<String>, created: Option<Instant>, digests: bool)
    ensures
        summary_views(final(out)@) == summary_views(old(out)@) + if digests {
            digest_rows(refs@, created)
        } else {
            tag_rows(refs@, created)
        },
{
    let ghost start = summary_views(out@);
    let ghost rows = if digests {
        digest_rows(refs@, created)
    } else {
        tag_rows(refs@, created)
    };
    let mut i: usize = 0;
    assert(refs@.take(0) =~= Seq::<String>::empty());
    assert(start + Seq::empty() =~= start);
    while i < refs.len()
        invariant
            i <= refs.len(),
            summary_views(out@) == start + if digests {
                digest_rows(refs@.take(i as int), created)
            } else {
                tag_rows(refs@.take(i as int), created)
            },
        decreases refs.len() - i,
    {
        assert(refs@.take(i + 1).drop_last() =~= refs@.take(i as int));
        assert(refs@.take(i + 1).last() == refs@[i as int]);
        let parsed = if digests {
            digest_ref(refs[i].as_str())
        } else {
            split_repo_tag(refs[i].as_str())
        };
        let ghost before = summary_views(out@);
        match parsed {
            Some((repository, tag)) => {
                push_summary(out, LocalImageSummary { repository, tag, created });
            },
            None => {},
        }
        proof {
            if digests {
                assert(summary_views(out@) =~= start + digest_rows(refs@.take(i + 1), created));
            } else {
                assert(summary_views(out@) =~= start + tag_rows(refs@.take(i + 1), created));
            }
        }
        i += 1;
    }
    assert(refs@.take(refs.len() as int) =~= refs@);
}

/// The `localhost/` images that `podman image ls` entries name.
pub fn local_images_from(entries: &Vec<ImageEntry>) -> (r: Vec<LocalImageSummary>)
    ensures
        summary_views(r@) == all_entry_rows(entries@),
{
    let mut out: Vec<LocalImageSummary> = Vec::new();
    let mut i: usize = 0;
    assert(summary_views(out@) =~= Seq::empty());
    assert(entries@.take(0) =~= Seq::<ImageEntry>::empty());
    while i < entries.len()
        invariant
            i <= entries.len(),
            summary_views(out@) == all_entry_rows(entries@.take(i as int)),
        decreases entries.len() - i,
    {
        assert(entries@.take(i + 1).drop_last() =~= entries@.take(i as int));
        assert(entries@.take(i + 1).last() == entries@[i as int]);
        let e = &entries[i];
        let ghost start = summary_views(out@);
        let created: Option<Instant> = match &e.created_at {
            Some(s) => match parse_rfc3339(s.as_str()) {
                Ok(t) => Some(t),
                Err(_) => None,
            },
            None => None,
        };
        assert(created == entry_created(*e));
        push_refs(&mut out, &e.repo_tags, created, false);
        push_refs(&mut out, &e.names, created, false);
        push_refs(&mut out, &e.repo_digests, created, true);
        let ghost mid = summary_views(out@);
        match (&e.repository, &e.tag) {
            (Some(repo), Some(tag)) => {
                let prefix = chars_of("localhost/");
                if crate::text::starts_with_chars(&chars_of(repo.as_str()), &prefix) {
                    push_summary(&mut out, LocalImageSummary { repository: repo.clone(), tag: tag.clone(), created });
                }
            },
            _ => {},
        }
        assert(summary_views(out@) =~= start + entry_rows(*e));
        i += 1;
    }
    assert(entries@.take(entries.len() as int) =~= entries@);
    out
}

/// The podman arguments that ask for an image's creation time.
pub fn inspect_created_args(image: &str) -> (r: Vec<String>)
    ensures
        r.len() == 4,
        r@[0]@ == "inspect"@,
        r@[1]@ == "--format"@,
        r@[2]@ == "{{.Created}}"@,
        r@[3]@ == image@,
{
    let mut r = Vec::new();
    r.push("inspect".to_owned());
    r.push("--format".to_owned());
    r.push("{{.Created}}".to_owned());
    r.push(copy_str(image));
    r
}

/// What a finished `podman inspect` says of an image's creation time: on success, its output trimmed and
/// read as an RFC 3339 date; else the error it printed.
pub open spec fn spec_refresh_time(success: bool, stdout: Seq<u8>, stderr: Seq<u8>) -> Result<Instant, Seq<char>> {
    if success {
        match crate::secrets::retrieve::utf8_decoded(stdout) {
            Err(e) => Err("Failed to parse podman output: "@ + e),
            Ok(t) => match rfc3339_parse(trim(t)) {
                Ok(i) => Ok(i),
                Err(e) => Err("Failed to parse date: "@ + e),
            },
        }
    } else {
        match crate::secrets::retrieve::utf8_decoded(stderr) {
            Err(e) => Err("Failed to parse podman output: "@ + e),
            Ok(t) => Err("podman failed: "@ + t),
        }
    }
}

/// Reads the result of `podman inspect`.
pub fn refresh_time_from_output(success: bool, stdout: &[u8], stderr: &[u8]) -> (r: Result<Instant, String>)
    ensures
        match (r, spec_refresh_time(success, stdout@, stderr@)) {
            (Ok(a), Ok(b)) => a == b,
            (Err(a), Err(b)) => a@ == b,
            _ => false,
        },
{
    if success {
        match crate::secrets::retrieve::utf8_text(stdout) {
            Err(e) => Err(join2("Failed to parse podman output: ", e.as_str())),
            Ok(t) => {
                let trimmed = string_from_chars(&crate::text::trim_chars(&chars_of(t.as_str())));
                match parse_rfc3339(trimmed.as_str()) {
                    Ok(i) => Ok(i),
                    Err(e) => Err(join2("Failed to parse date: ", e.as_str())),
                }
            },
        }
    } else {
        match crate::secrets::retrieve::utf8_text(stderr) {
            Err(e) => Err(join2("Failed to parse podman output: ", e.as_str())),
            Ok(t) => Err(join2("podman failed: ", t.as_str())),
        }
    }
}

} // verus!

verus! {

/// Splitting a tag reference loses nothing: the repository, `:` and the
/// tag give the reference back, the tag holds no `:` and the repository is
/// under `localhost/`.
pub proof fn lemma_split_repo_tag_rejoins(raw: Seq<char>)
    ensures
        spec_split_repo_tag(raw) matches Some((r, t)) ==> r + seq![':'] + t == raw && !has_char(t, ':')
            && starts_with(r, "localhost/"@),
{
    lemma_last_pos(raw, ':');
    let p = last_pos(raw, ':');
    if let Some((r, t)) = spec_split_repo_tag(raw) {
        assert(r + seq![':'] + t =~= raw);
        assert forall|i: int| 0 <= i < t.len() implies t[i] != ':' by {
            assert(t[i] == raw[p + 1 + i]);
        }
    }
}

} // verus!
