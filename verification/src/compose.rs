//! What the services of a compose file say: the image each runs and the
//! name of its container.

use vstd::prelude::*;
use crate::secrets::models::ov;

verus! {

/// A field of a service's configuration: absent, a string, or any other
/// value.
pub enum YamlField {
    Absent,
    Text(String),
    Other,
}

/// A service of a compose file as its YAML holds it: its key when that is
/// a string, whether its configuration is a mapping, and two fields of it.
pub struct ComposeService {
    pub name: Option<String>,
    pub is_mapping: bool,
    pub image: YamlField,
    pub container_name: YamlField,
}

/// The string a field holds, if it is one.
pub open spec fn field_text(f: YamlField) -> Option<Seq<char>> {
    match f {
        YamlField::Text(s) => Some(s@),
        _ => None,
    }
}

/// The row a service gives a scan: its image when
/// its configuration is a mapping with a string `image`, with the
/// container name, else the service's name.
pub open spec fn scan_row(s: ComposeService) -> Option<(Seq<char>, Option<Seq<char>>)> {
    if !s.is_mapping {
        None
    } else {
        match field_text(s.image) {
            None => None,
            Some(i) => Some(
                (
                    i,
                    match field_text(s.container_name) {
                        Some(c) => Some(c),
                        None => ov(s.name),
                    },
                ),
            ),
        }
    }
}

/// The rows of services in order, each service that gives one.
pub open spec fn scan_rows(ss: Seq<ComposeService>) -> Seq<(Seq<char>, Option<Seq<char>>)>
    decreases ss.len(),
{
    if ss.len() == 0 {
        seq![]
    } else {
        scan_rows(ss.drop_last()) + match scan_row(ss.last()) {
            Some(r) => seq![r],
            None => seq![],
        }
    }
}

/// The texts of scan rows.
pub open spec fn row_texts(v: Seq<(String, Option<String>)>) -> Seq<(Seq<char>, Option<Seq<char>>)> {
    v.map_values(|r: (String, Option<String>)| (r.0@, ov(r.1)))
}

fn field_copy(f: &YamlField) -> (r: Option<String>)
    ensures
        ov(r) == field_text(*f),
{
    match f {
        YamlField::Text(s) => Some(s.clone()),
        _ => None,
    }
}

/// The (image, container) rows that a compose file's services give a
/// scan, in order.
pub fn compose_scan_rows(services: &Vec<ComposeService>) -> (r: Vec<(String, Option<String>)>)
    ensures
        row_texts(r@) == scan_rows(services@),
{
    let mut r: Vec<(String, Option<String>)> = Vec::new();
    let mut i: usize = 0;
    assert(services@.take(0) =~= Seq::<ComposeService>::empty());
    assert(row_texts(r@) =~= Seq::empty());
    while i < services.len()
        invariant
            i <= services.len(),
            row_texts(r@) == scan_rows(services@.take(i as int)),
        decreases services.len() - i,
    {
        let s = &services[i];
        assert(services@.take(i + 1).drop_last() =~= services@.take(i as int));
        assert(services@.take(i + 1).last() == *s);
        let ghost before = row_texts(r@);
        if s.is_mapping {
            if let Some(image) = field_copy(&s.image) {
                let container = match field_copy(&s.container_name) {
                    Some(c) => Some(c),
                    None => match &s.name {
                        Some(n) => Some(n.clone()),
                        None => None,
                    },
                };
                r.push((image, container));
                assert(row_texts(r@) =~= before.push(scan_row(*s)->0));
            }
        }
        i += 1;
    }
    assert(services@.take(services.len() as int) =~= services@);
    r
}

/// A service both of whose fields are present has them as strings (the
/// rebuild reads them as such).
pub open spec fn rebuild_ready(s: ComposeService) -> bool {
    !(s.image is Absent) && !(s.container_name is Absent) ==> (s.image is Text
        && s.container_name is Text)
}

/// The (image, container) pair a service offers a rebuild: when it names both.
pub open spec fn rebuild_pair(s: ComposeService) -> Option<(Seq<char>, Seq<char>)> {
    match (s.image, s.container_name) {
        (YamlField::Text(i), YamlField::Text(c)) => Some((i@, c@)),
        _ => None,
    }
}

/// The pairs of services in order.
pub open spec fn rebuild_pairs(ss: Seq<ComposeService>) -> Seq<(Seq<char>, Seq<char>)>
    decreases ss.len(),
{
    if ss.len() == 0 {
        seq![]
    } else {
        rebuild_pairs(ss.drop_last()) + match rebuild_pair(ss.last()) {
            Some(p) => seq![p],
            None => seq![],
        }
    }
}

/// The (image, container) pairs of the services that name both, in order.
pub fn compose_rebuild_pairs(services: &Vec<ComposeService>) -> (r: Vec<(String, String)>)
    requires
        forall|i: int| 0 <= i < services.len() ==> rebuild_ready(#[trigger] services@[i]),
    ensures
        crate::rebuild::pair_texts(r@) == rebuild_pairs(services@),
{
    let mut r: Vec<(String, String)> = Vec::new();
    let mut i: usize = 0;
    assert(services@.take(0) =~= Seq::<ComposeService>::empty());
    assert(crate::rebuild::pair_texts(r@) =~= Seq::empty());
    while i < services.len()
        invariant
            i <= services.len(),
            crate::rebuild::pair_texts(r@) == rebuild_pairs(services@.take(i as int)),
        decreases services.len() - i,
    {
        let s = &services[i];
        assert(services@.take(i + 1).drop_last() =~= services@.take(i as int));
        assert(services@.take(i + 1).last() == *s);
        let ghost before = crate::rebuild::pair_texts(r@);
        if let (YamlField::Text(image), YamlField::Text(container)) = (&s.image, &s.container_name) {
            r.push((image.clone(), container.clone()));
            assert(crate::rebuild::pair_texts(r@) =~= before.push(rebuild_pair(*s)->0));
        }
        i += 1;
    }
    assert(services@.take(services.len() as int) =~= services@);
    r
}

} // verus!
