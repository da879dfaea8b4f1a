//! Rebuilding the images of compose services: which services are asked
//! about, the prompt for each, what its answers mean, and the podman
//! commands they lead to.

use vstd::prelude::*;
use crate::prompt::{frag_spec, frags, make_fragment, push_fragment, GrammarFragment, GrammarType};
use crate::secrets::models::ov;
use crate::text::{copy_str, join2, str_eq, views};

verus! {

/// An image seen in a compose file, with its container, or skipped by name.
pub struct Image {
    pub name: Option<String>,
    pub container: Option<String>,
    pub skipall_by_this_name: bool,
}

/// The images a rebuild has already dealt with.
pub struct RebuildManager {
    pub images_checked: Vec<Image>,
}

/// An image as texts.
pub open spec fn image_view(i: Image) -> (Option<Seq<char>>, Option<Seq<char>>, bool) {
    (ov(i.name), ov(i.container), i.skipall_by_this_name)
}

/// The images checked, as texts.
pub open spec fn checked_views(v: Seq<Image>) -> Seq<(Option<Seq<char>>, Option<Seq<char>>, bool)> {
    v.map_values(|i: Image| image_view(i))
}

/// A service is passed over when its image is to be skipped by name, or
/// when its image and container were already dealt with.
pub open spec fn spec_skip(checked: Seq<(Option<Seq<char>>, Option<Seq<char>>, bool)>, image: Seq<char>, container: Seq<char>) -> bool {
    exists|k: int|
        0 <= k < checked.len() && (#[trigger] checked[k]).0 == Some(image) && (checked[k].2
            || checked[k].1 == Some(container))
}

/// The services to ask about, in order, from a list of (image, container)
/// pairs, and the images checked afterwards: each pair not passed over is
/// asked about and then recorded.
pub open spec fn spec_plan(checked: Seq<(Option<Seq<char>>, Option<Seq<char>>, bool)>, services: Seq<(Seq<char>, Seq<char>)>) -> (Seq<(Seq<char>, Seq<char>)>, Seq<(Option<Seq<char>>, Option<Seq<char>>, bool)>)
    decreases services.len(),
{
    if services.len() == 0 {
        (Seq::empty(), checked)
    } else {
        let (asked, after) = spec_plan(checked, services.drop_last());
        let s = services.last();
        if spec_skip(after, s.0, s.1) {
            (asked, after)
        } else {
            (asked.push(s), after.push((Some(s.0), Some(s.1), false)))
        }
    }
}

/// The texts of (image, container) pairs.
pub open spec fn pair_texts(v: Seq<(String, String)>) -> Seq<(Seq<char>, Seq<char>)> {
    v.map_values(|p: (String, String)| (p.0@, p.1@))
}

fn opt_is(o: &Option<String>, s: &str) -> (b: bool)
    ensures
        b == (ov(*o) == Some(s@)),
{
    match o {
        Some(x) => str_eq(x.as_str(), s),
        None => false,
    }
}

impl RebuildManager {
    /// A manager that has checked nothing yet.
    pub fn new() -> (m: Self)
        ensures
            m.images_checked@.len() == 0,
    {
        RebuildManager { images_checked: Vec::new() }
    }

    /// Whether the service with this image and container is passed over.
    pub fn should_skip(&self, image: &str, container: &str) -> (b: bool)
        ensures
            b == spec_skip(checked_views(self.images_checked@), image@, container@),
    {
        let ghost cv = checked_views(self.images_checked@);
        let mut i: usize = 0;
        while i < self.images_checked.len()
            invariant
                i <= self.images_checked.len(),
                cv == checked_views(self.images_checked@),
                forall|k: int|
                    0 <= k < i ==> !((#[trigger] cv[k]).0 == Some(image@) && (cv[k].2 || cv[k].1
                        == Some(container@))),
            decreases self.images_checked.len() - i,
        {
            let im = &self.images_checked[i];
            if opt_is(&im.name, image) && (im.skipall_by_this_name || opt_is(&im.container, container)) {
                assert(cv[i as int].0 == Some(image@));
                return true;
            }
            i += 1;
        }
        false
    }

    /// Goes through the services of a compose file in order:
    /// returns the (image, container) pairs to ask about, each recorded as
    /// checked so that a pair met again is passed over.
    pub fn plan_rebuild(&mut self, services: &Vec<(String, String)>) -> (asked: Vec<(String, String)>)
        ensures
            (pair_texts(asked@), checked_views(final(self).images_checked@)) == spec_plan(
                checked_views(old(self).images_checked@),
                pair_texts(services@),
            ),
    {
        let ghost start = checked_views(self.images_checked@);
        let ghost st = pair_texts(services@);
        let mut asked: Vec<(String, String)> = Vec::new();
        let mut i: usize = 0;
        assert(st.take(0) =~= Seq::empty());
        assert(pair_texts(asked@) =~= Seq::empty());
        while i < services.len()
            invariant
                i <= services.len(),
                st == pair_texts(services@),
                (pair_texts(asked@), checked_views(self.images_checked@)) == spec_plan(
                    start,
                    st.take(i as int),
                ),
            decreases services.len() - i,
        {
            let image = &services[i].0;
            let container = &services[i].1;
            assert(st.take(i + 1).drop_last() =~= st.take(i as int));
            assert(st.take(i + 1).last() == (image@, container@));
            if !self.should_skip(image.as_str(), container.as_str()) {
                let ghost a0 = pair_texts(asked@);
                let ghost c0 = checked_views(self.images_checked@);
                asked.push((image.clone(), container.clone()));
                self.images_checked.push(
                    Image {
                        name: Some(image.clone()),
                        container: Some(container.clone()),
                        skipall_by_this_name: false,
                    },
                );
                assert(pair_texts(asked@) =~= a0.push((image@, container@)));
                assert(checked_views(self.images_checked@) =~= c0.push(
                    (Some(image@), Some(container@), false),
                ));
            }
            i += 1;
        }
        assert(st.take(services.len() as int) =~= st);
        asked
    }
}

/// The prompt asked for a service: `Refresh <image> from <dir>? ` and the
/// choices `p`, `N`, `d`, `b`, `s` (each followed by `/`; the help choice is
/// not shown), then the container name, which is not displayed.
pub open spec fn spec_rebuild_prompt(image: Seq<char>, compose_dir: Seq<char>, container: Seq<char>) -> Seq<crate::prompt::FragmentView> {
    seq![
        frag_spec("Refresh"@, 0, Some(" "@), GrammarType::Verbiage, false, true),
        frag_spec(image, 1, Some(" "@), GrammarType::Image, true, true),
        frag_spec("from"@, 2, Some(" "@), GrammarType::Verbiage, false, true),
        frag_spec(compose_dir, 3, Some("? "@), GrammarType::DockerComposePath, true, true),
        frag_spec("p"@, 3, Some("/"@), GrammarType::UserChoice, false, true),
        frag_spec("N"@, 4, Some("/"@), GrammarType::UserChoice, false, true),
        frag_spec("d"@, 5, Some("/"@), GrammarType::UserChoice, false, true),
        frag_spec("b"@, 6, Some("/"@), GrammarType::UserChoice, false, true),
        frag_spec("s"@, 7, Some("/"@), GrammarType::UserChoice, false, true),
        frag_spec(container, 3, None, GrammarType::ContainerName, true, false),
    ]
}

/// Builds the prompt for a service.
pub fn rebuild_prompt(image: &str, compose_dir: &str, container: &str) -> (g: Vec<GrammarFragment>)
    ensures
        frags(g@) == spec_rebuild_prompt(image@, compose_dir@, container@),
{
    let mut g: Vec<GrammarFragment> = Vec::new();
    assert(frags(g@) =~= Seq::empty());
    push_fragment(&mut g, make_fragment("Refresh", 0, Some(" "), GrammarType::Verbiage, false, true));
    push_fragment(&mut g, make_fragment(image, 1, Some(" "), GrammarType::Image, true, true));
    push_fragment(&mut g, make_fragment("from", 2, Some(" "), GrammarType::Verbiage, false, true));
    push_fragment(
        &mut g,
        make_fragment(compose_dir, 3, Some("? "), GrammarType::DockerComposePath, true, true),
    );
    push_fragment(&mut g, make_fragment("p", 3, Some("/"), GrammarType::UserChoice, false, true));
    push_fragment(&mut g, make_fragment("N", 4, Some("/"), GrammarType::UserChoice, false, true));
    push_fragment(&mut g, make_fragment("d", 5, Some("/"), GrammarType::UserChoice, false, true));
    push_fragment(&mut g, make_fragment("b", 6, Some("/"), GrammarType::UserChoice, false, true));
    push_fragment(&mut g, make_fragment("s", 7, Some("/"), GrammarType::UserChoice, false, true));
    push_fragment(
        &mut g,
        make_fragment(container, 3, None, GrammarType::ContainerName, true, false),
    );
    assert(frags(g@) =~= spec_rebuild_prompt(image@, compose_dir@, container@));
    g
}

/// What an answer to the rebuild prompt asks for.
#[derive(Clone, Copy, Debug, PartialEq, Eq, Structural)]
pub enum RebuildAction {
    /// Pull the image, then ask again.
    Pull,
    /// Leave this service.
    Done,
    /// Build the image from its Dockerfile, then ask again.
    Build,
    /// Stop and remove the container, build the image, then ask again.
    Recreate,
    /// Not a choice: say so and ask again.
    Invalid,
    /// No answer: ask again.
    Nothing,
}

/// The meaning of an answer: `p` pulls, `N` and `b` leave, `d` builds,
/// `s` recreates.
pub open spec fn spec_rebuild_action(input: Option<Seq<char>>) -> RebuildAction {
    match input {
        None => RebuildAction::Nothing,
        Some(c) => if c == "p"@ {
            RebuildAction::Pull
        } else if c == "N"@ || c == "b"@ {
            RebuildAction::Done
        } else if c == "d"@ {
            RebuildAction::Build
        } else if c == "s"@ {
            RebuildAction::Recreate
        } else {
            RebuildAction::Invalid
        },
    }
}

/// Reads an answer to the rebuild prompt.
pub fn rebuild_action(input: Option<&str>) -> (r: RebuildAction)
    ensures
        r == spec_rebuild_action(
            match input {
                Some(c) => Some(c@),
                None => None,
            },
        ),
{
    match input {
        None => RebuildAction::Nothing,
        Some(c) => {
            if str_eq(c, "p") {
                RebuildAction::Pull
            } else if str_eq(c, "N") || str_eq(c, "b") {
                RebuildAction::Done
            } else if str_eq(c, "d") {
                RebuildAction::Build
            } else if str_eq(c, "s") {
                RebuildAction::Recreate
            } else {
                RebuildAction::Invalid
            }
        },
    }
}

fn push_str(v: &mut Vec<String>, s: &str)
    ensures
        views_of(final(v)@) == views_of(old(v)@).push(s@),
{
    let ghost before = views_of(v@);
    v.push(copy_str(s));
    assert(views_of(v@) =~= before.push(s@));
}

/// The texts of a vector of strings.
pub open spec fn views_of(v: Seq<String>) -> Seq<Seq<char>> {
    v.map_values(|s: String| s@)
}

/// The podman arguments that pull an image.
pub fn pull_args(image: &str) -> (r: Vec<String>)
    ensures
        views_of(r@) == seq!["pull"@, image@],
{
    let mut r: Vec<String> = Vec::new();
    assert(views_of(r@) =~= Seq::empty());
    push_str(&mut r, "pull");
    push_str(&mut r, image);
    assert(views_of(r@) =~= seq!["pull"@, image@]);
    r
}

/// The podman arguments that stop a container.
pub fn stop_args(container: &str) -> (r: Vec<String>)
    ensures
        views_of(r@) == seq!["stop"@, container@],
{
    let mut r: Vec<String> = Vec::new();
    assert(views_of(r@) =~= Seq::empty());
    push_str(&mut r, "stop");
    push_str(&mut r, container);
    assert(views_of(r@) =~= seq!["stop"@, container@]);
    r
}

/// The podman arguments that remove a container.
pub fn rm_args(container: &str) -> (r: Vec<String>)
    ensures
        views_of(r@) == seq!["rm"@, container@],
{
    let mut r: Vec<String> = Vec::new();
    assert(views_of(r@) =~= Seq::empty());
    push_str(&mut r, "rm");
    push_str(&mut r, container);
    assert(views_of(r@) =~= seq!["rm"@, container@]);
    r
}

/// `--build-arg` before each build argument.
pub open spec fn build_arg_flags(args: Seq<Seq<char>>) -> Seq<Seq<char>>
    decreases args.len(),
{
    if args.len() == 0 {
        Seq::empty()
    } else {
        build_arg_flags(args.drop_last()) + seq!["--build-arg"@, args.last()]
    }
}

/// The podman arguments that build an image from a Dockerfile, with each
/// build argument after `--build-arg`.
pub fn build_args_for(image: &str, dockerfile: &str, build_args: &Vec<String>) -> (r: Vec<String>)
    ensures
        views_of(r@) == seq!["build"@, "-t"@, image@, "-f"@, dockerfile@] + build_arg_flags(
            views_of(build_args@),
        ),
{
    let ghost ba = views_of(build_args@);
    let mut r: Vec<String> = Vec::new();
    assert(views_of(r@) =~= Seq::empty());
    push_str(&mut r, "build");
    push_str(&mut r, "-t");
    push_str(&mut r, image);
    push_str(&mut r, "-f");
    push_str(&mut r, dockerfile);
    let ghost head = views_of(r@);
    assert(head =~= seq!["build"@, "-t"@, image@, "-f"@, dockerfile@]);
    let mut i: usize = 0;
    assert(ba.take(0) =~= Seq::empty());
    while i < build_args.len()
        invariant
            i <= build_args.len(),
            ba == views_of(build_args@),
            views_of(r@) == head + build_arg_flags(ba.take(i as int)),
        decreases build_args.len() - i,
    {
        push_str(&mut r, "--build-arg");
        push_str(&mut r, build_args[i].as_str());
        assert(ba.take(i + 1).drop_last() =~= ba.take(i as int));
        assert(views_of(r@) =~= head + build_arg_flags(ba.take(i + 1)));
        i += 1;
    }
    assert(ba.take(build_args.len() as int) =~= ba);
    r
}

/// The Dockerfile next to a compose file in `dir`.
pub fn dockerfile_path(dir: &str) -> (r: String)
    ensures
        r@ == (if dir@.len() == 0 {
            "Dockerfile"@
        } else if dir@.last() == '/' {
            dir@ + "Dockerfile"@
        } else {
            dir@ + "/Dockerfile"@
        }),
{
    let v = crate::text::chars_of(dir);
    if v.len() == 0 {
        "Dockerfile".to_owned()
    } else if v[v.len() - 1] == '/' {
        join2(dir, "Dockerfile")
    } else {
        join2(dir, "/Dockerfile")
    }
}

} // verus!

verus! {

/// The images checked only grow during a plan, and every service of the
/// plan is passed over by what was checked after it.
proof fn lemma_plan_covers(checked: Seq<(Option<Seq<char>>, Option<Seq<char>>, bool)>, services: Seq<(Seq<char>, Seq<char>)>)
    ensures
        spec_plan(checked, services).1.len() >= checked.len(),
        spec_plan(checked, services).1.subrange(0, checked.len() as int) == checked,
        forall|j: int|
            0 <= j < services.len() ==> spec_skip(
                spec_plan(checked, services).1,
                (#[trigger] services[j]).0,
                services[j].1,
            ),
    decreases services.len(),
{
    if services.len() > 0 {
        let t = services.drop_last();
        lemma_plan_covers(checked, t);
        let (asked, after) = spec_plan(checked, t);
        let s = services.last();
        let res = spec_plan(checked, services).1;
        if spec_skip(after, s.0, s.1) {
            assert(res == after);
        } else {
            assert(res == after.push((Some(s.0), Some(s.1), false)));
            assert(res.subrange(0, checked.len() as int) =~= after.subrange(0, checked.len() as int));
        }
        assert forall|j: int| 0 <= j < services.len() implies spec_skip(res, (#[trigger] services[j]).0, services[j].1) by {
            if j < services.len() - 1 {
                assert(services[j] == t[j]);
                let k = choose|k: int|
                    0 <= k < after.len() && (#[trigger] after[k]).0 == Some(t[j].0) && (after[k].2
                        || after[k].1 == Some(t[j].1));
                assert(res[k] == after[k]);
            } else if !spec_skip(after, s.0, s.1) {
                assert(res[after.len() as int] == (Some(s.0), Some(s.1), false));
            }
        }
    }
}

proof fn lemma_plan_when_all_skipped(checked: Seq<(Option<Seq<char>>, Option<Seq<char>>, bool)>, services: Seq<(Seq<char>, Seq<char>)>)
    requires
        forall|j: int| 0 <= j < services.len() ==> spec_skip(checked, (#[trigger] services[j]).0, services[j].1),
    ensures
        spec_plan(checked, services) == (Seq::<(Seq<char>, Seq<char>)>::empty(), checked),
    decreases services.len(),
{
    if services.len() > 0 {
        let t = services.drop_last();
        assert forall|j: int| 0 <= j < t.len() implies spec_skip(checked, (#[trigger] t[j]).0, t[j].1) by {
            assert(t[j] == services[j]);
        }
        lemma_plan_when_all_skipped(checked, t);
        assert(spec_skip(checked, services[services.len() - 1].0, services[services.len() - 1].1));
    }
}

/// Planning the same services again asks about nothing: after a rebuild,
/// every service of the compose file is passed over.
pub proof fn lemma_plan_again_asks_nothing(checked: Seq<(Option<Seq<char>>, Option<Seq<char>>, bool)>, services: Seq<(Seq<char>, Seq<char>)>)
    ensures
        spec_plan(spec_plan(checked, services).1, services).0.len() == 0,
{
    lemma_plan_covers(checked, services);
    lemma_plan_when_all_skipped(spec_plan(checked, services).1, services);
}

} // verus!

verus! {

proof fn lemma_asked_are_services(checked: Seq<(Option<Seq<char>>, Option<Seq<char>>, bool)>, services: Seq<(Seq<char>, Seq<char>)>)
    ensures
        forall|a: int|
            0 <= a < spec_plan(checked, services).0.len() ==> exists|j: int|
                0 <= j < services.len() && services[j] == #[trigger] spec_plan(checked, services).0[a],
    decreases services.len(),
{
    if services.len() > 0 {
        let t = services.drop_last();
        lemma_asked_are_services(checked, t);
        let asked = spec_plan(checked, services).0;
        let (a0, after) = spec_plan(checked, t);
        assert forall|a: int| 0 <= a < asked.len() implies exists|j: int|
            0 <= j < services.len() && services[j] == #[trigger] asked[a] by {
            if a < a0.len() {
                assert(asked[a] == a0[a]);
                let j = choose|j: int| 0 <= j < t.len() && t[j] == #[trigger] a0[a];
                assert(services[j] == t[j]);
            } else {
                assert(asked[a] == services[services.len() - 1]);
            }
        }
    }
}

/// A rebuild asks about each (image, container) pair at most once.
pub proof fn lemma_plan_asks_once(checked: Seq<(Option<Seq<char>>, Option<Seq<char>>, bool)>, services: Seq<(Seq<char>, Seq<char>)>)
    ensures
        forall|a: int, b: int|
            0 <= a < b < spec_plan(checked, services).0.len() ==> #[trigger] spec_plan(checked, services).0[a]
                != #[trigger] spec_plan(checked, services).0[b],
    decreases services.len(),
{
    if services.len() > 0 {
        let t = services.drop_last();
        lemma_plan_asks_once(checked, t);
        lemma_asked_are_services(checked, t);
        lemma_plan_covers(checked, t);
        let asked = spec_plan(checked, services).0;
        let (a0, after) = spec_plan(checked, t);
        let s = services.last();
        assert forall|a: int, b: int| 0 <= a < b < asked.len() implies #[trigger] asked[a] != #[trigger] asked[b] by {
            if b < a0.len() {
                assert(asked[a] == a0[a] && asked[b] == a0[b]);
            } else {
                assert(!spec_skip(after, s.0, s.1));
                assert(asked[b] == s);
                assert(asked[a] == a0[a]);
                let j = choose|j: int| 0 <= j < t.len() && t[j] == #[trigger] a0[a];
                assert(spec_skip(after, t[j].0, t[j].1));
            }
        }
    }
}

} // verus!
