//! Discovery of what can be built under a directory tree: the images of
//! compose and quadlet files, the Dockerfiles and the Makefile targets,
//! grouped by directory. The walk and the file reading happen outside; a
//! scan here takes each file found and what was read from it.

use vstd::prelude::*;
use vstd::multiset::Multiset;
use crate::makefile::{key_pos, parse_makefile_target_images, parse_makefile_targets, TargetImages};
use crate::secrets::models::ov;
use crate::sorting::{key_lt, sort_by_key, sorted_by_key, with_key, Keyed, SortKey};
use crate::text::{chars_of, copy_str, join2, join3, starts_with, str_eq, str_views};

verus! {

broadcast use vstd::seq_lib::group_to_multiset_ensures;

/// The directory part of a path (`Path::parent`), as text.
pub uninterp spec fn path_parent(path: Seq<char>) -> Option<Seq<char>>;

/// The parent of `path` (`std::path::Path::parent`). The contract only
/// names the result.
#[verifier::external_body]
fn parent_of(path: &str) -> (r: Option<String>)
    ensures
        ov(r) == path_parent(path@),
{
    match std::path::Path::new(path).parent() {
        Some(p) => Some(p.to_string_lossy().to_string()),
        None => None,
    }
}

/// The last component of a path (`Path::file_name`), as text.
pub uninterp spec fn path_file_name(path: Seq<char>) -> Option<Seq<char>>;

/// The file name of `path` (`std::path::Path::file_name`). The contract
/// only names the result.
#[verifier::external_body]
fn file_name_of(path: &str) -> (r: Option<String>)
    ensures
        ov(r) == path_file_name(path@),
{
    match std::path::Path::new(path).file_name() {
        Some(n) => Some(n.to_string_lossy().to_string()),
        None => None,
    }
}

/// The position of the last `.` in `s`, or -1 when there is none.
pub open spec fn last_dot(s: Seq<char>) -> int
    decreases s.len(),
{
    if s.len() == 0 {
        -1
    } else if s.last() == '.' {
        s.len() - 1
    } else {
        last_dot(s.drop_last())
    }
}

/// The extension of a path (`Path::extension`), as its documentation
/// states it: none without a file name, none when the file name has no `.`
/// or only a leading one, else what follows the last `.` of the file name.
pub open spec fn path_extension(path: Seq<char>) -> Option<Seq<char>> {
    match path_file_name(path) {
        Some(name) => if last_dot(name) <= 0 {
            None
        } else {
            Some(name.skip(last_dot(name) + 1))
        },
        None => None,
    }
}

/// The extension of `path` (`std::path::Path::extension`): the part of its
/// file name after the last `.`, as `path_extension` states it.
#[verifier::external_body]
fn extension_of(path: &str) -> (r: Option<String>)
    ensures
        ov(r) == path_extension(path@),
{
    match std::path::Path::new(path).extension() {
        Some(e) => Some(e.to_string_lossy().to_string()),
        None => None,
    }
}

/// Why a pattern is not a valid regular expression, or `None` when it is.
pub uninterp spec fn regex_compile_error(pattern: Seq<char>) -> Option<Seq<char>>;

/// Compiles `pattern` (`regex::Regex::new`) and reports the error's text,
/// if any. The contract only names the result.
#[verifier::external_body]
fn regex_check(pattern: &str) -> (r: Option<String>)
    ensures
        ov(r) == regex_compile_error(pattern@),
{
    match regex::Regex::new(pattern) {
        Ok(_) => None,
        Err(e) => Some(e.to_string()),
    }
}

/// Whether the regular expression `pattern` matches somewhere in `text`.
pub uninterp spec fn regex_matches(pattern: Seq<char>, text: Seq<char>) -> bool;

/// Whether a valid `pattern` matches in `text` (`regex::Regex::is_match` on
/// the compiled pattern). The contract only names the result.
#[verifier::external_body]
fn regex_is_match(pattern: &str, text: &str) -> (b: bool)
    requires
        regex_compile_error(pattern@) is None,
    ensures
        b == regex_matches(pattern@, text@),
{
    regex::Regex::new(pattern).unwrap().is_match(text)
}

/// All the patterns compile.
pub open spec fn patterns_valid(ps: Seq<String>) -> bool {
    forall|i: int| 0 <= i < ps.len() ==> regex_compile_error((#[trigger] ps[i])@) is None
}

/// The error of the first pattern that does not compile, if any.
pub open spec fn first_pattern_error(ps: Seq<String>) -> Option<Seq<char>>
    decreases ps.len(),
{
    if ps.len() == 0 {
        None
    } else {
        match first_pattern_error(ps.drop_last()) {
            Some(e) => Some(e),
            None => regex_compile_error(ps.last()@),
        }
    }
}

/// Checks that every pattern compiles (`compile_regexes`): the error of the
/// first one that does not.
pub fn compile_regexes(patterns: &Vec<String>) -> (r: Result<(), String>)
    ensures
        match first_pattern_error(patterns@) {
            None => r is Ok && patterns_valid(patterns@),
            Some(e) => r matches Err(m) && m@ == e,
        },
{
    let mut i: usize = 0;
    assert(patterns@.take(0) =~= Seq::<String>::empty());
    while i < patterns.len()
        invariant
            i <= patterns.len(),
            first_pattern_error(patterns@.take(i as int)) is None,
            forall|k: int| 0 <= k < i ==> regex_compile_error((#[trigger] patterns@[k])@) is None,
        decreases patterns.len() - i,
    {
        assert(patterns@.take(i + 1).drop_last() =~= patterns@.take(i as int));
        assert(patterns@.take(i + 1).last() == patterns@[i as int]);
        if let Some(e) = regex_check(patterns[i].as_str()) {
            proof {
                lemma_first_error_prefix(patterns@, i as int + 1);
            }
            return Err(e);
        }
        i += 1;
    }
    assert(patterns@.take(patterns.len() as int) =~= patterns@);
    Ok(())
}

proof fn lemma_first_error_prefix(ps: Seq<String>, n: int)
    requires
        0 <= n <= ps.len(),
        first_pattern_error(ps.take(n)) is Some,
    ensures
        first_pattern_error(ps) == first_pattern_error(ps.take(n)),
    decreases ps.len(),
{
    if n < ps.len() {
        assert(ps.drop_last().take(n) =~= ps.take(n));
        lemma_first_error_prefix(ps.drop_last(), n);
    } else {
        assert(ps.take(n) =~= ps);
    }
}

/// A path is kept unless an exclude pattern matches it, or inclusion
/// patterns are given and none matches it.
pub open spec fn spec_keep_path(path: Seq<char>, exclude: Seq<String>, included: Seq<String>) -> bool {
    &&& !(exists|i: int| 0 <= i < exclude.len() && regex_matches((#[trigger] exclude[i])@, path))
    &&& (included.len() == 0 || exists|j: int|
        0 <= j < included.len() && regex_matches((#[trigger] included[j])@, path))
}

/// Whether a path passes the exclusion and inclusion patterns
/// (`should_keep_path`).
pub fn should_keep_path(path: &str, exclude_patterns: &Vec<String>, include_patterns: &Vec<String>) -> (b: bool)
    requires
        patterns_valid(exclude_patterns@),
        patterns_valid(include_patterns@),
    ensures
        b == spec_keep_path(path@, exclude_patterns@, include_patterns@),
{
    let mut i: usize = 0;
    while i < exclude_patterns.len()
        invariant
            i <= exclude_patterns.len(),
            patterns_valid(exclude_patterns@),
            forall|k: int| 0 <= k < i ==> !regex_matches((#[trigger] exclude_patterns@[k])@, path@),
        decreases exclude_patterns.len() - i,
    {
        assert(regex_compile_error(exclude_patterns@[i as int]@) is None);
        if regex_is_match(exclude_patterns[i].as_str(), path) {
            return false;
        }
        i += 1;
    }
    if include_patterns.len() == 0 {
        return true;
    }
    let mut j: usize = 0;
    while j < include_patterns.len()
        invariant
            j <= include_patterns.len(),
            patterns_valid(include_patterns@),
            forall|k: int| 0 <= k < j ==> !regex_matches((#[trigger] include_patterns@[k])@, path@),
            forall|k: int|
                0 <= k < exclude_patterns.len() ==> !regex_matches(
                    (#[trigger] exclude_patterns@[k])@,
                    path@,
                ),
        decreases include_patterns.len() - j,
    {
        assert(regex_compile_error(include_patterns@[j as int]@) is None);
        if regex_is_match(include_patterns[j].as_str(), path) {
            assert(regex_matches(include_patterns@[j as int]@, path@));
            return true;
        }
        j += 1;
    }
    false
}

/// Where a scan starts and which paths it keeps.
pub struct ScanOptions {
    pub root: String,
    pub include_patterns: Vec<String>,
    pub exclude_patterns: Vec<String>,
}

/// A compose file of a directory: the image of its first service with one.
pub struct ComposeInfo {
    pub first_image: Option<String>,
}

/// A quadlet `.container` file of a directory, and the image it names when
/// it could be read.
pub struct ContainerInfo {
    pub path: String,
    pub image: Option<String>,
}

/// A Makefile of a directory, with its targets and the images each builds
/// (none when it could not be read).
pub struct MakefileInfo {
    pub path: String,
    pub targets: Vec<String>,
    pub images: TargetImages,
}

/// What a scan found in one directory.
pub struct DirInfo {
    pub dockerfiles: Vec<String>,
    pub makefiles: Vec<MakefileInfo>,
    pub compose_files: Vec<ComposeInfo>,
    pub container_files: Vec<ContainerInfo>,
}

impl DirInfo {
    /// A directory where nothing was found yet.
    pub fn new() -> (d: Self)
        ensures
            d.dockerfiles@.len() == 0,
            d.makefiles@.len() == 0,
            d.compose_files@.len() == 0,
            d.container_files@.len() == 0,
    {
        DirInfo {
            dockerfiles: Vec::new(),
            makefiles: Vec::new(),
            compose_files: Vec::new(),
            container_files: Vec::new(),
        }
    }
}

/// An image that a compose or quadlet file runs.
pub struct DiscoveredImage {
    pub image: String,
    pub container: Option<String>,
    pub source_dir: String,
    pub entry_path: String,
}

/// How the image next to a build file was found.
#[derive(Clone, Copy, Debug, PartialEq, Eq, Structural)]
pub enum InferenceSource {
    Quadlet,
    Compose,
}

/// A Dockerfile, with what its directory says of the image it builds.
pub struct DiscoveredDockerfile {
    pub dockerfile_path: String,
    pub source_dir: String,
    pub basename: String,
    pub quadlet_basename: Option<String>,
    pub neighbor_image: Option<(InferenceSource, String)>,
    pub total_dockerfiles_in_dir: usize,
    pub neighbor_file_count: usize,
}

/// A Makefile target (or the default target), with what its directory
/// says of the image it builds.
pub struct DiscoveredMakefile {
    pub makefile_path: String,
    pub source_dir: String,
    pub basename: String,
    pub make_target: Option<String>,
    pub target_images: Vec<String>,
    pub quadlet_basename: Option<String>,
    pub neighbor_image: Option<(InferenceSource, String)>,
    pub total_makefiles_in_dir: usize,
    pub neighbor_file_count: usize,
}

/// Everything a scan found.
pub struct DiscoveryResult {
    pub images: Vec<DiscoveredImage>,
    pub dockerfiles: Vec<DiscoveredDockerfile>,
    pub makefiles: Vec<DiscoveredMakefile>,
}

/// The text of an inferred image.
pub open spec fn neighbor_view(n: Option<(InferenceSource, String)>) -> Option<(InferenceSource, Seq<char>)> {
    match n {
        Some((s, i)) => Some((s, i@)),
        None => None,
    }
}

impl Keyed for DiscoveredImage {
    open spec fn sort_key(&self) -> SortKey {
        (self.image@, ov(self.container))
    }

    fn sorts_before(&self, other: &Self) -> (r: bool) {
        key_less(self.image.as_str(), &self.container, other.image.as_str(), &other.container)
    }
}

impl Keyed for DiscoveredDockerfile {
    open spec fn sort_key(&self) -> SortKey {
        (self.basename@, None)
    }

    fn sorts_before(&self, other: &Self) -> (r: bool) {
        let none: Option<String> = None;
        key_less(self.basename.as_str(), &none, other.basename.as_str(), &none)
    }
}

impl Keyed for DiscoveredMakefile {
    open spec fn sort_key(&self) -> SortKey {
        (self.basename@, Some(self.makefile_path@))
    }

    fn sorts_before(&self, other: &Self) -> (r: bool) {
        let a = Some(self.makefile_path.clone());
        let b = Some(other.makefile_path.clone());
        key_less(self.basename.as_str(), &a, other.basename.as_str(), &b)
    }
}

/// Whether (`a`, `x`) sorts strictly before (`b`, `y`).
pub fn key_less(a: &str, x: &Option<String>, b: &str, y: &Option<String>) -> (r: bool)
    ensures
        r == key_lt((a@, ov(*x)), (b@, ov(*y))),
{
    let av = chars_of(a);
    let bv = chars_of(b);
    if crate::order::lex_less(&av, &bv) {
        return true;
    }
    if !crate::text::chars_eq(&av, &bv) {
        return false;
    }
    match (x, y) {
        (None, Some(_)) => true,
        (Some(p), Some(q)) => crate::order::lex_less(&chars_of(p.as_str()), &chars_of(q.as_str())),
        _ => false,
    }
}

} // verus!

verus! {

/// Equal multisets stay equal when each element is mapped.
pub proof fn lemma_multiset_map<A, B>(s: Seq<A>, t: Seq<A>, f: spec_fn(A) -> B)
    requires
        s.to_multiset() == t.to_multiset(),
    ensures
        s.map_values(f).to_multiset() == t.map_values(f).to_multiset(),
    decreases s.len(),
{
    if s.len() == 0 {
        assert(t.to_multiset().len() == 0);
        assert(t.len() == 0);
        assert(s.map_values(f) =~= Seq::empty());
        assert(t.map_values(f) =~= Seq::empty());
    } else {
        let x = s.last();
        let s1 = s.drop_last();
        assert(s =~= s1.push(x));
        assert(s.to_multiset() == s1.to_multiset().insert(x));
        assert(t.to_multiset().count(x) > 0);
        assert(t.contains(x));
        let k = choose|k: int| 0 <= k < t.len() && t[k] == x;
        let t1 = t.remove(k);
        assert(t1.to_multiset() == t.to_multiset().remove(x));
        assert(s1.to_multiset() =~= t1.to_multiset());
        lemma_multiset_map(s1, t1, f);
        assert(s.map_values(f) =~= s1.map_values(f).push(f(x)));
        let tm = t.map_values(f);
        assert(tm.remove(k) =~= t1.map_values(f));
        assert(tm[k] == f(x));
        assert(tm.remove(k).to_multiset() == tm.to_multiset().remove(f(x)));
        assert(tm.to_multiset().count(f(x)) > 0) by {
            assert(tm.contains(f(x)));
        }
        assert(tm.to_multiset() =~= tm.remove(k).to_multiset().insert(f(x)));
    }
}

/// The parent of a path, or `/`.
pub open spec fn spec_source_dir(path: Seq<char>) -> Seq<char> {
    match path_parent(path) {
        Some(p) => p,
        None => "/"@,
    }
}

/// The directory a file found at `path` belongs to.
pub fn source_dir(path: &str) -> (r: String)
    ensures
        r@ == spec_source_dir(path@),
{
    match parent_of(path) {
        Some(p) => p,
        None => "/".to_owned(),
    }
}

/// The label of a Makefile: the name of its directory, else the directory
/// as written, else `Makefile`.
pub open spec fn spec_parent_label(path: Seq<char>) -> Seq<char> {
    match path_parent(path) {
        Some(p) => match path_file_name(p) {
            Some(n) => n,
            None => p,
        },
        None => "Makefile"@,
    }
}

/// The label a Makefile's rows carry (`makefile_parent_label`).
pub fn makefile_parent_label(makefile_path: &str) -> (r: String)
    ensures
        r@ == spec_parent_label(makefile_path@),
{
    match parent_of(makefile_path) {
        Some(p) => match file_name_of(p.as_str()) {
            Some(n) => n,
            None => p,
        },
        None => "Makefile".to_owned(),
    }
}

/// What the directory of a build file says of its image: when the
/// directory has a single Dockerfile or Makefile and a single compose or
/// quadlet file, the quadlet's image (and its file name), else the first
/// image of the compose file.
pub open spec fn spec_neighbor(info: DirInfo, count: nat) -> (Option<(InferenceSource, Seq<char>)>, Option<Seq<char>>) {
    if !(info.makefiles@.len() == 1 || info.dockerfiles@.len() == 1) || count != 1 {
        (None, None)
    } else if info.container_files@.len() == 1 && info.container_files@[0].image is Some {
        (
            Some((InferenceSource::Quadlet, info.container_files@[0].image.unwrap()@)),
            path_file_name(info.container_files@[0].path@),
        )
    } else if info.compose_files@.len() == 1 && info.compose_files@[0].first_image is Some {
        (Some((InferenceSource::Compose, info.compose_files@[0].first_image.unwrap()@)), None)
    } else {
        (None, None)
    }
}

/// How many compose and quadlet files a directory has.
pub open spec fn neighbor_count(info: DirInfo) -> nat {
    info.compose_files@.len() + info.container_files@.len()
}

/// The inferred image of a directory and the quadlet file name
/// (`neighbor_image_and_quadlet`).
pub fn neighbor_image_and_quadlet(info: &DirInfo, count: usize) -> (r: (Option<(InferenceSource, String)>, Option<String>))
    ensures
        (neighbor_view(r.0), ov(r.1)) == spec_neighbor(*info, count as nat),
{
    if !(info.makefiles.len() == 1 || info.dockerfiles.len() == 1) || count != 1 {
        return (None, None);
    }
    if info.container_files.len() == 1 {
        if let Some(image) = &info.container_files[0].image {
            return (
                Some((InferenceSource::Quadlet, image.clone())),
                file_name_of(info.container_files[0].path.as_str()),
            );
        }
    }
    if info.compose_files.len() == 1 {
        if let Some(image) = &info.compose_files[0].first_image {
            return (Some((InferenceSource::Compose, image.clone())), None);
        }
    }
    (None, None)
}

/// A Dockerfile row as texts: path, directory, base name, quadlet file,
/// inferred image, Dockerfiles in the directory, neighbor files.
pub type DockerfileView = (Seq<char>, Seq<char>, Seq<char>, Option<Seq<char>>, Option<(InferenceSource, Seq<char>)>, nat, nat);

/// The texts of a Dockerfile row.
pub open spec fn dockerfile_view(d: DiscoveredDockerfile) -> DockerfileView {
    (
        d.dockerfile_path@,
        d.source_dir@,
        d.basename@,
        ov(d.quadlet_basename),
        neighbor_view(d.neighbor_image),
        d.total_dockerfiles_in_dir as nat,
        d.neighbor_file_count as nat,
    )
}

/// The row of the `k`-th Dockerfile of a directory.
pub open spec fn spec_dockerfile_row(dir: Seq<char>, info: DirInfo, k: int) -> DockerfileView {
    let p = info.dockerfiles@[k]@;
    let (n, q) = spec_neighbor(info, neighbor_count(info));
    (
        p,
        dir,
        match path_file_name(p) {
            Some(b) => b,
            None => "Dockerfile"@,
        },
        q,
        n,
        info.dockerfiles@.len(),
        neighbor_count(info),
    )
}

/// The rows of a directory's Dockerfiles, in order.
pub open spec fn spec_dir_dockerfile_rows(dir: Seq<char>, info: DirInfo) -> Seq<DockerfileView> {
    Seq::new(info.dockerfiles@.len(), |k: int| spec_dockerfile_row(dir, info, k))
}

/// The rows of all Dockerfiles, directory by directory.
pub open spec fn spec_dockerfile_rows(dirs: Seq<(String, DirInfo)>) -> Seq<DockerfileView>
    decreases dirs.len(),
{
    if dirs.len() == 0 {
        Seq::empty()
    } else {
        spec_dockerfile_rows(dirs.drop_last()) + spec_dir_dockerfile_rows(
            dirs.last().0@,
            dirs.last().1,
        )
    }
}

/// The views of Dockerfile rows.
pub open spec fn dockerfile_views(v: Seq<DiscoveredDockerfile>) -> Seq<DockerfileView> {
    v.map_values(|d: DiscoveredDockerfile| dockerfile_view(d))
}

fn dir_dockerfile_rows(dir: &str, info: &DirInfo, out: &mut Vec<DiscoveredDockerfile>)
    requires
        info.compose_files@.len() + info.container_files@.len() <= usize::MAX,
    ensures
        dockerfile_views(final(out)@) == dockerfile_views(old(out)@) + spec_dir_dockerfile_rows(
            dir@,
            *info,
        ),
{
    let ghost start = dockerfile_views(out@);
    let count = info.compose_files.len() + info.container_files.len();
    let mut k: usize = 0;
    while k < info.dockerfiles.len()
        invariant
            k <= info.dockerfiles.len(),
            count == neighbor_count(*info),
            dockerfile_views(out@) == start + spec_dir_dockerfile_rows(dir@, *info).take(k as int),
        decreases info.dockerfiles.len() - k,
    {
        let (neighbor_image, quadlet_basename) = neighbor_image_and_quadlet(info, count);
        let path = &info.dockerfiles[k];
        let basename = match file_name_of(path.as_str()) {
            Some(b) => b,
            None => "Dockerfile".to_owned(),
        };
        let row = DiscoveredDockerfile {
            dockerfile_path: path.clone(),
            source_dir: copy_str(dir),
            basename,
            quadlet_basename,
            neighbor_image,
            total_dockerfiles_in_dir: info.dockerfiles.len(),
            neighbor_file_count: count,
        };
        let ghost before = dockerfile_views(out@);
        proof {
            assert(dockerfile_view(row) == spec_dockerfile_row(dir@, *info, k as int));
        }
        out.push(row);
        assert(dockerfile_views(out@) =~= before.push(dockerfile_view(row)));
        assert(spec_dir_dockerfile_rows(dir@, *info).take(k + 1) =~= spec_dir_dockerfile_rows(
            dir@,
            *info,
        ).take(k as int).push(spec_dockerfile_row(dir@, *info, k as int)));
        k += 1;
    }
    assert(spec_dir_dockerfile_rows(dir@, *info).take(k as int) =~= spec_dir_dockerfile_rows(
        dir@,
        *info,
    ));
}

/// The directories' counts fit in memory.
pub open spec fn dirs_fit(dirs: Seq<(String, DirInfo)>) -> bool {
    forall|i: int|
        0 <= i < dirs.len() ==> (#[trigger] dirs[i]).1.compose_files@.len()
            + dirs[i].1.container_files@.len() <= usize::MAX
}

/// The Dockerfile rows of all directories, sorted by base name
/// (`build_dockerfile_rows`).
pub fn build_dockerfile_rows(dirs: &Vec<(String, DirInfo)>) -> (r: Vec<DiscoveredDockerfile>)
    requires
        dirs_fit(dirs@),
    ensures
        dockerfile_views(r@).to_multiset() == spec_dockerfile_rows(dirs@).to_multiset(),
        sorted_by_key(r@),
        exists|u: Seq<DiscoveredDockerfile>|
            dockerfile_views(u) == spec_dockerfile_rows(dirs@) && forall|k: SortKey|
                #[trigger] with_key(r@, k) == with_key(u, k),
{
    let mut out: Vec<DiscoveredDockerfile> = Vec::new();
    let mut i: usize = 0;
    assert(dockerfile_views(out@) =~= Seq::empty());
    assert(dirs@.take(0) =~= Seq::<(String, DirInfo)>::empty());
    while i < dirs.len()
        invariant
            i <= dirs.len(),
            dirs_fit(dirs@),
            dockerfile_views(out@) == spec_dockerfile_rows(dirs@.take(i as int)),
        decreases dirs.len() - i,
    {
        assert(dirs@.take(i + 1).drop_last() =~= dirs@.take(i as int));
        assert(dirs@.take(i + 1).last() == dirs@[i as int]);
        assert(dirs@[i as int].1.compose_files@.len() + dirs@[i as int].1.container_files@.len()
            <= usize::MAX);
        dir_dockerfile_rows(dirs[i].0.as_str(), &dirs[i].1, &mut out);
        i += 1;
    }
    assert(dirs@.take(dirs.len() as int) =~= dirs@);
    let ghost unsorted = out@;
    let sorted = sort_by_key(out);
    proof {
        lemma_multiset_map(sorted@, unsorted, |d: DiscoveredDockerfile| dockerfile_view(d));
        assert(forall|k: SortKey| #[trigger] with_key(sorted@, k) == with_key(unsorted, k));
    }
    sorted
}

} // verus!

verus! {

/// A Makefile row as texts: path, directory, base name, target, images of
/// the target, quadlet file, inferred image, Makefiles in the directory,
/// neighbor files.
pub type MakefileView = (Seq<char>, Seq<char>, Seq<char>, Option<Seq<char>>, Seq<Seq<char>>, Option<Seq<char>>, Option<(InferenceSource, Seq<char>)>, nat, nat);

/// The texts of a Makefile row.
pub open spec fn makefile_view(m: DiscoveredMakefile) -> MakefileView {
    (
        m.makefile_path@,
        m.source_dir@,
        m.basename@,
        ov(m.make_target),
        str_views(m.target_images@),
        ov(m.quadlet_basename),
        neighbor_view(m.neighbor_image),
        m.total_makefiles_in_dir as nat,
        m.neighbor_file_count as nat,
    )
}

/// The views of Makefile rows.
pub open spec fn makefile_views(v: Seq<DiscoveredMakefile>) -> Seq<MakefileView> {
    v.map_values(|m: DiscoveredMakefile| makefile_view(m))
}

/// The images a target builds, none when it has no entry.
pub open spec fn images_of(m: MakefileInfo, target: Seq<char>) -> Seq<Seq<char>> {
    let ev = m.images.entries_view();
    if key_pos(ev, target) >= 0 {
        ev[key_pos(ev, target)].1
    } else {
        Seq::empty()
    }
}

/// The row of a Makefile for one target, or for its default target.
pub open spec fn spec_makefile_row(dir: Seq<char>, info: DirInfo, m: MakefileInfo, target: Option<Seq<char>>) -> MakefileView {
    let (n, q) = spec_neighbor(info, neighbor_count(info));
    let label = spec_parent_label(m.path@);
    (
        m.path@,
        dir,
        match target {
            Some(t) => label + ": "@ + t,
            None => label + ": (default)"@,
        },
        target,
        match target {
            Some(t) => images_of(m, t),
            None => Seq::empty(),
        },
        q,
        n,
        info.makefiles@.len(),
        neighbor_count(info),
    )
}

/// The rows of one Makefile: one per target, or the default row when it
/// has none (`push_makefile_rows`).
pub open spec fn spec_one_makefile_rows(dir: Seq<char>, info: DirInfo, m: MakefileInfo) -> Seq<MakefileView> {
    if m.targets@.len() == 0 {
        seq![spec_makefile_row(dir, info, m, None)]
    } else {
        Seq::new(m.targets@.len(), |k: int| spec_makefile_row(dir, info, m, Some(m.targets@[k]@)))
    }
}

/// The rows of the first `n` Makefiles of a directory.
pub open spec fn spec_dir_makefile_rows(dir: Seq<char>, info: DirInfo, n: int) -> Seq<MakefileView>
    decreases n,
{
    if n <= 0 {
        Seq::empty()
    } else {
        spec_dir_makefile_rows(dir, info, n - 1) + spec_one_makefile_rows(dir, info, info.makefiles@[n - 1])
    }
}

/// The rows of all Makefiles, directory by directory.
pub open spec fn spec_makefile_rows(dirs: Seq<(String, DirInfo)>) -> Seq<MakefileView>
    decreases dirs.len(),
{
    if dirs.len() == 0 {
        Seq::empty()
    } else {
        spec_makefile_rows(dirs.drop_last()) + spec_dir_makefile_rows(
            dirs.last().0@,
            dirs.last().1,
            dirs.last().1.makefiles@.len() as int,
        )
    }
}

fn copy_strings(v: &Vec<String>) -> (r: Vec<String>)
    ensures
        str_views(r@) == str_views(v@),
{
    let mut r: Vec<String> = Vec::new();
    let mut i: usize = 0;
    while i < v.len()
        invariant
            i <= v.len(),
            str_views(r@) == str_views(v@).take(i as int),
        decreases v.len() - i,
    {
        let ghost before = str_views(r@);
        r.push(v[i].clone());
        assert(str_views(r@) =~= before.push(v@[i as int]@));
        assert(str_views(v@).take(i + 1) =~= str_views(v@).take(i as int).push(v@[i as int]@));
        i += 1;
    }
    assert(str_views(v@).take(v.len() as int) =~= str_views(v@));
    r
}

fn makefile_row(dir: &str, info: &DirInfo, m: &MakefileInfo, target: Option<&String>, count: usize) -> (r: DiscoveredMakefile)
    requires
        count == neighbor_count(*info),
    ensures
        makefile_view(r) == spec_makefile_row(
            dir@,
            *info,
            *m,
            match target {
                Some(t) => Some(t@),
                None => None,
            },
        ),
{
    let (neighbor_image, quadlet_basename) = neighbor_image_and_quadlet(info, count);
    let label = makefile_parent_label(m.path.as_str());
    match target {
        Some(t) => {
            let images = match m.images.get(t.as_str()) {
                Some(v) => copy_strings(v),
                None => Vec::new(),
            };
            assert(str_views(images@) =~= images_of(*m, t@));
            DiscoveredMakefile {
                makefile_path: m.path.clone(),
                source_dir: copy_str(dir),
                basename: join3(label.as_str(), ": ", t.as_str()),
                make_target: Some(t.clone()),
                target_images: images,
                quadlet_basename,
                neighbor_image,
                total_makefiles_in_dir: info.makefiles.len(),
                neighbor_file_count: count,
            }
        },
        None => {
            let images: Vec<String> = Vec::new();
            assert(str_views(images@) =~= Seq::empty());
            DiscoveredMakefile {
                makefile_path: m.path.clone(),
                source_dir: copy_str(dir),
                basename: join2(label.as_str(), ": (default)"),
                make_target: None,
                target_images: images,
                quadlet_basename,
                neighbor_image,
                total_makefiles_in_dir: info.makefiles.len(),
                neighbor_file_count: count,
            }
        },
    }
}

fn push_makefile_rows(dir: &str, info: &DirInfo, m: &MakefileInfo, count: usize, out: &mut Vec<DiscoveredMakefile>)
    requires
        count == neighbor_count(*info),
    ensures
        makefile_views(final(out)@) == makefile_views(old(out)@) + spec_one_makefile_rows(dir@, *info, *m),
{
    let ghost start = makefile_views(out@);
    if m.targets.len() == 0 {
        let row = makefile_row(dir, info, m, None, count);
        out.push(row);
        assert(makefile_views(out@) =~= start + seq![makefile_view(row)]);
        return;
    }
    let ghost rows = spec_one_makefile_rows(dir@, *info, *m);
    let mut k: usize = 0;
    while k < m.targets.len()
        invariant
            k <= m.targets.len(),
            m.targets@.len() > 0,
            count == neighbor_count(*info),
            rows == spec_one_makefile_rows(dir@, *info, *m),
            makefile_views(out@) == start + rows.take(k as int),
        decreases m.targets.len() - k,
    {
        let row = makefile_row(dir, info, m, Some(&m.targets[k]), count);
        let ghost before = makefile_views(out@);
        out.push(row);
        assert(makefile_views(out@) =~= before.push(makefile_view(row)));
        assert(rows.take(k + 1) =~= rows.take(k as int).push(rows[k as int]));
        k += 1;
    }
    assert(rows.take(k as int) =~= rows);
}

/// The Makefile rows of all directories, sorted by base name and then path
/// (`build_makefile_rows`).
pub fn build_makefile_rows(dirs: &Vec<(String, DirInfo)>) -> (r: Vec<DiscoveredMakefile>)
    requires
        dirs_fit(dirs@),
    ensures
        makefile_views(r@).to_multiset() == spec_makefile_rows(dirs@).to_multiset(),
        sorted_by_key(r@),
        exists|u: Seq<DiscoveredMakefile>|
            makefile_views(u) == spec_makefile_rows(dirs@) && forall|k: SortKey|
                #[trigger] with_key(r@, k) == with_key(u, k),
        makefiles_unique(dirs@) ==> forall|a: int, j: int|
            0 <= a < dirs@.len() && 0 <= j < dirs@[a].1.makefiles@.len() ==> count_rows_for(
                makefile_views(r@),
                (#[trigger] dirs@[a].1.makefiles@[j]).path@,
                dirs@[a].0@,
            ) == owed_rows(dirs@[a].1.makefiles@[j]),
        makefiles_unique(dirs@) ==> forall|i: int| 0 <= i < r@.len() ==> row_from(dirs@, #[trigger] makefile_view(r@[i])),
{
    let mut out: Vec<DiscoveredMakefile> = Vec::new();
    let mut i: usize = 0;
    assert(makefile_views(out@) =~= Seq::empty());
    assert(dirs@.take(0) =~= Seq::<(String, DirInfo)>::empty());
    while i < dirs.len()
        invariant
            i <= dirs.len(),
            dirs_fit(dirs@),
            makefile_views(out@) == spec_makefile_rows(dirs@.take(i as int)),
        decreases dirs.len() - i,
    {
        assert(dirs@.take(i + 1).drop_last() =~= dirs@.take(i as int));
        assert(dirs@.take(i + 1).last() == dirs@[i as int]);
        let dir = &dirs[i].0;
        let info = &dirs[i].1;
        assert(info.compose_files@.len() + info.container_files@.len() <= usize::MAX);
        let count = info.compose_files.len() + info.container_files.len();
        let ghost start = makefile_views(out@);
        let mut j: usize = 0;
        while j < info.makefiles.len()
            invariant
                j <= info.makefiles.len(),
                count == neighbor_count(*info),
                makefile_views(out@) == start + spec_dir_makefile_rows(dir@, *info, j as int),
            decreases info.makefiles.len() - j,
        {
            push_makefile_rows(dir.as_str(), info, &info.makefiles[j], count, &mut out);
            assert(start + spec_dir_makefile_rows(dir@, *info, j + 1) =~= start
                + spec_dir_makefile_rows(dir@, *info, j as int) + spec_one_makefile_rows(
                dir@,
                *info,
                info.makefiles@[j as int],
            ));
            j += 1;
        }
        i += 1;
    }
    assert(dirs@.take(dirs.len() as int) =~= dirs@);
    let ghost unsorted = out@;
    let sorted = sort_by_key(out);
    proof {
        lemma_multiset_map(sorted@, unsorted, |m: DiscoveredMakefile| makefile_view(m));
        assert(forall|k: SortKey| #[trigger] with_key(sorted@, k) == with_key(unsorted, k));
        if makefiles_unique(dirs@) {
            assert forall|a: int, j: int|
                0 <= a < dirs@.len() && 0 <= j < dirs@[a].1.makefiles@.len() implies count_rows_for(
                    makefile_views(sorted@),
                    (#[trigger] dirs@[a].1.makefiles@[j]).path@,
                    dirs@[a].0@,
                ) == owed_rows(dirs@[a].1.makefiles@[j]) by {
                lemma_built_makefile_row_count(dirs@, sorted@, a, j);
            }
            let rows = spec_makefile_rows(dirs@);
            let views = makefile_views(sorted@);
            lemma_rows_from_all(dirs@);
            assert forall|i: int| 0 <= i < sorted@.len() implies row_from(dirs@, #[trigger] makefile_view(sorted@[i])) by {
                let x = makefile_view(sorted@[i]);
                assert(views[i] == x);
                assert(views.contains(x));
                assert(views.to_multiset().count(x) > 0);
                assert(rows.to_multiset().count(x) > 0);
                assert(rows.contains(x));
                let q = choose|q: int| 0 <= q < rows.len() && rows[q] == x;
                assert(row_from(dirs@, rows[q]));
            }
        }
    }
    sorted
}

} // verus!

verus! {

/// A Makefile of a directory as texts: path, targets, images per target.
pub type MakefileInfoView = (Seq<char>, Seq<Seq<char>>, Seq<(Seq<char>, Seq<Seq<char>>)>);

/// A directory's findings as texts: Dockerfiles, Makefiles, compose files
/// (their first images) and quadlet files (path and image).
pub type DirView = (Seq<Seq<char>>, Seq<MakefileInfoView>, Seq<Option<Seq<char>>>, Seq<(Seq<char>, Option<Seq<char>>)>);

/// The texts of a directory's findings.
pub open spec fn dir_view(d: DirInfo) -> DirView {
    (
        str_views(d.dockerfiles@),
        d.makefiles@.map_values(|m: MakefileInfo| (m.path@, str_views(m.targets@), m.images.entries_view())),
        d.compose_files@.map_values(|c: ComposeInfo| ov(c.first_image)),
        d.container_files@.map_values(|c: ContainerInfo| (c.path@, ov(c.image))),
    )
}

/// The directories as texts.
pub open spec fn dir_views(dirs: Seq<(String, DirInfo)>) -> Seq<(Seq<char>, DirView)> {
    dirs.map_values(|p: (String, DirInfo)| (p.0@, dir_view(p.1)))
}

/// Nothing found yet.
pub open spec fn empty_dir_view() -> DirView {
    (Seq::empty(), Seq::empty(), Seq::empty(), Seq::empty())
}

/// No directory occurs twice.
pub open spec fn dirs_unique(dirs: Seq<(Seq<char>, DirView)>) -> bool {
    forall|i: int, j: int| 0 <= i < j < dirs.len() ==> #[trigger] dirs[i].0 != #[trigger] dirs[j].0
}

/// The directories after the findings of `d` change by `g`: in place when
/// `d` is listed, else as a new last directory.
pub open spec fn spec_dir_update(dirs: Seq<(Seq<char>, DirView)>, d: Seq<char>, g: spec_fn(DirView) -> DirView) -> Seq<(Seq<char>, DirView)> {
    if exists|i: int| 0 <= i < dirs.len() && (#[trigger] dirs[i]).0 == d {
        let i = choose|i: int| 0 <= i < dirs.len() && (#[trigger] dirs[i]).0 == d;
        dirs.update(i, (d, g(dirs[i].1)))
    } else {
        dirs.push((d, g(empty_dir_view())))
    }
}

/// An image row as texts: image, container, directory, file.
pub open spec fn row_view(r: DiscoveredImage) -> (Seq<char>, Option<Seq<char>>, Seq<char>, Seq<char>) {
    (r.image@, ov(r.container), r.source_dir@, r.entry_path@)
}

/// The rows as texts.
pub open spec fn row_views(rows: Seq<DiscoveredImage>) -> Seq<(Seq<char>, Option<Seq<char>>, Seq<char>, Seq<char>)> {
    rows.map_values(|r: DiscoveredImage| row_view(r))
}

/// The rows after a row is offered: added at the end unless a row with
/// the same image, container and directory is already there.
pub open spec fn spec_add_row(rows: Seq<(Seq<char>, Option<Seq<char>>, Seq<char>, Seq<char>)>, r: (Seq<char>, Option<Seq<char>>, Seq<char>, Seq<char>)) -> Seq<(Seq<char>, Option<Seq<char>>, Seq<char>, Seq<char>)> {
    if exists|i: int| 0 <= i < rows.len() && (#[trigger] rows[i]).0 == r.0 && rows[i].1 == r.1 && rows[i].2 == r.2 {
        rows
    } else {
        rows.push(r)
    }
}

/// The rows after several rows are offered in order.
pub open spec fn spec_add_rows(rows: Seq<(Seq<char>, Option<Seq<char>>, Seq<char>, Seq<char>)>, new: Seq<(Seq<char>, Option<Seq<char>>, Seq<char>, Seq<char>)>) -> Seq<(Seq<char>, Option<Seq<char>>, Seq<char>, Seq<char>)>
    decreases new.len(),
{
    if new.len() == 0 {
        rows
    } else {
        spec_add_row(spec_add_rows(rows, new.drop_last()), new.last())
    }
}

/// No two rows share image, container and directory.
pub open spec fn rows_unique(rows: Seq<(Seq<char>, Option<Seq<char>>, Seq<char>, Seq<char>)>) -> bool {
    forall|i: int, j: int|
        0 <= i < j < rows.len() ==> !((#[trigger] rows[i]).0 == (#[trigger] rows[j]).0 && rows[i].1
            == rows[j].1 && rows[i].2 == rows[j].2)
}

/// What kind of file a scan met.
#[derive(Clone, Copy, Debug, PartialEq, Eq, Structural)]
pub enum FileKind {
    /// Not looked at.
    Skip,
    /// A `docker-compose.yml`: its services are to be read.
    Compose,
    /// A quadlet `.container` file: it is to be read.
    Container,
    /// A file whose name starts with `Dockerfile`.
    Dockerfile,
    /// A `Makefile`: its text is to be read.
    Makefile,
}

/// The kind of a kept file, by its name (the whole path when it has none)
/// and extension.
pub open spec fn spec_file_kind(path: Seq<char>) -> FileKind {
    let name = match path_file_name(path) {
        Some(n) => n,
        None => path,
    };
    if name == "docker-compose.yml"@ {
        FileKind::Compose
    } else if path_extension(path) == Some("container"@) {
        FileKind::Container
    } else if starts_with(name, "Dockerfile"@) {
        FileKind::Dockerfile
    } else if name == "Makefile"@ {
        FileKind::Makefile
    } else {
        FileKind::Skip
    }
}

/// A scan in progress: the patterns it keeps paths
/// by, the image rows found, and the findings of each directory.
pub struct FsDiscovery {
    pub exclude_patterns: Vec<String>,
    pub include_patterns: Vec<String>,
    pub rows: Vec<DiscoveredImage>,
    pub dirs: Vec<(String, DirInfo)>,
}

fn opt_str_eq(a: &Option<String>, b: &Option<String>) -> (r: bool)
    ensures
        r == (ov(*a) == ov(*b)),
{
    match a {
        Some(x) => match b {
            Some(y) => str_eq(x.as_str(), y.as_str()),
            None => false,
        },
        None => b.is_none(),
    }
}

fn opt_copy(o: &Option<String>) -> (r: Option<String>)
    ensures
        ov(r) == ov(*o),
{
    match o {
        Some(s) => Some(s.clone()),
        None => None,
    }
}

impl FsDiscovery {
    /// The scan's invariant: valid patterns, rows without repeated keys,
    /// directories listed once.
    pub open spec fn wf(&self) -> bool {
        &&& patterns_valid(self.exclude_patterns@)
        &&& patterns_valid(self.include_patterns@)
        &&& rows_unique(row_views(self.rows@))
        &&& dirs_unique(dir_views(self.dirs@))
    }

    /// Starts a scan with these options: the exclude patterns, then the
    /// inclusion patterns, must compile.
    pub fn new(opts: &ScanOptions) -> (r: Result<Self, String>)
        ensures
            match (first_pattern_error(opts.exclude_patterns@), first_pattern_error(opts.include_patterns@)) {
                (Some(e), _) => r matches Err(m) && m@ == e,
                (None, Some(e)) => r matches Err(m) && m@ == e,
                (None, None) => r matches Ok(s) && s.wf() && s.rows@.len() == 0 && s.dirs@.len()
                    == 0 && str_views(s.exclude_patterns@) == str_views(opts.exclude_patterns@)
                    && str_views(s.include_patterns@) == str_views(opts.include_patterns@),
            },
    {
        let c1 = compile_regexes(&opts.exclude_patterns);
        match c1 {
            Err(e) => {
                return Err(e);
            },
            Ok(()) => {},
        }
        let c2 = compile_regexes(&opts.include_patterns);
        match c2 {
            Err(e) => {
                return Err(e);
            },
            Ok(()) => {},
        }
        assert(patterns_valid(opts.exclude_patterns@));
        assert(patterns_valid(opts.include_patterns@));
        let exclude_patterns = copy_strings(&opts.exclude_patterns);
        let include_patterns = copy_strings(&opts.include_patterns);
        proof {
            assert(str_views(exclude_patterns@).len() == exclude_patterns@.len());
            assert(str_views(opts.exclude_patterns@).len() == opts.exclude_patterns@.len());
            assert(str_views(include_patterns@).len() == include_patterns@.len());
            assert(str_views(opts.include_patterns@).len() == opts.include_patterns@.len());
            assert forall|i: int| 0 <= i < exclude_patterns@.len() implies regex_compile_error(
                (#[trigger] exclude_patterns@[i])@,
            ) is None by {
                assert(str_views(exclude_patterns@)[i] == str_views(opts.exclude_patterns@)[i]);
                assert(regex_compile_error(opts.exclude_patterns@[i]@) is None);
            }
            assert forall|i: int| 0 <= i < include_patterns@.len() implies regex_compile_error(
                (#[trigger] include_patterns@[i])@,
            ) is None by {
                assert(str_views(include_patterns@)[i] == str_views(opts.include_patterns@)[i]);
                assert(regex_compile_error(opts.include_patterns@[i]@) is None);
            }
        }
        let s = FsDiscovery { exclude_patterns, include_patterns, rows: Vec::new(), dirs: Vec::new() };
        assert(row_views(s.rows@) =~= Seq::empty());
        assert(dir_views(s.dirs@) =~= Seq::empty());
        Ok(s)
    }

    /// What to do with a path the walk met: nothing unless it is a file the
    /// patterns keep; else by its kind.
    pub fn classify(&self, path: &str, is_file: bool) -> (k: FileKind)
        requires
            self.wf(),
        ensures
            k == (if !is_file || !spec_keep_path(path@, self.exclude_patterns@, self.include_patterns@) {
                FileKind::Skip
            } else {
                spec_file_kind(path@)
            }),
    {
        if !is_file || !should_keep_path(path, &self.exclude_patterns, &self.include_patterns) {
            return FileKind::Skip;
        }
        let name = match file_name_of(path) {
            Some(n) => n,
            None => copy_str(path),
        };
        if str_eq(name.as_str(), "docker-compose.yml") {
            return FileKind::Compose;
        }
        let is_container = match extension_of(path) {
            Some(e) => str_eq(e.as_str(), "container"),
            None => false,
        };
        if is_container {
            return FileKind::Container;
        }
        let nv = chars_of(name.as_str());
        let prefix = chars_of("Dockerfile");
        if crate::text::starts_with_chars(&nv, &prefix) {
            FileKind::Dockerfile
        } else if str_eq(name.as_str(), "Makefile") {
            FileKind::Makefile
        } else {
            FileKind::Skip
        }
    }

    /// Offers a row: kept unless one with the same image, container and
    /// directory is there (`add_row`).
    pub fn add_row(&mut self, image: String, container: Option<String>, source_dir: String, entry_path: String)
        requires
            old(self).wf(),
        ensures
            final(self).wf(),
            row_views(final(self).rows@) == spec_add_row(
                row_views(old(self).rows@),
                (image@, ov(container), source_dir@, entry_path@),
            ),
            final(self).dirs@ == old(self).dirs@,
            final(self).exclude_patterns@ == old(self).exclude_patterns@,
            final(self).include_patterns@ == old(self).include_patterns@,
    {
        let ghost rv = row_views(self.rows@);
        let ghost r = (image@, ov(container), source_dir@, entry_path@);
        let mut i: usize = 0;
        while i < self.rows.len()
            invariant
                i <= self.rows.len(),
                self.wf(),
                self.rows@ == old(self).rows@,
                self.dirs@ == old(self).dirs@,
                self.exclude_patterns@ == old(self).exclude_patterns@,
                self.include_patterns@ == old(self).include_patterns@,
                rv == row_views(self.rows@),
                r == (image@, ov(container), source_dir@, entry_path@),
                forall|k: int| 0 <= k < i ==> !((#[trigger] rv[k]).0 == r.0 && rv[k].1 == r.1 && rv[k].2 == r.2),
            decreases self.rows.len() - i,
        {
            let row = &self.rows[i];
            assert(rv[i as int] == row_view(self.rows@[i as int]));
            let same_container = opt_str_eq(&row.container, &container);
            if str_eq(row.image.as_str(), image.as_str()) && same_container && str_eq(
                row.source_dir.as_str(),
                source_dir.as_str(),
            ) {
                assert(rv[i as int] == row_view(self.rows@[i as int]));
                assert(rv[i as int].0 == r.0 && rv[i as int].1 == r.1 && rv[i as int].2 == r.2);
                return;
            }
            i += 1;
        }
        let row = DiscoveredImage { image, container, source_dir, entry_path };
        self.rows.push(row);
        assert(row_views(self.rows@) =~= rv.push(r));
    }
}

} // verus!

verus! {

/// Where a directory's findings sit after `with_dir`: in place, or a new
/// empty entry at the end.
pub open spec fn spec_with_dir(dirs: Seq<(Seq<char>, DirView)>, d: Seq<char>) -> Seq<(Seq<char>, DirView)> {
    if exists|i: int| 0 <= i < dirs.len() && (#[trigger] dirs[i]).0 == d {
        dirs
    } else {
        dirs.push((d, empty_dir_view()))
    }
}

proof fn lemma_dir_update(old: Seq<(Seq<char>, DirView)>, d: Seq<char>, g: spec_fn(DirView) -> DirView, i: int)
    requires
        dirs_unique(old),
        0 <= i < spec_with_dir(old, d).len(),
        spec_with_dir(old, d)[i].0 == d,
    ensures
        spec_with_dir(old, d).update(i, (d, g(spec_with_dir(old, d)[i].1))) == spec_dir_update(old, d, g),
        dirs_unique(spec_with_dir(old, d).update(i, (d, g(spec_with_dir(old, d)[i].1)))),
{
    let w = spec_with_dir(old, d);
    let u = w.update(i, (d, g(w[i].1)));
    if exists|k: int| 0 <= k < old.len() && (#[trigger] old[k]).0 == d {
        let c = choose|k: int| 0 <= k < old.len() && (#[trigger] old[k]).0 == d;
        assert(w == old);
        if c != i {
            if c < i {
                assert(old[c].0 != old[i].0);
            } else {
                assert(old[i].0 != old[c].0);
            }
        }
        assert(c == i);
    } else {
        assert(i == old.len()) by {
            if i < old.len() {
                assert(old[i].0 == d);
            }
        }
        assert(u =~= old.push((d, g(empty_dir_view()))));
    }
    assert forall|a: int, b: int| 0 <= a < b < u.len() implies #[trigger] u[a].0 != #[trigger] u[b].0 by {
        assert(u[a].0 == w[a].0 && u[b].0 == w[b].0);
        if b == old.len() {
            assert(w[b].0 == d);
            assert(!(exists|k: int| 0 <= k < old.len() && (#[trigger] old[k]).0 == d));
            assert(old[a].0 != d);
        }
    }
}

impl FsDiscovery {
    /// The position of directory `dir`, added with nothing found when it
    /// is new.
    fn with_dir(&mut self, dir: String) -> (i: usize)
        requires
            old(self).wf(),
        ensures
            final(self).wf(),
            dir_views(final(self).dirs@) == spec_with_dir(dir_views(old(self).dirs@), dir@),
            i < final(self).dirs@.len(),
            final(self).dirs@[i as int].0@ == dir@,
            final(self).rows@ == old(self).rows@,
            final(self).exclude_patterns@ == old(self).exclude_patterns@,
            final(self).include_patterns@ == old(self).include_patterns@,
    {
        let ghost dv = dir_views(self.dirs@);
        let mut i: usize = 0;
        while i < self.dirs.len()
            invariant
                i <= self.dirs.len(),
                self.wf(),
                dv == dir_views(self.dirs@),
                self.dirs@ == old(self).dirs@,
                self.rows@ == old(self).rows@,
                self.exclude_patterns@ == old(self).exclude_patterns@,
                self.include_patterns@ == old(self).include_patterns@,
                forall|k: int| 0 <= k < i ==> (#[trigger] dv[k]).0 != dir@,
            decreases self.dirs.len() - i,
        {
            assert(dv[i as int].0 == self.dirs@[i as int].0@);
            if str_eq(self.dirs[i].0.as_str(), dir.as_str()) {
                assert(dv[i as int].0 == dir@);
                return i;
            }
            i += 1;
        }
        let ghost dirv = dir@;
        let info = DirInfo::new();
        assert(dir_view(info) =~= empty_dir_view());
        self.dirs.push((dir, info));
        assert(dir_views(self.dirs@) =~= dv.push((dirv, empty_dir_view())));
        assert(!(exists|k: int| 0 <= k < dv.len() && (#[trigger] dv[k]).0 == dirv));
        proof {
            let nd = dir_views(self.dirs@);
            assert forall|a: int, b: int| 0 <= a < b < nd.len() implies #[trigger] nd[a].0 != #[trigger] nd[b].0 by {
                if b == dv.len() {
                    assert(dv[a].0 != dirv);
                } else {
                    assert(nd[a] == dv[a] && nd[b] == dv[b]);
                }
            }
        }
        self.dirs.len() - 1
    }

    /// Records a Dockerfile found at `path` in its directory.
    pub fn add_dockerfile(&mut self, path: &str)
        requires
            old(self).wf(),
        ensures
            final(self).wf(),
            dir_views(final(self).dirs@) == spec_dir_update(
                dir_views(old(self).dirs@),
                spec_source_dir(path@),
                |v: DirView| (v.0.push(path@), v.1, v.2, v.3),
            ),
            final(self).rows@ == old(self).rows@,
    {
        let ghost g = |v: DirView| (v.0.push(path@), v.1, v.2, v.3);
        let ghost old_dirs = dir_views(self.dirs@);
        let dir = source_dir(path);
        let i = self.with_dir(dir);
        let ghost w = dir_views(self.dirs@);
        let ghost d0 = self.dirs@;
        let (name, mut info) = self.dirs.remove(i);
        let ghost info0 = info;
        info.dockerfiles.push(copy_str(path));
        assert(str_views(info.dockerfiles@) =~= str_views(info0.dockerfiles@).push(path@));
        assert(dir_view(info) == g(dir_view(info0)));
        let ghost entry = (name, info);
        self.dirs.insert(i, (name, info));
        proof {
            assert(self.dirs@ =~= d0.update(i as int, entry));
            assert(d0[i as int].1 == info0);
            assert(dir_views(self.dirs@) =~= w.update(i as int, (w[i as int].0, g(w[i as int].1))));
            lemma_dir_update(old_dirs, spec_source_dir(path@), g, i as int);
        }
    }
}

} // verus!

verus! {

/// The rows that a compose file's services offer: image, container,
/// directory and file of each.
pub open spec fn service_rows(services: Seq<(String, Option<String>)>, dir: Seq<char>, path: Seq<char>) -> Seq<(Seq<char>, Option<Seq<char>>, Seq<char>, Seq<char>)> {
    services.map_values(|s: (String, Option<String>)| (s.0@, ov(s.1), dir, path))
}

impl FsDiscovery {
    /// Records a Makefile found at `path` with its text (`None` when it
    /// could not be read): its targets and their images.
    pub fn add_makefile(&mut self, path: &str, text: Option<&str>)
        requires
            old(self).wf(),
        ensures
            final(self).wf(),
            final(self).rows@ == old(self).rows@,
            exists|m: MakefileInfoView|
                dir_views(final(self).dirs@) == spec_dir_update(
                    dir_views(old(self).dirs@),
                    spec_source_dir(path@),
                    |v: DirView| (v.0, v.1.push(m), v.2, v.3),
                ) && m.0 == path@ && match text {
                    Some(t) => crate::order::strictly_sorted(m.1) && m.1.to_set()
                        == crate::makefile::all_targets(crate::text::lines(t@)).to_set() && m.2
                        == crate::makefile::target_images(t@),
                    None => m.1.len() == 0 && m.2.len() == 0,
                },
    {
        let targets = match text {
            Some(t) => parse_makefile_targets(t),
            None => Vec::new(),
        };
        let images = match text {
            Some(t) => parse_makefile_target_images(t),
            None => TargetImages::empty(),
        };
        let info_m = MakefileInfo { path: copy_str(path), targets, images };
        let ghost m: MakefileInfoView = (info_m.path@, str_views(info_m.targets@), info_m.images.entries_view());
        let ghost g = |v: DirView| (v.0, v.1.push(m), v.2, v.3);
        let ghost old_dirs = dir_views(self.dirs@);
        let dir = source_dir(path);
        let i = self.with_dir(dir);
        let ghost w = dir_views(self.dirs@);
        let ghost d0 = self.dirs@;
        let (name, mut info) = self.dirs.remove(i);
        let ghost info0 = info;
        info.makefiles.push(info_m);
        assert(dir_view(info).1 =~= dir_view(info0).1.push(m));
        assert(dir_view(info) == g(dir_view(info0)));
        let ghost entry = (name, info);
        self.dirs.insert(i, (name, info));
        proof {
            assert(self.dirs@ =~= d0.update(i as int, entry));
            assert(d0[i as int].1 == info0);
            assert(dir_views(self.dirs@) =~= w.update(i as int, (w[i as int].0, g(w[i as int].1))));
            lemma_dir_update(old_dirs, spec_source_dir(path@), g, i as int);
            assert(m.0 == path@);
            match text {
                Some(t) => {
                    assert(crate::order::strictly_sorted(m.1));
                    assert(m.1.to_set() == crate::makefile::all_targets(crate::text::lines(t@)).to_set());
                    assert(m.2 == crate::makefile::target_images(t@));
                },
                None => {
                    assert(m.1.len() == 0);
                    assert(m.2.len() == 0);
                },
            }
            assert(dir_views(self.dirs@) == spec_dir_update(
                old_dirs,
                spec_source_dir(path@),
                |v: DirView| (v.0, v.1.push(m), v.2, v.3),
            ));
        }
    }

    /// Records a quadlet file found at `path`, with its image and container
    /// name when it could be read: the row is
    /// offered, the file recorded in its directory.
    pub fn add_container(&mut self, path: &str, parsed: Option<(String, Option<String>)>)
        requires
            old(self).wf(),
        ensures
            final(self).wf(),
            row_views(final(self).rows@) == match parsed {
                Some(p) => spec_add_row(
                    row_views(old(self).rows@),
                    (p.0@, ov(p.1), spec_source_dir(path@), path@),
                ),
                None => row_views(old(self).rows@),
            },
            dir_views(final(self).dirs@) == spec_dir_update(
                dir_views(old(self).dirs@),
                spec_source_dir(path@),
                |v: DirView| (v.0, v.1, v.2, v.3.push((path@, match parsed {
                    Some(p) => Some(p.0@),
                    None => None,
                }))),
            ),
    {
        let dir = source_dir(path);
        let image = match &parsed {
            Some(p) => Some(p.0.clone()),
            None => None,
        };
        if let Some((img, name)) = parsed {
            self.add_row(img, name, dir.clone(), copy_str(path));
        }
        let ghost cv = (path@, ov(image));
        let ghost g = |v: DirView| (v.0, v.1, v.2, v.3.push(cv));
        let ghost old_dirs = dir_views(self.dirs@);
        let i = self.with_dir(dir);
        let ghost w = dir_views(self.dirs@);
        let ghost d0 = self.dirs@;
        let (name, mut info) = self.dirs.remove(i);
        let ghost info0 = info;
        info.container_files.push(ContainerInfo { path: copy_str(path), image });
        assert(dir_view(info).3 =~= dir_view(info0).3.push(cv));
        assert(dir_view(info) == g(dir_view(info0)));
        let ghost entry = (name, info);
        self.dirs.insert(i, (name, info));
        proof {
            assert(self.dirs@ =~= d0.update(i as int, entry));
            assert(d0[i as int].1 == info0);
            assert(dir_views(self.dirs@) =~= w.update(i as int, (w[i as int].0, g(w[i as int].1))));
            lemma_dir_update(old_dirs, spec_source_dir(path@), g, i as int);
        }
    }

    /// Records a compose file found at `path` with its services (image and
    /// container of each service that names an image, in order; none when
    /// it could not be read): each service's row is
    /// offered, and the file is recorded with its first image.
    pub fn add_compose(&mut self, path: &str, services: &Vec<(String, Option<String>)>)
        requires
            old(self).wf(),
        ensures
            final(self).wf(),
            row_views(final(self).rows@) == spec_add_rows(
                row_views(old(self).rows@),
                service_rows(services@, spec_source_dir(path@), path@),
            ),
            dir_views(final(self).dirs@) == spec_dir_update(
                dir_views(old(self).dirs@),
                spec_source_dir(path@),
                |v: DirView| (v.0, v.1, v.2.push(if services@.len() > 0 {
                    Some(services@[0].0@)
                } else {
                    None
                }), v.3),
            ),
    {
        let dir = source_dir(path);
        let ghost sr = service_rows(services@, dir@, path@);
        let mut k: usize = 0;
        assert(sr.take(0) =~= Seq::empty());
        while k < services.len()
            invariant
                k <= services.len(),
                self.wf(),
                sr == service_rows(services@, dir@, path@),
                dir@ == spec_source_dir(path@),
                row_views(self.rows@) == spec_add_rows(row_views(old(self).rows@), sr.take(k as int)),
                self.dirs@ == old(self).dirs@,
            decreases services.len() - k,
        {
            self.add_row(services[k].0.clone(), opt_copy(&services[k].1), dir.clone(), copy_str(path));
            assert(sr.take(k + 1).drop_last() =~= sr.take(k as int));
            assert(sr.take(k + 1).last() == sr[k as int]);
            k += 1;
        }
        assert(sr.take(services.len() as int) =~= sr);
        let first_image = if services.len() > 0 {
            Some(services[0].0.clone())
        } else {
            None
        };
        let ghost fv = ov(first_image);
        let ghost g = |v: DirView| (v.0, v.1, v.2.push(fv), v.3);
        let ghost old_dirs = dir_views(self.dirs@);
        let i = self.with_dir(dir);
        let ghost w = dir_views(self.dirs@);
        let ghost d0 = self.dirs@;
        let (name, mut info) = self.dirs.remove(i);
        let ghost info0 = info;
        info.compose_files.push(ComposeInfo { first_image });
        assert(dir_view(info).2 =~= dir_view(info0).2.push(fv));
        assert(dir_view(info) == g(dir_view(info0)));
        let ghost entry = (name, info);
        self.dirs.insert(i, (name, info));
        proof {
            assert(self.dirs@ =~= d0.update(i as int, entry));
            assert(d0[i as int].1 == info0);
            assert(dir_views(self.dirs@) =~= w.update(i as int, (w[i as int].0, g(w[i as int].1))));
            lemma_dir_update(old_dirs, spec_source_dir(path@), g, i as int);
        }
    }

    /// Ends the scan: the image rows sorted by image and container, and the
    /// Dockerfile and Makefile rows of the directories.
    pub fn finish(self) -> (r: DiscoveryResult)
        requires
            self.wf(),
            dirs_fit(self.dirs@),
        ensures
            row_views(r.images@).to_multiset() == row_views(self.rows@).to_multiset(),
            sorted_by_key(r.images@),
            dockerfile_views(r.dockerfiles@).to_multiset() == spec_dockerfile_rows(self.dirs@).to_multiset(),
            sorted_by_key(r.dockerfiles@),
            makefile_views(r.makefiles@).to_multiset() == spec_makefile_rows(self.dirs@).to_multiset(),
            sorted_by_key(r.makefiles@),
            forall|k: SortKey| #[trigger] with_key(r.images@, k) == with_key(self.rows@, k),
            exists|u: Seq<DiscoveredDockerfile>|
                dockerfile_views(u) == spec_dockerfile_rows(self.dirs@) && forall|k: SortKey|
                    #[trigger] with_key(r.dockerfiles@, k) == with_key(u, k),
            exists|u: Seq<DiscoveredMakefile>|
                makefile_views(u) == spec_makefile_rows(self.dirs@) && forall|k: SortKey|
                    #[trigger] with_key(r.makefiles@, k) == with_key(u, k),
    {
        let dockerfiles = build_dockerfile_rows(&self.dirs);
        let makefiles = build_makefile_rows(&self.dirs);
        let ghost rows = self.rows@;
        let images = sort_by_key(self.rows);
        proof {
            lemma_multiset_map(images@, rows, |r: DiscoveredImage| row_view(r));
        }
        DiscoveryResult { images, dockerfiles, makefiles }
    }
}

} // verus!

verus! {

/// How many Makefile rows name the Makefile `path` in the directory `dir`.
pub open spec fn count_rows_for(s: Seq<MakefileView>, path: Seq<char>, dir: Seq<char>) -> nat
    decreases s.len(),
{
    if s.len() == 0 {
        0
    } else {
        count_rows_for(s.drop_last(), path, dir) + if s.last().0 == path && s.last().1 == dir {
            1nat
        } else {
            0nat
        }
    }
}

/// The rows a Makefile is owed: one per target, one when it has none.
pub open spec fn owed_rows(m: MakefileInfo) -> nat {
    if m.targets@.len() == 0 {
        1
    } else {
        m.targets@.len()
    }
}

/// A row names a Makefile of one of the directories, that directory, and
/// the number of Makefiles there.
pub open spec fn row_from(dirs: Seq<(String, DirInfo)>, r: MakefileView) -> bool {
    exists|b: int, k: int|
        #![trigger dirs[b].1.makefiles@[k]]
        0 <= b < dirs.len() && 0 <= k < dirs[b].1.makefiles@.len() && dirs[b].1.makefiles@[k].path@
            == r.0 && dirs[b].0@ == r.1 && r.7 == dirs[b].1.makefiles@.len()
}

/// No Makefile is listed twice under one directory name.
pub open spec fn makefiles_unique(dirs: Seq<(String, DirInfo)>) -> bool {
    forall|a: int, j: int, b: int, k: int|
        #![trigger dirs[a].1.makefiles@[j], dirs[b].1.makefiles@[k]]
        0 <= a < dirs.len() && 0 <= j < dirs[a].1.makefiles@.len() && 0 <= b < dirs.len() && 0 <= k
            < dirs[b].1.makefiles@.len() && dirs[a].0@ == dirs[b].0@ && dirs[a].1.makefiles@[j].path@
            == dirs[b].1.makefiles@[k].path@ ==> a == b && j == k
}

proof fn lemma_count_add(s: Seq<MakefileView>, t: Seq<MakefileView>, path: Seq<char>, dir: Seq<char>)
    ensures
        count_rows_for(s + t, path, dir) == count_rows_for(s, path, dir) + count_rows_for(t, path, dir),
    decreases t.len(),
{
    if t.len() == 0 {
        assert(s + t =~= s);
    } else {
        assert((s + t).drop_last() =~= s + t.drop_last());
        lemma_count_add(s, t.drop_last(), path, dir);
    }
}

proof fn lemma_count_all(s: Seq<MakefileView>, path: Seq<char>, dir: Seq<char>)
    requires
        forall|i: int| 0 <= i < s.len() ==> s[i].0 == path && s[i].1 == dir,
    ensures
        count_rows_for(s, path, dir) == s.len(),
    decreases s.len(),
{
    if s.len() > 0 {
        lemma_count_all(s.drop_last(), path, dir);
    }
}

proof fn lemma_count_none(s: Seq<MakefileView>, path: Seq<char>, dir: Seq<char>)
    requires
        forall|i: int| 0 <= i < s.len() ==> !(s[i].0 == path && s[i].1 == dir),
    ensures
        count_rows_for(s, path, dir) == 0,
    decreases s.len(),
{
    if s.len() > 0 {
        lemma_count_none(s.drop_last(), path, dir);
    }
}

/// Equal multisets of rows count alike.
proof fn lemma_count_perm(s: Seq<MakefileView>, t: Seq<MakefileView>, path: Seq<char>, dir: Seq<char>)
    requires
        s.to_multiset() == t.to_multiset(),
    ensures
        count_rows_for(s, path, dir) == count_rows_for(t, path, dir),
    decreases s.len(),
{
    if s.len() == 0 {
        assert(s.to_multiset().len() == 0);
        assert(t.to_multiset().len() == t.len());
    } else {
        let x = s.last();
        assert(s.drop_last().push(x) =~= s);
        assert(s.to_multiset().count(x) > 0);
        assert(t.contains(x));
        let j = t.index_of(x);
        let t2 = t.remove(j);
        assert(t2.to_multiset() == t.to_multiset().remove(x));
        assert(s.drop_last().to_multiset() == s.to_multiset().remove(x)) by {
            assert(s.to_multiset() == s.drop_last().to_multiset().insert(x));
            assert(s.drop_last().to_multiset() =~= s.drop_last().to_multiset().insert(x).remove(x));
        }
        lemma_count_perm(s.drop_last(), t2, path, dir);
        assert(t =~= t.take(j) + seq![x] + t.skip(j + 1));
        assert(t2 =~= t.take(j) + t.skip(j + 1));
        lemma_count_add(t.take(j) + seq![x], t.skip(j + 1), path, dir);
        lemma_count_add(t.take(j), seq![x], path, dir);
        lemma_count_add(t.take(j), t.skip(j + 1), path, dir);
        assert(seq![x].drop_last() =~= Seq::<MakefileView>::empty());
        assert(seq![x].last() == x);
        assert(count_rows_for(seq![x], path, dir) == count_rows_for(Seq::<MakefileView>::empty(), path, dir)
            + if x.0 == path && x.1 == dir { 1nat } else { 0nat });
        assert(count_rows_for(s, path, dir) == count_rows_for(s.drop_last(), path, dir)
            + if x.0 == path && x.1 == dir { 1nat } else { 0nat });
    }
}

proof fn lemma_one_makefile(dir: Seq<char>, info: DirInfo, m: MakefileInfo, path: Seq<char>, d: Seq<char>)
    ensures
        forall|i: int|
            0 <= i < spec_one_makefile_rows(dir, info, m).len() ==> {
                let r = #[trigger] spec_one_makefile_rows(dir, info, m)[i];
                r.0 == m.path@ && r.1 == dir && r.7 == info.makefiles@.len()
            },
        count_rows_for(spec_one_makefile_rows(dir, info, m), path, d) == if m.path@ == path && dir == d {
            owed_rows(m)
        } else {
            0
        },
{
    let s = spec_one_makefile_rows(dir, info, m);
    if m.path@ == path && dir == d {
        lemma_count_all(s, path, d);
    } else {
        lemma_count_none(s, path, d);
    }
}

proof fn lemma_dir_makefiles(dir: Seq<char>, info: DirInfo, n: int, path: Seq<char>, d: Seq<char>, j: int)
    requires
        0 <= n <= info.makefiles@.len(),
    ensures
        forall|i: int|
            0 <= i < spec_dir_makefile_rows(dir, info, n).len() ==> {
                let r = #[trigger] spec_dir_makefile_rows(dir, info, n)[i];
                r.1 == dir && r.7 == info.makefiles@.len() && exists|k: int|
                    0 <= k < n && #[trigger] info.makefiles@[k].path@ == r.0
            },
        (forall|k: int| 0 <= k < n ==> !(dir == d && #[trigger] info.makefiles@[k].path@ == path))
            ==> count_rows_for(spec_dir_makefile_rows(dir, info, n), path, d) == 0,
        (0 <= j < n && dir == d && info.makefiles@[j].path@ == path && forall|k: int|
            0 <= k < n && k != j ==> #[trigger] info.makefiles@[k].path@ != path) ==> count_rows_for(
            spec_dir_makefile_rows(dir, info, n),
            path,
            d,
        ) == owed_rows(info.makefiles@[j]),
    decreases n,
{
    if n > 0 {
        lemma_dir_makefiles(dir, info, n - 1, path, d, j);
        let a = spec_dir_makefile_rows(dir, info, n - 1);
        let m = info.makefiles@[n - 1];
        let b = spec_one_makefile_rows(dir, info, m);
        assert(spec_dir_makefile_rows(dir, info, n) == a + b);
        lemma_one_makefile(dir, info, m, path, d);
        lemma_count_add(a, b, path, d);
        assert forall|i: int| 0 <= i < (a + b).len() implies {
            let r = #[trigger] (a + b)[i];
            r.1 == dir && r.7 == info.makefiles@.len() && exists|k: int|
                0 <= k < n && #[trigger] info.makefiles@[k].path@ == r.0
        } by {
            if i < a.len() {
                assert((a + b)[i] == a[i]);
                let k = choose|k: int| 0 <= k < n - 1 && #[trigger] info.makefiles@[k].path@ == a[i].0;
                assert(info.makefiles@[k].path@ == (a + b)[i].0);
            } else {
                assert((a + b)[i] == b[i - a.len()]);
                assert(info.makefiles@[n - 1].path@ == (a + b)[i].0);
            }
        }
        if (forall|k: int| 0 <= k < n ==> !(dir == d && #[trigger] info.makefiles@[k].path@ == path)) {
            assert(!(dir == d && info.makefiles@[n - 1].path@ == path));
        }
        if 0 <= j < n && dir == d && info.makefiles@[j].path@ == path && forall|k: int|
            0 <= k < n && k != j ==> #[trigger] info.makefiles@[k].path@ != path {
            if j == n - 1 {
                assert forall|k: int| 0 <= k < n - 1 implies !(dir == d && #[trigger] info.makefiles@[k].path@
                    == path) by {
                    assert(k != j);
                }
            } else {
                assert(info.makefiles@[n - 1].path@ != path);
            }
        }
    } else {
        assert(spec_dir_makefile_rows(dir, info, n) =~= Seq::<MakefileView>::empty());
    }
}

proof fn lemma_rows_from_all(dirs: Seq<(String, DirInfo)>)
    ensures
        forall|i: int|
            0 <= i < spec_makefile_rows(dirs).len() ==> row_from(dirs, #[trigger] spec_makefile_rows(dirs)[i]),
    decreases dirs.len(),
{
    if dirs.len() > 0 {
        let init = dirs.drop_last();
        let last = dirs.len() - 1;
        let dir = dirs[last].0@;
        let info = dirs[last].1;
        let n = info.makefiles@.len() as int;
        lemma_rows_from_all(init);
        lemma_dir_makefiles(dir, info, n, Seq::empty(), Seq::empty(), 0);
        let s = spec_makefile_rows(init);
        let t = spec_dir_makefile_rows(dir, info, n);
        assert(spec_makefile_rows(dirs) == s + t);
        assert forall|i: int| 0 <= i < (s + t).len() implies row_from(dirs, #[trigger] (s + t)[i]) by {
            if i < s.len() {
                assert((s + t)[i] == s[i]);
                assert(row_from(init, s[i]));
                let (b, k) = choose|b: int, k: int|
                    #![trigger init[b].1.makefiles@[k]]
                    0 <= b < init.len() && 0 <= k < init[b].1.makefiles@.len()
                        && init[b].1.makefiles@[k].path@ == s[i].0 && init[b].0@ == s[i].1 && s[i].7
                        == init[b].1.makefiles@.len();
                assert(init[b] == dirs[b]);
                assert(dirs[b].1.makefiles@[k].path@ == (s + t)[i].0);
            } else {
                assert((s + t)[i] == t[i - s.len()]);
                let r = t[i - s.len()];
                let k = choose|k: int| 0 <= k < n && #[trigger] info.makefiles@[k].path@ == r.0;
                assert(dirs[last].1.makefiles@[k].path@ == r.0);
            }
        }
    } else {
        assert(spec_makefile_rows(dirs) =~= Seq::<MakefileView>::empty());
    }
}

proof fn lemma_count_none_all(dirs: Seq<(String, DirInfo)>, path: Seq<char>, d: Seq<char>)
    requires
        forall|b: int, k: int|
            0 <= b < dirs.len() && 0 <= k < dirs[b].1.makefiles@.len() ==> !(dirs[b].0@ == d
                && #[trigger] dirs[b].1.makefiles@[k].path@ == path),
    ensures
        count_rows_for(spec_makefile_rows(dirs), path, d) == 0,
    decreases dirs.len(),
{
    if dirs.len() > 0 {
        let init = dirs.drop_last();
        let last = dirs.len() - 1;
        let dir = dirs[last].0@;
        let info = dirs[last].1;
        let n = info.makefiles@.len() as int;
        assert forall|b: int, k: int|
            0 <= b < init.len() && 0 <= k < init[b].1.makefiles@.len() implies !(init[b].0@ == d
                && #[trigger] init[b].1.makefiles@[k].path@ == path) by {
            assert(init[b] == dirs[b]);
            assert(dirs[b].1.makefiles@[k] == init[b].1.makefiles@[k]);
        }
        assert forall|k: int| 0 <= k < n implies !(dir == d && #[trigger] info.makefiles@[k].path@ == path) by {
            assert(dirs[last].1.makefiles@[k] == info.makefiles@[k]);
        }
        lemma_count_none_all(init, path, d);
        lemma_dir_makefiles(dir, info, n, path, d, 0);
        let s = spec_makefile_rows(init);
        let t = spec_dir_makefile_rows(dir, info, n);
        assert(spec_makefile_rows(dirs) == s + t);
        lemma_count_add(s, t, path, d);
    } else {
        assert(spec_makefile_rows(dirs) =~= Seq::<MakefileView>::empty());
    }
}

proof fn lemma_count_one_all(dirs: Seq<(String, DirInfo)>, path: Seq<char>, d: Seq<char>, a: int, j: int)
    requires
        0 <= a < dirs.len(),
        0 <= j < dirs[a].1.makefiles@.len(),
        dirs[a].0@ == d,
        dirs[a].1.makefiles@[j].path@ == path,
        forall|b: int, k: int|
            0 <= b < dirs.len() && 0 <= k < dirs[b].1.makefiles@.len() && !(b == a && k == j) ==> !(
            dirs[b].0@ == d && #[trigger] dirs[b].1.makefiles@[k].path@ == path),
    ensures
        count_rows_for(spec_makefile_rows(dirs), path, d) == owed_rows(dirs[a].1.makefiles@[j]),
    decreases dirs.len(),
{
    let init = dirs.drop_last();
    let last = dirs.len() - 1;
    let dir = dirs[last].0@;
    let info = dirs[last].1;
    let n = info.makefiles@.len() as int;
    let s = spec_makefile_rows(init);
    let t = spec_dir_makefile_rows(dir, info, n);
    assert(spec_makefile_rows(dirs) == s + t);
    lemma_count_add(s, t, path, d);
    if a == last {
        assert forall|b: int, k: int|
            0 <= b < init.len() && 0 <= k < init[b].1.makefiles@.len() implies !(init[b].0@ == d
                && #[trigger] init[b].1.makefiles@[k].path@ == path) by {
            assert(init[b] == dirs[b]);
            assert(dirs[b].1.makefiles@[k] == init[b].1.makefiles@[k]);
        }
        assert forall|k: int| 0 <= k < n && k != j implies #[trigger] info.makefiles@[k].path@ != path by {
            assert(dirs[last].1.makefiles@[k] == info.makefiles@[k]);
        }
        lemma_count_none_all(init, path, d);
        lemma_dir_makefiles(dir, info, n, path, d, j);
    } else {
        assert(init[a] == dirs[a]);
        assert(init[a].1.makefiles@[j] == dirs[a].1.makefiles@[j]);
        assert forall|b: int, k: int|
            0 <= b < init.len() && 0 <= k < init[b].1.makefiles@.len() && !(b == a && k == j) implies !(
            init[b].0@ == d && #[trigger] init[b].1.makefiles@[k].path@ == path) by {
            assert(init[b] == dirs[b]);
            assert(dirs[b].1.makefiles@[k] == init[b].1.makefiles@[k]);
        }
        assert forall|k: int| 0 <= k < n implies !(dir == d && #[trigger] info.makefiles@[k].path@ == path) by {
            assert(dirs[last].1.makefiles@[k] == info.makefiles@[k]);
        }
        lemma_count_one_all(init, path, d, a, j);
        lemma_dir_makefiles(dir, info, n, path, d, 0);
    }
}

/// Each Makefile of a directory gives one row per target, or one row when
/// it has none; every row names a Makefile of its directory; and the rows of
/// a Makefile count the Makefiles of its directory.
pub proof fn lemma_makefile_row_count(dirs: Seq<(String, DirInfo)>, a: int, j: int)
    requires
        makefiles_unique(dirs),
        0 <= a < dirs.len(),
        0 <= j < dirs[a].1.makefiles@.len(),
    ensures
        count_rows_for(spec_makefile_rows(dirs), dirs[a].1.makefiles@[j].path@, dirs[a].0@) == owed_rows(
            dirs[a].1.makefiles@[j],
        ),
        forall|i: int|
            0 <= i < spec_makefile_rows(dirs).len() ==> row_from(dirs, #[trigger] spec_makefile_rows(dirs)[i]),
        forall|i: int|
            0 <= i < spec_makefile_rows(dirs).len() && (#[trigger] spec_makefile_rows(dirs)[i]).0
                == dirs[a].1.makefiles@[j].path@ && spec_makefile_rows(dirs)[i].1 == dirs[a].0@
                ==> spec_makefile_rows(dirs)[i].7 == dirs[a].1.makefiles@.len(),
{
    let path = dirs[a].1.makefiles@[j].path@;
    let d = dirs[a].0@;
    assert forall|b: int, k: int|
        0 <= b < dirs.len() && 0 <= k < dirs[b].1.makefiles@.len() && !(b == a && k == j) implies !(
        dirs[b].0@ == d && #[trigger] dirs[b].1.makefiles@[k].path@ == path) by {
        if dirs[b].0@ == d && dirs[b].1.makefiles@[k].path@ == path {
            assert(dirs[a].1.makefiles@[j] == dirs[a].1.makefiles@[j]);
        }
    }
    lemma_count_one_all(dirs, path, d, a, j);
    lemma_rows_from_all(dirs);
    let rows = spec_makefile_rows(dirs);
    assert forall|i: int| 0 <= i < rows.len() && (#[trigger] rows[i]).0 == path && rows[i].1 == d implies rows[i].7
        == dirs[a].1.makefiles@.len() by {
        assert(row_from(dirs, rows[i]));
        let (b, k) = choose|b: int, k: int|
            #![trigger dirs[b].1.makefiles@[k]]
            0 <= b < dirs.len() && 0 <= k < dirs[b].1.makefiles@.len() && dirs[b].1.makefiles@[k].path@
                == rows[i].0 && dirs[b].0@ == rows[i].1 && rows[i].7 == dirs[b].1.makefiles@.len();
        assert(dirs[a].1.makefiles@[j] == dirs[a].1.makefiles@[j]);
    }
}

/// The same holds of the rows `build_makefile_rows` returns: they are the
/// rows above in another order.
pub proof fn lemma_built_makefile_row_count(dirs: Seq<(String, DirInfo)>, r: Seq<DiscoveredMakefile>, a: int, j: int)
    requires
        makefile_views(r).to_multiset() == spec_makefile_rows(dirs).to_multiset(),
        makefiles_unique(dirs),
        0 <= a < dirs.len(),
        0 <= j < dirs[a].1.makefiles@.len(),
    ensures
        count_rows_for(makefile_views(r), dirs[a].1.makefiles@[j].path@, dirs[a].0@) == owed_rows(
            dirs[a].1.makefiles@[j],
        ),
        forall|i: int| 0 <= i < r.len() ==> row_from(dirs, #[trigger] makefile_view(r[i])),
        forall|i: int|
            0 <= i < r.len() && (#[trigger] makefile_view(r[i])).0 == dirs[a].1.makefiles@[j].path@
                && makefile_view(r[i]).1 == dirs[a].0@ ==> makefile_view(r[i]).7 == dirs[a].1.makefiles@.len(),
{
    let rows = spec_makefile_rows(dirs);
    let views = makefile_views(r);
    lemma_makefile_row_count(dirs, a, j);
    lemma_count_perm(views, rows, dirs[a].1.makefiles@[j].path@, dirs[a].0@);
    assert forall|i: int| 0 <= i < r.len() implies row_from(dirs, #[trigger] makefile_view(r[i])) && (
    makefile_view(r[i]).0 == dirs[a].1.makefiles@[j].path@ && makefile_view(r[i]).1 == dirs[a].0@
        ==> makefile_view(r[i]).7 == dirs[a].1.makefiles@.len()) by {
        let x = makefile_view(r[i]);
        assert(views[i] == x);
        assert(views.contains(x));
        assert(views.to_multiset().count(x) > 0);
        assert(rows.to_multiset().count(x) > 0);
        assert(rows.contains(x));
        let q = choose|q: int| 0 <= q < rows.len() && rows[q] == x;
        assert(row_from(dirs, rows[q]));
    }
}

} // verus!
