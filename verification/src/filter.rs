//! Which directories a snapshot leaves out.
use vstd::prelude::*;

use crate::text::{chars_eq, chars_of, lemma_split_concat, lemma_split_none, split_chars, split_on};

verus! {

/// A component of a path, as std's `Path::components` yields it on Unix.
#[derive(Debug)]
pub enum PathComponent {
    /// The root directory: the path starts with `/`.
    RootDir,
    /// A `.` at the start of a relative path.
    CurDir,
    /// A `..`.
    ParentDir,
    /// A name.
    Normal(String),
    /// A name that is not valid UTF-8.
    NonUtf8,
}

/// A path component, with the name of a normal component as its characters.
pub enum ComponentView {
    RootDir,
    CurDir,
    ParentDir,
    Normal(Seq<char>),
    NonUtf8,
}

impl View for PathComponent {
    type V = ComponentView;

    open spec fn view(&self) -> ComponentView {
        match self {
            PathComponent::RootDir => ComponentView::RootDir,
            PathComponent::CurDir => ComponentView::CurDir,
            PathComponent::ParentDir => ComponentView::ParentDir,
            PathComponent::Normal(n) => ComponentView::Normal(n@),
            PathComponent::NonUtf8 => ComponentView::NonUtf8,
        }
    }
}

pub open spec fn components_view(cs: Seq<PathComponent>) -> Seq<ComponentView> {
    cs.map_values(|c: PathComponent| c@)
}

/// Whether a piece between separators is a component: not empty and not `.`.
pub open spec fn kept_piece(p: Seq<char>) -> bool {
    p.len() > 0 && !(p.len() == 1 && p[0] == '.')
}

/// The component a kept piece stands for: `..` is the parent, anything else a name.
pub open spec fn piece_component(p: Seq<char>) -> ComponentView {
    if p.len() == 2 && p[0] == '.' && p[1] == '.' {
        ComponentView::ParentDir
    } else {
        ComponentView::Normal(p)
    }
}

/// The components of the pieces between separators, empty pieces and `.` left out.
pub open spec fn piece_components(ps: Seq<Seq<char>>) -> Seq<ComponentView>
    decreases ps.len(),
{
    if ps.len() == 0 {
        Seq::empty()
    } else {
        let rest = piece_components(ps.drop_last());
        if kept_piece(ps.last()) {
            rest.push(piece_component(ps.last()))
        } else {
            rest
        }
    }
}

/// The components of a path (std's documented normalisation): a root when the path starts
/// with `/`; a `.` only when a relative path starts with it; then, for each piece between
/// separators, `..` as the parent and any other non-empty piece but `.` as a name.
pub open spec fn path_components_of(s: Seq<char>) -> Seq<ComponentView> {
    let lead = if s.len() > 0 && s[0] == '/' {
        seq![ComponentView::RootDir]
    } else if s.len() > 0 && s[0] == '.' && (s.len() == 1 || s[1] == '/') {
        seq![ComponentView::CurDir]
    } else {
        Seq::empty()
    };
    lead + piece_components(split_on(s, '/'))
}

/// Splits a path into its components.
pub fn path_components(path: &str) -> (r: Vec<PathComponent>)
    ensures
        components_view(r@) == path_components_of(path@),
{
    let s = chars_of(path);
    let pieces = split_chars(&s, '/');
    let ghost ps = split_on(s@, '/');
    let mut r: Vec<PathComponent> = Vec::new();
    if s.len() > 0 && s[0] == '/' {
        r.push(PathComponent::RootDir);
    } else if s.len() > 0 && s[0] == '.' && (s.len() == 1 || s[1] == '/') {
        r.push(PathComponent::CurDir);
    }
    let ghost lead = components_view(r@);
    assert(lead + piece_components(ps.take(0)) =~= components_view(r@)) by {
        assert(ps.take(0) =~= Seq::<Seq<char>>::empty());
    }
    let mut i: usize = 0;
    while i < pieces.len()
        invariant
            0 <= i <= pieces@.len(),
            pieces@.len() == ps.len(),
            forall|k: int| 0 <= k < pieces@.len() ==> #[trigger] pieces@[k]@ == ps[k],
            components_view(r@) == lead + piece_components(ps.take(i as int)),
        decreases pieces@.len() - i,
    {
        let p = &pieces[i];
        proof {
            assert(ps.take(i + 1).drop_last() =~= ps.take(i as int));
            assert(ps.take(i + 1).last() == ps[i as int]);
            assert(p@ == ps[i as int]);
        }
        let ghost before = r@;
        if p.len() > 0 && !(p.len() == 1 && p[0] == '.') {
            if p.len() == 2 && p[0] == '.' && p[1] == '.' {
                r.push(PathComponent::ParentDir);
            } else {
                r.push(PathComponent::Normal(crate::text::string_from_chars(p)));
            }
            assert(components_view(r@) =~= components_view(before).push(piece_component(ps[i as int])));
        }
        i = i + 1;
    }
    assert(ps.take(ps.len() as int) =~= ps);
    r
}

/// Top-level directories that are left out.
pub open spec fn ignored_root_directories() -> Seq<Seq<char>> {
    seq![
        "bin"@,
        "dev"@,
        "lib"@,
        "lib64"@,
        "lost+found"@,
        "media"@,
        "mnt"@,
        "opt"@,
        "proc"@,
        "run"@,
        "sbin"@,
        "srv"@,
        "sys"@,
        "tmp"@,
    ]
}

/// Directory names left out wherever they occur.
pub open spec fn ignored_components() -> Seq<Seq<char>> {
    seq!["target"@, ".cache"@, ".cargo"@]
}

/// Name sequences that leave out a path starting with them.
pub open spec fn root_anchored_rules() -> Seq<Seq<Seq<char>>> {
    seq![
        seq!["var"@, "snaps"@],
        seq!["var"@, "lib"@, "pacman"@],
        seq!["var"@, "tmp"@],
        seq!["var"@, "cache"@],
        seq!["var"@, "log"@],
        seq!["var"@, "run"@],
        seq!["var"@, "lock"@],
        seq!["home"@, "theo"@, "projects"@],
        seq!["home"@, "theo"@, ".MathWorks"@],
        seq!["home"@, "theo"@, ".rustup"@],
    ]
}

/// Name sequences that leave out a path ending with them.
pub open spec fn tail_anchored_rules() -> Seq<Seq<Seq<char>>> {
    seq![
        seq![".local"@, "share"@, "nvim"@],
        seq![".local"@, "state"@, "nvim"@],
        seq![".config"@, "mozilla"@, "firefox"@],
        seq![".config"@, "chromium"@],
    ]
}

/// The names among the components, in order (names that are not UTF-8 left out).
pub open spec fn normal_names(cs: Seq<ComponentView>) -> Seq<Seq<char>>
    decreases cs.len(),
{
    if cs.len() == 0 {
        Seq::empty()
    } else {
        let rest = normal_names(cs.drop_last());
        match cs.last() {
            ComponentView::Normal(n) => rest.push(n),
            _ => rest,
        }
    }
}

/// A listed directory right under the root.
pub open spec fn ignored_under_root(cs: Seq<ComponentView>) -> bool {
    cs.len() == 2 && cs[0] is RootDir && match cs[1] {
        ComponentView::Normal(n) => ignored_root_directories().contains(n),
        _ => false,
    }
}

/// A path whose last component is a listed name.
pub open spec fn ignored_by_name(cs: Seq<ComponentView>) -> bool {
    cs.len() > 0 && match cs.last() {
        ComponentView::Normal(n) => ignored_components().contains(n),
        _ => false,
    }
}

/// Whether a path with these components is left out of a snapshot: a listed directory
/// right under the root; a directory whose own name is listed; or a path whose names
/// start with a root-anchored rule or end with a tail-anchored one.
pub open spec fn ignored(cs: Seq<ComponentView>) -> bool {
    ||| ignored_under_root(cs)
    ||| ignored_by_name(cs)
    ||| exists|k: int|
        0 <= k < root_anchored_rules().len() && #[trigger] root_anchored_rules()[k].is_prefix_of(
            normal_names(cs),
        )
    ||| exists|k: int|
        0 <= k < tail_anchored_rules().len() && #[trigger] tail_anchored_rules()[k].is_suffix_of(
            normal_names(cs),
        )
}

fn ignored_root_directory_list() -> (r: Vec<&'static str>)
    ensures
        strs_view(r@) == ignored_root_directories(),
{
    let r = vec![
        "bin",
        "dev",
        "lib",
        "lib64",
        "lost+found",
        "media",
        "mnt",
        "opt",
        "proc",
        "run",
        "sbin",
        "srv",
        "sys",
        "tmp",
    ];
    assert(strs_view(r@) =~= ignored_root_directories());
    r
}

fn ignored_component_list() -> (r: Vec<&'static str>)
    ensures
        strs_view(r@) == ignored_components(),
{
    let r = vec!["target", ".cache", ".cargo"];
    assert(strs_view(r@) =~= ignored_components());
    r
}

pub open spec fn rules_view(rules: Seq<Vec<&'static str>>) -> Seq<Seq<Seq<char>>> {
    rules.map_values(|r: Vec<&'static str>| strs_view(r@))
}

pub open spec fn strs_view(v: Seq<&'static str>) -> Seq<Seq<char>> {
    v.map_values(|s: &'static str| s@)
}

pub open spec fn names_view(v: Seq<Vec<char>>) -> Seq<Seq<char>> {
    v.map_values(|n: Vec<char>| n@)
}

fn root_anchored_rule_list() -> (r: Vec<Vec<&'static str>>)
    ensures
        rules_view(r@) == root_anchored_rules(),
{
    let r = vec![
        vec!["var", "snaps"],
        vec!["var", "lib", "pacman"],
        vec!["var", "tmp"],
        vec!["var", "cache"],
        vec!["var", "log"],
        vec!["var", "run"],
        vec!["var", "lock"],
        vec!["home", "theo", "projects"],
        vec!["home", "theo", ".MathWorks"],
        vec!["home", "theo", ".rustup"],
    ];
    proof {
        let v = rules_view(r@);
        let w = root_anchored_rules();
        assert forall|k: int| 0 <= k < w.len() implies v[k] =~= w[k] by {}
        assert(v =~= w);
    }
    r
}

fn tail_anchored_rule_list() -> (r: Vec<Vec<&'static str>>)
    ensures
        rules_view(r@) == tail_anchored_rules(),
{
    let r = vec![
        vec![".local", "share", "nvim"],
        vec![".local", "state", "nvim"],
        vec![".config", "mozilla", "firefox"],
        vec![".config", "chromium"],
    ];
    proof {
        let v = rules_view(r@);
        let w = tail_anchored_rules();
        assert forall|k: int| 0 <= k < w.len() implies v[k] =~= w[k] by {}
        assert(v =~= w);
    }
    r
}

/// Whether `name` is one of `list`.
fn listed(name: &[char], list: &Vec<&'static str>) -> (r: bool)
    ensures
        r == strs_view(list@).contains(name@),
{
    let ghost l = strs_view(list@);
    let mut i: usize = 0;
    while i < list.len()
        invariant
            0 <= i <= list@.len(),
            l == strs_view(list@),
            forall|k: int| 0 <= k < i ==> l[k] != name@,
        decreases list@.len() - i,
    {
        if chars_eq(name, &chars_of(list[i])) {
            assert(l[i as int] == name@);
            return true;
        }
        i = i + 1;
    }
    proof {
        if l.contains(name@) {
            let k = choose|k: int| 0 <= k < l.len() && l[k] == name@;
            assert(l[k] != name@);
        }
    }
    false
}

/// The names among the components.
fn names_of(comps: &[PathComponent]) -> (r: Vec<Vec<char>>)
    ensures
        names_view(r@) == normal_names(components_view(comps@)),
{
    let mut r: Vec<Vec<char>> = Vec::new();
    let mut i: usize = 0;
    while i < comps.len()
        invariant
            0 <= i <= comps@.len(),
            names_view(r@) == normal_names(components_view(comps@.take(i as int))),
        decreases comps@.len() - i,
    {
        proof {
            assert(components_view(comps@.take(i + 1)).drop_last() =~= components_view(comps@.take(i as int)));
            assert(components_view(comps@.take(i + 1)).last() == comps@[i as int]@);
        }
        let ghost before = r@;
        match &comps[i] {
            PathComponent::Normal(n) => {
                r.push(chars_of(n.as_str()));
                assert(names_view(r@) =~= names_view(before).push(n@));
            },
            _ => {},
        }
        i = i + 1;
    }
    assert(comps@.take(comps@.len() as int) =~= comps@);
    r
}

/// Whether `rule` is a prefix (`at_end` false) or a suffix (`at_end` true) of `names`.
fn rule_matches(rule: &Vec<&'static str>, names: &Vec<Vec<char>>, at_end: bool) -> (r: bool)
    ensures
        r == if at_end {
            strs_view(rule@).is_suffix_of(names_view(names@))
        } else {
            strs_view(rule@).is_prefix_of(names_view(names@))
        },
{
    let ghost a = strs_view(rule@);
    let ghost b = names_view(names@);
    if rule.len() > names.len() {
        return false;
    }
    let offset: usize = if at_end { names.len() - rule.len() } else { 0 };
    let ghost target = b.subrange(offset as int, offset + a.len());
    let mut i: usize = 0;
    while i < rule.len()
        invariant
            0 <= i <= rule@.len(),
            rule@.len() <= names@.len(),
            names@.len() <= usize::MAX,
            offset == if at_end { names@.len() - rule@.len() } else { 0 },
            a == strs_view(rule@),
            b == names_view(names@),
            target == b.subrange(offset as int, offset + a.len()),
            forall|k: int| 0 <= k < i ==> a[k] == target[k],
        decreases rule@.len() - i,
    {
        if !chars_eq(&names[offset + i], &chars_of(rule[i])) {
            assert(a[i as int] != target[i as int]);
            assert(a != target);
            return false;
        }
        i = i + 1;
    }
    assert(a =~= target);
    true
}

/// Whether a path, given by its components, is left out of a snapshot.
pub fn should_ignore_components(comps: &[PathComponent]) -> (r: bool)
    ensures
        r == ignored(components_view(comps@)),
{
    let ghost cs = components_view(comps@);
    if comps.len() == 2 {
        match (&comps[0], &comps[1]) {
            (PathComponent::RootDir, PathComponent::Normal(n)) => {
                if listed(&chars_of(n.as_str()), &ignored_root_directory_list()) {
                    return true;
                }
            },
            _ => {},
        }
    }
    if comps.len() > 0 {
        match &comps[comps.len() - 1] {
            PathComponent::Normal(n) => {
                if listed(&chars_of(n.as_str()), &ignored_component_list()) {
                    return true;
                }
            },
            _ => {},
        }
    }
    let names = names_of(comps);
    let ghost nm = normal_names(cs);
    let root_rules = root_anchored_rule_list();
    let mut k: usize = 0;
    while k < root_rules.len()
        invariant
            0 <= k <= root_rules@.len(),
            rules_view(root_rules@) == root_anchored_rules(),
            names_view(names@) == nm,
            nm == normal_names(cs),
            cs == components_view(comps@),
            forall|j: int| 0 <= j < k ==> !(#[trigger] root_anchored_rules()[j]).is_prefix_of(nm),
        decreases root_rules@.len() - k,
    {
        assert(rules_view(root_rules@)[k as int] == strs_view(root_rules@[k as int]@));
        if rule_matches(&root_rules[k], &names, false) {
            assert(root_rules@.len() == root_anchored_rules().len());
            assert(root_anchored_rules()[k as int].is_prefix_of(normal_names(cs)));
            assert(ignored(cs));
            return true;
        }
        k = k + 1;
    }
    let tail_rules = tail_anchored_rule_list();
    let mut k: usize = 0;
    while k < tail_rules.len()
        invariant
            0 <= k <= tail_rules@.len(),
            rules_view(tail_rules@) == tail_anchored_rules(),
            names_view(names@) == nm,
            nm == normal_names(cs),
            cs == components_view(comps@),
            forall|j: int| 0 <= j < k ==> !(#[trigger] tail_anchored_rules()[j]).is_suffix_of(nm),
        decreases tail_rules@.len() - k,
    {
        assert(rules_view(tail_rules@)[k as int] == strs_view(tail_rules@[k as int]@));
        if rule_matches(&tail_rules[k], &names, true) {
            assert(tail_rules@.len() == tail_anchored_rules().len());
            assert(tail_anchored_rules()[k as int].is_suffix_of(normal_names(cs)));
            assert(ignored(cs));
            return true;
        }
        k = k + 1;
    }
    proof {
        assert(root_rules@.len() == root_anchored_rules().len());
        assert(tail_rules@.len() == tail_anchored_rules().len());
        if cs.len() == 2 && cs[0] is RootDir {
            if let ComponentView::Normal(n) = cs[1] {
                assert(!ignored_root_directories().contains(n));
            }
        }
    }
    false
}

/// Whether a path is left out of a snapshot.
pub fn should_ignore(path: &str) -> (r: bool)
    ensures
        r == ignored(path_components_of(path@)),
{
    let comps = path_components(path);
    should_ignore_components(&comps)
}

/// A path of one name under the root, the name neither `.` nor `..` nor holding a
/// separator, has the root and that name as its components.
pub proof fn lemma_root_entry_components(n: Seq<char>)
    requires
        n.len() > 0,
        !n.contains('/'),
        !(n.len() == 1 && n[0] == '.'),
        !(n.len() == 2 && n[0] == '.' && n[1] == '.'),
    ensures
        path_components_of(seq!['/'] + n) == seq![ComponentView::RootDir, ComponentView::Normal(n)],
{
    let e = Seq::<char>::empty();
    assert(seq!['/'] + n =~= e + seq!['/'] + n);
    lemma_split_concat(e, n, '/');
    lemma_split_none(n, '/');
    lemma_split_none(e, '/');
    let ps = split_on(seq!['/'] + n, '/');
    assert(ps =~= seq![e, n]);
    assert(ps.drop_last() =~= seq![e]);
    assert(seq![e].drop_last() =~= Seq::<Seq<char>>::empty());
    reveal_with_fuel(piece_components, 3);
    assert(piece_components(ps) =~= seq![ComponentView::Normal(n)]);
}

/// Facts about the listed names that the laws below rely on.
proof fn lemma_listed_names()
    ensures
        forall|k: int| 0 <= k < ignored_root_directories().len() ==> {
            let n = #[trigger] ignored_root_directories()[k];
            &&& n.len() > 0
            &&& !n.contains('/')
            &&& !(n.len() == 1 && n[0] == '.')
            &&& !(n.len() == 2 && n[0] == '.' && n[1] == '.')
        },
        forall|k: int| 0 <= k < root_anchored_rules().len() ==> (#[trigger] root_anchored_rules()[k]).len() >= 2,
        forall|k: int| 0 <= k < tail_anchored_rules().len() ==> (#[trigger] tail_anchored_rules()[k]).len() >= 2,
{
    reveal_strlit("bin");
    reveal_strlit("dev");
    reveal_strlit("lib");
    reveal_strlit("lib64");
    reveal_strlit("lost+found");
    reveal_strlit("media");
    reveal_strlit("mnt");
    reveal_strlit("opt");
    reveal_strlit("proc");
    reveal_strlit("run");
    reveal_strlit("sbin");
    reveal_strlit("srv");
    reveal_strlit("sys");
    reveal_strlit("tmp");
    let l = ignored_root_directories();
    assert forall|k: int| 0 <= k < l.len() implies {
        let n = #[trigger] l[k];
        &&& n.len() > 0
        &&& !n.contains('/')
        &&& !(n.len() == 1 && n[0] == '.')
        &&& !(n.len() == 2 && n[0] == '.' && n[1] == '.')
    } by {
        let n = l[k];
        assert(n.len() >= 3);
        assert(forall|j: int| 0 <= j < n.len() ==> n[j] != '/');
    }
}

/// The top-level directories left out of a snapshot are exactly `/bin`, `/dev`, `/lib`,
/// `/lib64`, `/lost+found`, `/media`, `/mnt`, `/opt`, `/proc`, `/run`, `/sbin`, `/srv`,
/// `/sys` and `/tmp`, together with the top-level directories named like the names left
/// out anywhere (`target`, `.cache`, `.cargo`).
pub proof fn lemma_ignored_top_level(n: Seq<char>)
    ensures
        ignored(seq![ComponentView::RootDir, ComponentView::Normal(n)]) <==> (n == "bin"@ || n == "dev"@ || n
            == "lib"@ || n == "lib64"@ || n == "lost+found"@ || n == "media"@ || n == "mnt"@ || n == "opt"@ || n
            == "proc"@ || n == "run"@ || n == "sbin"@ || n == "srv"@ || n == "sys"@ || n == "tmp"@ || n
            == "target"@ || n == ".cache"@ || n == ".cargo"@),
{
    let cs = seq![ComponentView::RootDir, ComponentView::Normal(n)];
    lemma_listed_names();
    reveal_with_fuel(normal_names, 3);
    assert(cs.drop_last() =~= seq![ComponentView::RootDir]);
    assert(seq![ComponentView::RootDir].drop_last() =~= Seq::<ComponentView>::empty());
    assert(normal_names(cs) =~= seq![n]);
    let l = ignored_root_directories();
    let c = ignored_components();
    if l.contains(n) {
        let k = choose|k: int| 0 <= k < l.len() && l[k] == n;
        assert(k == 0 || k == 1 || k == 2 || k == 3 || k == 4 || k == 5 || k == 6 || k == 7 || k == 8 || k == 9
            || k == 10 || k == 11 || k == 12 || k == 13);
    }
    if c.contains(n) {
        let k = choose|k: int| 0 <= k < c.len() && c[k] == n;
        assert(k == 0 || k == 1 || k == 2);
    }
    if n == "bin"@ { assert(l[0] == n); }
    if n == "dev"@ { assert(l[1] == n); }
    if n == "lib"@ { assert(l[2] == n); }
    if n == "lib64"@ { assert(l[3] == n); }
    if n == "lost+found"@ { assert(l[4] == n); }
    if n == "media"@ { assert(l[5] == n); }
    if n == "mnt"@ { assert(l[6] == n); }
    if n == "opt"@ { assert(l[7] == n); }
    if n == "proc"@ { assert(l[8] == n); }
    if n == "run"@ { assert(l[9] == n); }
    if n == "sbin"@ { assert(l[10] == n); }
    if n == "srv"@ { assert(l[11] == n); }
    if n == "sys"@ { assert(l[12] == n); }
    if n == "tmp"@ { assert(l[13] == n); }
    if n == "target"@ { assert(c[0] == n); }
    if n == ".cache"@ { assert(c[1] == n); }
    if n == ".cargo"@ { assert(c[2] == n); }
    assert forall|k: int| 0 <= k < root_anchored_rules().len() implies !(#[trigger] root_anchored_rules()[k]).is_prefix_of(
        normal_names(cs),
    ) by {}
    assert forall|k: int| 0 <= k < tail_anchored_rules().len() implies !(#[trigger] tail_anchored_rules()[k]).is_suffix_of(
        normal_names(cs),
    ) by {}
}

/// `should_ignore` on `/<name>` for each top-level directory left out of a snapshot.
pub proof fn lemma_root_paths_ignored()
    ensures
        ignored(path_components_of(seq!['/'] + "bin"@)),
        ignored(path_components_of(seq!['/'] + "dev"@)),
        ignored(path_components_of(seq!['/'] + "lib"@)),
        ignored(path_components_of(seq!['/'] + "lib64"@)),
        ignored(path_components_of(seq!['/'] + "lost+found"@)),
        ignored(path_components_of(seq!['/'] + "media"@)),
        ignored(path_components_of(seq!['/'] + "mnt"@)),
        ignored(path_components_of(seq!['/'] + "opt"@)),
        ignored(path_components_of(seq!['/'] + "proc"@)),
        ignored(path_components_of(seq!['/'] + "run"@)),
        ignored(path_components_of(seq!['/'] + "sbin"@)),
        ignored(path_components_of(seq!['/'] + "srv"@)),
        ignored(path_components_of(seq!['/'] + "sys"@)),
        ignored(path_components_of(seq!['/'] + "tmp"@)),
{
    lemma_listed_names();
    let l = ignored_root_directories();
    assert forall|k: int| 0 <= k < l.len() implies ignored(path_components_of(seq!['/'] + #[trigger] l[k])) by {
        lemma_root_entry_components(l[k]);
        lemma_ignored_top_level(l[k]);
    }
    assert(l[0] == "bin"@ && l[1] == "dev"@ && l[2] == "lib"@ && l[3] == "lib64"@ && l[4] == "lost+found"@);
    assert(l[5] == "media"@ && l[6] == "mnt"@ && l[7] == "opt"@ && l[8] == "proc"@ && l[9] == "run"@);
    assert(l[10] == "sbin"@ && l[11] == "srv"@ && l[12] == "sys"@ && l[13] == "tmp"@);
}

/// A path whose own name is `target`, `.cache` or `.cargo` is left out, wherever it is.
pub proof fn lemma_ignored_names_anywhere(cs: Seq<ComponentView>)
    requires
        cs.len() > 0,
    ensures
        cs.last() == ComponentView::Normal("target"@) ==> ignored(cs),
        cs.last() == ComponentView::Normal(".cache"@) ==> ignored(cs),
        cs.last() == ComponentView::Normal(".cargo"@) ==> ignored(cs),
{
    let c = ignored_components();
    assert(c[0] == "target"@ && c[1] == ".cache"@ && c[2] == ".cargo"@);
}

/// Paths whose names start with one of the root-anchored rules, or end with one of the
/// tail-anchored rules, are left out.
pub proof fn lemma_anchored_rules_ignored(cs: Seq<ComponentView>)
    ensures
        seq!["var"@, "snaps"@].is_prefix_of(normal_names(cs)) ==> ignored(cs),
        seq!["var"@, "lib"@, "pacman"@].is_prefix_of(normal_names(cs)) ==> ignored(cs),
        seq!["var"@, "tmp"@].is_prefix_of(normal_names(cs)) ==> ignored(cs),
        seq!["var"@, "cache"@].is_prefix_of(normal_names(cs)) ==> ignored(cs),
        seq!["var"@, "log"@].is_prefix_of(normal_names(cs)) ==> ignored(cs),
        seq!["var"@, "run"@].is_prefix_of(normal_names(cs)) ==> ignored(cs),
        seq!["var"@, "lock"@].is_prefix_of(normal_names(cs)) ==> ignored(cs),
        seq!["home"@, "theo"@, "projects"@].is_prefix_of(normal_names(cs)) ==> ignored(cs),
        seq!["home"@, "theo"@, ".MathWorks"@].is_prefix_of(normal_names(cs)) ==> ignored(cs),
        seq!["home"@, "theo"@, ".rustup"@].is_prefix_of(normal_names(cs)) ==> ignored(cs),
        seq![".local"@, "share"@, "nvim"@].is_suffix_of(normal_names(cs)) ==> ignored(cs),
        seq![".local"@, "state"@, "nvim"@].is_suffix_of(normal_names(cs)) ==> ignored(cs),
        seq![".config"@, "mozilla"@, "firefox"@].is_suffix_of(normal_names(cs)) ==> ignored(cs),
        seq![".config"@, "chromium"@].is_suffix_of(normal_names(cs)) ==> ignored(cs),
{
    let r = root_anchored_rules();
    let t = tail_anchored_rules();
    assert(r[0] == seq!["var"@, "snaps"@]);
    assert(r[1] == seq!["var"@, "lib"@, "pacman"@]);
    assert(r[2] == seq!["var"@, "tmp"@]);
    assert(r[3] == seq!["var"@, "cache"@]);
    assert(r[4] == seq!["var"@, "log"@]);
    assert(r[5] == seq!["var"@, "run"@]);
    assert(r[6] == seq!["var"@, "lock"@]);
    assert(r[7] == seq!["home"@, "theo"@, "projects"@]);
    assert(r[8] == seq!["home"@, "theo"@, ".MathWorks"@]);
    assert(r[9] == seq!["home"@, "theo"@, ".rustup"@]);
    assert(t[0] == seq![".local"@, "share"@, "nvim"@]);
    assert(t[1] == seq![".local"@, "state"@, "nvim"@]);
    assert(t[2] == seq![".config"@, "mozilla"@, "firefox"@]);
    assert(t[3] == seq![".config"@, "chromium"@]);
}

} // verus!
