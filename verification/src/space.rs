//! Space management: the canonical repo pool, spaces (folders under the root, which is
//! `~/Desktop` by default), and the symlink / git-worktree operations that compose them.
//!
//! Model:
//! - `<root>/<pool>/<repo>`: canonical checkouts, the source of truth. We never
//!   clone here; the user populates it.
//! - `<root>/<space>/`: a *space*, marked by a `.space.toml` file. Its members
//!   are symlinks into the pool (default) or git worktrees (once a branch is made).
//!   Membership is derived from the filesystem, so config never drifts from reality.
//!
//! Nothing here touches the disk: the functions take what was found there as plain
//! values, and hand out what to do there.

use crate::json::{quote, quoted};
use crate::names::CODEX_POLICY;
use crate::order::{sort, sorted_stably, Ranked};
use crate::path::{
    ancestors, ancestors_of, base_name, base_name_of, file_name, file_name_of, join, joined_path,
    parent, parent_of, renamed_path, with_name,
};
use crate::policy::{policy_markdown, policy_of};
use crate::text::{
    begins, begins_char, cat, cat3, cat4, cat5, clip, clipped, comes_before, decimal, decimal_of,
    ends, has_char, has_prefix, has_suffix, is_white, join as join_text, joined, keep_nonempty,
    lines, lines_of, nonempty, pieces, same, split, strings, strip_prefix, text_before, trim,
    trimmed, white,
};
use vstd::prelude::*;

verus! {

// ---- layout -----------------------------------------------------------------------------

/// The file that marks a folder as a space.
pub const MARKER: &'static str = ".space.toml";

/// The root folder of pool and spaces, relative to the home directory, where a build names no
/// other.
pub const ROOT_DIR: &'static str = "Desktop";

/// The pool folder directly under the root, where a build names no other.
pub const POOL_DIR: &'static str = "repos";

/// Where pool and spaces are. `root` is relative to the home directory and may contain
/// slashes; `pool` is the folder directly under it.
#[derive(Clone, Debug)]
pub struct Layout {
    pub root: String,
    pub pool: String,
}

/// A layout over text.
#[verifier::ext_equal]
pub struct LayoutView {
    pub root: Seq<char>,
    pub pool: Seq<char>,
}

impl DeepView for Layout {
    type V = LayoutView;

    open spec fn deep_view(&self) -> LayoutView {
        LayoutView { root: self.root@, pool: self.pool@ }
    }
}

impl Layout {
    /// The layout that a build asks for, with the defaults for what it leaves out.
    pub fn of_build(root: Option<&str>, pool: Option<&str>) -> (r: Layout)
        ensures
            r.deep_view() == (LayoutView {
                root: match root {
                    Some(dir) => dir@,
                    None => ROOT_DIR@,
                },
                pool: match pool {
                    Some(dir) => dir@,
                    None => POOL_DIR@,
                },
            }),
    {
        Layout {
            root: match root {
                Some(dir) => dir.to_owned(),
                None => ROOT_DIR.to_owned(),
            },
            pool: match pool {
                Some(dir) => dir.to_owned(),
                None => POOL_DIR.to_owned(),
            },
        }
    }
}

/// `~/<root>` for user-facing messages.
pub open spec fn root_shown(layout: LayoutView) -> Seq<char> {
    "~/"@ + layout.root
}

/// `~/<root>/<pool>` for user-facing messages.
pub open spec fn pool_shown(layout: LayoutView) -> Seq<char> {
    root_shown(layout) + "/"@ + layout.pool
}

/// `~/<root>` for user-facing messages.
pub fn root_display(layout: &Layout) -> (r: String)
    ensures
        r@ == root_shown(layout.deep_view()),
{
    cat("~/", layout.root.as_str())
}

/// `~/<root>/<pool>` for user-facing messages.
pub fn pool_display(layout: &Layout) -> (r: String)
    ensures
        r@ == pool_shown(layout.deep_view()),
{
    cat3(root_display(layout).as_str(), "/", layout.pool.as_str())
}

/// The root folder, where there is a home directory.
pub fn desktop_dir(layout: &Layout, home: Option<&str>) -> (r: Option<String>)
    ensures
        r.deep_view() == match home {
            Some(h) => Some(joined_path(h@, layout.root@)),
            None => None,
        },
{
    match home {
        Some(h) => Some(join(h, layout.root.as_str())),
        None => None,
    }
}

/// The pool, where there is a home directory.
pub fn pool_dir(layout: &Layout, home: Option<&str>) -> (r: Option<String>)
    ensures
        r.deep_view() == match home {
            Some(h) => Some(joined_path(joined_path(h@, layout.root@), layout.pool@)),
            None => None,
        },
{
    match desktop_dir(layout, home) {
        Some(d) => Some(join(d.as_str(), layout.pool.as_str())),
        None => None,
    }
}

/// The pool beside a space.
pub open spec fn pool_beside(space: Seq<char>, layout: LayoutView) -> Option<Seq<char>> {
    match parent_of(space) {
        Some(p) => Some(joined_path(p, layout.pool)),
        None => None,
    }
}

/// The pool is always a sibling of spaces (`<desktop>/repos`), so derive it from
/// the space's own location rather than a global — keeps ops relocatable + testable.
pub fn pool_for(space: &str, layout: &Layout) -> (r: Option<String>)
    ensures
        r.deep_view() == pool_beside(space@, layout.deep_view()),
{
    match parent(space) {
        Some(p) => Some(join(p.as_str(), layout.pool.as_str())),
        None => None,
    }
}

// ---- the pool ---------------------------------------------------------------------------

/// A canonical repo available in the pool.
#[derive(Clone, Debug)]
pub struct PoolRepo {
    pub name: String,
    pub path: String,
}

/// A pool repo as text.
#[verifier::ext_equal]
pub struct PoolRepoView {
    pub name: Seq<char>,
    pub path: Seq<char>,
}

impl DeepView for PoolRepo {
    type V = PoolRepoView;

    open spec fn deep_view(&self) -> PoolRepoView {
        PoolRepoView { name: self.name@, path: self.path@ }
    }
}

/// Pool repos by name.
pub open spec fn pool_order() -> spec_fn(PoolRepoView, PoolRepoView) -> bool {
    |a: PoolRepoView, b: PoolRepoView| text_before(a.name, b.name)
}

impl Ranked for PoolRepo {
    open spec fn order() -> spec_fn(PoolRepoView, PoolRepoView) -> bool {
        pool_order()
    }

    fn is_before(&self, other: &PoolRepo) -> (r: bool) {
        comes_before(self.name.as_str(), other.name.as_str())
    }
}

/// What stands in a folder of the pool.
pub struct PoolFact {
    pub name: String,
    /// Whether it is, or leads to, a directory.
    pub is_dir: bool,
    /// Whether there is a `.git` in it.
    pub has_git: bool,
}

/// A pool fact over text.
#[verifier::ext_equal]
pub struct PoolFactView {
    pub name: Seq<char>,
    pub is_dir: bool,
    pub has_git: bool,
}

impl DeepView for PoolFact {
    type V = PoolFactView;

    open spec fn deep_view(&self) -> PoolFactView {
        PoolFactView { name: self.name@, is_dir: self.is_dir, has_git: self.has_git }
    }
}

/// What stands in the pool itself, with what stands in each folder of it.
pub struct PoolEntry {
    pub fact: PoolFact,
    pub inside: Vec<PoolFact>,
}

/// A pool entry over text.
#[verifier::ext_equal]
pub struct PoolEntryView {
    pub fact: PoolFactView,
    pub inside: Seq<PoolFactView>,
}

impl DeepView for PoolEntry {
    type V = PoolEntryView;

    open spec fn deep_view(&self) -> PoolEntryView {
        PoolEntryView { fact: self.fact.deep_view(), inside: self.inside.deep_view() }
    }
}

/// Whether the name is that of a hidden file.
pub open spec fn is_hidden(name: Seq<char>) -> bool {
    name.len() > 0 && name[0] == '.'
}

/// Whether the entry is a directory that is looked at.
pub open spec fn is_open_dir(f: PoolFactView) -> bool {
    f.is_dir && !is_hidden(f.name)
}

/// The repos directly in the group `group` of the pool.
pub open spec fn group_repos(
    pool: Seq<char>,
    group: Seq<char>,
    inside: Seq<PoolFactView>,
) -> Seq<PoolRepoView>
    decreases inside.len(),
{
    if inside.len() == 0 {
        Seq::empty()
    } else {
        let before = group_repos(pool, group, inside.drop_last());
        let f = inside.last();
        if is_open_dir(f) && f.has_git {
            before.push(
                PoolRepoView {
                    name: group + "/"@ + f.name,
                    path: joined_path(joined_path(pool, group), f.name),
                },
            )
        } else {
            before
        }
    }
}

/// The repos in the pool: those directly in it, and those one level deep in a folder that
/// is no repo itself.
pub open spec fn pool_repos(pool: Seq<char>, entries: Seq<PoolEntryView>) -> Seq<PoolRepoView>
    decreases entries.len(),
{
    if entries.len() == 0 {
        Seq::empty()
    } else {
        let before = pool_repos(pool, entries.drop_last());
        let e = entries.last();
        if !is_open_dir(e.fact) {
            before
        } else if e.fact.has_git {
            before.push(PoolRepoView { name: e.fact.name, path: joined_path(pool, e.fact.name) })
        } else {
            before + group_repos(pool, e.fact.name, e.inside)
        }
    }
}

fn collect_group(pool: &str, group: &str, inside: &Vec<PoolFact>, out: &mut Vec<PoolRepo>)
    ensures
        final(out).deep_view() == old(out).deep_view() + group_repos(
            pool@,
            group@,
            inside.deep_view(),
        ),
{
    let ghost start = out.deep_view();
    let ghost view = inside.deep_view();
    let dir = join(pool, group);
    assert(view.take(0) == Seq::<PoolFactView>::empty());
    assert(start + group_repos(pool@, group@, view.take(0)) == start);
    for i in 0..inside.len()
        invariant
            view == inside.deep_view(),
            dir@ == joined_path(pool@, group@),
            out.deep_view() == start + group_repos(pool@, group@, view.take(i as int)),
    {
        let ghost before = out.deep_view();
        let ghost had = group_repos(pool@, group@, view.take(i as int));
        assert(view.take(i + 1).drop_last() == view.take(i as int));
        assert(view.take(i + 1).last() == inside@[i as int].deep_view());
        let f = &inside[i];
        if f.is_dir && !begins_char(f.name.as_str(), '.') && f.has_git {
            let repo = PoolRepo {
                name: cat3(group, "/", f.name.as_str()),
                path: join(dir.as_str(), f.name.as_str()),
            };
            out.push(repo);
            assert(out.deep_view() == before.push(repo.deep_view()));
            assert(start + had.push(repo.deep_view()) == (start + had).push(repo.deep_view()));
        }
    }
    assert(view.take(inside@.len() as int) == view);
}

/// The repos in the pool, in the order of its entries.
pub fn collect_pool(pool: &str, entries: &Vec<PoolEntry>) -> (r: Vec<PoolRepo>)
    ensures
        r.deep_view() == pool_repos(pool@, entries.deep_view()),
{
    let ghost view = entries.deep_view();
    let mut out: Vec<PoolRepo> = Vec::new();
    assert(view.take(0) == Seq::<PoolEntryView>::empty());
    assert(out.deep_view() == Seq::<PoolRepoView>::empty());
    for i in 0..entries.len()
        invariant
            view == entries.deep_view(),
            out.deep_view() == pool_repos(pool@, view.take(i as int)),
    {
        let ghost before = out.deep_view();
        assert(view.take(i + 1).drop_last() == view.take(i as int));
        assert(view.take(i + 1).last() == entries@[i as int].deep_view());
        let e = &entries[i];
        let name = e.fact.name.as_str();
        if e.fact.is_dir && !begins_char(name, '.') {
            if e.fact.has_git {
                let repo = PoolRepo { name: e.fact.name.clone(), path: join(pool, name) };
                out.push(repo);
                assert(out.deep_view() == before.push(repo.deep_view()));
            } else {
                collect_group(pool, name, &e.inside, &mut out);
            }
        }
    }
    assert(view.take(entries@.len() as int) == view);
    out
}

/// Repos available to add. The pool may be flat (`repos/<repo>`) or grouped one
/// level deep (`repos/us/<repo>`, `repos/defi/<repo>`); a group is any pool
/// subdirectory that isn't itself a git repo. `name` is the pool-relative path
/// (`acme/api`), which is what add/picker use.
pub fn list_pool(pool: Option<&str>, entries: &Vec<PoolEntry>) -> (r: Vec<PoolRepo>)
    ensures
        r.deep_view() == match pool {
            Some(dir) => sorted_stably(pool_repos(dir@, entries.deep_view()), pool_order()),
            None => Seq::empty(),
        },
{
    match pool {
        Some(dir) => {
            let mut out = collect_pool(dir, entries);
            sort(&mut out);
            out
        },
        None => {
            let out: Vec<PoolRepo> = Vec::new();
            assert(out.deep_view() == Seq::<PoolRepoView>::empty());
            out
        },
    }
}

// ---- what is found on disk ----------------------------------------------------------------

/// What a path leads to.
#[derive(Clone, Copy, Debug, PartialEq, Eq, Structural)]
pub enum Kind {
    /// Nothing is there, or it cannot be looked at.
    Missing,
    File,
    Dir,
    /// A symlink, where links are not followed.
    Link,
    Other,
}

/// Paths that were looked at, links followed, with what is there.
pub struct Found {
    pub paths: Vec<(String, Kind)>,
}

/// What was found at `path`, the first note from `i` on about it; a path that was not
/// looked at counts as missing.
pub open spec fn kind_from(paths: Seq<(Seq<char>, Kind)>, path: Seq<char>, i: int) -> Kind
    decreases paths.len() - i,
{
    if i < 0 || i >= paths.len() {
        Kind::Missing
    } else if paths[i].0 == path {
        paths[i].1
    } else {
        kind_from(paths, path, i + 1)
    }
}

impl DeepView for Kind {
    type V = Kind;

    open spec fn deep_view(&self) -> Kind {
        *self
    }
}

impl DeepView for Found {
    type V = Seq<(Seq<char>, Kind)>;

    open spec fn deep_view(&self) -> Seq<(Seq<char>, Kind)> {
        self.paths.deep_view()
    }
}

impl Found {
    /// What was found at `path`.
    pub fn kind_at(&self, path: &str) -> (r: Kind)
        ensures
            r == kind_from(self.deep_view(), path@, 0),
    {
        let ghost view = self.deep_view();
        let mut i: usize = 0;
        while i < self.paths.len()
            invariant
                i <= self.paths@.len(),
                view == self.deep_view(),
                kind_from(view, path@, 0) == kind_from(view, path@, i as int),
            decreases self.paths@.len() - i,
        {
            assert(view[i as int] == (self.paths@[i as int].0@, self.paths@[i as int].1));
            if same(self.paths[i].0.as_str(), path) {
                return self.paths[i].1;
            }
            i = i + 1;
        }
        Kind::Missing
    }
}

/// Where the marker of a folder would be.
pub fn marker_path(dir: &str) -> (r: String)
    ensures
        r@ == joined_path(dir@, MARKER@),
{
    join(dir, MARKER)
}

/// Whether the marker in `dir` was found to be a file.
pub open spec fn is_marked(found: Seq<(Seq<char>, Kind)>, dir: Seq<char>) -> bool {
    kind_from(found, joined_path(dir, MARKER@), 0) == Kind::File
}

/// Whether the folder is a space, by what was found at its marker.
pub fn is_space(dir: &str, found: &Found) -> (r: bool)
    ensures
        r == is_marked(found.deep_view(), dir@),
{
    found.kind_at(marker_path(dir).as_str()) == Kind::File
}

/// The first of `dirs` that is a space.
pub open spec fn first_marked(found: Seq<(Seq<char>, Kind)>, dirs: Seq<Seq<char>>) -> Option<
    Seq<char>,
>
    decreases dirs.len(),
{
    if dirs.len() == 0 {
        None
    } else if is_marked(found, dirs[0]) {
        Some(dirs[0])
    } else {
        first_marked(found, dirs.drop_first())
    }
}

/// Where the markers of a folder and of all folders above it would be.
pub fn marker_paths(start: &str) -> (r: Vec<String>)
    ensures
        r.deep_view() == ancestors_of(start@).map_values(
            |dir: Seq<char>| joined_path(dir, MARKER@),
        ),
{
    let dirs = ancestors(start);
    let ghost view = dirs.deep_view();
    let ghost want = view.map_values(|dir: Seq<char>| joined_path(dir, MARKER@));
    let mut out: Vec<String> = Vec::new();
    for i in 0..dirs.len()
        invariant
            view == dirs.deep_view(),
            want == view.map_values(|dir: Seq<char>| joined_path(dir, MARKER@)),
            out.deep_view() == want.take(i as int),
    {
        let ghost before = out.deep_view();
        let m = marker_path(dirs[i].as_str());
        out.push(m);
        assert(out.deep_view() == before.push(m@));
        assert(want.take(i + 1) == want.take(i as int).push(want[i as int]));
    }
    assert(want.take(dirs@.len() as int) == want);
    out
}

/// Walk up from `start` to the nearest enclosing space, if any.
pub fn enclosing_space(start: &str, found: &Found) -> (r: Option<String>)
    ensures
        r.deep_view() == first_marked(found.deep_view(), ancestors_of(start@)),
{
    let dirs = ancestors(start);
    let ghost view = dirs.deep_view();
    let mut i: usize = 0;
    assert(view.skip(0) == view);
    while i < dirs.len()
        invariant
            i <= dirs@.len(),
            view == dirs.deep_view(),
            view == ancestors_of(start@),
            first_marked(found.deep_view(), view) == first_marked(
                found.deep_view(),
                view.skip(i as int),
            ),
        decreases dirs@.len() - i,
    {
        assert(view.skip(i as int)[0] == dirs@[i as int]@);
        assert(view.skip(i as int).drop_first() == view.skip(i + 1));
        if is_space(dirs[i].as_str(), found) {
            return Some(dirs[i].clone());
        }
        i = i + 1;
    }
    None
}

// ---- members ------------------------------------------------------------------------------

#[derive(Clone, Debug, PartialEq, Eq)]
pub enum RepoState {
    /// Symlink into the pool.
    Symlink,
    /// A git worktree checked out on `branch`.
    Worktree { branch: String },
    /// Something we didn't create (a real dir / stray file) — shown, never touched.
    Foreign,
}

/// A repo state over text.
#[verifier::ext_equal]
pub enum RepoStateView {
    Symlink,
    Worktree { branch: Seq<char> },
    Foreign,
}

impl DeepView for RepoState {
    type V = RepoStateView;

    open spec fn deep_view(&self) -> RepoStateView {
        match self {
            RepoState::Symlink => RepoStateView::Symlink,
            RepoState::Worktree { branch } => RepoStateView::Worktree { branch: branch@ },
            RepoState::Foreign => RepoStateView::Foreign,
        }
    }
}

#[derive(Clone, Debug)]
pub struct SpaceRepo {
    pub name: String,
    pub state: RepoState,
}

/// A member over text.
#[verifier::ext_equal]
pub struct SpaceRepoView {
    pub name: Seq<char>,
    pub state: RepoStateView,
}

impl DeepView for SpaceRepo {
    type V = SpaceRepoView;

    open spec fn deep_view(&self) -> SpaceRepoView {
        SpaceRepoView { name: self.name@, state: self.state.deep_view() }
    }
}

/// Members by name.
pub open spec fn member_order() -> spec_fn(SpaceRepoView, SpaceRepoView) -> bool {
    |a: SpaceRepoView, b: SpaceRepoView| text_before(a.name, b.name)
}

impl Ranked for SpaceRepo {
    open spec fn order() -> spec_fn(SpaceRepoView, SpaceRepoView) -> bool {
        member_order()
    }

    fn is_before(&self, other: &SpaceRepo) -> (r: bool) {
        comes_before(self.name.as_str(), other.name.as_str())
    }
}

#[derive(Clone, Debug)]
pub struct Space {
    pub name: String,
    pub path: String,
    pub repos: Vec<SpaceRepo>,
}

/// A space over text.
#[verifier::ext_equal]
pub struct SpaceView {
    pub name: Seq<char>,
    pub path: Seq<char>,
    pub repos: Seq<SpaceRepoView>,
}

impl DeepView for Space {
    type V = SpaceView;

    open spec fn deep_view(&self) -> SpaceView {
        SpaceView { name: self.name@, path: self.path@, repos: self.repos.deep_view() }
    }
}

/// Spaces by name.
pub open spec fn space_order() -> spec_fn(SpaceView, SpaceView) -> bool {
    |a: SpaceView, b: SpaceView| text_before(a.name, b.name)
}

impl Ranked for Space {
    open spec fn order() -> spec_fn(SpaceView, SpaceView) -> bool {
        space_order()
    }

    fn is_before(&self, other: &Space) -> (r: bool) {
        comes_before(self.name.as_str(), other.name.as_str())
    }
}

/// What stands in a space.
pub struct MemberFact {
    pub name: String,
    /// What it is, links not followed.
    pub kind: Kind,
    /// Whether it is, or leads to, a file.
    pub is_file: bool,
    /// What its `.git` holds, where that is a file that can be read.
    pub git_file: Option<String>,
    /// What `HEAD` in the directory that `.git` names holds, where that can be read.
    pub head: Option<String>,
}

/// A member fact over text.
#[verifier::ext_equal]
pub struct MemberFactView {
    pub name: Seq<char>,
    pub kind: Kind,
    pub is_file: bool,
    pub git_file: Option<Seq<char>>,
    pub head: Option<Seq<char>>,
}

impl DeepView for MemberFact {
    type V = MemberFactView;

    open spec fn deep_view(&self) -> MemberFactView {
        MemberFactView {
            name: self.name@,
            kind: self.kind,
            is_file: self.is_file,
            git_file: self.git_file.deep_view(),
            head: self.head.deep_view(),
        }
    }
}

/// The git directory that a `.git` file names.
pub open spec fn gitdir_in(git_file: Seq<char>) -> Option<Seq<char>> {
    if has_prefix(git_file, "gitdir:"@) {
        Some(trimmed(git_file.skip("gitdir:"@.len() as int)))
    } else {
        None
    }
}

/// Where the `HEAD` of a linked worktree is, by what its `.git` file holds.
pub fn head_path(git_file: &str) -> (r: Option<String>)
    ensures
        r.deep_view() == match gitdir_in(git_file@) {
            Some(dir) => Some(joined_path(dir, "HEAD"@)),
            None => None,
        },
{
    match strip_prefix(git_file, "gitdir:") {
        Some(rest) => {
            let dir = trim(rest.as_str());
            Some(join(dir.as_str(), "HEAD"))
        },
        None => None,
    }
}

/// The branch that a `HEAD` names, or the first characters of the commit where it is
/// detached.
pub open spec fn branch_in(head: Seq<char>) -> Seq<char> {
    let h = trimmed(head);
    if has_prefix(h, "ref: refs/heads/"@) {
        h.skip("ref: refs/heads/"@.len() as int)
    } else {
        clipped(h, 7)
    }
}

/// The branch of a linked worktree, by what its `.git` file and the `HEAD` that it leads to
/// hold.
pub open spec fn linked_branch(git_file: Option<Seq<char>>, head: Option<Seq<char>>) -> Option<
    Seq<char>,
> {
    match (git_file, head) {
        (Some(g), Some(h)) => if gitdir_in(g) is Some {
            Some(branch_in(h))
        } else {
            None
        },
        _ => None,
    }
}

/// Branch of a *linked* git worktree, detected without spawning git: a linked
/// worktree has a `.git` file (`gitdir: <path>`) rather than a directory, and
/// that gitdir's HEAD names the branch. Returns None for full clones and
/// non-repos, so stray clones inside a space stay classified as unmanaged.
pub fn linked_worktree_branch(git_file: &Option<String>, head: &Option<String>) -> (r: Option<
    String,
>)
    ensures
        r.deep_view() == linked_branch(git_file.deep_view(), head.deep_view()),
{
    match (git_file, head) {
        (Some(g), Some(h)) => match strip_prefix(g.as_str(), "gitdir:") {
            Some(_) => {
                let h = trim(h.as_str());
                match strip_prefix(h.as_str(), "ref: refs/heads/") {
                    Some(branch) => Some(branch),
                    // Detached HEAD: show the short commit id.
                    None => Some(clip(h.as_str(), 7)),
                }
            },
            None => None,
        },
        _ => None,
    }
}

/// Whether the name is the marker's, a generated file's or another hidden file's.
pub open spec fn is_skipped(name: Seq<char>, policy_file: Seq<char>) -> bool {
    ||| is_hidden(name)
    ||| name == policy_file
    ||| name == CODEX_POLICY@
    ||| has_suffix(name, ".code-workspace"@)
}

/// The member that an entry of a space is, where it is one: not a skipped name, not a
/// plain file, and there at all.
pub open spec fn member_in(f: MemberFactView, policy_file: Seq<char>) -> Option<SpaceRepoView> {
    if is_skipped(f.name, policy_file) || f.kind == Kind::Missing || f.kind == Kind::File {
        None
    } else {
        let branch = linked_branch(f.git_file, f.head);
        let state = if f.kind == Kind::Link {
            RepoStateView::Symlink
        } else if f.kind == Kind::Dir && branch is Some {
            RepoStateView::Worktree { branch: branch->0 }
        } else {
            RepoStateView::Foreign
        };
        Some(SpaceRepoView { name: f.name, state })
    }
}

/// The members among the entries of a space, in their order.
pub open spec fn members_in(facts: Seq<MemberFactView>, policy_file: Seq<char>) -> Seq<
    SpaceRepoView,
>
    decreases facts.len(),
{
    if facts.len() == 0 {
        Seq::empty()
    } else {
        match member_in(facts.last(), policy_file) {
            Some(m) => members_in(facts.drop_last(), policy_file).push(m),
            None => members_in(facts.drop_last(), policy_file),
        }
    }
}

/// The space at `path` with the given entries, its members by name.
pub open spec fn space_in(
    path: Seq<char>,
    facts: Seq<MemberFactView>,
    policy_file: Seq<char>,
) -> SpaceView {
    SpaceView {
        name: base_name_of(path),
        path,
        repos: sorted_stably(members_in(facts, policy_file), member_order()),
    }
}

fn read_member(f: &MemberFact, policy_file: &str) -> (r: Option<SpaceRepo>)
    ensures
        r.deep_view() == member_in(f.deep_view(), policy_file@),
{
    let name = f.name.as_str();
    // Skip the marker, generated policy/workspace files, and dotfiles.
    if begins_char(name, '.') || same(name, policy_file) || same(name, CODEX_POLICY) || ends(
        name,
        ".code-workspace",
    ) {
        return None;
    }
    // Plain files at the space root are sanctioned cross-repo scratch
    // (notes, drafts); they are not members and never touched.
    if f.kind == Kind::Missing || f.kind == Kind::File {
        return None;
    }
    let state = if f.kind == Kind::Link {
        RepoState::Symlink
    } else if f.kind == Kind::Dir {
        match linked_worktree_branch(&f.git_file, &f.head) {
            Some(branch) => RepoState::Worktree { branch },
            None => RepoState::Foreign,
        }
    } else {
        // Plain dirs and full clones (`.git` directory) alike: not created by this tool.
        RepoState::Foreign
    };
    Some(SpaceRepo { name: f.name.clone(), state })
}

/// The space at `path`, by what stands in it. `policy_file` is what the policy file of the
/// first agent is called, here and below.
pub fn read_space(path: &str, facts: &Vec<MemberFact>, policy_file: &str) -> (r: Space)
    ensures
        r.deep_view() == space_in(path@, facts.deep_view(), policy_file@),
{
    let ghost view = facts.deep_view();
    let mut repos: Vec<SpaceRepo> = Vec::new();
    assert(view.take(0) == Seq::<MemberFactView>::empty());
    assert(repos.deep_view() == Seq::<SpaceRepoView>::empty());
    for i in 0..facts.len()
        invariant
            view == facts.deep_view(),
            repos.deep_view() == members_in(view.take(i as int), policy_file@),
    {
        let ghost before = repos.deep_view();
        assert(view.take(i + 1).drop_last() == view.take(i as int));
        assert(view.take(i + 1).last() == facts@[i as int].deep_view());
        match read_member(&facts[i], policy_file) {
            Some(m) => {
                repos.push(m);
                assert(repos.deep_view() == before.push(m.deep_view()));
            },
            None => {},
        }
    }
    assert(view.take(facts@.len() as int) == view);
    sort(&mut repos);
    Space { name: base_name(path), path: path.to_owned(), repos }
}

/// Read a space's members.
pub fn members(path: &str, facts: &Vec<MemberFact>, policy_file: &str) -> (r: Vec<SpaceRepo>)
    ensures
        r.deep_view() == sorted_stably(members_in(facts.deep_view(), policy_file@), member_order()),
{
    read_space(path, facts, policy_file).repos
}

/// What stands under the root.
pub struct RootEntry {
    pub name: String,
    /// Whether it is, or leads to, a directory.
    pub is_dir: bool,
    /// Whether its marker is a file.
    pub marked: bool,
    pub inside: Vec<MemberFact>,
}

/// A root entry over text.
#[verifier::ext_equal]
pub struct RootEntryView {
    pub name: Seq<char>,
    pub is_dir: bool,
    pub marked: bool,
    pub inside: Seq<MemberFactView>,
}

impl DeepView for RootEntry {
    type V = RootEntryView;

    open spec fn deep_view(&self) -> RootEntryView {
        RootEntryView {
            name: self.name@,
            is_dir: self.is_dir,
            marked: self.marked,
            inside: self.inside.deep_view(),
        }
    }
}

/// The spaces among the entries of the root: marked folders other than the pool.
pub open spec fn spaces_in(
    root: Seq<char>,
    entries: Seq<RootEntryView>,
    policy_file: Seq<char>,
    layout: LayoutView,
) -> Seq<SpaceView>
    decreases entries.len(),
{
    if entries.len() == 0 {
        Seq::empty()
    } else {
        let before = spaces_in(root, entries.drop_last(), policy_file, layout);
        let e = entries.last();
        if e.is_dir && e.name != layout.pool && e.marked {
            before.push(space_in(joined_path(root, e.name), e.inside, policy_file))
        } else {
            before
        }
    }
}

/// All spaces: folders directly under the root carrying the marker file
/// (the `repos` pool is excluded even if it somehow has one).
pub fn list_spaces(
    root: Option<&str>,
    entries: &Vec<RootEntry>,
    policy_file: &str,
    layout: &Layout,
) -> (r: Vec<Space>)
    ensures
        r.deep_view() == match root {
            Some(dir) => sorted_stably(
                spaces_in(dir@, entries.deep_view(), policy_file@, layout.deep_view()),
                space_order(),
            ),
            None => Seq::empty(),
        },
{
    let ghost view = entries.deep_view();
    let mut out: Vec<Space> = Vec::new();
    assert(view.take(0) == Seq::<RootEntryView>::empty());
    assert(out.deep_view() == Seq::<SpaceView>::empty());
    let dir = match root {
        Some(dir) => dir,
        None => {
            return out;
        },
    };
    for i in 0..entries.len()
        invariant
            view == entries.deep_view(),
            out.deep_view() == spaces_in(
                dir@,
                view.take(i as int),
                policy_file@,
                layout.deep_view(),
            ),
    {
        let ghost before = out.deep_view();
        assert(view.take(i + 1).drop_last() == view.take(i as int));
        assert(view.take(i + 1).last() == entries@[i as int].deep_view());
        let e = &entries[i];
        if e.is_dir && !same(e.name.as_str(), layout.pool.as_str()) && e.marked {
            let path = join(dir, e.name.as_str());
            let space = read_space(path.as_str(), &e.inside, policy_file);
            out.push(space);
            assert(out.deep_view() == before.push(space.deep_view()));
        }
    }
    assert(view.take(entries@.len() as int) == view);
    sort(&mut out);
    out
}

// ---- refusals -------------------------------------------------------------------------------

/// Why an operation on spaces is refused or fails.
#[derive(Clone, Debug)]
pub enum SpaceError {
    EmptyName,
    ReservedName { pool: String },
    InvalidName,
    NoRoot { root: String },
    Exists { root: String, name: String },
    NoPool,
    UnknownRepo { name: String, available: Vec<String> },
    AmbiguousRepo { name: String, hits: Vec<String> },
    NotInPool { repo: String, pool: String },
    InvalidRepo { repo: String },
    AlreadyMember { name: String },
    NotMember { repo: String },
    Unmanaged { repo: String },
    Dirty { repo: String, changes: usize },
    /// A note in a worktree differs from that of the same name in the canonical repo.
    NoteDiffers { repo: String, file: String },
    /// A file in a worktree has a name that is no text.
    UnreadableName { repo: String },
    EmptyBranch,
    NoCanonical { repo: String },
    NameTaken { name: String },
    NotWorktree { member: String },
    NotSpace,
    Foreign { name: String },
    UserFiles { names: Vec<String> },
    NotEmpty,
    NoOriginDefault,
    DirtyPull { behind: String },
    Diverged { behind: String, default: String },
    NoCommonDir,
    /// A step on disk or a run of git that failed, in its own words.
    Failed { report: String },
}

/// A refusal over text.
#[verifier::ext_equal]
pub enum SpaceErrorView {
    EmptyName,
    ReservedName { pool: Seq<char> },
    InvalidName,
    NoRoot { root: Seq<char> },
    Exists { root: Seq<char>, name: Seq<char> },
    NoPool,
    UnknownRepo { name: Seq<char>, available: Seq<Seq<char>> },
    AmbiguousRepo { name: Seq<char>, hits: Seq<Seq<char>> },
    NotInPool { repo: Seq<char>, pool: Seq<char> },
    InvalidRepo { repo: Seq<char> },
    AlreadyMember { name: Seq<char> },
    NotMember { repo: Seq<char> },
    Unmanaged { repo: Seq<char> },
    Dirty { repo: Seq<char>, changes: nat },
    NoteDiffers { repo: Seq<char>, file: Seq<char> },
    UnreadableName { repo: Seq<char> },
    EmptyBranch,
    NoCanonical { repo: Seq<char> },
    NameTaken { name: Seq<char> },
    NotWorktree { member: Seq<char> },
    NotSpace,
    Foreign { name: Seq<char> },
    UserFiles { names: Seq<Seq<char>> },
    NotEmpty,
    NoOriginDefault,
    DirtyPull { behind: Seq<char> },
    Diverged { behind: Seq<char>, default: Seq<char> },
    NoCommonDir,
    Failed { report: Seq<char> },
}

impl DeepView for SpaceError {
    type V = SpaceErrorView;

    open spec fn deep_view(&self) -> SpaceErrorView {
        match self {
            SpaceError::EmptyName => SpaceErrorView::EmptyName,
            SpaceError::ReservedName { pool } => SpaceErrorView::ReservedName { pool: pool@ },
            SpaceError::InvalidName => SpaceErrorView::InvalidName,
            SpaceError::NoRoot { root } => SpaceErrorView::NoRoot { root: root@ },
            SpaceError::Exists { root, name } => SpaceErrorView::Exists {
                root: root@,
                name: name@,
            },
            SpaceError::NoPool => SpaceErrorView::NoPool,
            SpaceError::UnknownRepo { name, available } => SpaceErrorView::UnknownRepo {
                name: name@,
                available: available.deep_view(),
            },
            SpaceError::AmbiguousRepo { name, hits } => SpaceErrorView::AmbiguousRepo {
                name: name@,
                hits: hits.deep_view(),
            },
            SpaceError::NotInPool { repo, pool } => SpaceErrorView::NotInPool {
                repo: repo@,
                pool: pool@,
            },
            SpaceError::InvalidRepo { repo } => SpaceErrorView::InvalidRepo { repo: repo@ },
            SpaceError::AlreadyMember { name } => SpaceErrorView::AlreadyMember { name: name@ },
            SpaceError::NotMember { repo } => SpaceErrorView::NotMember { repo: repo@ },
            SpaceError::Unmanaged { repo } => SpaceErrorView::Unmanaged { repo: repo@ },
            SpaceError::Dirty { repo, changes } => SpaceErrorView::Dirty {
                repo: repo@,
                changes: *changes as nat,
            },
            SpaceError::NoteDiffers { repo, file } => SpaceErrorView::NoteDiffers {
                repo: repo@,
                file: file@,
            },
            SpaceError::UnreadableName { repo } => SpaceErrorView::UnreadableName { repo: repo@ },
            SpaceError::EmptyBranch => SpaceErrorView::EmptyBranch,
            SpaceError::NoCanonical { repo } => SpaceErrorView::NoCanonical { repo: repo@ },
            SpaceError::NameTaken { name } => SpaceErrorView::NameTaken { name: name@ },
            SpaceError::NotWorktree { member } => SpaceErrorView::NotWorktree { member: member@ },
            SpaceError::NotSpace => SpaceErrorView::NotSpace,
            SpaceError::Foreign { name } => SpaceErrorView::Foreign { name: name@ },
            SpaceError::UserFiles { names } => SpaceErrorView::UserFiles {
                names: names.deep_view(),
            },
            SpaceError::NotEmpty => SpaceErrorView::NotEmpty,
            SpaceError::NoOriginDefault => SpaceErrorView::NoOriginDefault,
            SpaceError::DirtyPull { behind } => SpaceErrorView::DirtyPull { behind: behind@ },
            SpaceError::Diverged { behind, default } => SpaceErrorView::Diverged {
                behind: behind@,
                default: default@,
            },
            SpaceError::NoCommonDir => SpaceErrorView::NoCommonDir,
            SpaceError::Failed { report } => SpaceErrorView::Failed { report: report@ },
        }
    }
}

/// The ending of a counted noun.
pub open spec fn plural(one: bool) -> Seq<char> {
    if one {
        Seq::empty()
    } else {
        "s"@
    }
}

/// A refusal in words.
pub open spec fn error_text(e: SpaceErrorView) -> Seq<char> {
    match e {
        SpaceErrorView::EmptyName => "space name cannot be empty"@,
        SpaceErrorView::ReservedName { pool } => "`"@ + pool
            + "` is reserved for the canonical repo pool"@,
        SpaceErrorView::InvalidName => "invalid space name"@,
        SpaceErrorView::NoRoot { root } => "cannot locate "@ + root,
        SpaceErrorView::Exists { root, name } => root + "/"@ + name + " already exists"@,
        SpaceErrorView::NoPool => "cannot locate the repo pool"@,
        SpaceErrorView::UnknownRepo { name, available } => "no repo `"@ + name
            + "` in the pool; available: "@ + joined(available, ", "@),
        SpaceErrorView::AmbiguousRepo { name, hits } => "`"@ + name + "` is ambiguous: "@ + joined(
            hits,
            ", "@,
        ),
        SpaceErrorView::NotInPool { repo, pool } => "no repo `"@ + repo + "` in "@ + pool,
        SpaceErrorView::InvalidRepo { repo } => "invalid repo name `"@ + repo + "`"@,
        SpaceErrorView::AlreadyMember { name } => "`"@ + name + "` is already in this space"@,
        SpaceErrorView::NotMember { repo } => "`"@ + repo + "` is not in this space"@,
        SpaceErrorView::Unmanaged { repo } => "`"@ + repo
            + "` is not a space-managed symlink or worktree; leaving it alone"@,
        SpaceErrorView::Dirty { repo, changes } => "`"@ + repo + "` has "@ + decimal_of(changes)
            + " uncommitted change"@ + plural(changes == 1)
            + "; commit, stash, or discard first"@,
        SpaceErrorView::NoteDiffers { repo, file } => "`"@ + file + "` in `"@ + repo
            + "` differs from the canonical repo's; merge the two first"@,
        SpaceErrorView::UnreadableName { repo } => "`"@ + repo
            + "` has a file whose name is no text; rename it first"@,
        SpaceErrorView::EmptyBranch => "branch name cannot be empty"@,
        SpaceErrorView::NoCanonical { repo } => "cannot resolve a canonical repo for `"@ + repo
            + "`"@,
        SpaceErrorView::NameTaken { name } => "`"@ + name + "` already exists in this space"@,
        SpaceErrorView::NotWorktree { member } => "`"@ + member + "` is not a worktree"@,
        SpaceErrorView::NotSpace => "not a space"@,
        SpaceErrorView::Foreign { name } => "`"@ + name
            + "` is not space-managed; remove it by hand first"@,
        SpaceErrorView::UserFiles { names } => "space contains your files ("@ + joined(names, ", "@)
            + "); move or delete them first"@,
        SpaceErrorView::NotEmpty => "space not empty after removing managed content; left in place"@,
        SpaceErrorView::NoOriginDefault => "origin has neither main nor master"@,
        SpaceErrorView::DirtyPull { behind } => behind
            + " commits behind, but working tree has uncommitted changes"@,
        SpaceErrorView::Diverged { behind, default } => behind + " commits behind, but local "@
            + default + " has diverged (no fast-forward)"@,
        SpaceErrorView::NoCommonDir => "cannot resolve canonical repo for worktree"@,
        SpaceErrorView::Failed { report } => report,
    }
}

impl SpaceError {
    /// The refusal in words.
    pub fn message(&self) -> (r: String)
        ensures
            r@ == error_text(self.deep_view()),
    {
        match self {
            SpaceError::EmptyName => "space name cannot be empty".to_owned(),
            SpaceError::ReservedName { pool } => cat3(
                "`",
                pool.as_str(),
                "` is reserved for the canonical repo pool",
            ),
            SpaceError::InvalidName => "invalid space name".to_owned(),
            SpaceError::NoRoot { root } => cat("cannot locate ", root.as_str()),
            SpaceError::Exists { root, name } => cat4(
                root.as_str(),
                "/",
                name.as_str(),
                " already exists",
            ),
            SpaceError::NoPool => "cannot locate the repo pool".to_owned(),
            SpaceError::UnknownRepo { name, available } => cat4(
                "no repo `",
                name.as_str(),
                "` in the pool; available: ",
                join_text(available, ", ").as_str(),
            ),
            SpaceError::AmbiguousRepo { name, hits } => cat4(
                "`",
                name.as_str(),
                "` is ambiguous: ",
                join_text(hits, ", ").as_str(),
            ),
            SpaceError::NotInPool { repo, pool } => cat4(
                "no repo `",
                repo.as_str(),
                "` in ",
                pool.as_str(),
            ),
            SpaceError::InvalidRepo { repo } => cat3("invalid repo name `", repo.as_str(), "`"),
            SpaceError::AlreadyMember { name } => cat3(
                "`",
                name.as_str(),
                "` is already in this space",
            ),
            SpaceError::NotMember { repo } => cat3("`", repo.as_str(), "` is not in this space"),
            SpaceError::Unmanaged { repo } => cat3(
                "`",
                repo.as_str(),
                "` is not a space-managed symlink or worktree; leaving it alone",
            ),
            SpaceError::Dirty { repo, changes } => {
                let n = decimal(*changes as u64);
                let ending = if *changes == 1 {
                    String::new()
                } else {
                    "s".to_owned()
                };
                let head = cat5(
                    "`",
                    repo.as_str(),
                    "` has ",
                    n.as_str(),
                    " uncommitted change",
                );
                cat3(head.as_str(), ending.as_str(), "; commit, stash, or discard first")
            },
            SpaceError::NoteDiffers { repo, file } => cat5(
                "`",
                file.as_str(),
                "` in `",
                repo.as_str(),
                "` differs from the canonical repo's; merge the two first",
            ),
            SpaceError::UnreadableName { repo } => cat3(
                "`",
                repo.as_str(),
                "` has a file whose name is no text; rename it first",
            ),
            SpaceError::EmptyBranch => "branch name cannot be empty".to_owned(),
            SpaceError::NoCanonical { repo } => cat3(
                "cannot resolve a canonical repo for `",
                repo.as_str(),
                "`",
            ),
            SpaceError::NameTaken { name } => cat3(
                "`",
                name.as_str(),
                "` already exists in this space",
            ),
            SpaceError::NotWorktree { member } => cat3(
                "`",
                member.as_str(),
                "` is not a worktree",
            ),
            SpaceError::NotSpace => "not a space".to_owned(),
            SpaceError::Foreign { name } => cat3(
                "`",
                name.as_str(),
                "` is not space-managed; remove it by hand first",
            ),
            SpaceError::UserFiles { names } => cat3(
                "space contains your files (",
                join_text(names, ", ").as_str(),
                "); move or delete them first",
            ),
            SpaceError::NotEmpty =>
                "space not empty after removing managed content; left in place".to_owned(),
            SpaceError::NoOriginDefault => "origin has neither main nor master".to_owned(),
            SpaceError::DirtyPull { behind } => cat(
                behind.as_str(),
                " commits behind, but working tree has uncommitted changes",
            ),
            SpaceError::Diverged { behind, default } => cat4(
                behind.as_str(),
                " commits behind, but local ",
                default.as_str(),
                " has diverged (no fast-forward)",
            ),
            SpaceError::NoCommonDir => "cannot resolve canonical repo for worktree".to_owned(),
            SpaceError::Failed { report } => report.clone(),
        }
    }
}

// ---- what to do on disk ---------------------------------------------------------------------

/// One step on disk.
#[derive(Clone, Debug)]
pub enum Act {
    /// Make a folder.
    MakeDir { path: String },
    /// Write a file, whatever it held.
    Write { path: String, text: String },
    /// Write `tmp` and rename it to `path`.
    Replace { path: String, tmp: String, text: String },
    /// Make a symlink at `at`; `note` says what for.
    Link { target: String, at: String, note: Option<String> },
    /// Remove a file or a symlink.
    RemoveFile { path: String },
}

/// A step over text.
#[verifier::ext_equal]
pub enum ActView {
    MakeDir { path: Seq<char> },
    Write { path: Seq<char>, text: Seq<char> },
    Replace { path: Seq<char>, tmp: Seq<char>, text: Seq<char> },
    Link { target: Seq<char>, at: Seq<char>, note: Option<Seq<char>> },
    RemoveFile { path: Seq<char> },
}

impl DeepView for Act {
    type V = ActView;

    open spec fn deep_view(&self) -> ActView {
        match self {
            Act::MakeDir { path } => ActView::MakeDir { path: path@ },
            Act::Write { path, text } => ActView::Write { path: path@, text: text@ },
            Act::Replace { path, tmp, text } => ActView::Replace {
                path: path@,
                tmp: tmp@,
                text: text@,
            },
            Act::Link { target, at, note } => ActView::Link {
                target: target@,
                at: at@,
                note: note.deep_view(),
            },
            Act::RemoveFile { path } => ActView::RemoveFile { path: path@ },
        }
    }
}

/// What is reported when the step fails, where it is more than the failure itself.
pub open spec fn act_note(a: ActView) -> Option<Seq<char>> {
    match a {
        ActView::MakeDir { path } => Some("creating "@ + path),
        ActView::Replace { path, .. } => Some("replacing "@ + path),
        ActView::Link { note, .. } => note,
        _ => None,
    }
}

impl Act {
    /// What is reported when the step fails, where it is more than the failure itself.
    pub fn note(&self) -> (r: Option<String>)
        ensures
            r.deep_view() == act_note(self.deep_view()),
    {
        match self {
            Act::MakeDir { path } => Some(cat("creating ", path.as_str())),
            Act::Replace { path, .. } => Some(cat("replacing ", path.as_str())),
            Act::Link { note, .. } => match note {
                Some(n) => Some(n.clone()),
                None => None,
            },
            _ => None,
        }
    }
}

// ---- generated files -----------------------------------------------------------------------

/// What the marker of the space `name` holds.
pub open spec fn marker_text(name: Seq<char>) -> Seq<char> {
    "# managed by `space`; presence marks this folder as a space\nname = \""@ + name + "\"\n"@
}

/// The steps that write the marker and both policy files.
pub open spec fn file_acts(
    space: Seq<char>,
    name: Seq<char>,
    policy_file: Seq<char>,
    layout: LayoutView,
) -> Seq<ActView> {
    seq![
        ActView::Write { path: joined_path(space, MARKER@), text: marker_text(name) },
        ActView::Write { path: joined_path(space, policy_file), text: policy_of(name, layout) },
        ActView::Write { path: joined_path(space, CODEX_POLICY@), text: policy_of(name, layout) },
    ]
}

/// (Re)write the marker + both policy files so the policy stays in sync.
pub fn write_space_files(space: &str, name: &str, policy_file: &str, layout: &Layout) -> (r: Vec<
    Act,
>)
    ensures
        r.deep_view() == file_acts(space@, name@, policy_file@, layout.deep_view()),
{
    let marker = Act::Write {
        path: join(space, MARKER),
        text: cat3(
            "# managed by `space`; presence marks this folder as a space\nname = \"",
            name,
            "\"\n",
        ),
    };
    let policy = policy_markdown(name, layout);
    let claude = Act::Write { path: join(space, policy_file), text: policy.clone() };
    let agents = Act::Write { path: join(space, CODEX_POLICY), text: policy };
    let r = vec![marker, claude, agents];
    assert(r.deep_view() == file_acts(space@, name@, policy_file@, layout.deep_view()));
    r
}

/// The dot-tmp sibling of a file.
pub open spec fn tmp_beside(path: Seq<char>) -> Seq<char> {
    renamed_path(path, "."@ + base_name_of(path) + ".tmp"@)
}

/// The step that makes the file at `path` hold `text`, where it does not hold it yet.
pub open spec fn update_act(
    path: Seq<char>,
    text: Seq<char>,
    current: Option<Seq<char>>,
) -> Option<ActView> {
    if current == Some(text) {
        None
    } else {
        Some(ActView::Replace { path, tmp: tmp_beside(path), text })
    }
}

/// Atomically replace `path` with `content` when it differs: write to a
/// dot-tmp sibling, then rename. VS Code watches the `.code-workspace` file,
/// so a plain truncate-and-write could be read half-written and momentarily
/// drop every workspace root. `current` is what the file holds, where it can be read.
pub fn write_if_changed(path: &str, content: &str, current: Option<&str>) -> (r: Option<Act>)
    ensures
        r.deep_view() == update_act(path@, content@, current.deep_view()),
{
    match current {
        Some(text) => {
            if same(text, content) {
                return None;
            }
        },
        None => {},
    }
    let name = base_name(path);
    let tmp_name = cat3(".", name.as_str(), ".tmp");
    Some(
        Act::Replace {
            path: path.to_owned(),
            tmp: with_name(path, tmp_name.as_str()),
            text: content.to_owned(),
        },
    )
}

/// The file name of a space's VS Code workspace.
pub open spec fn workspace_name(name: Seq<char>) -> Seq<char> {
    name + ".code-workspace"@
}

pub fn workspace_filename(name: &str) -> (r: String)
    ensures
        r@ == workspace_name(name@),
{
    cat(name, ".code-workspace")
}

/// The members that the tool made.
pub open spec fn managed(repos: Seq<SpaceRepoView>) -> Seq<SpaceRepoView>
    decreases repos.len(),
{
    if repos.len() == 0 {
        Seq::empty()
    } else if repos.last().state is Foreign {
        managed(repos.drop_last())
    } else {
        managed(repos.drop_last()).push(repos.last())
    }
}

/// The workspace folder of a member; that of a worktree is labeled with its branch.
pub open spec fn folder_line(r: SpaceRepoView) -> Seq<char> {
    match r.state {
        RepoStateView::Worktree { branch } => "    { \"name\": "@ + quoted(
            r.name + " ("@ + branch + ")"@,
        ) + ", \"path\": "@ + quoted(r.name) + " }"@,
        _ => "    { \"path\": "@ + quoted(r.name) + " }"@,
    }
}

/// The workspace folder of the space itself.
pub open spec fn root_line(name: Seq<char>) -> Seq<char> {
    "    { \"name\": "@ + quoted(name + " (space)"@) + ", \"path\": \".\" }"@
}

/// The line that hides a member in the space's own folder.
pub open spec fn exclude_line(r: SpaceRepoView) -> Seq<char> {
    "      "@ + quoted(r.name) + ": true"@
}

/// The workspace file: the space root first so the policy files are visible at top
/// level, the members behind it, each hidden in the root's view.
pub open spec fn workspace_text(space: SpaceView) -> Seq<char> {
    let repos = managed(space.repos);
    let folders = seq![root_line(space.name)] + repos.map_values(
        |r: SpaceRepoView| folder_line(r),
    );
    let excludes = repos.map_values(|r: SpaceRepoView| exclude_line(r));
    "{\n  \"folders\": [\n"@ + joined(folders, ",\n"@)
        + "\n  ],\n  \"settings\": {\n    \"files.exclude\": {\n"@ + joined(excludes, ",\n"@)
        + "\n    }\n  }\n}\n"@
}

fn make_folder_line(r: &SpaceRepo) -> (s: String)
    ensures
        s@ == folder_line(r.deep_view()),
{
    let path = quote(r.name.as_str());
    match &r.state {
        RepoState::Worktree { branch } => {
            let label = cat4(r.name.as_str(), " (", branch.as_str(), ")");
            let label = quote(label.as_str());
            cat5("    { \"name\": ", label.as_str(), ", \"path\": ", path.as_str(), " }")
        },
        _ => cat3("    { \"path\": ", path.as_str(), " }"),
    }
}

/// VS Code multi-root workspace over the space's repos. Folder entries are
/// relative names, so symlinks and worktrees both open as first-class roots
/// (each with its own git integration).
pub fn workspace_json(space: &Space) -> (r: String)
    ensures
        r@ == workspace_text(space.deep_view()),
{
    let ghost all = space.repos.deep_view();
    let mut folders: Vec<String> = Vec::new();
    let mut excludes: Vec<String> = Vec::new();
    let label = cat(space.name.as_str(), " (space)");
    let label = quote(label.as_str());
    let root = cat3("    { \"name\": ", label.as_str(), ", \"path\": \".\" }");
    folders.push(root);
    assert(all.take(0) == Seq::<SpaceRepoView>::empty());
    assert(folders.deep_view() == seq![root_line(space.name@)] + managed(all.take(0)).map_values(
        |r: SpaceRepoView| folder_line(r),
    ));
    assert(excludes.deep_view() == managed(all.take(0)).map_values(
        |r: SpaceRepoView| exclude_line(r),
    ));
    for i in 0..space.repos.len()
        invariant
            all == space.repos.deep_view(),
            folders.deep_view() == seq![root_line(space.name@)] + managed(
                all.take(i as int),
            ).map_values(|r: SpaceRepoView| folder_line(r)),
            excludes.deep_view() == managed(all.take(i as int)).map_values(
                |r: SpaceRepoView| exclude_line(r),
            ),
    {
        let ghost before = folders.deep_view();
        let ghost hidden = excludes.deep_view();
        let ghost had = managed(all.take(i as int));
        let repo = &space.repos[i];
        assert(all.take(i + 1).drop_last() == all.take(i as int));
        assert(all.take(i + 1).last() == repo.deep_view());
        let foreign = match &repo.state {
            RepoState::Foreign => true,
            _ => false,
        };
        if !foreign {
            let line = make_folder_line(repo);
            folders.push(line);
            assert(folders.deep_view() == before.push(line@));
            let name = quote(repo.name.as_str());
            let hide = cat3("      ", name.as_str(), ": true");
            excludes.push(hide);
            assert(excludes.deep_view() == hidden.push(hide@));
            let ghost more = had.push(repo.deep_view());
            assert(more.map_values(|r: SpaceRepoView| folder_line(r)) == had.map_values(
                |r: SpaceRepoView| folder_line(r),
            ).push(line@));
            assert(more.map_values(|r: SpaceRepoView| exclude_line(r)) == had.map_values(
                |r: SpaceRepoView| exclude_line(r),
            ).push(hide@));
        }
    }
    assert(all.take(space.repos@.len() as int) == all);
    let top = join_text(&folders, ",\n");
    let bottom = join_text(&excludes, ",\n");
    cat5(
        "{\n  \"folders\": [\n",
        top.as_str(),
        "\n  ],\n  \"settings\": {\n    \"files.exclude\": {\n",
        bottom.as_str(),
        "\n    }\n  }\n}\n",
    )
}

/// What the generated files of a space hold, where they can be read.
pub struct Generated {
    pub claude: Option<String>,
    pub agents: Option<String>,
    pub workspace: Option<String>,
}

/// The generated files over text.
#[verifier::ext_equal]
pub struct GeneratedView {
    pub claude: Option<Seq<char>>,
    pub agents: Option<Seq<char>>,
    pub workspace: Option<Seq<char>>,
}

impl DeepView for Generated {
    type V = GeneratedView;

    open spec fn deep_view(&self) -> GeneratedView {
        GeneratedView {
            claude: self.claude.deep_view(),
            agents: self.agents.deep_view(),
            workspace: self.workspace.deep_view(),
        }
    }
}

/// A step, or no step.
pub open spec fn at_most_one(a: Option<ActView>) -> Seq<ActView> {
    match a {
        Some(act) => seq![act],
        None => Seq::empty(),
    }
}

/// What the generated files of a space are to hold.
pub open spec fn wanted(
    space: Seq<char>,
    facts: Seq<MemberFactView>,
    policy_file: Seq<char>,
    layout: LayoutView,
) -> GeneratedView {
    GeneratedView {
        claude: Some(policy_of(base_name_of(space), layout)),
        agents: Some(policy_of(base_name_of(space), layout)),
        workspace: Some(workspace_text(space_in(space, facts, policy_file))),
    }
}

/// The steps that bring the generated files of a space up to date.
pub open spec fn refresh_acts(
    space: Seq<char>,
    facts: Seq<MemberFactView>,
    current: GeneratedView,
    policy_file: Seq<char>,
    layout: LayoutView,
) -> Seq<ActView> {
    let want = wanted(space, facts, policy_file, layout);
    let ws = workspace_name(base_name_of(space));
    at_most_one(update_act(joined_path(space, policy_file), want.claude->0, current.claude))
        + at_most_one(update_act(joined_path(space, CODEX_POLICY@), want.agents->0, current.agents))
        + at_most_one(update_act(joined_path(space, ws), want.workspace->0, current.workspace))
}

fn as_text(s: &Option<String>) -> (r: Option<&str>)
    ensures
        r.deep_view() == s.deep_view(),
{
    match s {
        Some(t) => Some(t.as_str()),
        None => None,
    }
}

fn add_act(acts: &mut Vec<Act>, act: Option<Act>)
    ensures
        final(acts).deep_view() == old(acts).deep_view() + at_most_one(act.deep_view()),
{
    let ghost before = acts.deep_view();
    match act {
        Some(a) => {
            acts.push(a);
            assert(acts.deep_view() == before + seq![a.deep_view()]);
        },
        None => {
            assert(before + Seq::<ActView>::empty() == before);
        },
    }
}

/// Bring an existing space's generated files (the policy files and the
/// VS Code `.code-workspace`) up to date with this binary's template and the
/// space's current membership. No-op (no writes, no mtime churn) when current.
pub fn refresh_policy_files(
    space: &str,
    facts: &Vec<MemberFact>,
    current: &Generated,
    policy_file: &str,
    layout: &Layout,
) -> (r: Vec<Act>)
    ensures
        r.deep_view() == refresh_acts(
            space@,
            facts.deep_view(),
            current.deep_view(),
            policy_file@,
            layout.deep_view(),
        ),
{
    let name = base_name(space);
    let policy = policy_markdown(name.as_str(), layout);
    let mut acts: Vec<Act> = Vec::new();
    assert(acts.deep_view() == Seq::<ActView>::empty());
    let claude = join(space, policy_file);
    add_act(
        &mut acts,
        write_if_changed(claude.as_str(), policy.as_str(), as_text(&current.claude)),
    );
    let agents = join(space, CODEX_POLICY);
    add_act(
        &mut acts,
        write_if_changed(agents.as_str(), policy.as_str(), as_text(&current.agents)),
    );
    let ws = workspace_json(&read_space(space, facts, policy_file));
    let file = join(space, workspace_filename(name.as_str()).as_str());
    add_act(
        &mut acts,
        write_if_changed(file.as_str(), ws.as_str(), as_text(&current.workspace)),
    );
    assert(acts.deep_view() == refresh_acts(
            space@,
            facts.deep_view(),
            current.deep_view(),
            policy_file@,
            layout.deep_view(),
        ));
    acts
}

/// Where the generated files of a space are: both policies, then the workspace.
pub fn generated_paths(space: &str, policy_file: &str) -> (r: (String, String, String))
    ensures
        r.0@ == joined_path(space@, policy_file@),
        r.1@ == joined_path(space@, CODEX_POLICY@),
        r.2@ == joined_path(space@, workspace_name(base_name_of(space@))),
{
    let name = base_name(space);
    let ws = workspace_filename(name.as_str());
    (join(space, policy_file), join(space, CODEX_POLICY), join(space, ws.as_str()))
}

/// Refreshing is idempotent: where the generated files hold what they are to hold, there
/// is nothing to do, and where they do not, the steps write just that into them.
pub proof fn law_refresh_is_idempotent(
    space: Seq<char>,
    facts: Seq<MemberFactView>,
    current: GeneratedView,
    policy_file: Seq<char>,
    layout: LayoutView,
)
    ensures
        refresh_acts(space, facts, wanted(space, facts, policy_file, layout), policy_file, layout)
            == Seq::<ActView>::empty(),
        refresh_acts(space, facts, current, policy_file, layout).len() == 0 <==> current == wanted(
            space,
            facts,
            policy_file,
            layout,
        ),
        forall|i: int|
            0 <= i < refresh_acts(
                space,
                facts,
                current,
                policy_file,
                layout,
            ).len() ==> match #[trigger] refresh_acts(
                space,
                facts,
                current,
                policy_file,
                layout,
            )[i] {
                ActView::Replace { path, text, .. } => {
                    ||| path == joined_path(space, policy_file) && Some(text) == wanted(
                        space,
                        facts,
                        policy_file,
                        layout,
                    ).claude
                    ||| path == joined_path(space, CODEX_POLICY@) && Some(text) == wanted(
                        space,
                        facts,
                        policy_file,
                        layout,
                    ).agents
                    ||| path == joined_path(space, workspace_name(base_name_of(space))) && Some(text)
                        == wanted(space, facts, policy_file, layout).workspace
                },
                _ => false,
            },
{
    let want = wanted(space, facts, policy_file, layout);
    assert(refresh_acts(space, facts, want, policy_file, layout) == Seq::<ActView>::empty());
}

// ---- creating spaces, adding repos -------------------------------------------------------------

/// Why no space can be called `name` (already trimmed), where that is so.
pub open spec fn name_error(name: Seq<char>, layout: LayoutView) -> Option<SpaceErrorView> {
    if name.len() == 0 {
        Some(SpaceErrorView::EmptyName)
    } else if name == layout.pool {
        Some(SpaceErrorView::ReservedName { pool: layout.pool })
    } else if name.contains('/') || is_hidden(name) {
        Some(SpaceErrorView::InvalidName)
    } else {
        None
    }
}

fn check_name(name: &str, layout: &Layout) -> (r: Option<SpaceError>)
    ensures
        r.deep_view() == name_error(name@, layout.deep_view()),
{
    if name.is_empty() {
        Some(SpaceError::EmptyName)
    } else if same(name, layout.pool.as_str()) {
        Some(SpaceError::ReservedName { pool: layout.pool.clone() })
    } else if has_char(name, '/') || begins_char(name, '.') {
        Some(SpaceError::InvalidName)
    } else {
        None
    }
}

/// Where a new space called `name` would be.
pub fn new_space_path(name: &str, root: &str) -> (r: String)
    ensures
        r@ == joined_path(root@, trimmed(name@)),
{
    let name = trim(name);
    join(root, name.as_str())
}

/// What the generated files of the new space `name` hold once its policy files are written.
pub open spec fn fresh_files(name: Seq<char>, layout: LayoutView) -> GeneratedView {
    GeneratedView {
        claude: Some(policy_of(name, layout)),
        agents: Some(policy_of(name, layout)),
        workspace: None,
    }
}

/// Create a new space folder with the marker, both agent policy files and the workspace:
/// where it is, and the steps. `found` tells what is at the place of the new folder.
pub fn create_space(
    name: &str,
    root: Option<&str>,
    found: &Found,
    policy_file: &str,
    layout: &Layout,
) -> (r: Result<(String, Vec<Act>), SpaceError>)
    ensures
        ({
            let n = trimmed(name@);
            match name_error(n, layout.deep_view()) {
                Some(e) => r matches Err(x) && x.deep_view() == e,
                None => match root {
                    Some(dir) => {
                        let path = joined_path(dir@, n);
                        if kind_from(found.deep_view(), path, 0) != Kind::Missing {
                            r matches Err(x) && x.deep_view() == (SpaceErrorView::Exists {
                                root: root_shown(layout.deep_view()),
                                name: n,
                            })
                        } else {
                            r matches Ok(plan) && plan.0@ == path && plan.1.deep_view() == seq![
                                ActView::MakeDir { path },
                            ] + file_acts(path, n, policy_file@, layout.deep_view()) + refresh_acts(
                                path,
                                Seq::empty(),
                                fresh_files(n, layout.deep_view()),
                                policy_file@,
                                layout.deep_view(),
                            )
                        }
                    },
                    None => r matches Err(x) && x.deep_view() == (SpaceErrorView::NoRoot {
                        root: root_shown(layout.deep_view()),
                    }),
                },
            }
        }),
{
    let name = trim(name);
    match check_name(name.as_str(), layout) {
        Some(e) => {
            return Err(e);
        },
        None => {},
    }
    let dir = match root {
        Some(dir) => dir,
        None => {
            return Err(SpaceError::NoRoot { root: root_display(layout) });
        },
    };
    let path = join(dir, name.as_str());
    if found.kind_at(path.as_str()) != Kind::Missing {
        return Err(SpaceError::Exists { root: root_display(layout), name });
    }
    let make = Act::MakeDir { path: path.clone() };
    let mut acts: Vec<Act> = vec![make];
    assert(acts.deep_view() == seq![make.deep_view()]);
    let mut files = write_space_files(path.as_str(), name.as_str(), policy_file, layout);
    let ghost head = acts.deep_view();
    let ghost tail = files.deep_view();
    acts.append(&mut files);
    assert(acts.deep_view() == head + tail);
    let policy = policy_markdown(name.as_str(), layout);
    let current = Generated {
        claude: Some(policy.clone()),
        agents: Some(policy),
        workspace: None,
    };
    let none: Vec<MemberFact> = Vec::new();
    assert(none.deep_view() == Seq::<MemberFactView>::empty());
    let mut more = refresh_policy_files(path.as_str(), &none, &current, policy_file, layout);
    let ghost last = more.deep_view();
    acts.append(&mut more);
    assert(acts.deep_view() == head + tail + last);
    Ok((path, acts))
}

/// The name of a repo without its group.
pub open spec fn bare_name(name: Seq<char>) -> Seq<char> {
    pieces(name, '/').last()
}

/// The names of the pool repos whose bare name is `name`.
pub open spec fn hits_in(repos: Seq<PoolRepoView>, name: Seq<char>) -> Seq<Seq<char>>
    decreases repos.len(),
{
    if repos.len() == 0 {
        Seq::empty()
    } else if bare_name(repos.last().name) == name {
        hits_in(repos.drop_last(), name).push(repos.last().name)
    } else {
        hits_in(repos.drop_last(), name)
    }
}

/// The names of pool repos.
pub open spec fn names_of(repos: Seq<PoolRepoView>) -> Seq<Seq<char>> {
    repos.map_values(|p: PoolRepoView| p.name)
}

/// The pool repo that `name` stands for, given whether the pool has a repo at just that
/// path, and all its repos.
pub open spec fn resolved(name: Seq<char>, direct: bool, repos: Seq<PoolRepoView>) -> Result<
    Seq<char>,
    SpaceErrorView,
> {
    let hits = hits_in(repos, name);
    if direct {
        Ok(name)
    } else if hits.len() == 1 {
        Ok(hits[0])
    } else if hits.len() == 0 {
        Err(SpaceErrorView::UnknownRepo { name, available: names_of(repos) })
    } else {
        Err(SpaceErrorView::AmbiguousRepo { name, hits })
    }
}

fn find_hits(repos: &Vec<PoolRepo>, name: &str) -> (r: Vec<String>)
    ensures
        r.deep_view() == hits_in(repos.deep_view(), name@),
{
    let ghost view = repos.deep_view();
    let mut out: Vec<String> = Vec::new();
    assert(view.take(0) == Seq::<PoolRepoView>::empty());
    assert(out.deep_view() == Seq::<Seq<char>>::empty());
    for i in 0..repos.len()
        invariant
            view == repos.deep_view(),
            out.deep_view() == hits_in(view.take(i as int), name@),
    {
        let ghost before = out.deep_view();
        assert(view.take(i + 1).drop_last() == view.take(i as int));
        assert(view.take(i + 1).last() == repos@[i as int].deep_view());
        let parts = split(repos[i].name.as_str(), '/');
        let n = parts.len();
        assert(parts.deep_view()[n - 1] == parts@[n - 1]@);
        if same(parts[n - 1].as_str(), name) {
            let full = repos[i].name.clone();
            out.push(full);
            assert(out.deep_view() == before.push(full@));
        }
    }
    assert(view.take(repos@.len() as int) == view);
    out
}

fn pool_names(repos: &Vec<PoolRepo>) -> (r: Vec<String>)
    ensures
        r.deep_view() == names_of(repos.deep_view()),
{
    let ghost want = names_of(repos.deep_view());
    let mut out: Vec<String> = Vec::new();
    for i in 0..repos.len()
        invariant
            want == names_of(repos.deep_view()),
            out.deep_view() == want.take(i as int),
    {
        let ghost before = out.deep_view();
        let name = repos[i].name.clone();
        out.push(name);
        assert(out.deep_view() == before.push(name@));
        assert(want[i as int] == name@);
        assert(want.take(i + 1) == want.take(i as int).push(want[i as int]));
    }
    assert(want.take(repos@.len() as int) == want);
    out
}

/// Where the `.git` of a pool repo would be, for a space's pool.
pub fn pool_git_path(space: &str, repo: &str, layout: &Layout) -> (r: Option<String>)
    ensures
        r.deep_view() == match pool_beside(space@, layout.deep_view()) {
            Some(pool) => Some(joined_path(joined_path(pool, repo@), ".git"@)),
            None => None,
        },
{
    match pool_for(space, layout) {
        Some(pool) => Some(join(join(pool.as_str(), repo).as_str(), ".git")),
        None => None,
    }
}

/// Resolve a repo name against the pool: accepts a pool-relative path
/// (`acme/api`) or a bare basename (`api`) when unambiguous. `direct` tells whether there
/// is a `.git` at the pool-relative path `name`; `entries` is what stands in the pool.
pub fn resolve_pool_repo(
    space: &str,
    name: &str,
    direct: bool,
    entries: &Vec<PoolEntry>,
    layout: &Layout,
) -> (r: Result<String, SpaceError>)
    ensures
        match pool_beside(space@, layout.deep_view()) {
            Some(pool) => match resolved(name@, direct, pool_repos(pool, entries.deep_view())) {
                Ok(n) => r matches Ok(x) && x@ == n,
                Err(e) => r matches Err(x) && x.deep_view() == e,
            },
            None => r matches Err(x) && x.deep_view() == SpaceErrorView::NoPool,
        },
{
    let pool = match pool_for(space, layout) {
        Some(pool) => pool,
        None => {
            return Err(SpaceError::NoPool);
        },
    };
    if direct {
        return Ok(name.to_owned());
    }
    let all = collect_pool(pool.as_str(), entries);
    let hits = find_hits(&all, name);
    if hits.len() == 1 {
        assert(hits.deep_view()[0] == hits@[0]@);
        Ok(hits[0].clone())
    } else if hits.len() == 0 {
        Err(SpaceError::UnknownRepo { name: name.to_owned(), available: pool_names(&all) })
    } else {
        Err(SpaceError::AmbiguousRepo { name: name.to_owned(), hits })
    }
}

/// Where a pool repo is, for a space's pool.
pub fn pool_source(space: &str, repo: &str, layout: &Layout) -> (r: Option<String>)
    ensures
        r.deep_view() == match pool_beside(space@, layout.deep_view()) {
            Some(pool) => Some(joined_path(pool, repo@)),
            None => None,
        },
{
    match pool_for(space, layout) {
        Some(pool) => Some(join(pool.as_str(), repo)),
        None => None,
    }
}

/// Where the link to a pool repo goes in a space: under the repo's basename.
pub fn link_path(space: &str, repo: &str) -> (r: Option<String>)
    ensures
        r.deep_view() == match file_name_of(repo@) {
            Some(base) => Some(joined_path(space@, base)),
            None => None,
        },
{
    match file_name(repo) {
        Some(base) => Some(join(space, base.as_str())),
        None => None,
    }
}

/// What adding a pool repo to a space comes to, given what is at its place in the pool
/// (links followed) and at the place of the link (links not followed).
pub open spec fn adding(
    space: Seq<char>,
    repo: Seq<char>,
    src: Kind,
    dst: Kind,
    layout: LayoutView,
) -> Result<ActView, SpaceErrorView> {
    match pool_beside(space, layout) {
        Some(pool) => if src != Kind::Dir {
            Err(SpaceErrorView::NotInPool { repo, pool: pool_shown(layout) })
        } else {
            match file_name_of(repo) {
                Some(base) => if dst != Kind::Missing {
                    Err(SpaceErrorView::AlreadyMember { name: base })
                } else {
                    Ok(
                        ActView::Link {
                            target: joined_path(pool, repo),
                            at: joined_path(space, base),
                            note: Some("symlinking "@ + repo),
                        },
                    )
                },
                None => Err(SpaceErrorView::InvalidRepo { repo }),
            }
        },
        None => Err(SpaceErrorView::NoPool),
    }
}

/// Add a pool repo to a space as a symlink. `repo` is pool-relative and may
/// name a group (`acme/api`); the link in the space is named by the
/// repo's basename.
pub fn add_repo(space: &str, repo: &str, src: Kind, dst: Kind, layout: &Layout) -> (r: Result<
    Act,
    SpaceError,
>)
    ensures
        match adding(space@, repo@, src, dst, layout.deep_view()) {
            Ok(a) => r matches Ok(x) && x.deep_view() == a,
            Err(e) => r matches Err(x) && x.deep_view() == e,
        },
{
    let target = match pool_source(space, repo, layout) {
        Some(target) => target,
        None => {
            return Err(SpaceError::NoPool);
        },
    };
    if src != Kind::Dir {
        return Err(SpaceError::NotInPool { repo: repo.to_owned(), pool: pool_display(layout) });
    }
    let base = match file_name(repo) {
        Some(base) => base,
        None => {
            return Err(SpaceError::InvalidRepo { repo: repo.to_owned() });
        },
    };
    if dst != Kind::Missing {
        return Err(SpaceError::AlreadyMember { name: base });
    }
    Ok(Act::Link { target, at: join(space, base.as_str()), note: Some(cat("symlinking ", repo)) })
}

/// Adding twice is refused, not silently duplicated: once something is at the place of
/// the link there is no step.
pub proof fn law_adding_never_overwrites(
    space: Seq<char>,
    repo: Seq<char>,
    src: Kind,
    dst: Kind,
    layout: LayoutView,
)
    requires
        dst != Kind::Missing,
    ensures
        adding(space, repo, src, dst, layout) is Err,
{
}

// ---- removing repos ----------------------------------------------------------------------------

/// The arguments for git that tell whether a directory is inside a work tree.
pub fn worktree_check_args() -> (r: Vec<String>)
    ensures
        r.deep_view() == seq!["rev-parse"@, "--is-inside-work-tree"@],
{
    let r = strings(&["rev-parse", "--is-inside-work-tree"]);
    assert(r.deep_view() == seq!["rev-parse"@, "--is-inside-work-tree"@]);
    r
}

/// Whether git's answer says that a directory is inside a work tree.
pub fn is_git_worktree(reply: &Result<String, String>) -> (r: bool)
    ensures
        r == (reply matches Ok(s) && s@ == "true"@),
{
    match reply {
        Ok(s) => same(s.as_str(), "true"),
        Err(_) => false,
    }
}

/// The arguments for git that print the `.git` that a worktree shares.
pub fn common_dir_args() -> (r: Vec<String>)
    ensures
        r.deep_view() == seq!["rev-parse"@, "--git-common-dir"@],
{
    let r = strings(&["rev-parse", "--git-common-dir"]);
    assert(r.deep_view() == seq!["rev-parse"@, "--git-common-dir"@]);
    r
}

/// The canonical repo of the worktree at `dir`: the parent of the shared `.git`.
pub open spec fn canonical_in(dir: Seq<char>, common: Seq<char>) -> Option<Seq<char>> {
    parent_of(joined_path(dir, common))
}

/// git-common-dir points at the shared `.git`; its parent is the canonical repo. `common`
/// is git's answer.
pub fn canonical_of_worktree(dir: &str, common: &Result<String, String>) -> (r: Result<
    String,
    SpaceError,
>)
    ensures
        match common {
            Ok(c) => match canonical_in(dir@, c@) {
                Some(p) => r matches Ok(x) && x@ == p,
                None => r matches Err(x) && x.deep_view() == SpaceErrorView::NoCommonDir,
            },
            Err(e) => r matches Err(x) && x.deep_view() == (SpaceErrorView::Failed { report: e@ }),
        },
{
    match common {
        Ok(c) => {
            let path = join(dir, c.as_str());
            match parent(path.as_str()) {
                Some(p) => Ok(p),
                None => Err(SpaceError::NoCommonDir),
            }
        },
        Err(e) => Err(SpaceError::Failed { report: e.clone() }),
    }
}

/// How many of the lines of a status report tracked changes.
pub open spec fn tracked_changes(lines: Seq<Seq<char>>) -> nat
    decreases lines.len(),
{
    if lines.len() == 0 {
        0
    } else if has_prefix(lines.last(), "??"@) {
        tracked_changes(lines.drop_last())
    } else {
        tracked_changes(lines.drop_last()) + 1
    }
}

fn count_changes(all: &Vec<String>) -> (r: usize)
    ensures
        r == tracked_changes(all.deep_view()),
{
    let ghost view = all.deep_view();
    let mut n: usize = 0;
    assert(view.take(0) == Seq::<Seq<char>>::empty());
    for i in 0..all.len()
        invariant
            view == all.deep_view(),
            n == tracked_changes(view.take(i as int)),
            n <= i,
    {
        assert(view.take(i + 1).drop_last() == view.take(i as int));
        assert(view.take(i + 1).last() == all@[i as int]@);
        if !begins(all[i].as_str(), "??") {
            n = n + 1;
        }
    }
    assert(view.take(all@.len() as int) == view);
    n
}

/// The untracked files in a listing of git's, in which each name, as it is, ends in a NUL.
pub open spec fn untracked_in(listing: Seq<char>) -> Seq<Seq<char>> {
    nonempty(pieces(listing, '\0'))
}

/// The notes in such a listing of ignored files.
pub open spec fn ignored_notes(listing: Seq<char>) -> Seq<Seq<char>> {
    nonempty(notes_in(pieces(listing, '\0')))
}

/// Whether there is a replacement character in one of the names: it stands for bytes that are
/// no text, so the name may not be that of the file.
pub open spec fn has_unreadable(names: Seq<Seq<char>>) -> bool {
    exists|i: int| 0 <= i < names.len() && (#[trigger] names[i]).contains('\u{fffd}')
}

fn any_unreadable(names: &Vec<String>) -> (r: bool)
    ensures
        r == has_unreadable(names.deep_view()),
{
    let ghost view = names.deep_view();
    for i in 0..names.len()
        invariant
            view == names.deep_view(),
            forall|j: int| 0 <= j < i ==> !(#[trigger] view[j]).contains('\u{fffd}'),
    {
        assert(view[i as int] == names@[i as int]@);
        if has_char(names[i].as_str(), '\u{fffd}') {
            return true;
        }
    }
    false
}

/// What git says of a worktree before it is removed: its status, and the listings of its
/// untracked and of its ignored files.
#[derive(Clone, Debug)]
struct Survey {
    status: String,
    untracked: String,
    ignored: String,
}

/// A survey over text.
#[verifier::ext_equal]
pub struct SurveyView {
    pub status: Seq<char>,
    pub untracked: Seq<char>,
    pub ignored: Seq<char>,
}

/// How far the removal of a worktree has come. Up to `Compare` nothing is touched.
#[derive(Clone, Debug)]
enum Stage {
    /// Ask git what is uncommitted.
    Inspect,
    /// Ask git for the untracked files.
    Untracked { status: String },
    /// Ask git for the ignored files.
    Ignored { status: String, untracked: String },
    /// Compare ignored notes with those of the canonical repo: `same` and `missing` there are
    /// those compared, `left` is to do.
    Compare { survey: Survey, same: Vec<String>, missing: Vec<String>, left: Vec<String> },
    /// Copy files to the canonical repo: `carried` is done, `left` is to do.
    Carry { survey: Survey, same: Vec<String>, carried: Vec<String>, left: Vec<String> },
    /// Let git remove it, which it does where nothing untracked is in it.
    Plain { survey: Survey, same: Vec<String>, carried: Vec<String> },
    /// Make git remove it.
    Force { survey: Survey, same: Vec<String>, carried: Vec<String> },
    /// It is gone.
    Gone,
}

/// The stage of a removal over text.
#[verifier::ext_equal]
pub enum StageView {
    Inspect,
    Untracked { status: Seq<char> },
    Ignored { status: Seq<char>, untracked: Seq<char> },
    Compare {
        survey: SurveyView,
        same: Seq<Seq<char>>,
        missing: Seq<Seq<char>>,
        left: Seq<Seq<char>>,
    },
    Carry {
        survey: SurveyView,
        same: Seq<Seq<char>>,
        carried: Seq<Seq<char>>,
        left: Seq<Seq<char>>,
    },
    Plain { survey: SurveyView, same: Seq<Seq<char>>, carried: Seq<Seq<char>> },
    Force { survey: SurveyView, same: Seq<Seq<char>>, carried: Seq<Seq<char>> },
    Gone,
}

/// The removal of a worktree without ever discarding work:
/// - uncommitted tracked changes refuse with a clear message (never forced)
/// - untracked files (loose notes) are carried back to the canonical repo first
/// - ignored notes, which a new worktree gets copies of, are carried back where the canonical
///   repo has none of that name; where it has a different one, the removal is refused
/// - so is it where the name of such a file is no text, and may be another's
///
/// Other ignored files are build products and go with the worktree.
#[derive(Clone, Debug)]
pub struct Removal {
    canonical: String,
    dst: String,
    repo: String,
    stage: Stage,
}

/// A removal over text.
#[verifier::ext_equal]
pub struct RemovalView {
    pub canonical: Seq<char>,
    pub dst: Seq<char>,
    pub repo: Seq<char>,
    pub stage: StageView,
}

impl DeepView for Removal {
    type V = RemovalView;

    closed spec fn deep_view(&self) -> RemovalView {
        RemovalView {
            canonical: self.canonical@,
            dst: self.dst@,
            repo: self.repo@,
            stage: stage_view(self.stage),
        }
    }
}

/// What a removal asks for next.
#[derive(Clone, Debug)]
pub enum RemovalAsk {
    /// Run git in `dir`; answered by what it said.
    Git { dir: String, args: Vec<String> },
    /// Run git in `dir`; answered by the listing, all of it.
    List { dir: String, args: Vec<String> },
    /// Compare two files; answered by what is at `to`.
    Compare { from: String, to: String },
    /// Copy a file, making the folders it needs; `note` says what for. Answered by nothing
    /// said, or by how it failed.
    Copy { from: String, to: String, note: String },
    /// Nothing: the worktree is gone.
    Nothing,
}

/// What a removal asks for, over text.
#[verifier::ext_equal]
pub enum RemovalAskView {
    Git { dir: Seq<char>, args: Seq<Seq<char>> },
    List { dir: Seq<char>, args: Seq<Seq<char>> },
    Compare { from: Seq<char>, to: Seq<char> },
    Copy { from: Seq<char>, to: Seq<char>, note: Seq<char> },
    Nothing,
}

impl DeepView for RemovalAsk {
    type V = RemovalAskView;

    open spec fn deep_view(&self) -> RemovalAskView {
        match self {
            RemovalAsk::Git { dir, args } => RemovalAskView::Git {
                dir: dir@,
                args: args.deep_view(),
            },
            RemovalAsk::List { dir, args } => RemovalAskView::List {
                dir: dir@,
                args: args.deep_view(),
            },
            RemovalAsk::Compare { from, to } => RemovalAskView::Compare { from: from@, to: to@ },
            RemovalAsk::Copy { from, to, note } => RemovalAskView::Copy {
                from: from@,
                to: to@,
                note: note@,
            },
            RemovalAsk::Nothing => RemovalAskView::Nothing,
        }
    }
}

/// What stands at the other place when a file is compared.
#[derive(Clone, Copy, Debug, PartialEq, Eq, Structural)]
pub enum Beside {
    /// Nothing.
    Missing,
    /// A file that holds the same.
    Same,
    /// Anything else.
    Differs,
}

/// The answer to what a removal asked for.
#[derive(Debug)]
pub enum Answer {
    /// What was said, or how it failed.
    Said(Result<String, String>),
    /// What a comparison found.
    Held(Beside),
}

/// An answer over text.
#[verifier::ext_equal]
pub enum AnswerView {
    Said(Result<Seq<char>, Seq<char>>),
    Held(Beside),
}

impl DeepView for Answer {
    type V = AnswerView;

    open spec fn deep_view(&self) -> AnswerView {
        match self {
            Answer::Said(reply) => AnswerView::Said(reply_view(*reply)),
            Answer::Held(b) => AnswerView::Held(*b),
        }
    }
}

/// What the removal asks for at its stage.
pub open spec fn removal_ask(v: RemovalView) -> RemovalAskView {
    match v.stage {
        StageView::Inspect => RemovalAskView::Git {
            dir: v.dst,
            args: seq!["status"@, "--porcelain"@],
        },
        StageView::Untracked { .. } => RemovalAskView::List {
            dir: v.dst,
            args: untracked_command(),
        },
        StageView::Ignored { .. } => RemovalAskView::List { dir: v.dst, args: ignored_command() },
        StageView::Compare { left, .. } => RemovalAskView::Compare {
            from: joined_path(v.dst, left[0]),
            to: joined_path(v.canonical, left[0]),
        },
        StageView::Carry { left, .. } => RemovalAskView::Copy {
            from: joined_path(v.dst, left[0]),
            to: joined_path(v.canonical, left[0]),
            note: "carrying "@ + left[0] + " back to the canonical repo"@,
        },
        StageView::Plain { .. } => RemovalAskView::Git {
            dir: v.canonical,
            args: seq!["worktree"@, "remove"@, v.dst],
        },
        StageView::Force { .. } => RemovalAskView::Git {
            dir: v.canonical,
            args: seq!["worktree"@, "remove"@, "--force"@, v.dst],
        },
        StageView::Gone => RemovalAskView::Nothing,
    }
}

/// The stage in which files are carried, or the next one where none is left.
pub open spec fn carrying(
    survey: SurveyView,
    same: Seq<Seq<char>>,
    carried: Seq<Seq<char>>,
    left: Seq<Seq<char>>,
) -> StageView {
    if left.len() == 0 {
        StageView::Plain { survey, same, carried }
    } else {
        StageView::Carry { survey, same, carried, left }
    }
}

/// The stage in which notes are compared; where none is left, the untracked files and the
/// notes that are missing in the canonical repo are carried.
pub open spec fn comparing(
    survey: SurveyView,
    same: Seq<Seq<char>>,
    missing: Seq<Seq<char>>,
    left: Seq<Seq<char>>,
) -> StageView {
    if left.len() == 0 {
        carrying(survey, same, Seq::empty(), untracked_in(survey.untracked) + missing)
    } else {
        StageView::Compare { survey, same, missing, left }
    }
}

/// Where the answer takes the removal. An answer to another question leaves it where it is.
pub open spec fn removal_next(v: RemovalView, answer: AnswerView) -> Result<
    StageView,
    SpaceErrorView,
> {
    match (v.stage, answer) {
        (StageView::Gone, _) => Ok(StageView::Gone),
        (StageView::Plain { survey, same, carried }, AnswerView::Said(reply)) => Ok(
            if reply is Ok {
                StageView::Gone
            } else {
                StageView::Force { survey, same, carried }
            },
        ),
        (_, AnswerView::Said(Err(report))) => Err(SpaceErrorView::Failed { report }),
        (StageView::Inspect, AnswerView::Said(Ok(status))) => {
            let changes = tracked_changes(lines_of(status));
            if changes > 0 {
                Err(SpaceErrorView::Dirty { repo: v.repo, changes })
            } else {
                Ok(StageView::Untracked { status })
            }
        },
        (StageView::Untracked { status }, AnswerView::Said(Ok(untracked))) => {
            if has_unreadable(untracked_in(untracked)) {
                Err(SpaceErrorView::UnreadableName { repo: v.repo })
            } else {
                Ok(StageView::Ignored { status, untracked })
            }
        },
        (StageView::Ignored { status, untracked }, AnswerView::Said(Ok(ignored))) => {
            if has_unreadable(ignored_notes(ignored)) {
                Err(SpaceErrorView::UnreadableName { repo: v.repo })
            } else {
                Ok(
                    comparing(
                        SurveyView { status, untracked, ignored },
                        Seq::empty(),
                        Seq::empty(),
                        ignored_notes(ignored),
                    ),
                )
            }
        },
        (StageView::Compare { survey, same, missing, left }, AnswerView::Held(b)) => match b {
            Beside::Same => Ok(comparing(survey, same.push(left[0]), missing, left.drop_first())),
            Beside::Missing => Ok(
                comparing(survey, same, missing.push(left[0]), left.drop_first()),
            ),
            Beside::Differs => Err(SpaceErrorView::NoteDiffers { repo: v.repo, file: left[0] }),
        },
        (StageView::Carry { survey, same, carried, left }, AnswerView::Said(Ok(_))) => Ok(
            carrying(survey, same, carried.push(left[0]), left.drop_first()),
        ),
        (StageView::Force { .. }, AnswerView::Said(Ok(_))) => Ok(StageView::Gone),
        (stage, _) => Ok(stage),
    }
}

/// Whether the survey reports no tracked change, and names what is loose as it is called.
pub open spec fn is_clean(survey: SurveyView) -> bool {
    &&& tracked_changes(lines_of(survey.status)) == 0
    &&& !has_unreadable(untracked_in(survey.untracked))
    &&& !has_unreadable(ignored_notes(survey.ignored))
}

/// Whether every untracked file of the survey is in `moved`, and every ignored note is there
/// or in `same`.
pub open spec fn accounts_for(
    survey: SurveyView,
    same: Seq<Seq<char>>,
    moved: Seq<Seq<char>>,
) -> bool {
    &&& forall|f: Seq<char>| untracked_in(survey.untracked).contains(f) ==> moved.contains(f)
    &&& forall|f: Seq<char>|
        ignored_notes(survey.ignored).contains(f) ==> same.contains(f) || moved.contains(f)
}

/// What holds of every removal on its way: past the inspection no tracked change is
/// pending, and no untracked file and no ignored note is forgotten.
pub open spec fn removal_safe(stage: StageView) -> bool {
    match stage {
        StageView::Untracked { status } => tracked_changes(lines_of(status)) == 0,
        StageView::Ignored { status, untracked } => tracked_changes(lines_of(status)) == 0
            && !has_unreadable(untracked_in(untracked)),
        StageView::Compare { survey, same, missing, left } => {
            &&& left.len() > 0
            &&& is_clean(survey)
            &&& accounts_for(survey, same, untracked_in(survey.untracked) + missing + left)
        },
        StageView::Carry { survey, same, carried, left } => {
            &&& left.len() > 0
            &&& is_clean(survey)
            &&& accounts_for(survey, same, carried + left)
        },
        StageView::Plain { survey, same, carried } => {
            &&& is_clean(survey)
            &&& accounts_for(survey, same, carried)
        },
        StageView::Force { survey, same, carried } => {
            &&& is_clean(survey)
            &&& accounts_for(survey, same, carried)
        },
        _ => true,
    }
}

proof fn lemma_sum_holds(a: Seq<Seq<char>>, b: Seq<Seq<char>>)
    ensures
        forall|f: Seq<char>| #[trigger] (a + b).contains(f) <==> a.contains(f) || b.contains(f),
{
    assert forall|f: Seq<char>| #[trigger] (a + b).contains(f) <==> a.contains(f) || b.contains(
        f,
    ) by {
        if a.contains(f) {
            let i = choose|i: int| 0 <= i < a.len() && a[i] == f;
            assert((a + b)[i] == f);
        }
        if b.contains(f) {
            let i = choose|i: int| 0 <= i < b.len() && b[i] == f;
            assert((a + b)[a.len() + i] == f);
        }
    }
}

proof fn lemma_first_or_rest(a: Seq<Seq<char>>)
    requires
        a.len() > 0,
    ensures
        forall|f: Seq<char>|
            a.contains(f) <==> f == a[0] || #[trigger] a.drop_first().contains(f),
{
    assert(a == seq![a[0]] + a.drop_first());
    lemma_sum_holds(seq![a[0]], a.drop_first());
    assert(seq![a[0]][0] == a[0]);
    assert forall|f: Seq<char>|
        a.contains(f) <==> f == a[0] || #[trigger] a.drop_first().contains(f) by {
        assert((seq![a[0]] + a.drop_first()).contains(f) == a.contains(f));
    }
}

proof fn lemma_pushed_holds(a: Seq<Seq<char>>, x: Seq<char>)
    ensures
        forall|f: Seq<char>| #[trigger] a.push(x).contains(f) <==> a.contains(f) || f == x,
{
    assert(a.push(x) == a + seq![x]);
    lemma_sum_holds(a, seq![x]);
    assert(seq![x][0] == x);
}

/// A step of a safe removal leaves it safe.
proof fn lemma_removal_stays_safe(v: RemovalView, answer: AnswerView)
    requires
        removal_safe(v.stage),
    ensures
        removal_next(v, answer) matches Ok(stage) ==> removal_safe(stage),
{
    let none = Seq::<Seq<char>>::empty();
    match (v.stage, answer) {
        (StageView::Ignored { status, untracked }, AnswerView::Said(Ok(ignored))) => {
            let loose = untracked_in(untracked);
            let notes = ignored_notes(ignored);
            lemma_sum_holds(loose, none);
            lemma_sum_holds(loose + none, notes);
            assert(none + (loose + none) == loose + none);
        },
        (StageView::Compare { survey, same, missing, left }, AnswerView::Held(b)) => {
            let loose = untracked_in(survey.untracked);
            let x = left[0];
            let rest = left.drop_first();
            lemma_first_or_rest(left);
            lemma_sum_holds(loose, missing);
            lemma_sum_holds(loose + missing, left);
            lemma_sum_holds(loose + missing, rest);
            lemma_pushed_holds(same, x);
            lemma_pushed_holds(missing, x);
            lemma_sum_holds(loose, missing.push(x));
            lemma_sum_holds(loose + missing.push(x), rest);
            assert(none + (loose + missing) == loose + missing);
            assert(none + (loose + missing.push(x)) == loose + missing.push(x));
            assert forall|f: Seq<char>| rest.len() == 0 implies !rest.contains(f) by {}
        },
        (StageView::Carry { survey, same, carried, left }, AnswerView::Said(Ok(_))) => {
            let more = carried.push(left[0]);
            assert(more + left.drop_first() == carried + left);
            assert(left.drop_first().len() == 0 ==> more + left.drop_first() == more);
        },
        _ => {},
    }
}

/// The answer of git, over text.
pub open spec fn reply_view(r: Result<String, String>) -> Result<Seq<char>, Seq<char>> {
    match r {
        Ok(s) => Ok(s@),
        Err(e) => Err(e@),
    }
}

spec fn survey_view(s: Survey) -> SurveyView {
    SurveyView { status: s.status@, untracked: s.untracked@, ignored: s.ignored@ }
}

spec fn stage_view(s: Stage) -> StageView {
    match s {
        Stage::Inspect => StageView::Inspect,
        Stage::Untracked { status } => StageView::Untracked { status: status@ },
        Stage::Ignored { status, untracked } => StageView::Ignored {
            status: status@,
            untracked: untracked@,
        },
        Stage::Compare { survey, same, missing, left } => StageView::Compare {
            survey: survey_view(survey),
            same: same.deep_view(),
            missing: missing.deep_view(),
            left: left.deep_view(),
        },
        Stage::Carry { survey, same, carried, left } => StageView::Carry {
            survey: survey_view(survey),
            same: same.deep_view(),
            carried: carried.deep_view(),
            left: left.deep_view(),
        },
        Stage::Plain { survey, same, carried } => StageView::Plain {
            survey: survey_view(survey),
            same: same.deep_view(),
            carried: carried.deep_view(),
        },
        Stage::Force { survey, same, carried } => StageView::Force {
            survey: survey_view(survey),
            same: same.deep_view(),
            carried: carried.deep_view(),
        },
        Stage::Gone => StageView::Gone,
    }
}

fn carry_on(survey: Survey, same: Vec<String>, carried: Vec<String>, left: Vec<String>) -> (r:
    Stage)
    ensures
        stage_view(r) == carrying(
            survey_view(survey),
            same.deep_view(),
            carried.deep_view(),
            left.deep_view(),
        ),
{
    assert(left.deep_view().len() == left@.len());
    if left.len() == 0 {
        Stage::Plain { survey, same, carried }
    } else {
        Stage::Carry { survey, same, carried, left }
    }
}

fn compare_on(survey: Survey, same: Vec<String>, missing: Vec<String>, left: Vec<String>) -> (r:
    Stage)
    ensures
        stage_view(r) == comparing(
            survey_view(survey),
            same.deep_view(),
            missing.deep_view(),
            left.deep_view(),
        ),
{
    assert(left.deep_view().len() == left@.len());
    if left.len() == 0 {
        let all = split(survey.untracked.as_str(), '\0');
        let mut loose = keep_nonempty(&all);
        let ghost head = loose.deep_view();
        let ghost tail = missing.deep_view();
        let mut missing = missing;
        loose.append(&mut missing);
        assert(loose.deep_view() == head + tail);
        let carried: Vec<String> = Vec::new();
        assert(carried.deep_view() == Seq::<Seq<char>>::empty());
        carry_on(survey, same, carried, loose)
    } else {
        Stage::Compare { survey, same, missing, left }
    }
}

/// Moves the first of `left` to the end of `done`.
fn shift(left: &mut Vec<String>, done: &mut Vec<String>)
    requires
        old(left)@.len() > 0,
    ensures
        final(left).deep_view() == old(left).deep_view().drop_first(),
        final(done).deep_view() == old(done).deep_view().push(old(left).deep_view()[0]),
{
    let ghost todo = left.deep_view();
    let ghost before = done.deep_view();
    let rel = left.remove(0);
    assert(rel@ == todo[0]);
    assert(left.deep_view() == todo.drop_first());
    done.push(rel);
    assert(done.deep_view() == before.push(todo[0]));
}

impl Removal {
    /// The removal of the worktree `dst` of the repo at `canonical`.
    pub fn start(canonical: String, dst: String, repo: String) -> (r: Removal)
        ensures
            r.deep_view() == (RemovalView {
                canonical: canonical@,
                dst: dst@,
                repo: repo@,
                stage: StageView::Inspect,
            }),
    {
        Removal { canonical, dst, repo, stage: Stage::Inspect }
    }

    /// What is to be done next.
    pub fn ask(&self) -> (r: RemovalAsk)
        requires
            removal_safe(self.deep_view().stage),
        ensures
            r.deep_view() == removal_ask(self.deep_view()),
    {
        match &self.stage {
            Stage::Inspect => {
                let args = strings(&["status", "--porcelain"]);
                assert(args.deep_view() == seq!["status"@, "--porcelain"@]);
                RemovalAsk::Git { dir: self.dst.clone(), args }
            },
            Stage::Untracked { .. } => {
                RemovalAsk::List { dir: self.dst.clone(), args: untracked_args() }
            },
            Stage::Ignored { .. } => {
                RemovalAsk::List { dir: self.dst.clone(), args: ignored_args() }
            },
            Stage::Compare { left, .. } => {
                assert(left.deep_view().len() == left@.len());
                assert(left.deep_view()[0] == left@[0]@);
                let rel = left[0].as_str();
                RemovalAsk::Compare {
                    from: join(self.dst.as_str(), rel),
                    to: join(self.canonical.as_str(), rel),
                }
            },
            Stage::Carry { left, .. } => {
                assert(left.deep_view().len() == left@.len());
                assert(left.deep_view()[0] == left@[0]@);
                let rel = left[0].as_str();
                RemovalAsk::Copy {
                    from: join(self.dst.as_str(), rel),
                    to: join(self.canonical.as_str(), rel),
                    note: cat3("carrying ", rel, " back to the canonical repo"),
                }
            },
            Stage::Plain { .. } => {
                let args = strings(&["worktree", "remove", self.dst.as_str()]);
                assert(args.deep_view() == seq!["worktree"@, "remove"@, self.dst@]);
                RemovalAsk::Git { dir: self.canonical.clone(), args }
            },
            Stage::Force { .. } => {
                let args = strings(&["worktree", "remove", "--force", self.dst.as_str()]);
                assert(args.deep_view() == seq!["worktree"@, "remove"@, "--force"@, self.dst@]);
                RemovalAsk::Git { dir: self.canonical.clone(), args }
            },
            Stage::Gone => RemovalAsk::Nothing,
        }
    }

    /// Whether the worktree is gone.
    pub fn is_gone(&self) -> (r: bool)
        ensures
            r == (self.deep_view().stage is Gone),
    {
        match &self.stage {
            Stage::Gone => true,
            _ => false,
        }
    }

    /// Whether everything has been looked at: what is asked for from here on touches the
    /// worktree or the canonical repo.
    pub fn is_checked(&self) -> (r: bool)
        ensures
            r == is_checked_stage(self.deep_view().stage),
    {
        match &self.stage {
            Stage::Carry { .. } | Stage::Plain { .. } | Stage::Force { .. } | Stage::Gone => true,
            _ => false,
        }
    }

    /// The removal after what was asked for has been answered.
    pub fn next(self, answer: Answer) -> (r: Result<Removal, SpaceError>)
        requires
            removal_safe(self.deep_view().stage),
        ensures
            match removal_next(self.deep_view(), answer.deep_view()) {
                Ok(stage) => r matches Ok(x) && removal_safe(stage) && x.deep_view() == (
                RemovalView { stage, ..self.deep_view() }),
                Err(e) => r matches Err(x) && x.deep_view() == e,
            },
    {
        proof {
            lemma_removal_stays_safe(self.deep_view(), answer.deep_view());
        }
        let Removal { canonical, dst, repo, stage } = self;
        let stage = match (stage, answer) {
            (Stage::Gone, _) => Stage::Gone,
            (Stage::Plain { survey, same, carried }, Answer::Said(reply)) => {
                if reply.is_ok() {
                    Stage::Gone
                } else {
                    Stage::Force { survey, same, carried }
                }
            },
            (_, Answer::Said(Err(report))) => {
                return Err(SpaceError::Failed { report });
            },
            (Stage::Inspect, Answer::Said(Ok(status))) => {
                let all = lines(status.as_str());
                let changes = count_changes(&all);
                if changes > 0 {
                    return Err(SpaceError::Dirty { repo, changes });
                }
                Stage::Untracked { status }
            },
            (Stage::Untracked { status }, Answer::Said(Ok(untracked))) => {
                let all = split(untracked.as_str(), '\0');
                let loose = keep_nonempty(&all);
                if any_unreadable(&loose) {
                    return Err(SpaceError::UnreadableName { repo });
                }
                Stage::Ignored { status, untracked }
            },
            (Stage::Ignored { status, untracked }, Answer::Said(Ok(ignored))) => {
                let all = split(ignored.as_str(), '\0');
                let notes = keep_notes(&all);
                let left = keep_nonempty(&notes);
                if any_unreadable(&left) {
                    return Err(SpaceError::UnreadableName { repo });
                }
                let survey = Survey { status, untracked, ignored };
                let same: Vec<String> = Vec::new();
                let missing: Vec<String> = Vec::new();
                assert(same.deep_view() == Seq::<Seq<char>>::empty());
                assert(missing.deep_view() == Seq::<Seq<char>>::empty());
                compare_on(survey, same, missing, left)
            },
            (Stage::Compare { survey, same, missing, left }, Answer::Held(b)) => {
                assert(left.deep_view().len() == left@.len());
                let mut same = same;
                let mut missing = missing;
                let mut left = left;
                match b {
                    Beside::Same => {
                        shift(&mut left, &mut same);
                        compare_on(survey, same, missing, left)
                    },
                    Beside::Missing => {
                        shift(&mut left, &mut missing);
                        compare_on(survey, same, missing, left)
                    },
                    Beside::Differs => {
                        assert(left.deep_view()[0] == left@[0]@);
                        let file = left[0].clone();
                        return Err(SpaceError::NoteDiffers { repo, file });
                    },
                }
            },
            (Stage::Carry { survey, same, carried, left }, Answer::Said(Ok(_))) => {
                assert(left.deep_view().len() == left@.len());
                let mut carried = carried;
                let mut left = left;
                shift(&mut left, &mut carried);
                carry_on(survey, same, carried, left)
            },
            (Stage::Force { .. }, Answer::Said(Ok(_))) => Stage::Gone,
            (stage, _) => stage,
        };
        Ok(Removal { canonical, dst, repo, stage })
    }
}

/// Whether a stage lies behind all that is only looked at.
pub open spec fn is_checked_stage(stage: StageView) -> bool {
    stage is Carry || stage is Plain || stage is Force || stage is Gone
}

/// The notes found to be the same in the canonical repo so far.
pub open spec fn same_so_far(stage: StageView) -> Seq<Seq<char>> {
    match stage {
        StageView::Compare { same, .. } => same,
        StageView::Carry { same, .. } => same,
        StageView::Plain { same, .. } => same,
        StageView::Force { same, .. } => same,
        _ => Seq::empty(),
    }
}

/// The files carried back so far.
pub open spec fn carried_so_far(stage: StageView) -> Seq<Seq<char>> {
    match stage {
        StageView::Carry { carried, .. } => carried,
        StageView::Plain { carried, .. } => carried,
        StageView::Force { carried, .. } => carried,
        _ => Seq::empty(),
    }
}

/// Removing a worktree never discards work. Every step keeps the removal safe. Tracked
/// changes, a loose file whose name is no text, a note that differs from the canonical repo's,
/// and a file that cannot be carried each end it. Git is told to remove the worktree, plainly or by force, only where the
/// inspection found no tracked change, every untracked file has been carried back, and every
/// ignored note was carried back or is the same there already. A file counts as the same or
/// as carried only once the comparison asked for says so or the copy asked for succeeds.
pub proof fn law_removal_never_discards_work(v: RemovalView, answer: AnswerView)
    requires
        removal_safe(v.stage),
    ensures
        removal_next(v, answer) matches Ok(stage) ==> removal_safe(stage),
        v.stage matches StageView::Inspect && answer matches AnswerView::Said(Ok(status))
            && tracked_changes(lines_of(status)) > 0 ==> removal_next(v, answer) is Err,
        v.stage is Untracked && (answer matches AnswerView::Said(Ok(listing)) && has_unreadable(
            untracked_in(listing),
        )) ==> removal_next(v, answer) is Err,
        v.stage is Ignored && (answer matches AnswerView::Said(Ok(listing)) && has_unreadable(
            ignored_notes(listing),
        )) ==> removal_next(v, answer) is Err,
        v.stage is Compare && answer == AnswerView::Held(Beside::Differs) ==> removal_next(
            v,
            answer,
        ) is Err,
        v.stage is Carry && (answer matches AnswerView::Said(Err(_))) ==> removal_next(
            v,
            answer,
        ) is Err,
        removal_ask(v) matches RemovalAskView::Git { dir, args } && args[0] == "worktree"@ ==> (
        match v.stage {
            StageView::Plain { survey, same, carried } => is_clean(survey) && accounts_for(
                survey,
                same,
                carried,
            ),
            StageView::Force { survey, same, carried } => is_clean(survey) && accounts_for(
                survey,
                same,
                carried,
            ),
            _ => false,
        }),
        forall|f: Seq<char>|
            removal_next(v, answer) is Ok && #[trigger] same_so_far(
                removal_next(v, answer)->Ok_0,
            ).contains(f) ==> same_so_far(v.stage).contains(f) || (answer == AnswerView::Held(Beside::Same)
                && (v.stage matches StageView::Compare { left, .. } && f == left[0])),
        forall|f: Seq<char>|
            removal_next(v, answer) is Ok && #[trigger] carried_so_far(
                removal_next(v, answer)->Ok_0,
            ).contains(f) ==> carried_so_far(v.stage).contains(f) || ((answer matches AnswerView::Said(Ok(_)))
                && (v.stage matches StageView::Carry { left, .. } && f == left[0])),
{
    lemma_removal_stays_safe(v, answer);
    match v.stage {
        StageView::Compare { same, left, .. } => {
            lemma_pushed_holds(same, left[0]);
        },
        StageView::Carry { carried, left, .. } => {
            lemma_pushed_holds(carried, left[0]);
        },
        _ => {},
    }
    reveal_strlit("worktree");
    reveal_strlit("status");
    assert("worktree"@[0] == 'w' && "status"@[0] == 's');
}

/// Once everything has been looked at, no answer takes a removal back before that.
pub proof fn law_checked_stays_checked(v: RemovalView, answer: AnswerView)
    requires
        is_checked_stage(v.stage),
    ensures
        removal_next(v, answer) matches Ok(stage) ==> is_checked_stage(stage),
{
}

/// Whether what a removal asks for touches the worktree or the canonical repo.
pub open spec fn removal_touches(ask: RemovalAskView) -> bool {
    match ask {
        RemovalAskView::Git { dir, args } => args != seq!["status"@, "--porcelain"@],
        RemovalAskView::List { dir, args } => args != untracked_command() && args
            != ignored_command(),
        RemovalAskView::Compare { .. } => false,
        RemovalAskView::Copy { .. } => true,
        RemovalAskView::Nothing => false,
    }
}

/// Until everything has been looked at, a removal asks for nothing that touches a file: git
/// reports and comparisons alone.
pub proof fn law_checking_touches_nothing(v: RemovalView)
    requires
        !is_checked_stage(v.stage),
    ensures
        !removal_touches(removal_ask(v)),
{
}

/// How a member leaves a space.
#[derive(Clone, Debug)]
pub enum Removing {
    /// Its symlink is unlinked.
    Unlink { act: Act },
    /// Its worktree is removed.
    Worktree { removal: Removal },
}

/// How a member leaves a space, over text.
#[verifier::ext_equal]
pub enum RemovingView {
    Unlink { act: ActView },
    Worktree { removal: RemovalView },
}

impl DeepView for Removing {
    type V = RemovingView;

    open spec fn deep_view(&self) -> RemovingView {
        match self {
            Removing::Unlink { act } => RemovingView::Unlink { act: act.deep_view() },
            Removing::Worktree { removal } => RemovingView::Worktree {
                removal: removal.deep_view(),
            },
        }
    }
}

/// Whether an entry of a space is a linked worktree: a directory whose `.git` is a file that
/// leads to a git directory with a `HEAD`. A full clone is none.
pub open spec fn is_linked(f: MemberFactView) -> bool {
    f.kind == Kind::Dir && linked_branch(f.git_file, f.head) is Some
}

fn linked(f: &MemberFact) -> (r: bool)
    ensures
        r == is_linked(f.deep_view()),
{
    f.kind == Kind::Dir && linked_worktree_branch(&f.git_file, &f.head).is_some()
}

/// What removing a member comes to, given what is there, whether git takes it for a work
/// tree, and git's answer on the shared `.git`.
pub open spec fn removing(
    space: Seq<char>,
    f: MemberFactView,
    worktree: bool,
    common: Result<Seq<char>, Seq<char>>,
) -> Result<RemovingView, SpaceErrorView> {
    let repo = f.name;
    let dst = joined_path(space, repo);
    if f.kind == Kind::Missing {
        Err(SpaceErrorView::NotMember { repo })
    } else if f.kind == Kind::Link {
        Ok(RemovingView::Unlink { act: ActView::RemoveFile { path: dst } })
    } else if is_linked(f) && worktree {
        match common {
            Ok(c) => match canonical_in(dst, c) {
                Some(canonical) => Ok(
                    RemovingView::Worktree {
                        removal: RemovalView { canonical, dst, repo, stage: StageView::Inspect },
                    },
                ),
                None => Err(SpaceErrorView::NoCommonDir),
            },
            Err(report) => Err(SpaceErrorView::Failed { report }),
        }
    } else {
        Err(SpaceErrorView::Unmanaged { repo })
    }
}

/// Where a member of a space is.
pub fn member_path(space: &str, repo: &str) -> (r: String)
    ensures
        r@ == joined_path(space@, repo@),
{
    join(space, repo)
}

/// Remove a repo from a space (unlink a symlink, or `git worktree remove`). What the tool did
/// not make, a full clone too, is left alone.
pub fn remove_repo(
    space: &str,
    member: &MemberFact,
    worktree: bool,
    common: &Result<String, String>,
) -> (r: Result<Removing, SpaceError>)
    ensures
        match removing(space@, member.deep_view(), worktree, reply_view(*common)) {
            Ok(v) => r matches Ok(x) && x.deep_view() == v,
            Err(e) => r matches Err(x) && x.deep_view() == e,
        },
{
    let repo = member.name.as_str();
    let dst = join(space, repo);
    if member.kind == Kind::Missing {
        return Err(SpaceError::NotMember { repo: repo.to_owned() });
    }
    if member.kind == Kind::Link {
        return Ok(Removing::Unlink { act: Act::RemoveFile { path: dst } });
    }
    if linked(member) && worktree {
        match canonical_of_worktree(dst.as_str(), common) {
            Ok(canonical) => {
                let removal = Removal::start(canonical, dst, repo.to_owned());
                return Ok(Removing::Worktree { removal });
            },
            Err(e) => {
                return Err(e);
            },
        }
    }
    Err(SpaceError::Unmanaged { repo: repo.to_owned() })
}

/// What the tool did not make is never touched: a member that shows as unmanaged, such as a
/// full clone or a plain directory, cannot be removed through the space, and neither can a
/// plain file.
pub proof fn law_unmanaged_is_left_alone(
    space: Seq<char>,
    f: MemberFactView,
    policy_file: Seq<char>,
    worktree: bool,
    common: Result<Seq<char>, Seq<char>>,
)
    ensures
        removing(space, f, worktree, common) is Ok ==> f.kind == Kind::Link || is_linked(f),
        member_in(f, policy_file) matches Some(m) && m.state is Foreign ==> removing(
            space,
            f,
            worktree,
            common,
        ) is Err,
{
}

// ---- worktrees -----------------------------------------------------------------------------------

/// A branch name with path separators and white space made dashes.
pub open spec fn branch_slug(branch: Seq<char>) -> Seq<char> {
    Seq::new(
        branch.len(),
        |i: int| if branch[i] == '/' || is_white(branch[i]) {
            '-'
        } else {
            branch[i]
        },
    )
}

/// The directory name of a worktree.
pub open spec fn worktree_name(repo: Seq<char>, branch: Seq<char>) -> Seq<char> {
    repo + "-"@ + branch_slug(branch)
}

/// Directory name for a worktree: `<repo>-<branch>` with path separators
/// flattened, so every worktree names its branch in the dir listing.
pub fn worktree_dir_name(repo: &str, branch: &str) -> (r: String)
    ensures
        r@ == worktree_name(repo@, branch@),
{
    let mut slug = String::new();
    for c in it: branch.chars()
        invariant
            it.seq() == branch@,
            slug@ == branch_slug(branch@).take(it.index() as int),
    {
        let ghost n = it.index() as int;
        slug.push(if c == '/' || white(c) { '-' } else { c });
        assert(branch_slug(branch@).take(n + 1) == branch_slug(branch@).take(n).push(
            branch_slug(branch@)[n],
        ));
    }
    assert(branch_slug(branch@).take(branch@.len() as int) == branch_slug(branch@));
    cat3(repo, "-", slug.as_str())
}

/// A worktree's directory stays directly in its space: its name holds no separator where
/// the repo's own name holds none.
pub proof fn law_worktree_name_is_flat(repo: Seq<char>, branch: Seq<char>)
    requires
        !repo.contains('/'),
    ensures
        !worktree_name(repo, branch).contains('/'),
{
    let name = worktree_name(repo, branch);
    reveal_strlit("-");
    assert forall|i: int| 0 <= i < name.len() implies name[i] != '/' by {
        if i < repo.len() {
            assert(repo[i] == name[i]);
        } else if i == repo.len() {
            assert(name[i] == "-"@[0]);
        } else {
            assert(name[i] == branch_slug(branch)[i - repo.len() - 1]);
        }
    }
}

/// Where the canonical repo of a member is to be found.
#[derive(Clone, Copy, Debug, PartialEq, Eq, Structural)]
pub enum Source {
    /// Behind its symlink.
    Link,
    /// Behind the shared `.git` of its worktree.
    Worktree,
    /// In the pool.
    Pool,
}

/// Where to look for the canonical repo, given what the member is (links not followed)
/// and its facts as a linked worktree.
pub fn canonical_source(
    kind: Kind,
    git_file: &Option<String>,
    head: &Option<String>,
) -> (r: Source)
    ensures
        r == (if kind == Kind::Link {
            Source::Link
        } else if kind == Kind::Dir && linked_branch(git_file.deep_view(), head.deep_view())
            is Some {
            Source::Worktree
        } else {
            Source::Pool
        }),
{
    if kind == Kind::Link {
        Source::Link
    } else if kind == Kind::Dir && linked_worktree_branch(git_file, head).is_some() {
        Source::Worktree
    } else {
        Source::Pool
    }
}

/// The branch that a new worktree is asked for.
pub fn checked_branch(branch: &str) -> (r: Result<String, SpaceError>)
    ensures
        if trimmed(branch@).len() == 0 {
            r matches Err(x) && x.deep_view() == SpaceErrorView::EmptyBranch
        } else {
            r matches Ok(b) && b@ == trimmed(branch@)
        },
{
    let branch = trim(branch);
    if branch.as_str().is_empty() {
        Err(SpaceError::EmptyBranch)
    } else {
        Ok(branch)
    }
}

/// The directory name of a new worktree: after the canonical repo, or after the member
/// where that has no name.
pub open spec fn new_worktree_name(
    repo: Seq<char>,
    canonical: Seq<char>,
    branch: Seq<char>,
) -> Seq<char> {
    let base = match file_name_of(canonical) {
        Some(n) => n,
        None => repo,
    };
    worktree_name(base, trimmed(branch))
}

fn make_worktree_name(repo: &str, canonical: &str, branch: &str) -> (r: String)
    ensures
        r@ == new_worktree_name(repo@, canonical@, branch@),
{
    let base = match file_name(canonical) {
        Some(n) => n,
        None => repo.to_owned(),
    };
    let branch = trim(branch);
    worktree_dir_name(base.as_str(), branch.as_str())
}

/// Where a new worktree goes.
pub fn promotion_path(space: &str, repo: &str, canonical: &str, branch: &str) -> (r: String)
    ensures
        r@ == joined_path(space@, new_worktree_name(repo@, canonical@, branch@)),
{
    let name = make_worktree_name(repo, canonical, branch);
    join(space, name.as_str())
}

/// How a new worktree comes about.
#[derive(Clone, Debug)]
pub struct Promotion {
    pub name: String,
    pub dst: String,
    /// The arguments for git, run in the canonical repo, that make a new branch.
    pub create: Vec<String>,
    /// Those that check out an existing branch, where the first fail.
    pub checkout: Vec<String>,
}

/// A promotion over text.
#[verifier::ext_equal]
pub struct PromotionView {
    pub name: Seq<char>,
    pub dst: Seq<char>,
    pub create: Seq<Seq<char>>,
    pub checkout: Seq<Seq<char>>,
}

impl DeepView for Promotion {
    type V = PromotionView;

    open spec fn deep_view(&self) -> PromotionView {
        PromotionView {
            name: self.name@,
            dst: self.dst@,
            create: self.create.deep_view(),
            checkout: self.checkout.deep_view(),
        }
    }
}

/// What adding a worktree comes to, given the canonical repo, whether there is a `.git` in
/// it, and what is at the place of the worktree (links not followed).
pub open spec fn promoting(
    space: Seq<char>,
    repo: Seq<char>,
    branch: Seq<char>,
    canonical: Seq<char>,
    has_git: bool,
    at: Kind,
) -> Result<PromotionView, SpaceErrorView> {
    let b = trimmed(branch);
    let name = new_worktree_name(repo, canonical, branch);
    let dst = joined_path(space, name);
    if b.len() == 0 {
        Err(SpaceErrorView::EmptyBranch)
    } else if !has_git {
        Err(SpaceErrorView::NoCanonical { repo })
    } else if at != Kind::Missing {
        Err(SpaceErrorView::NameTaken { name })
    } else {
        Ok(
            PromotionView {
                name,
                dst,
                create: seq!["worktree"@, "add"@, dst, "-b"@, b],
                checkout: seq!["worktree"@, "add"@, dst, b],
            },
        )
    }
}

/// Add a worktree of `repo` on `branch` as `<repo>-<branch-slug>`, next to the
/// repo's symlink, which always stays as the canonical view. Run again with
/// another branch for another parallel worktree; git's only constraint is that
/// a branch can be checked out in at most one worktree at a time. The plan is carried out as a
/// `NewWorktree`, which also copies loose untracked files and gitignored `*.md` notes in.
pub fn promote_to_worktree(
    space: &str,
    repo: &str,
    branch: &str,
    canonical: &str,
    has_git: bool,
    at: Kind,
) -> (r: Result<Promotion, SpaceError>)
    ensures
        match promoting(space@, repo@, branch@, canonical@, has_git, at) {
            Ok(p) => r matches Ok(x) && x.deep_view() == p,
            Err(e) => r matches Err(x) && x.deep_view() == e,
        },
{
    let name = make_worktree_name(repo, canonical, branch);
    let branch = match checked_branch(branch) {
        Ok(b) => b,
        Err(e) => {
            return Err(e);
        },
    };
    if !has_git {
        return Err(SpaceError::NoCanonical { repo: repo.to_owned() });
    }
    let dst = join(space, name.as_str());
    if at != Kind::Missing {
        return Err(SpaceError::NameTaken { name });
    }
    let create = strings(&["worktree", "add", dst.as_str(), "-b", branch.as_str()]);
    assert(create.deep_view() == seq!["worktree"@, "add"@, dst@, "-b"@, branch@]);
    let checkout = strings(&["worktree", "add", dst.as_str(), branch.as_str()]);
    assert(checkout.deep_view() == seq!["worktree"@, "add"@, dst@, branch@]);
    Ok(Promotion { name, dst, create, checkout })
}

/// The arguments for git that list untracked files, each name as it is and ended by a NUL.
pub open spec fn untracked_command() -> Seq<Seq<char>> {
    seq!["ls-files"@, "--others"@, "--exclude-standard"@, "-z"@]
}

/// The arguments for git that list ignored files, each name as it is and ended by a NUL.
pub open spec fn ignored_command() -> Seq<Seq<char>> {
    seq!["ls-files"@, "--others"@, "--ignored"@, "--exclude-standard"@, "-z"@]
}

/// The arguments for git that list untracked files, each name as it is and ended by a NUL.
pub fn untracked_args() -> (r: Vec<String>)
    ensures
        r.deep_view() == untracked_command(),
{
    let r = strings(&["ls-files", "--others", "--exclude-standard", "-z"]);
    assert(r.deep_view() == untracked_command());
    r
}

/// The arguments for git that list ignored files, each name as it is and ended by a NUL.
pub fn ignored_args() -> (r: Vec<String>)
    ensures
        r.deep_view() == ignored_command(),
{
    let r = strings(&["ls-files", "--others", "--ignored", "--exclude-standard", "-z"]);
    assert(r.deep_view() == ignored_command());
    r
}

/// The members of `parts` that end in `.md`.
pub open spec fn notes_in(parts: Seq<Seq<char>>) -> Seq<Seq<char>>
    decreases parts.len(),
{
    if parts.len() == 0 {
        Seq::empty()
    } else if has_suffix(parts.last(), ".md"@) {
        notes_in(parts.drop_last()).push(parts.last())
    } else {
        notes_in(parts.drop_last())
    }
}

/// The files that follow into a new worktree: the untracked ones, and the ignored notes.
pub open spec fn loose_files(untracked: Seq<char>, ignored: Seq<char>) -> Seq<Seq<char>> {
    untracked_in(untracked) + ignored_notes(ignored)
}

/// The copies, from and to, of files that lie alike in two directories.
pub open spec fn copies(
    from: Seq<char>,
    to: Seq<char>,
    files: Seq<Seq<char>>,
) -> Seq<(Seq<char>, Seq<char>)> {
    files.map_values(|rel: Seq<char>| (joined_path(from, rel), joined_path(to, rel)))
}

fn keep_notes(parts: &Vec<String>) -> (r: Vec<String>)
    ensures
        r.deep_view() == notes_in(parts.deep_view()),
{
    let ghost view = parts.deep_view();
    let mut out: Vec<String> = Vec::new();
    assert(view.take(0) == Seq::<Seq<char>>::empty());
    assert(out.deep_view() == Seq::<Seq<char>>::empty());
    for i in 0..parts.len()
        invariant
            view == parts.deep_view(),
            out.deep_view() == notes_in(view.take(i as int)),
    {
        let ghost before = out.deep_view();
        assert(view.take(i + 1).drop_last() == view.take(i as int));
        assert(view.take(i + 1).last() == parts@[i as int]@);
        if ends(parts[i].as_str(), ".md") {
            let part = parts[i].clone();
            out.push(part);
            assert(out.deep_view() == before.push(part@));
        }
    }
    assert(view.take(parts@.len() as int) == view);
    out
}

/// Copy untracked files (and ignored `*.md` notes) from canonical into a fresh
/// worktree. A worktree only materializes tracked files, so loose notes would
/// otherwise vanish; we deliberately skip bulky ignored trees (node_modules,
/// target, …) by only bringing ignored markdown across. `untracked` and `ignored` are what
/// git lists; the copies are handed out.
pub fn copy_loose_files(
    canonical: &str,
    dest: &str,
    untracked: &str,
    ignored: &str,
) -> (r: Vec<(String, String)>)
    ensures
        r.deep_view() == copies(canonical@, dest@, loose_files(untracked@, ignored@)),
{
    let listed = split(untracked, '\0');
    let mut files = keep_nonempty(&listed);
    let listed = split(ignored, '\0');
    let notes = keep_notes(&listed);
    let mut notes = keep_nonempty(&notes);
    let ghost head = files.deep_view();
    let ghost tail = notes.deep_view();
    files.append(&mut notes);
    assert(files.deep_view() == head + tail);
    let ghost want = copies(canonical@, dest@, files.deep_view());
    let mut out: Vec<(String, String)> = Vec::new();
    for i in 0..files.len()
        invariant
            want == copies(canonical@, dest@, files.deep_view()),
            out.deep_view() == want.take(i as int),
    {
        let ghost before = out.deep_view();
        let rel = files[i].as_str();
        let pair = (join(canonical, rel), join(dest, rel));
        out.push(pair);
        assert(out.deep_view() == before.push((pair.0@, pair.1@)));
        assert(files.deep_view()[i as int] == rel@);
        assert(want[i as int] == (pair.0@, pair.1@));
        assert(want.take(i + 1) == want.take(i as int).push(want[i as int]));
    }
    assert(want.take(files@.len() as int) == want);
    out
}

/// Remove a worktree member, so that its repo's plain symlink can take its place: the
/// removal to run. `worktree` tells whether git takes the member for a work tree, `common`
/// is git's answer on the shared `.git`.
pub fn revert_to_symlink(
    space: &str,
    member: &MemberFact,
    worktree: bool,
    common: &Result<String, String>,
) -> (r: Result<Removal, SpaceError>)
    ensures
        ({
            let dst = joined_path(space@, member.name@);
            if !(is_linked(member.deep_view()) && worktree) {
                r matches Err(x) && x.deep_view() == (SpaceErrorView::NotWorktree {
                    member: member.name@,
                })
            } else {
                match common {
                    Ok(c) => match canonical_in(dst, c@) {
                        Some(canonical) => r matches Ok(x) && x.deep_view() == (RemovalView {
                            canonical,
                            dst,
                            repo: member.name@,
                            stage: StageView::Inspect,
                        }),
                        None => r matches Err(x) && x.deep_view() == SpaceErrorView::NoCommonDir,
                    },
                    Err(e) => r matches Err(x) && x.deep_view() == (SpaceErrorView::Failed {
                        report: e@,
                    }),
                }
            }
        }),
{
    let dst = join(space, member.name.as_str());
    if !(linked(member) && worktree) {
        return Err(SpaceError::NotWorktree { member: member.name.clone() });
    }
    match canonical_of_worktree(dst.as_str(), common) {
        Ok(canonical) => Ok(Removal::start(canonical, dst, member.name.clone())),
        Err(e) => Err(e),
    }
}

/// Where the plain symlink of a closed worktree's repo is: under the name of the canonical
/// repo, or of the member where that has no name.
pub open spec fn relink_at(space: Seq<char>, member: Seq<char>, canonical: Seq<char>) -> Seq<
    char,
> {
    match file_name_of(canonical) {
        Some(base) => joined_path(space, base),
        None => joined_path(space, member),
    }
}

/// Where the plain symlink of a closed worktree's repo is.
pub fn relink_path(space: &str, member: &str, canonical: &str) -> (r: String)
    ensures
        r@ == relink_at(space@, member@, canonical@),
{
    match file_name(canonical) {
        Some(base) => join(space, base.as_str()),
        None => join(space, member),
    }
}

/// The step that makes the repo's plain symlink exist after its worktree was closed, where
/// nothing is at its place: closing branch work always lands back on the canonical view.
pub fn relink(space: &str, member: &str, canonical: &str, at: Kind) -> (r: Option<Act>)
    ensures
        r.deep_view() == (if at == Kind::Missing {
            Some(
                ActView::Link {
                    target: canonical@,
                    at: relink_at(space@, member@, canonical@),
                    note: None,
                },
            )
        } else {
            None
        }),
{
    if at == Kind::Missing {
        Some(
            Act::Link {
                target: canonical.to_owned(),
                at: relink_path(space, member, canonical),
                note: None,
            },
        )
    } else {
        None
    }
}

// ---- deleting spaces -----------------------------------------------------------------------------

/// The name of the first member that the tool did not make.
pub open spec fn first_foreign(repos: Seq<SpaceRepoView>) -> Option<Seq<char>>
    decreases repos.len(),
{
    if repos.len() == 0 {
        None
    } else if repos[0].state is Foreign {
        Some(repos[0].name)
    } else {
        first_foreign(repos.drop_first())
    }
}

/// Whether an entry of the space `name` is one of the files that the tool itself writes there.
pub open spec fn is_own(f: MemberFactView, name: Seq<char>, policy_file: Seq<char>) -> bool {
    f.kind == Kind::File && (f.name == MARKER@ || f.name == policy_file || f.name == CODEX_POLICY@
        || f.name == workspace_name(name))
}

/// Whether an entry of the space `name` is a file or a folder of the user's: it is there, is
/// not the tool's, and is no member or leads to a file. Hidden ones count like others.
pub open spec fn is_user_entry(f: MemberFactView, name: Seq<char>, policy_file: Seq<char>) -> bool {
    f.kind != Kind::Missing && !is_own(f, name, policy_file) && (member_in(f, policy_file) is None
        || f.is_file)
}

/// The names of what is the user's own among the entries of the space `name`.
pub open spec fn user_entries(
    facts: Seq<MemberFactView>,
    name: Seq<char>,
    policy_file: Seq<char>,
) -> Seq<Seq<char>>
    decreases facts.len(),
{
    if facts.len() == 0 {
        Seq::empty()
    } else if is_user_entry(facts.last(), name, policy_file) {
        user_entries(facts.drop_last(), name, policy_file).push(facts.last().name)
    } else {
        user_entries(facts.drop_last(), name, policy_file)
    }
}

/// What deleting a space takes: the members to remove one by one, and the generated files
/// to drop after that, where they are there.
#[derive(Clone, Debug)]
pub struct Deletion {
    pub members: Vec<String>,
    pub files: Vec<String>,
}

/// A deletion over text.
#[verifier::ext_equal]
pub struct DeletionView {
    pub members: Seq<Seq<char>>,
    pub files: Seq<Seq<char>>,
}

impl DeepView for Deletion {
    type V = DeletionView;

    open spec fn deep_view(&self) -> DeletionView {
        DeletionView { members: self.members.deep_view(), files: self.files.deep_view() }
    }
}

/// The names of members.
pub open spec fn member_names(repos: Seq<SpaceRepoView>) -> Seq<Seq<char>> {
    repos.map_values(|r: SpaceRepoView| r.name)
}

/// What deleting the space at `path` comes to, given whether it is marked and its entries.
pub open spec fn deleting(
    path: Seq<char>,
    marked: bool,
    facts: Seq<MemberFactView>,
    policy_file: Seq<char>,
) -> Result<DeletionView, SpaceErrorView> {
    let space = space_in(path, facts, policy_file);
    let own = user_entries(facts, space.name, policy_file);
    if !marked {
        Err(SpaceErrorView::NotSpace)
    } else if first_foreign(space.repos) is Some {
        Err(SpaceErrorView::Foreign { name: first_foreign(space.repos)->0 })
    } else if own.len() > 0 {
        Err(SpaceErrorView::UserFiles { names: own })
    } else {
        Ok(
            DeletionView {
                members: member_names(space.repos),
                files: seq![
                    joined_path(path, MARKER@),
                    joined_path(path, policy_file),
                    joined_path(path, CODEX_POLICY@),
                    joined_path(path, workspace_name(space.name)),
                ],
            },
        )
    }
}

fn find_foreign(repos: &Vec<SpaceRepo>) -> (r: Option<String>)
    ensures
        r.deep_view() == first_foreign(repos.deep_view()),
{
    let ghost view = repos.deep_view();
    let mut i: usize = 0;
    assert(view.skip(0) == view);
    while i < repos.len()
        invariant
            i <= repos@.len(),
            view == repos.deep_view(),
            first_foreign(view) == first_foreign(view.skip(i as int)),
        decreases repos@.len() - i,
    {
        assert(view.skip(i as int)[0] == repos@[i as int].deep_view());
        assert(view.skip(i as int).drop_first() == view.skip(i + 1));
        match &repos[i].state {
            RepoState::Foreign => {
                return Some(repos[i].name.clone());
            },
            _ => {},
        }
        i = i + 1;
    }
    None
}

fn is_users(f: &MemberFact, name: &str, policy_file: &str) -> (r: bool)
    ensures
        r == is_user_entry(f.deep_view(), name@, policy_file@),
{
    let ws = workspace_filename(name);
    let n = f.name.as_str();
    let own = f.kind == Kind::File && (same(n, MARKER) || same(n, policy_file) || same(
        n,
        CODEX_POLICY,
    ) || same(n, ws.as_str()));
    f.kind != Kind::Missing && !own && (read_member(f, policy_file).is_none() || f.is_file)
}

fn find_user_entries(facts: &Vec<MemberFact>, name: &str, policy_file: &str) -> (r: Vec<String>)
    ensures
        r.deep_view() == user_entries(facts.deep_view(), name@, policy_file@),
{
    let ghost view = facts.deep_view();
    let mut out: Vec<String> = Vec::new();
    assert(view.take(0) == Seq::<MemberFactView>::empty());
    assert(out.deep_view() == Seq::<Seq<char>>::empty());
    for i in 0..facts.len()
        invariant
            view == facts.deep_view(),
            out.deep_view() == user_entries(view.take(i as int), name@, policy_file@),
    {
        let ghost before = out.deep_view();
        assert(view.take(i + 1).drop_last() == view.take(i as int));
        assert(view.take(i + 1).last() == facts@[i as int].deep_view());
        if is_users(&facts[i], name, policy_file) {
            let file = facts[i].name.clone();
            out.push(file);
            assert(out.deep_view() == before.push(file@));
        }
    }
    assert(view.take(facts@.len() as int) == view);
    out
}

fn repo_names(repos: &Vec<SpaceRepo>) -> (r: Vec<String>)
    ensures
        r.deep_view() == member_names(repos.deep_view()),
{
    let ghost want = member_names(repos.deep_view());
    let mut out: Vec<String> = Vec::new();
    for i in 0..repos.len()
        invariant
            want == member_names(repos.deep_view()),
            out.deep_view() == want.take(i as int),
    {
        let ghost before = out.deep_view();
        let name = repos[i].name.clone();
        out.push(name);
        assert(out.deep_view() == before.push(name@));
        assert(want[i as int] == name@);
        assert(want.take(i + 1) == want.take(i as int).push(want[i as int]));
    }
    assert(want.take(repos@.len() as int) == want);
    out
}

/// Delete a space: unlink every managed member (worktrees via git), drop the
/// generated files, then remove the now-empty folder. Refuses up front, before
/// touching anything, if the space holds files or dirs the tool didn't create,
/// so a rejected delete never leaves a half-dismantled space.
pub fn delete_space(
    space: &str,
    found: &Found,
    facts: &Vec<MemberFact>,
    policy_file: &str,
) -> (r: Result<Deletion, SpaceError>)
    ensures
        match deleting(
            space@,
            is_marked(found.deep_view(), space@),
            facts.deep_view(),
            policy_file@,
        ) {
            Ok(d) => r matches Ok(x) && x.deep_view() == d,
            Err(e) => r matches Err(x) && x.deep_view() == e,
        },
{
    if !is_space(space, found) {
        return Err(SpaceError::NotSpace);
    }
    let s = read_space(space, facts, policy_file);
    match find_foreign(&s.repos) {
        Some(name) => {
            return Err(SpaceError::Foreign { name });
        },
        None => {},
    }
    // Scratch notes at the root are the user's; refuse before dismantling anything.
    let names = find_user_entries(facts, s.name.as_str(), policy_file);
    if names.len() > 0 {
        assert(names.deep_view().len() > 0);
        return Err(SpaceError::UserFiles { names });
    }
    let ws = workspace_filename(s.name.as_str());
    let generated = vec![
        join(space, MARKER),
        join(space, policy_file),
        join(space, CODEX_POLICY),
        join(space, ws.as_str()),
    ];
    assert(generated.deep_view() == seq![
        joined_path(space@, MARKER@),
        joined_path(space@, policy_file@),
        joined_path(space@, CODEX_POLICY@),
        joined_path(space@, workspace_name(s.name@)),
    ]);
    Ok(Deletion { members: repo_names(&s.repos), files: generated })
}

proof fn lemma_no_foreign(repos: Seq<SpaceRepoView>, i: int)
    requires
        first_foreign(repos) is None,
        0 <= i < repos.len(),
    ensures
        !(repos[i].state is Foreign),
    decreases repos.len(),
{
    if i > 0 {
        lemma_no_foreign(repos.drop_first(), i - 1);
        assert(repos.drop_first()[i - 1] == repos[i]);
    }
}

proof fn lemma_no_user_entries(
    facts: Seq<MemberFactView>,
    name: Seq<char>,
    policy_file: Seq<char>,
    i: int,
)
    requires
        user_entries(facts, name, policy_file).len() == 0,
        0 <= i < facts.len(),
    ensures
        !is_user_entry(facts[i], name, policy_file),
    decreases facts.len(),
{
    if i < facts.len() - 1 {
        lemma_no_user_entries(facts.drop_last(), name, policy_file, i);
        assert(facts.drop_last()[i] == facts[i]);
    }
}

/// A space is dismantled only where it is one, and every entry in it, hidden ones too, is a
/// file that the tool wrote there or a member that the tool made. Everything else is refused
/// with no step at all.
pub proof fn law_deletion_refuses_up_front(
    path: Seq<char>,
    marked: bool,
    facts: Seq<MemberFactView>,
    policy_file: Seq<char>,
)
    requires
        deleting(path, marked, facts, policy_file) is Ok,
    ensures
        marked,
        forall|i: int|
            0 <= i < space_in(path, facts, policy_file).repos.len() ==> !((#[trigger] space_in(
                path,
                facts,
                policy_file,
            ).repos[i]).state is Foreign),
        forall|i: int|
            0 <= i < facts.len() ==> (#[trigger] facts[i]).kind == Kind::Missing || is_own(
                facts[i],
                base_name_of(path),
                policy_file,
            ) || (member_in(facts[i], policy_file) is Some && !facts[i].is_file),
{
    let space = space_in(path, facts, policy_file);
    assert forall|i: int| 0 <= i < space.repos.len() implies !((#[trigger] space.repos[i]).state
        is Foreign) by {
        lemma_no_foreign(space.repos, i);
    }
    assert forall|i: int| 0 <= i < facts.len() implies (#[trigger] facts[i]).kind == Kind::Missing
        || is_own(facts[i], base_name_of(path), policy_file) || (member_in(facts[i], policy_file)
        is Some && !facts[i].is_file) by {
        lemma_no_user_entries(facts, space.name, policy_file, i);
    }
}

// ---- pulling ---------------------------------------------------------------------------------------

/// How far a pull has come.
#[derive(Clone, Debug)]
pub enum PullStage {
    Fetch,
    /// Ask whether origin has `main`.
    HasMain,
    /// Ask whether origin has `master`.
    HasMaster,
    /// Ask which branch is checked out.
    Current { default: String },
    /// Ask how many commits it is behind.
    Behind { default: String },
    /// Ask whether the working tree is clean.
    Status { default: String, behind: String },
    Merge { default: String, behind: String },
}

/// The stage of a pull over text.
#[verifier::ext_equal]
pub enum PullStageView {
    Fetch,
    HasMain,
    HasMaster,
    Current { default: Seq<char> },
    Behind { default: Seq<char> },
    Status { default: Seq<char>, behind: Seq<char> },
    Merge { default: Seq<char>, behind: Seq<char> },
}

impl DeepView for PullStage {
    type V = PullStageView;

    open spec fn deep_view(&self) -> PullStageView {
        match self {
            PullStage::Fetch => PullStageView::Fetch,
            PullStage::HasMain => PullStageView::HasMain,
            PullStage::HasMaster => PullStageView::HasMaster,
            PullStage::Current { default } => PullStageView::Current { default: default@ },
            PullStage::Behind { default } => PullStageView::Behind { default: default@ },
            PullStage::Status { default, behind } => PullStageView::Status {
                default: default@,
                behind: behind@,
            },
            PullStage::Merge { default, behind } => PullStageView::Merge {
                default: default@,
                behind: behind@,
            },
        }
    }
}

/// The arguments for git at a stage of a pull.
pub open spec fn pull_args_of(stage: PullStageView) -> Seq<Seq<char>> {
    match stage {
        PullStageView::Fetch => seq!["fetch"@, "origin"@, "--prune"@],
        PullStageView::HasMain => seq!["show-ref"@, "--verify"@, "refs/remotes/origin/main"@],
        PullStageView::HasMaster => seq!["show-ref"@, "--verify"@, "refs/remotes/origin/master"@],
        PullStageView::Current { .. } => seq!["rev-parse"@, "--abbrev-ref"@, "HEAD"@],
        PullStageView::Behind { default } => seq![
            "rev-list"@,
            "--count"@,
            "HEAD..origin/"@ + default,
        ],
        PullStageView::Status { .. } => seq!["status"@, "--porcelain"@],
        PullStageView::Merge { default, .. } => seq!["merge"@, "--ff-only"@, "origin/"@ + default],
    }
}

/// Where a pull goes from a stage: on to another, or to its end.
pub enum PullStep {
    Ask { stage: PullStage },
    Done { outcome: Result<String, SpaceError> },
}

/// A step of a pull over text.
#[verifier::ext_equal]
pub enum PullStepView {
    Ask { stage: PullStageView },
    Done { outcome: Result<Seq<char>, SpaceErrorView> },
}

impl DeepView for PullStep {
    type V = PullStepView;

    open spec fn deep_view(&self) -> PullStepView {
        match self {
            PullStep::Ask { stage } => PullStepView::Ask { stage: stage.deep_view() },
            PullStep::Done { outcome } => PullStepView::Done {
                outcome: match outcome {
                    Ok(s) => Ok(s@),
                    Err(e) => Err(e.deep_view()),
                },
            },
        }
    }
}

/// The end of a pull that git's failure brings.
pub open spec fn pull_failed(report: Seq<char>) -> PullStepView {
    PullStepView::Done { outcome: Err(SpaceErrorView::Failed { report }) }
}

/// Where git's answer at a stage takes a pull.
pub open spec fn pull_step(stage: PullStageView, reply: Result<Seq<char>, Seq<char>>) -> PullStepView {
    match (stage, reply) {
        (PullStageView::Fetch, Ok(_)) => PullStepView::Ask { stage: PullStageView::HasMain },
        (PullStageView::HasMain, Ok(_)) => PullStepView::Ask {
            stage: PullStageView::Current { default: "main"@ },
        },
        (PullStageView::HasMain, Err(_)) => PullStepView::Ask { stage: PullStageView::HasMaster },
        (PullStageView::HasMaster, Ok(_)) => PullStepView::Ask {
            stage: PullStageView::Current { default: "master"@ },
        },
        (PullStageView::HasMaster, Err(_)) => PullStepView::Done {
            outcome: Err(SpaceErrorView::NoOriginDefault),
        },
        (PullStageView::Current { default }, Ok(current)) => if current != default {
            PullStepView::Done {
                outcome: Ok(
                    "fetched origin/"@ + default + " (on "@ + current + ", not merged)"@,
                ),
            }
        } else {
            PullStepView::Ask { stage: PullStageView::Behind { default } }
        },
        (PullStageView::Behind { default }, Ok(behind)) => if behind == "0"@ {
            PullStepView::Done { outcome: Ok("already up to date"@) }
        } else {
            PullStepView::Ask { stage: PullStageView::Status { default, behind } }
        },
        (PullStageView::Status { default, behind }, Ok(status)) => if status.len() > 0 {
            PullStepView::Done { outcome: Err(SpaceErrorView::DirtyPull { behind }) }
        } else {
            PullStepView::Ask { stage: PullStageView::Merge { default, behind } }
        },
        (PullStageView::Merge { default, behind }, Ok(_)) => PullStepView::Done {
            outcome: Ok("updated "@ + behind + " commit"@ + plural(behind == "1"@)),
        },
        (PullStageView::Merge { default, behind }, Err(_)) => PullStepView::Done {
            outcome: Err(SpaceErrorView::Diverged { behind, default }),
        },
        (_, Err(report)) => pull_failed(report),
    }
}

impl PullStage {
    /// The arguments for git at this stage.
    pub fn args(&self) -> (r: Vec<String>)
        ensures
            r.deep_view() == pull_args_of(self.deep_view()),
    {
        let r = match self {
            PullStage::Fetch => strings(&["fetch", "origin", "--prune"]),
            PullStage::HasMain => strings(&["show-ref", "--verify", "refs/remotes/origin/main"]),
            PullStage::HasMaster => strings(
                &["show-ref", "--verify", "refs/remotes/origin/master"],
            ),
            PullStage::Current { .. } => strings(&["rev-parse", "--abbrev-ref", "HEAD"]),
            PullStage::Behind { default } => {
                let range = cat("HEAD..origin/", default.as_str());
                strings(&["rev-list", "--count", range.as_str()])
            },
            PullStage::Status { .. } => strings(&["status", "--porcelain"]),
            PullStage::Merge { default, .. } => {
                let from = cat("origin/", default.as_str());
                strings(&["merge", "--ff-only", from.as_str()])
            },
        };
        assert(r.deep_view() == pull_args_of(self.deep_view()));
        r
    }
}

/// Pull the latest default-branch commits into a space member, safely:
/// - fetch `origin` first (never fails the working tree)
/// - on main/master: fast-forward only; refuse if dirty or diverged
/// - on any other branch (worktrees): fetch only, never merge under the agent
///
/// A pull starts at `PullStage::Fetch`; `reply` is git's answer at `stage`.
pub fn pull_main(stage: PullStage, reply: Result<String, String>) -> (r: PullStep)
    ensures
        r.deep_view() == pull_step(stage.deep_view(), reply_view(reply)),
{
    match (stage, reply) {
        (PullStage::Fetch, Ok(_)) => PullStep::Ask { stage: PullStage::HasMain },
        (PullStage::HasMain, Ok(_)) => PullStep::Ask {
            stage: PullStage::Current { default: "main".to_owned() },
        },
        (PullStage::HasMain, Err(_)) => PullStep::Ask { stage: PullStage::HasMaster },
        (PullStage::HasMaster, Ok(_)) => PullStep::Ask {
            stage: PullStage::Current { default: "master".to_owned() },
        },
        (PullStage::HasMaster, Err(_)) => PullStep::Done {
            outcome: Err(SpaceError::NoOriginDefault),
        },
        (PullStage::Current { default }, Ok(current)) => {
            if !same(current.as_str(), default.as_str()) {
                let report = cat5(
                    "fetched origin/",
                    default.as_str(),
                    " (on ",
                    current.as_str(),
                    ", not merged)",
                );
                PullStep::Done { outcome: Ok(report) }
            } else {
                PullStep::Ask { stage: PullStage::Behind { default } }
            }
        },
        (PullStage::Behind { default }, Ok(behind)) => {
            if same(behind.as_str(), "0") {
                PullStep::Done { outcome: Ok("already up to date".to_owned()) }
            } else {
                PullStep::Ask { stage: PullStage::Status { default, behind } }
            }
        },
        (PullStage::Status { default, behind }, Ok(status)) => {
            if !status.as_str().is_empty() {
                PullStep::Done { outcome: Err(SpaceError::DirtyPull { behind }) }
            } else {
                PullStep::Ask { stage: PullStage::Merge { default, behind } }
            }
        },
        (PullStage::Merge { default, behind }, Ok(_)) => {
            let ending = if same(behind.as_str(), "1") {
                String::new()
            } else {
                "s".to_owned()
            };
            PullStep::Done {
                outcome: Ok(cat4("updated ", behind.as_str(), " commit", ending.as_str())),
            }
        },
        (PullStage::Merge { default, behind }, Err(_)) => PullStep::Done {
            outcome: Err(SpaceError::Diverged { behind, default }),
        },
        (_, Err(report)) => PullStep::Done { outcome: Err(SpaceError::Failed { report }) },
    }
}

/// A pull merges only where it is safe, and then by fast-forward alone: right after git
/// called the working tree clean, on a branch that is behind, and that is the default
/// branch.
pub proof fn law_pull_merges_only_when_safe(
    stage: PullStageView,
    reply: Result<Seq<char>, Seq<char>>,
    default: Seq<char>,
    behind: Seq<char>,
)
    ensures
        pull_step(stage, reply) == (PullStepView::Ask {
            stage: PullStageView::Merge { default, behind },
        }) ==> stage == (PullStageView::Status { default, behind }) && reply == Ok::<
            Seq<char>,
            Seq<char>,
        >(Seq::empty()),
        pull_step(stage, reply) == (PullStepView::Ask {
            stage: PullStageView::Status { default, behind },
        }) ==> stage == (PullStageView::Behind { default }) && reply == Ok::<Seq<char>, Seq<char>>(
            behind,
        ) && behind != "0"@,
        pull_step(stage, reply) == (PullStepView::Ask {
            stage: PullStageView::Behind { default },
        }) ==> stage == (PullStageView::Current { default }) && reply == Ok::<
            Seq<char>,
            Seq<char>,
        >(default),
        pull_args_of(PullStageView::Merge { default, behind }) == seq![
            "merge"@,
            "--ff-only"@,
            "origin/"@ + default,
        ],
{
    match reply {
        Ok(s) => {
            if s.len() == 0 {
                assert(s == Seq::<char>::empty());
            }
        },
        Err(_) => {},
    }
}

} // verus!
