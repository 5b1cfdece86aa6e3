//! Branch-stack discovery for stacked PRs.
//!
//! A branch is "stacked on" whichever other branch tip (or the default branch)
//! is the nearest ancestor of its tip. That relation is derivable purely from
//! git ancestry, so the tree needs no config; PR metadata is overlaid from
//! `gh` when available.

use crate::ancestry::{ancestors, ancestry, graph_of, Graph};
use crate::json::{json_in_bytes, json_view, member_of, read_bytes, text_at, Json, JsonView};
use crate::order::{sort, sorted_stably, Ranked};
use crate::text::{
    cat3, cat6, comes_before, has_prefix, strip_prefix, text_before, trim_suffixes, without_suffixes,
};
use crate::text::{last_at, lines, lines_of, same, split_last, strings, words, words_of};
use vstd::hash_map::StringHashMap;
use vstd::hash_set::StringHashSet;
use vstd::prelude::*;

verus! {

// ---- branch tips ----------------------------------------------------------------------

/// The branch name and the commit in a line `<name> <commit>`.
pub open spec fn tip_in(line: Seq<char>) -> Option<(Seq<char>, Seq<char>)> {
    match last_at(line, ' ') {
        Some(k) => Some((line.take(k), line.skip(k + 1))),
        None => None,
    }
}

/// The branch tips in a list of lines.
pub open spec fn tips_in(all: Seq<Seq<char>>) -> Seq<(Seq<char>, Seq<char>)>
    decreases all.len(),
{
    if all.len() == 0 {
        Seq::empty()
    } else {
        match tip_in(all.last()) {
            Some(tip) => tips_in(all.drop_last()).push(tip),
            None => tips_in(all.drop_last()),
        }
    }
}

/// Whether one of the tips belongs to a branch named `name`.
pub open spec fn has_branch(tips: Seq<(Seq<char>, Seq<char>)>, name: Seq<char>) -> bool {
    exists|i: int| 0 <= i < tips.len() && (#[trigger] tips[i]).0 == name
}

/// The default branch: `main`, failing that `master`.
pub open spec fn default_in(tips: Seq<(Seq<char>, Seq<char>)>) -> Option<Seq<char>> {
    if has_branch(tips, "main"@) {
        Some("main"@)
    } else if has_branch(tips, "master"@) {
        Some("master"@)
    } else {
        None
    }
}

/// The commit of the last tip of the branch named `name`.
pub open spec fn commit_of(tips: Seq<(Seq<char>, Seq<char>)>, name: Seq<char>) -> Seq<char>
    decreases tips.len(),
{
    if tips.len() == 0 {
        Seq::empty()
    } else if tips.last().0 == name {
        tips.last().1
    } else {
        commit_of(tips.drop_last(), name)
    }
}

/// The arguments for git that list the tip of every local branch.
pub fn tips_args() -> (r: Vec<String>)
    ensures
        r.deep_view() == seq![
            "for-each-ref"@,
            "--format=%(refname:short) %(objectname)"@,
            "refs/heads"@,
        ],
{
    let r = strings(&["for-each-ref", "--format=%(refname:short) %(objectname)", "refs/heads"]);
    assert(r.deep_view() == seq![
        "for-each-ref"@,
        "--format=%(refname:short) %(objectname)"@,
        "refs/heads"@,
    ]);
    r
}

/// The branch tips that `heads` lists.
fn read_tips(heads: &str) -> (r: Vec<(String, String)>)
    ensures
        r.deep_view() == tips_in(lines_of(heads@)),
{
    let all = lines(heads);
    let ghost view = all.deep_view();
    let mut out: Vec<(String, String)> = Vec::new();
    assert(view.take(0) == Seq::<Seq<char>>::empty());
    for i in 0..all.len()
        invariant
            view == all.deep_view(),
            out.deep_view() == tips_in(view.take(i as int)),
    {
        let ghost before = out.deep_view();
        assert(view.take(i + 1).drop_last() == view.take(i as int));
        assert(view.take(i + 1).last() == all@[i as int]@);
        match split_last(all[i].as_str(), ' ') {
            Some((name, commit)) => {
                out.push((name, commit));
                assert(out.deep_view() == before.push((name@, commit@)));
            },
            None => {},
        }
    }
    assert(view.take(all@.len() as int) == view);
    out
}

fn any_branch(tips: &Vec<(String, String)>, name: &str) -> (r: bool)
    ensures
        r == has_branch(tips.deep_view(), name@),
{
    for i in 0..tips.len()
        invariant
            forall|j: int| 0 <= j < i ==> (#[trigger] tips.deep_view()[j]).0 != name@,
    {
        assert(tips.deep_view()[i as int].0 == tips@[i as int].0@);
        if same(tips[i].0.as_str(), name) {
            return true;
        }
    }
    false
}

/// Why a branch stack cannot be built.
#[derive(Clone, Copy, Debug, PartialEq, Eq, Structural)]
pub enum StackError {
    NoDefaultBranch,
}

impl StackError {
    /// The error in words.
    pub fn message(self) -> (r: String)
        ensures
            r@ == "no main/master branch"@,
    {
        "no main/master branch".to_owned()
    }
}

fn pick_default(tips: &Vec<(String, String)>) -> (r: Result<String, StackError>)
    ensures
        match r {
            Ok(b) => default_in(tips.deep_view()) == Some(b@),
            Err(_) => default_in(tips.deep_view()) is None,
        },
{
    if any_branch(tips, "main") {
        Ok("main".to_owned())
    } else if any_branch(tips, "master") {
        Ok("master".to_owned())
    } else {
        Err(StackError::NoDefaultBranch)
    }
}

/// The default branch among the branches that `heads` lists: `main`, failing that
/// `master`.
pub fn default_branch(heads: &str) -> (r: Result<String, StackError>)
    ensures
        match r {
            Ok(b) => default_in(tips_in(lines_of(heads@))) == Some(b@),
            Err(_) => default_in(tips_in(lines_of(heads@))) is None,
        },
{
    let tips = read_tips(heads);
    pick_default(&tips)
}

/// The commit of the last tip of the branch named `name`.
fn find_commit(tips: &Vec<(String, String)>, name: &str) -> (r: String)
    ensures
        r@ == commit_of(tips.deep_view(), name@),
{
    let ghost view = tips.deep_view();
    let mut i: usize = tips.len();
    assert(view.take(i as int) == view);
    while i > 0
        invariant
            i <= tips@.len(),
            view == tips.deep_view(),
            commit_of(view, name@) == commit_of(view.take(i as int), name@),
        decreases i,
    {
        assert(view.take(i as int).drop_last() == view.take(i - 1));
        assert(view.take(i as int).last() == (tips@[i - 1].0@, tips@[i - 1].1@));
        if same(tips[i - 1].0.as_str(), name) {
            return tips[i - 1].1.clone();
        }
        i = i - 1;
    }
    String::new()
}

// ---- the commit graph -------------------------------------------------------------------

/// The commit graph in a list of lines `<commit> <parent>...`; of two lines for one
/// commit the later counts.
pub open spec fn graph_in(all: Seq<Seq<char>>) -> Graph
    decreases all.len(),
{
    if all.len() == 0 {
        Map::empty()
    } else {
        let w = words_of(all.last());
        if w.len() == 0 {
            graph_in(all.drop_last())
        } else {
            graph_in(all.drop_last()).insert(w[0], w.skip(1))
        }
    }
}

pub proof fn lemma_graph_finite(all: Seq<Seq<char>>)
    ensures
        graph_in(all).dom().finite(),
    decreases all.len(),
{
    if all.len() > 0 {
        lemma_graph_finite(all.drop_last());
    }
}

/// The arguments for git that list the commits of the branches ahead of `default`, each
/// with its parents.
pub fn graph_args(default: &str) -> (r: Vec<String>)
    ensures
        r.deep_view() == seq![
            "rev-list"@,
            "--parents"@,
            "--branches"@,
            "--not"@,
            default@,
        ],
{
    let r = strings(&["rev-list", "--parents", "--branches", "--not", default]);
    assert(r.deep_view() == seq![
        "rev-list"@,
        "--parents"@,
        "--branches"@,
        "--not"@,
        default@,
    ]);
    r
}

/// The commit graph that `revs` lists.
fn read_graph(revs: &str) -> (r: StringHashMap<Vec<String>>)
    ensures
        graph_of(r@) == graph_in(lines_of(revs@)),
        r@.dom() == graph_in(lines_of(revs@)).dom(),
        r@.dom().finite(),
{
    let all = lines(revs);
    let ghost view = all.deep_view();
    let mut out: StringHashMap<Vec<String>> = StringHashMap::new();
    assert(view.take(0) == Seq::<Seq<char>>::empty());
    assert(graph_of(out@) == graph_in(view.take(0)));
    for i in 0..all.len()
        invariant
            view == all.deep_view(),
            graph_of(out@) == graph_in(view.take(i as int)),
    {
        let ghost had = out@;
        assert(view.take(i + 1).drop_last() == view.take(i as int));
        assert(view.take(i + 1).last() == all@[i as int]@);
        let mut w = words(all[i].as_str());
        if w.len() > 0 {
            let ghost wv = w.deep_view();
            let commit = w.remove(0);
            assert(commit@ == wv[0]);
            assert(w.deep_view() == wv.skip(1));
            out.insert(commit, w);
            assert(graph_of(out@) == graph_of(had).insert(commit@, w.deep_view()));
        }
    }
    assert(view.take(all@.len() as int) == view);
    assert(out@.dom() == graph_of(out@).dom());
    proof {
        lemma_graph_finite(view);
    }
    out
}

// ---- parents --------------------------------------------------------------------------

/// A branch that is ahead of the default branch.
#[verifier::ext_equal]
pub struct LiveView {
    pub name: Seq<char>,
    /// The commit that its name stands for.
    pub tip: Seq<char>,
    /// Its commits, as far as they are ahead of the default branch.
    pub own: Set<Seq<char>>,
}

/// The branches among the tips that are ahead of `default`: other branches whose commit
/// is in the graph.
pub open spec fn live_in(
    tips: Seq<(Seq<char>, Seq<char>)>,
    some: Seq<(Seq<char>, Seq<char>)>,
    default: Seq<char>,
    g: Graph,
) -> Seq<LiveView>
    decreases some.len(),
{
    if some.len() == 0 {
        Seq::empty()
    } else {
        let before = live_in(tips, some.drop_last(), default, g);
        let (name, commit) = some.last();
        if name != default && g.contains_key(commit) {
            before.push(LiveView { name, tip: commit_of(tips, name), own: ancestry(g, commit) })
        } else {
            before
        }
    }
}

/// Whether branch `c` is another branch whose tip lies below that of branch `b`: `b` is built
/// on it, and has commits beyond it.
pub open spec fn carries(live: Seq<LiveView>, b: int, c: int) -> bool {
    &&& live[c].name != live[b].name
    &&& live[b].own.contains(live[c].tip)
    &&& live[c].own.len() < live[b].own.len()
}

/// Of the first `k` branches, that below branch `b` with the most commits; among equals the
/// last.
pub open spec fn nearest(live: Seq<LiveView>, b: int, k: int) -> Option<int>
    decreases k,
{
    if k <= 0 {
        None
    } else {
        let before = nearest(live, b, k - 1);
        if carries(live, b, k - 1) && (before is None || live[before->0].own.len() <= live[k
            - 1].own.len()) {
            Some(k - 1)
        } else {
            before
        }
    }
}

/// A branch, the branch it is stacked on, and its commits beyond that.
#[verifier::ext_equal]
pub struct LinkView {
    pub branch: Seq<char>,
    pub parent: Seq<char>,
    pub commits: nat,
}

/// What branch `b` is stacked on: the nearest branch below it, and the default branch where
/// there is none. Branches that share a tip lie beside each other, on the same parent.
pub open spec fn link_of(live: Seq<LiveView>, default: Seq<char>, b: int) -> LinkView {
    match nearest(live, b, live.len() as int) {
        Some(m) => LinkView {
            branch: live[b].name,
            parent: live[m].name,
            commits: (live[b].own.len() - live[m].own.len()) as nat,
        },
        None => LinkView { branch: live[b].name, parent: default, commits: live[b].own.len() },
    }
}

/// What every live branch is stacked on.
pub open spec fn links_of(live: Seq<LiveView>, default: Seq<char>) -> Seq<LinkView> {
    Seq::new(live.len(), |b: int| link_of(live, default, b))
}

struct Live {
    name: String,
    tip: String,
    own: StringHashSet,
}

impl DeepView for Live {
    type V = LiveView;

    closed spec fn deep_view(&self) -> LiveView {
        LiveView { name: self.name@, tip: self.tip@, own: self.own@ }
    }
}

struct Link {
    branch: String,
    parent: String,
    commits: usize,
}

impl DeepView for Link {
    type V = LinkView;

    closed spec fn deep_view(&self) -> LinkView {
        LinkView { branch: self.branch@, parent: self.parent@, commits: self.commits as nat }
    }
}

/// The branches ahead of `default`.
fn find_live(
    tips: &Vec<(String, String)>,
    default: &str,
    parents: &StringHashMap<Vec<String>>,
) -> (r: Vec<Live>)
    requires
        parents@.dom().finite(),
    ensures
        r.deep_view() == live_in(
            tips.deep_view(),
            tips.deep_view(),
            default@,
            graph_of(parents@),
        ),
{
    let ghost view = tips.deep_view();
    let ghost g = graph_of(parents@);
    let mut out: Vec<Live> = Vec::new();
    assert(view.take(0) == Seq::<(Seq<char>, Seq<char>)>::empty());
    for i in 0..tips.len()
        invariant
            view == tips.deep_view(),
            g == graph_of(parents@),
            parents@.dom().finite(),
            out.deep_view() == live_in(view, view.take(i as int), default@, g),
    {
        let ghost before = out.deep_view();
        assert(view.take(i + 1).drop_last() == view.take(i as int));
        assert(view.take(i + 1).last() == (tips@[i as int].0@, tips@[i as int].1@));
        let name = tips[i].0.clone();
        let commit = tips[i].1.as_str();
        if !same(name.as_str(), default) && parents.contains_key(commit) {
            let tip = find_commit(tips, name.as_str());
            let own = ancestors(parents, commit);
            let item = Live { name, tip, own };
            out.push(item);
            assert(out.deep_view() == before.push(item.deep_view()));
        }
    }
    assert(view.take(tips@.len() as int) == view);
    out
}

/// What branch `b` is stacked on.
fn find_link(live: &Vec<Live>, default: &str, b: usize) -> (r: Link)
    requires
        b < live@.len(),
    ensures
        r.deep_view() == link_of(live.deep_view(), default@, b as int),
{
    let ghost view = live.deep_view();
    let mut best: Option<usize> = None;
    assert(view[b as int] == live@[b as int].deep_view());
    for k in 0..live.len()
        invariant
            b < live@.len(),
            view == live.deep_view(),
            view[b as int] == live@[b as int].deep_view(),
            match best {
                Some(m) => m < k && nearest(view, b as int, k as int) == Some(m as int)
                    && view[m as int].own.len() < view[b as int].own.len(),
                None => nearest(view, b as int, k as int) is None,
            },
    {
        assert(view[k as int] == live@[k as int].deep_view());
        if !same(live[k].name.as_str(), live[b].name.as_str()) && live[b].own.contains(
            live[k].tip.as_str(),
        ) && live[k].own.len() < live[b].own.len() {
            let better = match best {
                Some(m) => {
                    assert(view[m as int] == live@[m as int].deep_view());
                    live[m].own.len() <= live[k].own.len()
                },
                None => true,
            };
            if better {
                best = Some(k);
            }
        }
    }
    let all = live[b].own.len();
    match best {
        Some(m) => {
            assert(view[m as int] == live@[m as int].deep_view());
            let part = live[m].own.len();
            Link {
                branch: live[b].name.clone(),
                parent: live[m].name.clone(),
                commits: all - part,
            }
        },
        None => Link { branch: live[b].name.clone(), parent: default.to_owned(), commits: all },
    }
}

/// What every live branch is stacked on.
fn find_links(live: &Vec<Live>, default: &str) -> (r: Vec<Link>)
    ensures
        r.deep_view() == links_of(live.deep_view(), default@),
{
    let mut out: Vec<Link> = Vec::new();
    let ghost want = links_of(live.deep_view(), default@);
    for b in 0..live.len()
        invariant
            want == links_of(live.deep_view(), default@),
            out.deep_view() == want.take(b as int),
    {
        let ghost before = out.deep_view();
        let link = find_link(live, default, b);
        out.push(link);
        assert(out.deep_view() == before.push(link.deep_view()));
        assert(want.take(b + 1) == want.take(b as int).push(want[b as int]));
    }
    assert(want.take(live@.len() as int) == want);
    out
}

// ---- entries --------------------------------------------------------------------------

#[derive(Clone, Debug)]
pub struct StackEntry {
    pub branch: String,
    pub parent: String,
    /// Commits on this branch beyond its parent.
    pub commits: usize,
    /// Indent depth when rendered as a tree (default branch = 0).
    pub depth: usize,
}

/// A stack entry as text and numbers.
#[verifier::ext_equal]
pub struct StackEntryView {
    pub branch: Seq<char>,
    pub parent: Seq<char>,
    pub commits: nat,
    pub depth: nat,
}

impl DeepView for StackEntry {
    type V = StackEntryView;

    open spec fn deep_view(&self) -> StackEntryView {
        StackEntryView {
            branch: self.branch@,
            parent: self.parent@,
            commits: self.commits as nat,
            depth: self.depth as nat,
        }
    }
}

/// A link as an entry of the given depth.
pub open spec fn entry_at(link: LinkView, depth: nat) -> StackEntryView {
    StackEntryView { branch: link.branch, parent: link.parent, commits: link.commits, depth }
}

/// The position of the first entry from `i` on for the branch `name`.
pub open spec fn entry_from(entries: Seq<StackEntryView>, name: Seq<char>, i: int) -> Option<int>
    decreases entries.len() - i,
{
    if i < 0 || i >= entries.len() {
        None
    } else if entries[i].branch == name {
        Some(i)
    } else {
        entry_from(entries, name, i + 1)
    }
}

/// The depth right under `parent`, where that is the default branch or has an entry.
pub open spec fn depth_under(
    entries: Seq<StackEntryView>,
    default: Seq<char>,
    parent: Seq<char>,
) -> Option<nat> {
    if parent == default {
        Some(1)
    } else {
        match entry_from(entries, parent, 0) {
            Some(i) => Some(entries[i].depth + 1),
            None => None,
        }
    }
}

/// One pass over the links: each whose parent has its place gets an entry, the others
/// are left over.
pub open spec fn pass(
    default: Seq<char>,
    entries: Seq<StackEntryView>,
    links: Seq<LinkView>,
) -> (Seq<StackEntryView>, Seq<LinkView>)
    decreases links.len(),
{
    if links.len() == 0 {
        (entries, Seq::empty())
    } else {
        let (done, left) = pass(default, entries, links.drop_last());
        match depth_under(done, default, links.last().parent) {
            Some(d) => (done.push(entry_at(links.last(), d)), left),
            None => (done, left.push(links.last())),
        }
    }
}

pub proof fn lemma_pass_counts(
    default: Seq<char>,
    entries: Seq<StackEntryView>,
    links: Seq<LinkView>,
)
    ensures
        pass(default, entries, links).0.len() + pass(default, entries, links).1.len()
            == entries.len() + links.len(),
        pass(default, entries, links).0.len() >= entries.len(),
    decreases links.len(),
{
    if links.len() > 0 {
        lemma_pass_counts(default, entries, links.drop_last());
    }
}

/// The entries that passes give until one places nothing; what is left then stands at
/// depth one.
pub open spec fn settled(
    default: Seq<char>,
    entries: Seq<StackEntryView>,
    links: Seq<LinkView>,
) -> Seq<StackEntryView>
    decreases links.len(),
{
    let (done, left) = pass(default, entries, links);
    if left.len() >= links.len() {
        done + left.map_values(|l: LinkView| entry_at(l, 1))
    } else {
        settled(default, done, left)
    }
}

fn find_depth(entries: &Vec<StackEntry>, default: &str, parent: &str) -> (r: Option<usize>)
    requires
        entries@.len() < usize::MAX,
        forall|i: int| 0 <= i < entries@.len() ==> (#[trigger] entries@[i]).depth <= i + 1,
    ensures
        match r {
            Some(d) => depth_under(entries.deep_view(), default@, parent@) == Some(d as nat) && d
                <= entries@.len() + 1,
            None => depth_under(entries.deep_view(), default@, parent@) is None,
        },
{
    if same(parent, default) {
        return Some(1);
    }
    let ghost view = entries.deep_view();
    let mut i: usize = 0;
    while i < entries.len()
        invariant
            i <= entries@.len() < usize::MAX,
            view == entries.deep_view(),
            parent@ != default@,
            entry_from(view, parent@, 0) == entry_from(view, parent@, i as int),
            forall|j: int| 0 <= j < entries@.len() ==> (#[trigger] entries@[j]).depth <= j + 1,
        decreases entries@.len() - i,
    {
        assert(view[i as int] == entries@[i as int].deep_view());
        if same(entries[i].branch.as_str(), parent) {
            return Some(entries[i].depth + 1);
        }
        i = i + 1;
    }
    None
}

/// One pass over `links`: appends what can be placed to `entries`, hands out the rest.
fn run_pass(default: &str, entries: &mut Vec<StackEntry>, links: &Vec<Link>) -> (left: Vec<Link>)
    requires
        old(entries)@.len() + links@.len() <= usize::MAX,
        forall|i: int| 0 <= i < old(entries)@.len() ==> (#[trigger] old(entries)@[i]).depth <= i + 1,
    ensures
        (final(entries).deep_view(), left.deep_view()) == pass(
            default@,
            old(entries).deep_view(),
            links.deep_view(),
        ),
        forall|i: int|
            0 <= i < final(entries)@.len() ==> (#[trigger] final(entries)@[i]).depth <= i + 1,
{
    let ghost start = entries.deep_view();
    let ghost view = links.deep_view();
    let mut left: Vec<Link> = Vec::new();
    assert(view.take(0) == Seq::<LinkView>::empty());
    assert(left.deep_view() == Seq::<LinkView>::empty());
    for k in 0..links.len()
        invariant
            start.len() + links@.len() <= usize::MAX,
            view == links.deep_view(),
            (entries.deep_view(), left.deep_view()) == pass(
                default@,
                start,
                view.take(k as int),
            ),
            forall|i: int| 0 <= i < entries@.len() ==> (#[trigger] entries@[i]).depth <= i + 1,
    {
        let ghost done = entries.deep_view();
        let ghost over = left.deep_view();
        let ghost link = view[k as int];
        proof {
            lemma_pass_counts(default@, start, view.take(k as int));
        }
        assert(view.take(k + 1).drop_last() == view.take(k as int));
        assert(view.take(k + 1).last() == link);
        assert(link == links@[k as int].deep_view());
        let branch = links[k].branch.clone();
        let parent = links[k].parent.clone();
        let commits = links[k].commits;
        match find_depth(entries, default, parent.as_str()) {
            Some(depth) => {
                let entry = StackEntry { branch, parent, commits, depth };
                entries.push(entry);
                assert(entries.deep_view() == done.push(entry.deep_view()));
            },
            None => {
                let rest = Link { branch, parent, commits };
                left.push(rest);
                assert(left.deep_view() == over.push(rest.deep_view()));
            },
        }
    }
    assert(view.take(links@.len() as int) == view);
    left
}

/// The entries for `links`, parents before children.
fn settle(default: &str, links: Vec<Link>) -> (r: Vec<StackEntry>)
    ensures
        r.deep_view() == settled(default@, Seq::empty(), links.deep_view()),
{
    let ghost want = settled(default@, Seq::empty(), links.deep_view());
    let total = links.len();
    let mut entries: Vec<StackEntry> = Vec::new();
    let mut left = links;
    assert(entries.deep_view() == Seq::<StackEntryView>::empty());
    loop
        invariant_except_break
            want == settled(default@, entries.deep_view(), left.deep_view()),
        invariant
            entries@.len() + left@.len() == total,
            forall|i: int| 0 <= i < entries@.len() ==> (#[trigger] entries@[i]).depth <= i + 1,
        ensures
            want == entries.deep_view() + left.deep_view().map_values(
                |l: LinkView| entry_at(l, 1),
            ),
        decreases left@.len(),
    {
        let ghost was = entries.deep_view();
        let n = left.len();
        proof {
            lemma_pass_counts(default@, was, left.deep_view());
        }
        let rest = run_pass(default, &mut entries, &left);
        assert(rest.deep_view().len() == rest@.len());
        assert(entries.deep_view().len() == entries@.len());
        left = rest;
        if left.len() >= n {
            break;
        }
    }
    let ghost done = entries.deep_view();
    let ghost over = left.deep_view().map_values(|l: LinkView| entry_at(l, 1));
    assert(done + over.take(0) == done);
    for k in 0..left.len()
        invariant
            over == left.deep_view().map_values(|l: LinkView| entry_at(l, 1)),
            entries.deep_view() == done + over.take(k as int),
    {
        let ghost before = entries.deep_view();
        let entry = StackEntry {
            branch: left[k].branch.clone(),
            parent: left[k].parent.clone(),
            commits: left[k].commits,
            depth: 1,
        };
        entries.push(entry);
        assert(entries.deep_view() == before.push(entry.deep_view()));
        assert(over[k as int] == entry.deep_view());
        assert(over.take(k + 1) == over.take(k as int).push(over[k as int]));
    }
    assert(over.take(left@.len() as int) == over);
    entries
}

// ---- display order --------------------------------------------------------------------

/// Dictionary order on paths of names: whether `a` comes strictly before `b`.
pub open spec fn path_before(a: Seq<Seq<char>>, b: Seq<Seq<char>>) -> bool
    decreases a.len(),
{
    if b.len() == 0 {
        false
    } else if a.len() == 0 {
        true
    } else if a[0] != b[0] {
        text_before(a[0], b[0])
    } else {
        path_before(a.drop_first(), b.drop_first())
    }
}

/// The branch and the parent of each entry.
pub open spec fn edges_of(entries: Seq<StackEntryView>) -> Seq<(Seq<char>, Seq<char>)> {
    entries.map_values(|e: StackEntryView| (e.branch, e.parent))
}

/// The parent of the first edge from `i` on that belongs to `name`.
pub open spec fn parent_from(
    edges: Seq<(Seq<char>, Seq<char>)>,
    name: Seq<char>,
    i: int,
) -> Option<Seq<char>>
    decreases edges.len() - i,
{
    if i < 0 || i >= edges.len() {
        None
    } else if edges[i].0 == name {
        Some(edges[i].1)
    } else {
        parent_from(edges, name, i + 1)
    }
}

/// `name`, the parent of `name`, the parent of that, and so on: at most `n` names.
pub open spec fn climb(
    edges: Seq<(Seq<char>, Seq<char>)>,
    name: Seq<char>,
    n: nat,
) -> Seq<Seq<char>>
    decreases n,
{
    if n == 0 {
        Seq::empty()
    } else {
        match parent_from(edges, name, 0) {
            Some(p) => seq![name] + climb(edges, p, (n - 1) as nat),
            None => seq![name],
        }
    }
}

/// The path of branch names from the default branch down to the entry. No path is longer
/// than the edges allow, so that it ends even where edges run in a circle.
pub open spec fn key_of(edges: Seq<(Seq<char>, Seq<char>)>, e: StackEntryView) -> Seq<Seq<char>> {
    (seq![e.branch] + climb(edges, e.parent, edges.len() + 1)).reverse()
}

/// Each entry with its path.
pub open spec fn keyed(entries: Seq<StackEntryView>) -> Seq<(Seq<Seq<char>>, StackEntryView)> {
    entries.map_values(|e: StackEntryView| (key_of(edges_of(entries), e), e))
}

/// The order by path.
pub open spec fn key_order() -> spec_fn(
    (Seq<Seq<char>>, StackEntryView),
    (Seq<Seq<char>>, StackEntryView),
) -> bool {
    |a: (Seq<Seq<char>>, StackEntryView), b: (Seq<Seq<char>>, StackEntryView)|
        path_before(a.0, b.0)
}

/// The entries in the order of their paths, so that siblings group and children follow
/// their parent.
pub open spec fn displayed(entries: Seq<StackEntryView>) -> Seq<StackEntryView> {
    sorted_stably(keyed(entries), key_order()).map_values(
        |k: (Seq<Seq<char>>, StackEntryView)| k.1,
    )
}

struct Keyed {
    key: Vec<String>,
    entry: StackEntry,
}

impl DeepView for Keyed {
    type V = (Seq<Seq<char>>, StackEntryView);

    closed spec fn deep_view(&self) -> (Seq<Seq<char>>, StackEntryView) {
        (self.key.deep_view(), self.entry.deep_view())
    }
}

impl Ranked for Keyed {
    open spec fn order() -> spec_fn(
        (Seq<Seq<char>>, StackEntryView),
        (Seq<Seq<char>>, StackEntryView),
    ) -> bool {
        key_order()
    }

    fn is_before(&self, other: &Keyed) -> (r: bool) {
        path_less(&self.key, &other.key)
    }
}

fn path_less(a: &Vec<String>, b: &Vec<String>) -> (r: bool)
    ensures
        r == path_before(a.deep_view(), b.deep_view()),
{
    let ghost x = a.deep_view();
    let ghost y = b.deep_view();
    let mut i: usize = 0;
    assert(x.skip(0) == x);
    assert(y.skip(0) == y);
    while i < a.len() && i < b.len()
        invariant
            x == a.deep_view(),
            y == b.deep_view(),
            i <= a@.len(),
            i <= b@.len(),
            path_before(x, y) == path_before(x.skip(i as int), y.skip(i as int)),
        decreases a@.len() - i,
    {
        assert(x.skip(i as int)[0] == a@[i as int]@);
        assert(y.skip(i as int)[0] == b@[i as int]@);
        if !same(a[i].as_str(), b[i].as_str()) {
            return comes_before(a[i].as_str(), b[i].as_str());
        }
        assert(x.skip(i as int).drop_first() == x.skip(i + 1));
        assert(y.skip(i as int).drop_first() == y.skip(i + 1));
        i = i + 1;
    }
    i < b.len()
}

/// The branch and the parent of each entry.
fn entries_ref(entries: &Vec<StackEntry>) -> (r: Vec<(String, String)>)
    ensures
        r.deep_view() == edges_of(entries.deep_view()),
{
    let mut out: Vec<(String, String)> = Vec::new();
    let ghost want = edges_of(entries.deep_view());
    for i in 0..entries.len()
        invariant
            want == edges_of(entries.deep_view()),
            out.deep_view() == want.take(i as int),
    {
        let ghost before = out.deep_view();
        let pair = (entries[i].branch.clone(), entries[i].parent.clone());
        out.push(pair);
        assert(out.deep_view() == before.push((pair.0@, pair.1@)));
        assert(entries.deep_view()[i as int] == entries@[i as int].deep_view());
        assert(want.take(i + 1) == want.take(i as int).push(want[i as int]));
    }
    assert(want.take(entries@.len() as int) == want);
    out
}

fn find_parent(edges: &Vec<(String, String)>, name: &str) -> (r: Option<String>)
    ensures
        match r {
            Some(p) => parent_from(edges.deep_view(), name@, 0) == Some(p@),
            None => parent_from(edges.deep_view(), name@, 0) is None,
        },
{
    let ghost view = edges.deep_view();
    let mut i: usize = 0;
    while i < edges.len()
        invariant
            i <= edges@.len(),
            view == edges.deep_view(),
            parent_from(view, name@, 0) == parent_from(view, name@, i as int),
        decreases edges@.len() - i,
    {
        assert(view[i as int] == (edges@[i as int].0@, edges@[i as int].1@));
        if same(edges[i].0.as_str(), name) {
            return Some(edges[i].1.clone());
        }
        i = i + 1;
    }
    None
}

/// Sort key = the path of branch names from the default branch down to this
/// entry, so siblings group and children follow their parent.
fn chain_key(edges: &Vec<(String, String)>, e: &StackEntry) -> (r: Vec<String>)
    ensures
        r.deep_view() == key_of(edges.deep_view(), e.deep_view()),
{
    let ghost view = edges.deep_view();
    let ghost whole = seq![e.branch@] + climb(view, e.parent@, view.len() + 1);
    let mut up: Vec<String> = Vec::new();
    up.push(e.branch.clone());
    assert(up.deep_view() == seq![e.branch@]);
    let mut cur = e.parent.clone();
    let mut left: usize = edges.len();
    let mut more = true;
    while more
        invariant
            view == edges.deep_view(),
            more ==> whole == up.deep_view() + climb(view, cur@, (left + 1) as nat),
            !more ==> whole == up.deep_view(),
        decreases left + (if more { 1int } else { 0int }),
    {
        let ghost before = up.deep_view();
        let ghost at = cur@;
        up.push(cur.clone());
        assert(up.deep_view() == before.push(at));
        match find_parent(edges, cur.as_str()) {
            Some(p) => {
                assert(before + (seq![at] + climb(view, p@, left as nat)) == up.deep_view() + climb(
                    view,
                    p@,
                    left as nat,
                ));
                if left > 0 {
                    left = left - 1;
                    cur = p;
                } else {
                    assert(climb(view, p@, 0) == Seq::<Seq<char>>::empty());
                    assert(up.deep_view() + Seq::<Seq<char>>::empty() == up.deep_view());
                    more = false;
                }
            },
            None => {
                assert(before + seq![at] == up.deep_view());
                more = false;
            },
        }
    }
    let mut key: Vec<String> = Vec::new();
    let mut i: usize = up.len();
    while i > 0
        invariant
            i <= up@.len(),
            key.deep_view() == up.deep_view().reverse().take(up@.len() - i),
        decreases i,
    {
        let ghost before = key.deep_view();
        let name = up[i - 1].clone();
        key.push(name);
        assert(key.deep_view() == before.push(name@));
        assert(up.deep_view().reverse()[up@.len() - i] == name@);
        i = i - 1;
    }
    assert(up.deep_view().reverse().take(up@.len() as int) == up.deep_view().reverse());
    key
}

/// The entries in display order.
fn arrange(entries: Vec<StackEntry>) -> (r: Vec<StackEntry>)
    ensures
        r.deep_view() == displayed(entries.deep_view()),
{
    let edges = entries_ref(&entries);
    let ghost all = entries.deep_view();
    let ghost want = keyed(all);
    let mut items: Vec<Keyed> = Vec::new();
    for i in 0..entries.len()
        invariant
            all == entries.deep_view(),
            want == keyed(all),
            edges.deep_view() == edges_of(all),
            items.deep_view() == want.take(i as int),
    {
        let ghost before = items.deep_view();
        let key = chain_key(&edges, &entries[i]);
        let entry = StackEntry {
            branch: entries[i].branch.clone(),
            parent: entries[i].parent.clone(),
            commits: entries[i].commits,
            depth: entries[i].depth,
        };
        let item = Keyed { key, entry };
        items.push(item);
        assert(items.deep_view() == before.push(item.deep_view()));
        assert(all[i as int] == entry.deep_view());
        assert(want.take(i + 1) == want.take(i as int).push(want[i as int]));
    }
    assert(want.take(entries@.len() as int) == want);
    sort(&mut items);
    let ghost sorted = items.deep_view();
    let mut out: Vec<StackEntry> = Vec::new();
    let ghost end = displayed(all);
    for i in 0..items.len()
        invariant
            sorted == items.deep_view(),
            sorted == sorted_stably(keyed(all), key_order()),
            end == displayed(all),
            out.deep_view() == end.take(i as int),
    {
        let ghost before = out.deep_view();
        let entry = StackEntry {
            branch: items[i].entry.branch.clone(),
            parent: items[i].entry.parent.clone(),
            commits: items[i].entry.commits,
            depth: items[i].entry.depth,
        };
        out.push(entry);
        assert(out.deep_view() == before.push(entry.deep_view()));
        assert(sorted[i as int].1 == entry.deep_view());
        assert(end.take(i + 1) == end.take(i as int).push(end[i as int]));
    }
    assert(end.take(items@.len() as int) == end);
    out
}

// ---- the stack ------------------------------------------------------------------------

#[derive(Clone, Debug)]
pub struct Stack {
    pub default_branch: String,
    /// Topological order, parents before children.
    pub entries: Vec<StackEntry>,
    /// `owner/repo` parsed from origin, when it is a GitHub remote.
    pub slug: Option<String>,
}

/// A stack as text and numbers.
#[verifier::ext_equal]
pub struct StackView {
    pub default_branch: Seq<char>,
    pub entries: Seq<StackEntryView>,
    pub slug: Option<Seq<char>>,
}

impl DeepView for Stack {
    type V = StackView;

    open spec fn deep_view(&self) -> StackView {
        StackView {
            default_branch: self.default_branch@,
            entries: self.entries.deep_view(),
            slug: self.slug.deep_view(),
        }
    }
}

/// What follows the GitHub address in a remote URL, without slashes at the end and
/// `.git`s after that.
pub open spec fn slug_in(url: Seq<char>) -> Option<Seq<char>> {
    let rest = if has_prefix(url, "git@github.com:"@) {
        Some(url.skip("git@github.com:"@.len() as int))
    } else if has_prefix(url, "https://github.com/"@) {
        Some(url.skip("https://github.com/"@.len() as int))
    } else if has_prefix(url, "ssh://git@github.com/"@) {
        Some(url.skip("ssh://git@github.com/"@.len() as int))
    } else {
        None
    };
    match rest {
        Some(s) => Some(without_suffixes(without_suffixes(s, "/"@), ".git"@)),
        None => None,
    }
}

/// The arguments for git that print the URL of the remote `origin`.
pub fn origin_args() -> (r: Vec<String>)
    ensures
        r.deep_view() == seq!["remote"@, "get-url"@, "origin"@],
{
    let r = strings(&["remote", "get-url", "origin"]);
    assert(r.deep_view() == seq!["remote"@, "get-url"@, "origin"@]);
    r
}

/// `owner/repo` from the origin URL (SSH or HTTPS GitHub remotes).
pub fn origin_slug(url: &str) -> (r: Option<String>)
    ensures
        r.deep_view() == slug_in(url@),
{
    let ssh = strip_prefix(url, "git@github.com:");
    let web = strip_prefix(url, "https://github.com/");
    let long = strip_prefix(url, "ssh://git@github.com/");
    let rest = match (ssh, web, long) {
        (Some(s), _, _) => s,
        (None, Some(s), _) => s,
        (None, None, Some(s)) => s,
        (None, None, None) => {
            return None;
        },
    };
    let open = trim_suffixes(rest.as_str(), "/");
    Some(trim_suffixes(open.as_str(), ".git"))
}

/// The slug of an origin URL, where git gave one.
pub open spec fn slug_of(origin: Option<Seq<char>>) -> Option<Seq<char>> {
    match origin {
        Some(url) => slug_in(url),
        None => None,
    }
}

/// The branch stack that git's lists of branch tips and of commits describe.
pub open spec fn stack_in(
    heads: Seq<char>,
    revs: Seq<char>,
    origin: Option<Seq<char>>,
) -> Option<StackView> {
    let tips = tips_in(lines_of(heads));
    let g = graph_in(lines_of(revs));
    match default_in(tips) {
        Some(default) => {
            let links = links_of(live_in(tips, tips, default, g), default);
            Some(
                StackView {
                    default_branch: default,
                    entries: displayed(settled(default, Seq::empty(), links)),
                    slug: slug_of(origin),
                },
            )
        },
        None => None,
    }
}

/// Build the branch stack of a repo from what git prints: `heads` for `tips_args`, `revs`
/// for `graph_args`, and `origin` for `origin_args` where that succeeds.
/// Ancestry and distances are pure set math on that graph.
pub fn branch_stack(heads: &str, revs: &str, origin: Option<&str>) -> (r: Result<Stack, StackError>)
    ensures
        match r {
            Ok(stack) => stack_in(heads@, revs@, origin.deep_view()) == Some(stack.deep_view()),
            Err(_) => stack_in(heads@, revs@, origin.deep_view()) is None,
        },
{
    let tips = read_tips(heads);
    let default_branch = match pick_default(&tips) {
        Ok(b) => b,
        Err(e) => {
            return Err(e);
        },
    };
    let parents = read_graph(revs);
    let live = find_live(&tips, default_branch.as_str(), &parents);
    let links = find_links(&live, default_branch.as_str());
    let entries = arrange(settle(default_branch.as_str(), links));
    let slug = match origin {
        Some(url) => origin_slug(url),
        None => None,
    };
    Ok(Stack { default_branch, entries, slug })
}

// ---- layers and pull requests ------------------------------------------------------------

/// The page on which GitHub compares two branches.
pub fn compare_url(slug: &str, parent: &str, branch: &str) -> (r: String)
    ensures
        r@ == "https://github.com/"@ + slug@ + "/compare/"@ + parent@ + "..."@ + branch@,
{
    cat6("https://github.com/", slug, "/compare/", parent, "...", branch)
}

/// The most lines of a layer's diff that are shown.
pub const MAX_LINES: usize = 5000;

/// The range of commits from `parent` to `branch`, as git writes it.
pub open spec fn range_of(parent: Seq<char>, branch: Seq<char>) -> Seq<char> {
    parent + ".."@ + branch
}

/// The arguments for git that print the summary of a layer's diff.
pub fn stat_args(parent: &str, branch: &str) -> (r: Vec<String>)
    ensures
        r.deep_view() == seq!["diff"@, "--stat"@, range_of(parent@, branch@)],
{
    let range = cat3(parent, "..", branch);
    let r = strings(&["diff", "--stat", range.as_str()]);
    assert(r.deep_view() == seq!["diff"@, "--stat"@, range_of(parent@, branch@)]);
    r
}

/// The arguments for git that print a layer's diff.
pub fn patch_args(parent: &str, branch: &str) -> (r: Vec<String>)
    ensures
        r.deep_view() == seq!["diff"@, range_of(parent@, branch@)],
{
    let range = cat3(parent, "..", branch);
    let r = strings(&["diff", range.as_str()]);
    assert(r.deep_view() == seq!["diff"@, range_of(parent@, branch@)]);
    r
}

/// The lines of a layer's diff: the summary, an empty line, the patch.
pub open spec fn diff_lines(stat: Seq<char>, patch: Seq<char>) -> Seq<Seq<char>> {
    lines_of(stat).push(Seq::empty()) + lines_of(patch)
}

/// Diff of one stack layer against its parent, capped so a huge patch cannot
/// exhaust memory. Returns (lines, truncated_count).
pub fn layer_diff(stat: &str, patch: &str) -> (r: (Vec<String>, usize))
    ensures
        ({
            let all = diff_lines(stat@, patch@);
            if all.len() <= MAX_LINES {
                r.0.deep_view() == all && r.1 == 0
            } else {
                r.0.deep_view() == all.take(MAX_LINES as int) && r.1 == all.len() - MAX_LINES
            }
        }),
{
    let mut all = lines(stat);
    let ghost top = all.deep_view();
    let blank = String::new();
    all.push(blank);
    assert(all.deep_view() == top.push(Seq::empty()));
    let mut rest = lines(patch);
    let ghost head = all.deep_view();
    let ghost tail = rest.deep_view();
    all.append(&mut rest);
    assert(all.deep_view() == head + tail);
    let truncated = if all.len() > MAX_LINES {
        all.len() - MAX_LINES
    } else {
        0
    };
    let ghost whole = all.deep_view();
    if all.len() > MAX_LINES {
        all.truncate(MAX_LINES);
        assert(all.deep_view() == whole.take(MAX_LINES as int));
    }
    (all, truncated)
}

#[derive(Clone, Debug)]
pub struct PrInfo {
    pub number: u64,
    pub url: String,
    /// OPEN / MERGED / CLOSED, with DRAFT folded in for open drafts.
    pub state: String,
    pub title: String,
}

/// A pull request as text and numbers.
#[verifier::ext_equal]
pub struct PrInfoView {
    pub number: u64,
    pub url: Seq<char>,
    pub state: Seq<char>,
    pub title: Seq<char>,
}

impl DeepView for PrInfo {
    type V = PrInfoView;

    open spec fn deep_view(&self) -> PrInfoView {
        PrInfoView {
            number: self.number,
            url: self.url@,
            state: self.state@,
            title: self.title@,
        }
    }
}

/// The arguments for gh that list the pull requests of a repo.
pub fn pr_args(slug: &str) -> (r: Vec<String>)
    ensures
        r.deep_view() == seq![
            "pr"@,
            "list"@,
            "--repo"@,
            slug@,
            "--state"@,
            "all"@,
            "--limit"@,
            "200"@,
            "--json"@,
            "number,url,state,title,headRefName,isDraft"@,
        ],
{
    let r = strings(
        &[
            "pr",
            "list",
            "--repo",
            slug,
            "--state",
            "all",
            "--limit",
            "200",
            "--json",
            "number,url,state,title,headRefName,isDraft",
        ],
    );
    assert(r.deep_view() == seq![
        "pr"@,
        "list"@,
        "--repo"@,
        slug@,
        "--state"@,
        "all"@,
        "--limit"@,
        "200"@,
        "--json"@,
        "number,url,state,title,headRefName,isDraft"@,
    ]);
    r
}

/// The text of a member, or `other` where there is none.
pub open spec fn text_or(j: JsonView, key: Seq<char>, other: Seq<char>) -> Seq<char> {
    match text_at(j, key) {
        Some(s) => s,
        None => other,
    }
}

/// Whether the member is there and true.
pub open spec fn is_set(j: JsonView, key: Seq<char>) -> bool {
    member_of(j, key) == Some(JsonView::Bool(true))
}

/// The number of a member, or zero where it is no unsigned 64-bit number.
pub open spec fn number_at(j: JsonView, key: Seq<char>) -> u64 {
    match member_of(j, key) {
        Some(JsonView::Number(Some(n))) => n,
        _ => 0,
    }
}

/// The pull request in a member of gh's list, with its head branch; there is none where
/// the head branch is missing.
pub open spec fn pr_in(j: JsonView) -> Option<(Seq<char>, PrInfoView)> {
    match text_at(j, "headRefName"@) {
        Some(head) => Some(
            (
                head,
                PrInfoView {
                    number: number_at(j, "number"@),
                    url: text_or(j, "url"@, Seq::empty()),
                    state: if is_set(j, "isDraft"@) && text_at(j, "state"@) == Some("OPEN"@) {
                        "DRAFT"@
                    } else {
                        text_or(j, "state"@, "?"@)
                    },
                    title: text_or(j, "title"@, Seq::empty()),
                },
            ),
        ),
        None => None,
    }
}

/// Whether every member of the list names its head branch.
pub open spec fn all_named(list: Seq<JsonView>) -> bool {
    forall|i: int| 0 <= i < list.len() ==> text_at(#[trigger] list[i], "headRefName"@) is Some
}

/// The pull requests of a whole list; there are none where the value is no list or a
/// member lacks its head branch.
pub open spec fn prs_of(j: JsonView) -> Option<Seq<(Seq<char>, PrInfoView)>> {
    match j {
        JsonView::List(list) => if all_named(list) {
            Some(list.map_values(|pr: JsonView| pr_in(pr)->0))
        } else {
            None
        },
        _ => None,
    }
}

fn string_or(j: &Json, key: &str, other: &str) -> (r: String)
    ensures
        r@ == text_or(json_view(*j), key@, other@),
{
    match j.str_at(key) {
        Some(s) => s.clone(),
        None => other.to_owned(),
    }
}

fn read_pr(j: &Json) -> (r: Option<(String, PrInfo)>)
    ensures
        r.deep_view() == pr_in(json_view(*j)),
{
    let head = match j.str_at("headRefName") {
        Some(s) => s.clone(),
        None => {
            return None;
        },
    };
    let draft = match j.get("isDraft") {
        Some(Json::Bool(b)) => *b,
        _ => false,
    };
    let open = match j.str_at("state") {
        Some(s) => same(s.as_str(), "OPEN"),
        None => false,
    };
    let state = if draft && open {
        "DRAFT".to_owned()
    } else {
        string_or(j, "state", "?")
    };
    let number = match j.get("number") {
        Some(Json::Number(Some(n))) => *n,
        _ => 0,
    };
    let url = string_or(j, "url", "");
    let title = string_or(j, "title", "");
    proof {
        reveal_strlit("");
        assert(""@ == Seq::<char>::empty());
    }
    Some((head, PrInfo { number, url, state, title }))
}

/// The pull requests in gh's parsed list, keyed by head branch name.
pub fn prs_in(j: &Json) -> (r: Option<Vec<(String, PrInfo)>>)
    ensures
        r.deep_view() == prs_of(json_view(*j)),
{
    let items = match j {
        Json::List(items) => items,
        _ => {
            return None;
        },
    };
    let ghost list = json_view(*j)->List_0;
    let ghost want = list.map_values(|pr: JsonView| pr_in(pr)->0);
    let mut out: Vec<(String, PrInfo)> = Vec::new();
    for i in 0..items.len()
        invariant
            *j == Json::List(*items),
            list == json_view(*j)->List_0,
            want == list.map_values(|pr: JsonView| pr_in(pr)->0),
            out.deep_view() == want.take(i as int),
            forall|k: int| 0 <= k < i ==> text_at(#[trigger] list[k], "headRefName"@) is Some,
    {
        let ghost before = out.deep_view();
        assert(list[i as int] == json_view(items@[i as int]));
        match read_pr(&items[i]) {
            Some(pr) => {
                out.push(pr);
                assert(out.deep_view() == before.push(pr.deep_view()));
                assert(want.take(i + 1) == want.take(i as int).push(want[i as int]));
            },
            None => {
                return None;
            },
        }
    }
    assert(want.take(items@.len() as int) == want);
    Some(out)
}

/// PR metadata for every branch from what `gh` printed (best effort; None when gh
/// failed or its output is no such list). Keyed by head branch name.
pub fn fetch_prs(success: bool, output: &[u8]) -> (r: Option<Vec<(String, PrInfo)>>)
    ensures
        !success ==> r is None,
        success && json_in_bytes(output@) is None ==> r is None,
        success && json_in_bytes(output@) is Some ==> r.deep_view() == prs_of(
            json_in_bytes(output@)->0,
        ),
{
    if !success {
        return None;
    }
    match read_bytes(output) {
        Some(j) => prs_in(&j),
        None => None,
    }
}

} // verus!
