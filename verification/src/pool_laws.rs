//! What holds of the pool, the spaces and their members, in terms of what stands on disk.

use crate::order::{
    is_key_order, law_sorting_keeps_members, law_sorting_sorts, lemma_text_order, sorted_stably,
};
use crate::path::{
    ancestors_of, base_name_of, file_name_of, joined_path, lemma_parent_shrinks, parent_of,
};
use crate::space::{
    adding, bare_name, first_marked, group_repos, hits_in, is_marked, kind_from, linked_branch,
    member_in, member_order, members_in, name_error, names_of, pool_beside, pool_order, pool_repos,
    pool_shown, resolved, root_shown, space_in, space_order, spaces_in, ActView, Kind, LayoutView,
    MemberFactView, PoolEntryView, PoolFactView, PoolRepoView, RepoStateView, RootEntryView,
    SpaceErrorView, SpaceRepoView, SpaceView,
};
use crate::text::{has_prefix, has_suffix, joined, pieces, text_before, trimmed};
use crate::text_laws::{law_joining_undoes_splitting, law_splitting_undoes_joining};
use vstd::prelude::*;

verus! {

// ---- the pool ------------------------------------------------------------------------------

/// Whether an entry shows as a repo: a folder, not hidden, with a `.git`.
pub open spec fn shows_as_repo(f: PoolFactView) -> bool {
    f.is_dir && f.has_git && !(f.name.len() > 0 && f.name[0] == '.')
}

/// Whether an entry shows as a group: a folder, not hidden, without a `.git`.
pub open spec fn shows_as_group(f: PoolFactView) -> bool {
    f.is_dir && !f.has_git && !(f.name.len() > 0 && f.name[0] == '.')
}

/// A repo of the pool: one that stands there itself.
pub open spec fn flat_repo(pool: Seq<char>, f: PoolFactView) -> PoolRepoView {
    PoolRepoView { name: f.name, path: joined_path(pool, f.name) }
}

/// A repo of the pool: one that stands in a group, under the name of both.
pub open spec fn grouped_repo(pool: Seq<char>, group: Seq<char>, f: PoolFactView) -> PoolRepoView {
    PoolRepoView {
        name: group + seq!['/'] + f.name,
        path: joined_path(joined_path(pool, group), f.name),
    }
}

proof fn lemma_group_repos(
    pool: Seq<char>,
    group: Seq<char>,
    inside: Seq<PoolFactView>,
    r: PoolRepoView,
)
    ensures
        group_repos(pool, group, inside).contains(r) <==> exists|j: int|
            0 <= j < inside.len() && shows_as_repo(#[trigger] inside[j]) && r == grouped_repo(
                pool,
                group,
                inside[j],
            ),
    decreases inside.len(),
{
    reveal_strlit("/");
    assert("/"@ == seq!['/']);
    let all = group_repos(pool, group, inside);
    if inside.len() > 0 {
        let front = inside.drop_last();
        let before = group_repos(pool, group, front);
        lemma_group_repos(pool, group, front, r);
        let f = inside[inside.len() - 1];
        if shows_as_repo(f) {
            let x = grouped_repo(pool, group, f);
            assert(all == before.push(x));
            lemma_push_has(before, x, r);
        } else {
            assert(all == before);
        }
        if before.contains(r) {
            let j = choose|j: int|
                0 <= j < front.len() && shows_as_repo(#[trigger] front[j]) && r == grouped_repo(
                    pool,
                    group,
                    front[j],
                );
            assert(inside[j] == front[j]);
        }
        if exists|j: int|
            0 <= j < inside.len() && shows_as_repo(#[trigger] inside[j]) && r == grouped_repo(
                pool,
                group,
                inside[j],
            ) {
            let j = choose|j: int|
                0 <= j < inside.len() && shows_as_repo(#[trigger] inside[j]) && r == grouped_repo(
                    pool,
                    group,
                    inside[j],
                );
            if j < front.len() {
                assert(front[j] == inside[j]);
            }
        }
    }
}

proof fn lemma_push_has<T>(s: Seq<T>, x: T, r: T)
    ensures
        s.push(x).contains(r) <==> s.contains(r) || r == x,
{
    if s.contains(r) {
        let i = choose|i: int| 0 <= i < s.len() && s[i] == r;
        assert(s.push(x)[i] == r);
    }
    assert(s.push(x)[s.len() as int] == x);
    if s.push(x).contains(r) && r != x {
        let i = choose|i: int| 0 <= i < s.push(x).len() && s.push(x)[i] == r;
        assert(s[i] == r);
    }
}

proof fn lemma_add_has<T>(s: Seq<T>, t: Seq<T>, r: T)
    ensures
        (s + t).contains(r) <==> s.contains(r) || t.contains(r),
{
    if s.contains(r) {
        let i = choose|i: int| 0 <= i < s.len() && s[i] == r;
        assert((s + t)[i] == r);
    }
    if t.contains(r) {
        let i = choose|i: int| 0 <= i < t.len() && t[i] == r;
        assert((s + t)[s.len() + i] == r);
    }
}

/// The pool holds just the repos that stand in it and those that stand in its groups, one
/// level deep, each under its name there; hidden folders and plain files are none.
pub proof fn law_pool_is_exact(pool: Seq<char>, entries: Seq<PoolEntryView>, r: PoolRepoView)
    ensures
        pool_repos(pool, entries).contains(r) <==> exists|i: int|
            0 <= i < entries.len() && #[trigger] gives_repo(pool, entries[i], r),
    decreases entries.len(),
{
    let all = pool_repos(pool, entries);
    if entries.len() > 0 {
        let front = entries.drop_last();
        let before = pool_repos(pool, front);
        law_pool_is_exact(pool, front, r);
        let e = entries[entries.len() - 1];
        lemma_group_repos(pool, e.fact.name, e.inside, r);
        if shows_as_repo(e.fact) {
            lemma_push_has(before, flat_repo(pool, e.fact), r);
        } else if shows_as_group(e.fact) {
            lemma_add_has(before, group_repos(pool, e.fact.name, e.inside), r);
        }
        assert(all.contains(r) <==> before.contains(r) || gives_repo(pool, e, r));
        if before.contains(r) {
            let i = choose|i: int|
                0 <= i < front.len() && #[trigger] gives_repo(pool, front[i], r);
            assert(gives_repo(pool, entries[i], r));
        }
        if exists|i: int| 0 <= i < entries.len() && #[trigger] gives_repo(pool, entries[i], r) {
            let i = choose|i: int|
                0 <= i < entries.len() && #[trigger] gives_repo(pool, entries[i], r);
            if i < front.len() {
                assert(gives_repo(pool, front[i], r));
            }
        }
    }
}

/// Whether an entry of the pool gives the repo: as one itself, or as the group it is in.
pub open spec fn gives_repo(pool: Seq<char>, e: PoolEntryView, r: PoolRepoView) -> bool {
    ||| shows_as_repo(e.fact) && r == flat_repo(pool, e.fact)
    ||| shows_as_group(e.fact) && exists|j: int|
        0 <= j < e.inside.len() && shows_as_repo(#[trigger] e.inside[j]) && r == grouped_repo(
            pool,
            e.fact.name,
            e.inside[j],
        )
}

proof fn lemma_name_orders()
    ensures
        is_key_order(pool_order()),
        is_key_order(member_order()),
        is_key_order(space_order()),
{
    assert forall|a: Seq<char>, b: Seq<char>, c: Seq<char>| true implies !#[trigger] text_before(a, a)
        && (#[trigger] text_before(a, b) && #[trigger] text_before(b, c) ==> text_before(a, c)) && (
    !text_before(a, b) && !text_before(b, c) ==> !text_before(a, c)) by {
        lemma_text_order(a, b, c);
    }
    assert forall|a: PoolRepoView, b: PoolRepoView, c: PoolRepoView|
        #![trigger pool_order()(a, b), pool_order()(b, c)]
        !pool_order()(a, a) && (pool_order()(a, b) && pool_order()(b, c) ==> pool_order()(a, c)) && (
        !pool_order()(a, b) && !pool_order()(b, c) ==> !pool_order()(a, c)) by {
        lemma_text_order(a.name, b.name, c.name);
    }
    assert forall|a: PoolRepoView| !#[trigger] pool_order()(a, a) by {
        lemma_text_order(a.name, a.name, a.name);
    }
    assert forall|a: SpaceRepoView, b: SpaceRepoView, c: SpaceRepoView|
        #![trigger member_order()(a, b), member_order()(b, c)]
        !member_order()(a, a) && (member_order()(a, b) && member_order()(b, c) ==> member_order()(
            a,
            c,
        )) && (!member_order()(a, b) && !member_order()(b, c) ==> !member_order()(a, c)) by {
        lemma_text_order(a.name, b.name, c.name);
    }
    assert forall|a: SpaceRepoView| !#[trigger] member_order()(a, a) by {
        lemma_text_order(a.name, a.name, a.name);
    }
    assert forall|a: SpaceView, b: SpaceView, c: SpaceView|
        #![trigger space_order()(a, b), space_order()(b, c)]
        !space_order()(a, a) && (space_order()(a, b) && space_order()(b, c) ==> space_order()(a, c))
            && (!space_order()(a, b) && !space_order()(b, c) ==> !space_order()(a, c)) by {
        lemma_text_order(a.name, b.name, c.name);
    }
    assert forall|a: SpaceView| !#[trigger] space_order()(a, a) by {
        lemma_text_order(a.name, a.name, a.name);
    }
}

/// Lists come by name: of the pool, of the members of a space, of the spaces, none stands in
/// front of one whose name comes before its own; and each list is of the same things as before
/// it was sorted.
pub proof fn law_lists_come_by_name(
    pool: Seq<PoolRepoView>,
    members: Seq<SpaceRepoView>,
    spaces: Seq<SpaceView>,
    i: int,
    j: int,
)
    requires
        0 <= i < j,
    ensures
        j < pool.len() ==> !text_before(
            sorted_stably(pool, pool_order())[j].name,
            sorted_stably(pool, pool_order())[i].name,
        ),
        sorted_stably(pool, pool_order()).to_multiset() == pool.to_multiset(),
        j < members.len() ==> !text_before(
            sorted_stably(members, member_order())[j].name,
            sorted_stably(members, member_order())[i].name,
        ),
        sorted_stably(members, member_order()).to_multiset() == members.to_multiset(),
        j < spaces.len() ==> !text_before(
            sorted_stably(spaces, space_order())[j].name,
            sorted_stably(spaces, space_order())[i].name,
        ),
        sorted_stably(spaces, space_order()).to_multiset() == spaces.to_multiset(),
{
    lemma_name_orders();
    law_sorting_sorts(pool, pool_order());
    law_sorting_keeps_members(pool, pool_order());
    law_sorting_sorts(members, member_order());
    law_sorting_keeps_members(members, member_order());
    law_sorting_sorts(spaces, space_order());
    law_sorting_keeps_members(spaces, space_order());
    if j < pool.len() {
        let s = sorted_stably(pool, pool_order());
        assert(!pool_order()(s[j], s[i]));
    }
    if j < members.len() {
        let s = sorted_stably(members, member_order());
        assert(!member_order()(s[j], s[i]));
    }
    if j < spaces.len() {
        let s = sorted_stably(spaces, space_order());
        assert(!space_order()(s[j], s[i]));
    }
}

// ---- names in the pool -----------------------------------------------------------------------

/// Whether a repo of the pool is called `name`: under that very name, or under it in a group.
pub open spec fn is_called(repo: Seq<char>, name: Seq<char>) -> bool {
    repo == name || exists|group: Seq<char>| repo == #[trigger] (group + seq!['/'] + name)
}

/// A name without a slash is the last part of the names that end in it behind a slash.
pub proof fn lemma_bare_name(repo: Seq<char>, name: Seq<char>)
    requires
        !name.contains('/'),
    ensures
        bare_name(repo) == name <==> is_called(repo, name),
{
    let parts = pieces(repo, '/');
    law_joining_undoes_splitting(repo, '/');
    let sep = seq!['/'];
    if bare_name(repo) == name {
        if parts.len() == 1 {
            assert(repo == name);
        } else {
            let group = joined(parts.drop_last(), sep);
            assert(repo == group + sep + name);
        }
    }
    if repo == name {
        assert forall|i: int| 0 <= i < 1 implies !(#[trigger] seq![name][i]).contains('/') by {}
        law_splitting_undoes_joining(seq![name], '/');
        assert(joined(seq![name], sep) == name);
    } else if is_called(repo, name) {
        let group = choose|group: Seq<char>| repo == #[trigger] (group + seq!['/'] + name);
        let head = pieces(group, '/');
        law_joining_undoes_splitting(group, '/');
        let all = head.push(name);
        assert(all.drop_last() == head);
        assert(joined(all, sep) == repo);
        assert forall|i: int| 0 <= i < all.len() implies !(#[trigger] all[i]).contains('/') by {
            if i < head.len() {
                assert(!head[i].contains('/'));
            }
        }
        law_splitting_undoes_joining(all, '/');
    }
}

proof fn lemma_hits(repos: Seq<PoolRepoView>, name: Seq<char>)
    requires
        !name.contains('/'),
    ensures
        hits_in(repos, name) == names_of(
            repos.filter(|r: PoolRepoView| is_called(r.name, name)),
        ),
    decreases repos.len(),
{
    reveal(Seq::filter);
    let called = |r: PoolRepoView| is_called(r.name, name);
    if repos.len() > 0 {
        lemma_hits(repos.drop_last(), name);
        lemma_bare_name(repos.last().name, name);
        let kept = repos.drop_last().filter(called);
        assert(names_of(kept.push(repos.last())) == names_of(kept).push(repos.last().name));
    }
}

/// A bare name stands for the one repo of the pool that is called so, in whichever group; it is
/// ambiguous where several are, and unknown where none is. A repo whose name merely ends in the
/// same letters is not called so.
pub proof fn law_bare_names_are_resolved(repos: Seq<PoolRepoView>, name: Seq<char>, i: int, j: int)
    requires
        !name.contains('/'),
    ensures
        0 <= i < repos.len() && is_called(repos[i].name, name) && (forall|k: int|
            0 <= k < repos.len() && k != i ==> !is_called((#[trigger] repos[k]).name, name))
            ==> resolved(name, false, repos) == Ok::<Seq<char>, SpaceErrorView>(repos[i].name),
        0 <= i < j < repos.len() && is_called(repos[i].name, name) && is_called(
            repos[j].name,
            name,
        ) ==> (resolved(name, false, repos) matches Err(SpaceErrorView::AmbiguousRepo { name: n, hits })
            && n == name && hits == repos.filter(
            |r: PoolRepoView| is_called(r.name, name),
        ).map_values(|r: PoolRepoView| r.name)),
        (forall|k: int| 0 <= k < repos.len() ==> !is_called((#[trigger] repos[k]).name, name)) ==> (
        resolved(name, false, repos) matches Err(SpaceErrorView::UnknownRepo { name: n, available })
            && n == name && available.len() == repos.len() && forall|k: int|
            0 <= k < repos.len() ==> #[trigger] available[k] == repos[k].name),
        resolved(name, false, repos) matches Ok(n) ==> is_called(n, name) && exists|k: int|
            0 <= k < repos.len() && (#[trigger] repos[k]).name == n,
        resolved(name, true, repos) == Ok::<Seq<char>, SpaceErrorView>(name),
{
    lemma_hits(repos, name);
    let called = |r: PoolRepoView| is_called(r.name, name);
    let kept = repos.filter(called);
    let hits = hits_in(repos, name);
    lemma_filter_positions(repos, called);
    assert(hits.len() == kept.len());
    if 0 <= i < repos.len() && is_called(repos[i].name, name) {
        assert(called(repos[i]));
        assert(kept.contains(repos[i]));
        let a = choose|a: int| 0 <= a < kept.len() && kept[a] == repos[i];
        assert(hits[a] == repos[i].name);
        if 0 <= i < j < repos.len() && is_called(repos[j].name, name) {
            assert(called(repos[j]));
            lemma_filter_two(repos, called, i, j);
            assert(hits == kept.map_values(|r: PoolRepoView| r.name));
        }
        if forall|k: int|
            0 <= k < repos.len() && k != i ==> !is_called((#[trigger] repos[k]).name, name) {
            lemma_filter_one(repos, called, i);
        }
    }
    if forall|k: int| 0 <= k < repos.len() ==> !is_called((#[trigger] repos[k]).name, name) {
        if kept.len() > 0 {
            assert(kept.contains(kept[0]));
        }
    }
    if hits.len() == 1 {
        assert(kept.contains(kept[0]));
        let k = choose|k: int| 0 <= k < repos.len() && repos[k] == kept[0] && called(repos[k]);
        assert(repos[k].name == hits[0]);
    }
}

/// What a filter keeps is just what it admits.
proof fn lemma_filter_positions<T>(s: Seq<T>, keep: spec_fn(T) -> bool)
    ensures
        forall|x: T| #[trigger]
            s.filter(keep).contains(x) <==> exists|k: int|
                0 <= k < s.len() && #[trigger] s[k] == x && keep(s[k]),
    decreases s.len(),
{
    reveal(Seq::filter);
    if s.len() > 0 {
        let front = s.drop_last();
        lemma_filter_positions(front, keep);
        assert forall|x: T| #[trigger]
            s.filter(keep).contains(x) <==> exists|k: int|
                0 <= k < s.len() && #[trigger] s[k] == x && keep(s[k]) by {
            if keep(s.last()) {
                lemma_push_has(front.filter(keep), s.last(), x);
            }
            if front.filter(keep).contains(x) {
                let k = choose|k: int|
                    0 <= k < front.len() && #[trigger] front[k] == x && keep(front[k]);
                assert(s[k] == x);
            }
            if exists|k: int| 0 <= k < s.len() && #[trigger] s[k] == x && keep(s[k]) {
                let k = choose|k: int| 0 <= k < s.len() && #[trigger] s[k] == x && keep(s[k]);
                if k < front.len() {
                    assert(front[k] == x);
                }
            }
            if keep(s.last()) && x == s.last() {
                assert(s[s.len() - 1] == x);
            }
        }
    }
}

proof fn lemma_filter_two<T>(s: Seq<T>, keep: spec_fn(T) -> bool, i: int, j: int)
    requires
        0 <= i < j < s.len(),
        keep(s[i]),
        keep(s[j]),
    ensures
        s.filter(keep).len() >= 2,
    decreases s.len(),
{
    reveal(Seq::filter);
    let front = s.drop_last();
    if j < s.len() - 1 {
        assert(front[i] == s[i] && front[j] == s[j]);
        lemma_filter_two(front, keep, i, j);
    } else {
        lemma_filter_positions(front, keep);
        assert(front[i] == s[i]);
        assert(front.filter(keep).contains(s[i]));
    }
}

proof fn lemma_filter_one<T>(s: Seq<T>, keep: spec_fn(T) -> bool, i: int)
    requires
        0 <= i < s.len(),
        keep(s[i]),
        forall|k: int| 0 <= k < s.len() && k != i ==> !keep(#[trigger] s[k]),
    ensures
        s.filter(keep).len() == 1,
        s.filter(keep)[0] == s[i],
    decreases s.len(),
{
    reveal(Seq::filter);
    let front = s.drop_last();
    lemma_filter_positions(front, keep);
    if i < s.len() - 1 {
        assert(!keep(s[s.len() - 1]));
        assert forall|k: int| 0 <= k < front.len() && k != i implies !keep(#[trigger] front[k]) by {
            assert(front[k] == s[k]);
        }
        assert(front[i] == s[i]);
        lemma_filter_one(front, keep, i);
    } else {
        if front.filter(keep).len() > 0 {
            let x = front.filter(keep)[0];
            assert(front.filter(keep).contains(x));
            let k = choose|k: int| 0 <= k < front.len() && #[trigger] front[k] == x && keep(front[k]);
            assert(!keep(s[k]));
        }
    }
}

/// A repo joins a space as a link of its own name, in the space, to where it is in the pool
/// beside the space; only where it is a folder there and its place in the space is free.
pub proof fn law_adding_links_into_the_pool(
    space: Seq<char>,
    repo: Seq<char>,
    src: Kind,
    dst: Kind,
    layout: LayoutView,
    root: Seq<char>,
    base: Seq<char>,
)
    requires
        parent_of(space) == Some(root),
    ensures
        ({
            let r = adding(space, repo, src, dst, layout);
            let named = file_name_of(repo) == Some(base);
            &&& src == Kind::Dir && dst == Kind::Missing && named ==> r == Ok::<
                ActView,
                SpaceErrorView,
            >(
                ActView::Link {
                    target: joined_path(joined_path(root, layout.pool), repo),
                    at: joined_path(space, base),
                    note: Some("symlinking "@ + repo),
                },
            )
            &&& src != Kind::Dir ==> r == Err::<ActView, SpaceErrorView>(
                SpaceErrorView::NotInPool { repo, pool: pool_shown(layout) },
            )
            &&& src == Kind::Dir && file_name_of(repo) is None ==> r == Err::<
                ActView,
                SpaceErrorView,
            >(SpaceErrorView::InvalidRepo { repo })
            &&& src == Kind::Dir && dst != Kind::Missing && named ==> r == Err::<
                ActView,
                SpaceErrorView,
            >(SpaceErrorView::AlreadyMember { name: base })
        }),
{
}

/// The pool stands beside the spaces, under its own name; where a space has no parent there is
/// none.
pub proof fn law_pool_stands_beside(space: Seq<char>, root: Seq<char>, layout: LayoutView)
    ensures
        parent_of(space) == Some(root) ==> pool_beside(space, layout) == Some(
            joined_path(root, layout.pool),
        ),
        parent_of(space) is None ==> pool_beside(space, layout) is None,
        parent_of(space) is None ==> adding(space, root, Kind::Dir, Kind::Missing, layout) == Err::<
            ActView,
            SpaceErrorView,
        >(SpaceErrorView::NoPool),
{
}

/// No space can be called nothing, like the pool, by a path, or by a hidden name, each for its
/// own reason; every other name will do.
pub proof fn law_names_of_spaces(name: Seq<char>, layout: LayoutView)
    ensures
        name_error(name, layout) is None <==> name.len() > 0 && name != layout.pool && !name.contains(
            '/',
        ) && name[0] != '.',
        name.len() == 0 ==> name_error(name, layout) == Some(SpaceErrorView::EmptyName),
        name.len() > 0 && name == layout.pool ==> name_error(name, layout) == Some(
            SpaceErrorView::ReservedName { pool: name },
        ),
        name.len() > 0 && name != layout.pool && (name.contains('/') || name[0] == '.')
            ==> name_error(name, layout) == Some(SpaceErrorView::InvalidName),
{
}

/// Where things are shown to be: under the home directory, the pool in the root.
pub proof fn law_places_are_shown(layout: LayoutView)
    ensures
        root_shown(layout) == seq!['~', '/'] + layout.root,
        pool_shown(layout) == seq!['~', '/'] + layout.root + seq!['/'] + layout.pool,
{
    reveal_strlit("~/");
    reveal_strlit("/");
    assert("~/"@ == seq!['~', '/']);
    assert("/"@ == seq!['/']);
}

// ---- spaces and members -----------------------------------------------------------------------

proof fn lemma_members(facts: Seq<MemberFactView>, policy_file: Seq<char>, m: SpaceRepoView)
    ensures
        members_in(facts, policy_file).contains(m) <==> exists|i: int|
            0 <= i < facts.len() && member_in(#[trigger] facts[i], policy_file) == Some(m),
    decreases facts.len(),
{
    if facts.len() > 0 {
        let front = facts.drop_last();
        lemma_members(front, policy_file, m);
        let before = members_in(front, policy_file);
        match member_in(facts.last(), policy_file) {
            Some(x) => {
                lemma_push_has(before, x, m);
            },
            None => {},
        }
        if before.contains(m) {
            let i = choose|i: int|
                0 <= i < front.len() && member_in(#[trigger] front[i], policy_file) == Some(m);
            assert(facts[i] == front[i]);
        }
        if exists|i: int|
            0 <= i < facts.len() && member_in(#[trigger] facts[i], policy_file) == Some(m) {
            let i = choose|i: int|
                0 <= i < facts.len() && member_in(#[trigger] facts[i], policy_file) == Some(m);
            if i < front.len() {
                assert(front[i] == facts[i]);
            }
        }
        if member_in(facts.last(), policy_file) == Some(m) {
            assert(facts[facts.len() - 1] == facts.last());
        }
    }
}

proof fn lemma_members_len(facts: Seq<MemberFactView>, policy_file: Seq<char>)
    ensures
        members_in(facts, policy_file).len() <= facts.len(),
    decreases facts.len(),
{
    if facts.len() > 0 {
        lemma_members_len(facts.drop_last(), policy_file);
    }
}

/// The members of a space are its entries other than plain files, hidden ones and the
/// generated ones: a link is a symlink; a folder whose `.git` is a file that leads to a `HEAD`
/// is a worktree on the branch named there; everything else is unmanaged. None is left out,
/// none is added.
pub proof fn law_members_are_exact(
    path: Seq<char>,
    facts: Seq<MemberFactView>,
    policy_file: Seq<char>,
    i: int,
    m: SpaceRepoView,
)
    ensures
        ({
            let repos = space_in(path, facts, policy_file).repos;
            let f = facts[i];
            let plain = !(f.name.len() > 0 && f.name[0] == '.') && f.name != policy_file && f.name
                != "AGENTS.md"@ && !has_suffix(f.name, ".code-workspace"@);
            &&& 0 <= i < facts.len() && plain && f.kind == Kind::Link ==> repos.contains(
                SpaceRepoView { name: f.name, state: RepoStateView::Symlink },
            )
            &&& 0 <= i < facts.len() && plain && f.kind == Kind::Dir && (linked_branch(
                f.git_file,
                f.head,
            ) matches Some(branch)) ==> repos.contains(
                SpaceRepoView {
                    name: f.name,
                    state: RepoStateView::Worktree { branch: linked_branch(f.git_file, f.head)->0 },
                },
            )
            &&& 0 <= i < facts.len() && plain && f.kind == Kind::Dir && linked_branch(
                f.git_file,
                f.head,
            ) is None ==> repos.contains(
                SpaceRepoView { name: f.name, state: RepoStateView::Foreign },
            )
            &&& 0 <= i < facts.len() && plain && f.kind == Kind::Other ==> repos.contains(
                SpaceRepoView { name: f.name, state: RepoStateView::Foreign },
            )
            &&& repos.contains(m) ==> exists|k: int|
                0 <= k < facts.len() && (#[trigger] facts[k]).name == m.name && facts[k].kind
                    != Kind::File && facts[k].kind != Kind::Missing && facts[k].name != policy_file
                    && facts[k].name != "AGENTS.md"@ && !has_suffix(
                    facts[k].name,
                    ".code-workspace"@,
                ) && !(m.name.len() > 0 && m.name[0] == '.') && (m.state is Symlink <==> facts[k].kind
                    == Kind::Link)
            &&& space_in(path, facts, policy_file).path == path
            &&& space_in(path, facts, policy_file).name == base_name_of(path)
            &&& repos.len() <= facts.len()
        }),
{
    broadcast use vstd::seq_lib::group_to_multiset_ensures;

    let all = members_in(facts, policy_file);
    let repos = space_in(path, facts, policy_file).repos;
    law_sorting_keeps_members(all, member_order());
    lemma_members_len(facts, policy_file);
    assert forall|x: SpaceRepoView| #[trigger] repos.contains(x) <==> all.contains(x) by {
        assert(repos.to_multiset().count(x) == all.to_multiset().count(x));
        assert(repos.contains(x) <==> repos.to_multiset().count(x) > 0);
        assert(all.contains(x) <==> all.to_multiset().count(x) > 0);
    }
    lemma_members(facts, policy_file, m);
    if 0 <= i < facts.len() {
        match member_in(facts[i], policy_file) {
            Some(x) => {
                lemma_members(facts, policy_file, x);
                assert(all.contains(x));
            },
            None => {},
        }
    }
    if repos.contains(m) {
        let k = choose|k: int|
            0 <= k < facts.len() && member_in(#[trigger] facts[k], policy_file) == Some(m);
        assert(facts[k].name == m.name);
    }
}

/// The branch of a linked worktree is the one that its `HEAD` names, or the first seven
/// characters of the commit; a folder whose `.git` is no file, or another file, is none.
pub proof fn law_branch_of_a_worktree(
    gitdir: Seq<char>,
    branch: Seq<char>,
    git_file: Seq<char>,
    head: Seq<char>,
)
    requires
        branch.len() > 0,
        trimmed("ref: refs/heads/"@ + branch) == "ref: refs/heads/"@ + branch,
    ensures
        linked_branch(
            Some("gitdir:"@ + gitdir),
            Some("ref: refs/heads/"@ + branch),
        ) == Some(branch),
        !has_prefix(trimmed(head), "ref: refs/heads/"@) && trimmed(head).len() >= 7
            ==> linked_branch(Some("gitdir:"@ + gitdir), Some(head)) == Some(trimmed(head).take(7)),
        !has_prefix(trimmed(head), "ref: refs/heads/"@) && trimmed(head).len() < 7
            ==> linked_branch(Some("gitdir:"@ + gitdir), Some(head)) == Some(trimmed(head)),
        !has_prefix(git_file, "gitdir:"@) ==> linked_branch(Some(git_file), Some(head)) is None,
        linked_branch(None, Some(head)) is None,
        linked_branch(Some(git_file), None) is None,
{
    let r = "ref: refs/heads/"@;
    let g = "gitdir:"@;
    assert((r + branch).subrange(0, r.len() as int) == r);
    assert((r + branch).skip(r.len() as int) == branch);
    assert((g + gitdir).subrange(0, g.len() as int) == g);
    if trimmed(head).len() == 7 {
        assert(trimmed(head).take(7) == trimmed(head));
    }
}

/// The spaces are the marked folders of the root, the pool aside: each of them, and no other
/// entry.
pub proof fn law_spaces_are_exact(
    root: Seq<char>,
    entries: Seq<RootEntryView>,
    policy_file: Seq<char>,
    layout: LayoutView,
    s: SpaceView,
)
    ensures
        spaces_in(root, entries, policy_file, layout).contains(s) <==> exists|i: int|
            0 <= i < entries.len() && (#[trigger] entries[i]).is_dir && entries[i].marked
                && entries[i].name != layout.pool && s == space_in(
                joined_path(root, entries[i].name),
                entries[i].inside,
                policy_file,
            ),
    decreases entries.len(),
{
    if entries.len() > 0 {
        let front = entries.drop_last();
        law_spaces_are_exact(root, front, policy_file, layout, s);
        let before = spaces_in(root, front, policy_file, layout);
        let e = entries[entries.len() - 1];
        let own = space_in(joined_path(root, e.name), e.inside, policy_file);
        if e.is_dir && e.name != layout.pool && e.marked {
            lemma_push_has(before, own, s);
        }
        if before.contains(s) {
            let i = choose|i: int|
                0 <= i < front.len() && (#[trigger] front[i]).is_dir && front[i].marked
                    && front[i].name != layout.pool && s == space_in(
                    joined_path(root, front[i].name),
                    front[i].inside,
                    policy_file,
                );
            assert(entries[i] == front[i]);
        }
        if exists|i: int|
            0 <= i < entries.len() && (#[trigger] entries[i]).is_dir && entries[i].marked
                && entries[i].name != layout.pool && s == space_in(
                joined_path(root, entries[i].name),
                entries[i].inside,
                policy_file,
            ) {
            let i = choose|i: int|
                0 <= i < entries.len() && (#[trigger] entries[i]).is_dir && entries[i].marked
                    && entries[i].name != layout.pool && s == space_in(
                    joined_path(root, entries[i].name),
                    entries[i].inside,
                    policy_file,
                );
            if i < front.len() {
                assert(front[i] == entries[i]);
            }
        }
    }
}

proof fn lemma_first_marked(found: Seq<(Seq<char>, Kind)>, dirs: Seq<Seq<char>>, k: int)
    ensures
        0 <= k < dirs.len() && is_marked(found, dirs[k]) && (forall|i: int|
            0 <= i < k ==> !is_marked(found, #[trigger] dirs[i])) ==> first_marked(found, dirs) == Some(
            dirs[k],
        ),
        (forall|i: int| 0 <= i < dirs.len() ==> !is_marked(found, #[trigger] dirs[i]))
            ==> first_marked(found, dirs) is None,
    decreases dirs.len(),
{
    if dirs.len() > 0 {
        let rest = dirs.drop_first();
        lemma_first_marked(found, rest, k - 1);
        assert forall|i: int| 0 <= i < rest.len() implies #[trigger] rest[i] == dirs[i + 1] by {}
        if 0 < k < dirs.len() && (forall|i: int|
            0 <= i < k ==> !is_marked(found, #[trigger] dirs[i])) {
            assert(!is_marked(found, dirs[0]));
            assert forall|i: int| 0 <= i < k - 1 implies !is_marked(found, #[trigger] rest[i]) by {
                assert(!is_marked(found, dirs[i + 1]));
            }
        }
        if forall|i: int| 0 <= i < dirs.len() ==> !is_marked(found, #[trigger] dirs[i]) {
            assert(!is_marked(found, dirs[0]));
            assert forall|i: int| 0 <= i < rest.len() implies !is_marked(found, #[trigger] rest[i]) by {
                assert(!is_marked(found, dirs[i + 1]));
            }
        }
    }
}

/// The space that encloses a directory is the nearest one: the directory itself or the first of
/// its parents, upwards, that has the marker; where none has, there is none.
pub proof fn law_nearest_space_encloses(found: Seq<(Seq<char>, Kind)>, start: Seq<char>, k: int)
    ensures
        ({
            let up = ancestors_of(start);
            let marked = |i: int|
                kind_from(found, joined_path(up[i], ".space.toml"@), 0) == Kind::File;
            &&& 0 <= k < up.len() && marked(k) && (forall|i: int| 0 <= i < k ==> !#[trigger] marked(i))
                ==> first_marked(found, up) == Some(up[k])
            &&& (forall|i: int| 0 <= i < up.len() ==> !#[trigger] marked(i)) ==> first_marked(
                found,
                up,
            ) is None
        }),
{
    let up = ancestors_of(start);
    let marked = |i: int| kind_from(found, joined_path(up[i], ".space.toml"@), 0) == Kind::File;
    lemma_first_marked(found, up, k);
    if forall|i: int| 0 <= i < k ==> !#[trigger] marked(i) {
        assert forall|i: int| 0 <= i < k implies !is_marked(found, #[trigger] up[i]) by {
            assert(!marked(i));
        }
    }
    if forall|i: int| 0 <= i < up.len() ==> !#[trigger] marked(i) {
        assert forall|i: int| 0 <= i < up.len() implies !is_marked(found, #[trigger] up[i]) by {
            assert(!marked(i));
        }
    }
}

/// The parents of a path, upwards: the path itself first, each followed by its parent, up to
/// one that has none.
pub proof fn law_parents_go_up(p: Seq<char>, i: int)
    ensures
        ancestors_of(p).len() > 0,
        ancestors_of(p)[0] == p,
        0 <= i < ancestors_of(p).len() - 1 ==> parent_of(ancestors_of(p)[i]) == Some(
            ancestors_of(p)[i + 1],
        ),
        parent_of(ancestors_of(p).last()) is None,
    decreases p.len(),
{
    lemma_parent_shrinks(p);
    match parent_of(p) {
        Some(q) => {
            law_parents_go_up(q, i - 1);
            let rest = ancestors_of(q);
            let all = ancestors_of(p);
            assert(all == seq![p] + rest);
            assert(all.last() == rest.last());
            if 0 < i < all.len() - 1 {
                assert(all[i] == rest[i - 1] && all[i + 1] == rest[i]);
            }
            if i == 0 {
                assert(all[1] == rest[0]);
            }
        },
        None => {},
    }
}

/// What was found at a path is what the first report on it says, and nothing where there is
/// none.
pub proof fn law_first_report_counts(paths: Seq<(Seq<char>, Kind)>, path: Seq<char>, k: int)
    ensures
        0 <= k < paths.len() && paths[k].0 == path && (forall|i: int|
            0 <= i < k ==> (#[trigger] paths[i]).0 != path) ==> kind_from(paths, path, 0)
            == paths[k].1,
        (forall|i: int| 0 <= i < paths.len() ==> (#[trigger] paths[i]).0 != path) ==> kind_from(
            paths,
            path,
            0,
        ) == Kind::Missing,
{
    lemma_kind_from(paths, path, 0, k);
}

proof fn lemma_kind_from(paths: Seq<(Seq<char>, Kind)>, path: Seq<char>, i: int, k: int)
    requires
        0 <= i,
    ensures
        i <= k < paths.len() && paths[k].0 == path && (forall|j: int|
            i <= j < k ==> (#[trigger] paths[j]).0 != path) ==> kind_from(paths, path, i)
            == paths[k].1,
        (forall|j: int| i <= j < paths.len() ==> (#[trigger] paths[j]).0 != path) ==> kind_from(
            paths,
            path,
            i,
        ) == Kind::Missing,
    decreases paths.len() - i,
{
    if i < paths.len() {
        lemma_kind_from(paths, path, i + 1, k);
    }
}

// ---- each once, in their order ----------------------------------------------------------------

proof fn lemma_group_is_exact(pool: Seq<char>, group: Seq<char>, inside: Seq<PoolFactView>)
    ensures
        group_repos(pool, group, inside) == inside.filter(
            |f: PoolFactView| shows_as_repo(f),
        ).map_values(|f: PoolFactView| grouped_repo(pool, group, f)),
    decreases inside.len(),
{
    reveal(Seq::filter);
    reveal_strlit("/");
    assert("/"@ == seq!['/']);
    let keep = |f: PoolFactView| shows_as_repo(f);
    let made = |f: PoolFactView| grouped_repo(pool, group, f);
    if inside.len() > 0 {
        let front = inside.drop_last();
        lemma_group_is_exact(pool, group, front);
        let kept = front.filter(keep);
        assert(kept.push(inside.last()).map_values(made) == kept.map_values(made).push(
            made(inside.last()),
        ));
    } else {
        assert(inside.filter(keep).map_values(made) == Seq::<PoolRepoView>::empty());
    }
}

/// The pool is gathered entry by entry: those of some entries followed by others are the repos of
/// the former followed by those of the latter. A repo that stands there itself comes once, a group
/// with each of its repos once, in their order, and anything else with none.
pub proof fn law_pool_is_gathered(
    pool: Seq<char>,
    a: Seq<PoolEntryView>,
    b: Seq<PoolEntryView>,
    e: PoolEntryView,
)
    ensures
        pool_repos(pool, a + b) == pool_repos(pool, a) + pool_repos(pool, b),
        shows_as_repo(e.fact) ==> pool_repos(pool, seq![e]) == seq![flat_repo(pool, e.fact)],
        shows_as_group(e.fact) ==> pool_repos(pool, seq![e]) == e.inside.filter(
            |f: PoolFactView| shows_as_repo(f),
        ).map_values(|f: PoolFactView| grouped_repo(pool, e.fact.name, f)),
        !shows_as_repo(e.fact) && !shows_as_group(e.fact) ==> pool_repos(pool, seq![e]).len() == 0,
    decreases b.len(),
{
    let none = Seq::<PoolEntryView>::empty();
    assert(seq![e].drop_last() == none);
    assert(pool_repos(pool, none) == Seq::<PoolRepoView>::empty());
    lemma_group_is_exact(pool, e.fact.name, e.inside);
    assert(Seq::<PoolRepoView>::empty() + group_repos(pool, e.fact.name, e.inside) == group_repos(
        pool,
        e.fact.name,
        e.inside,
    ));
    if b.len() == 0 {
        assert(a + b == a);
    } else {
        let front = b.drop_last();
        law_pool_is_gathered(pool, a, front, e);
        assert((a + b).drop_last() == a + front);
        assert((a + b).last() == b.last());
        let last = b.last();
        assert((pool_repos(pool, a) + pool_repos(pool, front)) + group_repos(
            pool,
            last.fact.name,
            last.inside,
        ) == pool_repos(pool, a) + (pool_repos(pool, front) + group_repos(
            pool,
            last.fact.name,
            last.inside,
        )));
    }
}

/// Whether an entry of a space is one of its members.
pub open spec fn is_member_entry(f: MemberFactView, policy_file: Seq<char>) -> bool {
    &&& f.kind == Kind::Link || f.kind == Kind::Dir || f.kind == Kind::Other
    &&& !(f.name.len() > 0 && f.name[0] == '.')
    &&& f.name != policy_file
    &&& f.name != "AGENTS.md"@
    &&& !has_suffix(f.name, ".code-workspace"@)
}

/// A space has as many members as entries that are members: each once.
pub proof fn law_members_come_once(
    path: Seq<char>,
    facts: Seq<MemberFactView>,
    policy_file: Seq<char>,
)
    ensures
        space_in(path, facts, policy_file).repos.len() == facts.filter(
            |f: MemberFactView| is_member_entry(f, policy_file),
        ).len(),
        space_in(path, facts, policy_file).repos.to_multiset() == members_in(
            facts,
            policy_file,
        ).to_multiset(),
        members_in(facts, policy_file).map_values(|m: SpaceRepoView| m.name) == facts.filter(
            |f: MemberFactView| is_member_entry(f, policy_file),
        ).map_values(|f: MemberFactView| f.name),
{
    lemma_member_names(facts, policy_file);
    law_sorting_keeps_members(members_in(facts, policy_file), member_order());
    let kept = facts.filter(|f: MemberFactView| is_member_entry(f, policy_file));
    let names = members_in(facts, policy_file).map_values(|m: SpaceRepoView| m.name);
    assert(names.len() == kept.len());
}

proof fn lemma_member_names(facts: Seq<MemberFactView>, policy_file: Seq<char>)
    ensures
        members_in(facts, policy_file).map_values(|m: SpaceRepoView| m.name) == facts.filter(
            |f: MemberFactView| is_member_entry(f, policy_file),
        ).map_values(|f: MemberFactView| f.name),
    decreases facts.len(),
{
    reveal(Seq::filter);
    let keep = |f: MemberFactView| is_member_entry(f, policy_file);
    let called = |f: MemberFactView| f.name;
    let named = |m: SpaceRepoView| m.name;
    if facts.len() > 0 {
        let front = facts.drop_last();
        let f = facts.last();
        lemma_member_names(front, policy_file);
        let kept = front.filter(keep);
        let before = members_in(front, policy_file);
        assert(kept.push(f).map_values(called) == kept.map_values(called).push(f.name));
        match member_in(f, policy_file) {
            Some(m) => {
                assert(before.push(m).map_values(named) == before.map_values(named).push(m.name));
            },
            None => {},
        }
    } else {
        assert(facts.filter(keep).map_values(called) == members_in(facts, policy_file).map_values(
            named,
        ));
    }
}

/// The spaces are read entry by entry, each marked folder but the pool once.
pub proof fn law_spaces_come_once(
    root: Seq<char>,
    entries: Seq<RootEntryView>,
    policy_file: Seq<char>,
    layout: LayoutView,
)
    ensures
        spaces_in(root, entries, policy_file, layout) == entries.filter(
            |e: RootEntryView| e.is_dir && e.marked && e.name != layout.pool,
        ).map_values(
            |e: RootEntryView| space_in(joined_path(root, e.name), e.inside, policy_file),
        ),
    decreases entries.len(),
{
    reveal(Seq::filter);
    let keep = |e: RootEntryView| e.is_dir && e.marked && e.name != layout.pool;
    let read = |e: RootEntryView| space_in(joined_path(root, e.name), e.inside, policy_file);
    if entries.len() > 0 {
        let front = entries.drop_last();
        law_spaces_come_once(root, front, policy_file, layout);
        let kept = front.filter(keep);
        assert(kept.push(entries.last()).map_values(read) == kept.map_values(read).push(
            read(entries.last()),
        ));
    } else {
        assert(entries.filter(keep).map_values(read) == Seq::<SpaceView>::empty());
    }
}

} // verus!
