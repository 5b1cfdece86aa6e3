//! What holds of every branch stack.

use crate::ancestry::{
    ancestry, law_ancestry_nests, lemma_ancestry_closed, lemma_ancestry_inside, Graph,
};
use crate::json::{member_of, text_at, JsonView};
use crate::order::{
    is_key_order, law_sorting_keeps_members, law_sorting_sorts, lemma_text_order,
    lemma_text_order_total, sorted_stably,
};
use crate::path::lemma_last_at;
use crate::stack::{
    carries, climb, commit_of, depth_under, diff_lines, displayed, edges_of, entry_at, entry_from,
    graph_in, has_branch, key_of, key_order, keyed, lemma_graph_finite, link_of, links_of, live_in,
    nearest, parent_from, pass, path_before, prs_of, settled, slug_in, slug_of, stack_in, tips_in,
    LinkView, LiveView, StackEntryView, MAX_LINES,
};
use crate::text::{
    has_prefix, has_suffix, has_text, is_white, joined, last_at, lines_of, occurs_at, repeated,
    text_before, words_of,
};
use crate::text_laws::{law_endings_come_off, law_words_are_read};
use vstd::prelude::*;

verus! {

/// Whether no two tips belong to one branch.
pub open spec fn distinct_branches(tips: Seq<(Seq<char>, Seq<char>)>) -> bool {
    forall|i: int, j: int|
        0 <= i < j < tips.len() ==> (#[trigger] tips[i]).0 != (#[trigger] tips[j]).0
}

// ---- the live branches ------------------------------------------------------------------

proof fn lemma_commit_of(tips: Seq<(Seq<char>, Seq<char>)>, i: int)
    requires
        distinct_branches(tips),
        0 <= i < tips.len(),
    ensures
        commit_of(tips, tips[i].0) == tips[i].1,
    decreases tips.len(),
{
    let front = tips.drop_last();
    if i < tips.len() - 1 {
        assert(tips[i].0 != tips[tips.len() - 1].0);
        assert forall|a: int, b: int| 0 <= a < b < front.len() implies (#[trigger] front[a]).0 != (
        #[trigger] front[b]).0 by {
            assert(front[a] == tips[a] && front[b] == tips[b]);
        }
        assert(front[i] == tips[i]);
        lemma_commit_of(front, i);
    }
}

/// What holds of the live branches: each has its name once, is not the default branch,
/// stands at a commit of the graph, and owns the ancestry of that commit.
spec fn rooted(live: Seq<LiveView>, default: Seq<char>, g: Graph) -> bool {
    &&& forall|i: int|
        0 <= i < live.len() ==> (#[trigger] live[i]).name != default && g.contains_key(live[i].tip)
            && live[i].own == ancestry(g, live[i].tip)
    &&& forall|i: int, j: int|
        0 <= i < j < live.len() ==> (#[trigger] live[i]).name != (#[trigger] live[j]).name
}

proof fn lemma_live_rooted(
    tips: Seq<(Seq<char>, Seq<char>)>,
    k: int,
    default: Seq<char>,
    g: Graph,
)
    requires
        distinct_branches(tips),
        0 <= k <= tips.len(),
    ensures
        rooted(live_in(tips, tips.take(k), default, g), default, g),
        forall|i: int|
            0 <= i < live_in(tips, tips.take(k), default, g).len() ==> (
            #[trigger] live_in(tips, tips.take(k), default, g)[i]).tip == commit_of(
                tips,
                live_in(tips, tips.take(k), default, g)[i].name,
            ) && exists|t: int|
                0 <= t < k && (#[trigger] tips[t]).0 == live_in(
                    tips,
                    tips.take(k),
                    default,
                    g,
                )[i].name,
    decreases k,
{
    let live = live_in(tips, tips.take(k), default, g);
    if k > 0 {
        lemma_live_rooted(tips, k - 1, default, g);
        let before = live_in(tips, tips.take(k - 1), default, g);
        assert(tips.take(k).drop_last() == tips.take(k - 1));
        assert(tips.take(k).last() == tips[k - 1]);
        lemma_commit_of(tips, k - 1);
        assert forall|i: int| 0 <= i < before.len() implies (#[trigger] before[i]).name != tips[k
            - 1].0 by {
            let t = choose|t: int| 0 <= t < k - 1 && (#[trigger] tips[t]).0 == before[i].name;
            assert(tips[t].0 != tips[k - 1].0);
        }
        assert forall|i: int| 0 <= i < live.len() implies (#[trigger] live[i]).tip == commit_of(
            tips,
            live[i].name,
        ) && exists|t: int| 0 <= t < k && (#[trigger] tips[t]).0 == live[i].name by {
            if i < before.len() {
                assert(live[i] == before[i]);
                let t = choose|t: int| 0 <= t < k - 1 && (#[trigger] tips[t]).0 == before[i].name;
                assert(tips[t].0 == live[i].name);
            } else {
                assert(tips[k - 1].0 == live[i].name);
            }
        }
        assert forall|i: int| 0 <= i < live.len() implies (#[trigger] live[i]).name != default
            && g.contains_key(live[i].tip) && live[i].own == ancestry(g, live[i].tip) by {
            if i < before.len() {
                assert(live[i] == before[i]);
            }
        }
        assert forall|i: int, j: int| 0 <= i < j < live.len() implies (#[trigger] live[i]).name != (
        #[trigger] live[j]).name by {
            assert(live[i] == before[i]);
            if j < before.len() {
                assert(live[j] == before[j]);
            }
        }
    }
}

/// The live branches among distinct tips.
proof fn lemma_live(tips: Seq<(Seq<char>, Seq<char>)>, default: Seq<char>, g: Graph)
    requires
        distinct_branches(tips),
    ensures
        rooted(live_in(tips, tips, default, g), default, g),
        forall|i: int|
            0 <= i < live_in(tips, tips, default, g).len() ==> (#[trigger] live_in(
                tips,
                tips,
                default,
                g,
            )[i]).tip == commit_of(tips, live_in(tips, tips, default, g)[i].name),
{
    assert(tips.take(tips.len() as int) == tips);
    lemma_live_rooted(tips, tips.len() as int, default, g);
}

proof fn lemma_nearest(live: Seq<LiveView>, b: int, k: int)
    requires
        0 <= k <= live.len(),
    ensures
        match nearest(live, b, k) {
            Some(m) => 0 <= m < k && carries(live, b, m) && (forall|c: int|
                0 <= c < k && #[trigger] carries(live, b, c) ==> live[c].own.len()
                    <= live[m].own.len()),
            None => forall|c: int| 0 <= c < k ==> !#[trigger] carries(live, b, c),
        },
    decreases k,
{
    if k > 0 {
        lemma_nearest(live, b, k - 1);
    }
}

/// An entry counts the commits of its branch beyond its parent: under the default branch
/// all those ahead of it, under another branch those that are not the parent's too. That
/// parent is another branch at a commit that the branch is built on.
pub proof fn law_commits_beyond_parent(
    tips: Seq<(Seq<char>, Seq<char>)>,
    default: Seq<char>,
    g: Graph,
    b: int,
)
    requires
        distinct_branches(tips),
        g.dom().finite(),
        0 <= b < live_in(tips, tips, default, g).len(),
    ensures
        ({
            let link = link_of(live_in(tips, tips, default, g), default, b);
            let own = ancestry(g, commit_of(tips, link.branch));
            let under = ancestry(g, commit_of(tips, link.parent));
            if link.parent == default {
                link.commits == own.len()
            } else {
                &&& link.parent != link.branch
                &&& own.contains(commit_of(tips, link.parent))
                &&& link.commits == own.difference(under).len()
                &&& link.commits > 0
            }
        }),
{
    let live = live_in(tips, tips, default, g);
    lemma_live(tips, default, g);
    lemma_nearest(live, b, live.len() as int);
    let link = link_of(live, default, b);
    let near = nearest(live, b, live.len() as int);
    assert(live[b].tip == commit_of(tips, live[b].name));
    if near is Some {
        let c = near->0;
        let own = live[b].own;
        let under = live[c].own;
        assert(live[c].tip == commit_of(tips, live[c].name));
        law_ancestry_nests(g, live[b].tip, live[c].tip);
        lemma_ancestry_inside(g, live[b].tip);
        lemma_ancestry_inside(g, live[c].tip);
        vstd::set_lib::lemma_set_difference_len(own, under);
        assert(own.intersect(under) == under);
        assert(own.difference(under).union(own.intersect(under)).union(under.difference(own))
            == own);
        assert(under.difference(own) == Set::<Seq<char>>::empty());
    }
}

/// The parent of a branch is the nearest of the branches whose tips lie below its own: no
/// other one of them has more commits ahead of the default branch, and the default branch is
/// the parent only where there is none. A branch that lies in its ancestry and not below it
/// has that very ancestry: the two share a tip.
pub proof fn law_parent_is_nearest(
    tips: Seq<(Seq<char>, Seq<char>)>,
    default: Seq<char>,
    g: Graph,
    b: int,
    c: int,
)
    requires
        distinct_branches(tips),
        g.dom().finite(),
        0 <= b < live_in(tips, tips, default, g).len(),
        0 <= c < live_in(tips, tips, default, g).len(),
        b != c,
        ancestry(g, commit_of(tips, live_in(tips, tips, default, g)[b].name)).contains(
            commit_of(tips, live_in(tips, tips, default, g)[c].name),
        ),
    ensures
        ({
            let live = live_in(tips, tips, default, g);
            let link = link_of(live, default, b);
            let own = ancestry(g, commit_of(tips, live[b].name));
            let other = ancestry(g, commit_of(tips, live[c].name));
            ||| other == own
            ||| link.parent != default && other.len() <= ancestry(
                g,
                commit_of(tips, link.parent),
            ).len() < own.len()
        }),
{
    let live = live_in(tips, tips, default, g);
    lemma_live(tips, default, g);
    lemma_nearest(live, b, live.len() as int);
    assert(live[b].tip == commit_of(tips, live[b].name));
    assert(live[c].tip == commit_of(tips, live[c].name));
    assert(live[c].name != live[b].name) by {
        if b < c {
            assert(live[b].name != live[c].name);
        } else {
            assert(live[c].name != live[b].name);
        }
    }
    law_ancestry_nests(g, live[b].tip, live[c].tip);
    lemma_ancestry_inside(g, live[b].tip);
    if live[c].own.len() < live[b].own.len() {
        assert(carries(live, b, c));
        let m = nearest(live, b, live.len() as int)->0;
        assert(live[m].tip == commit_of(tips, live[m].name));
        assert(live[m].name != default);
    } else {
        vstd::set_lib::lemma_len_subset(live[c].own, live[b].own);
        vstd::set_lib::lemma_subset_equality(live[c].own, live[b].own);
    }
}

/// Branches that share a tip are stacked on the same branch.
pub proof fn law_twins_share_their_parent(
    tips: Seq<(Seq<char>, Seq<char>)>,
    default: Seq<char>,
    g: Graph,
    b: int,
    c: int,
)
    requires
        distinct_branches(tips),
        0 <= b < live_in(tips, tips, default, g).len(),
        0 <= c < live_in(tips, tips, default, g).len(),
        commit_of(tips, live_in(tips, tips, default, g)[b].name) == commit_of(
            tips,
            live_in(tips, tips, default, g)[c].name,
        ),
    ensures
        ({
            let live = live_in(tips, tips, default, g);
            let x = link_of(live, default, b);
            let y = link_of(live, default, c);
            x.parent == y.parent && x.commits == y.commits
        }),
{
    let live = live_in(tips, tips, default, g);
    lemma_live(tips, default, g);
    assert(live[b].tip == commit_of(tips, live[b].name));
    assert(live[c].tip == commit_of(tips, live[c].name));
    lemma_twins(live, b, c, live.len() as int);
}

/// Branches with the same commits have the same branches below them.
proof fn lemma_twins(live: Seq<LiveView>, b: int, c: int, k: int)
    requires
        0 <= b < live.len(),
        0 <= c < live.len(),
        0 <= k <= live.len(),
        live[b].own == live[c].own,
        forall|i: int, j: int|
            0 <= i < j < live.len() ==> (#[trigger] live[i]).name != (#[trigger] live[j]).name,
    ensures
        nearest(live, b, k) == nearest(live, c, k),
    decreases k,
{
    if k > 0 {
        lemma_twins(live, b, c, k - 1);
        let m = k - 1;
        if live[m].own.len() < live[b].own.len() {
            assert(m != b && m != c);
            assert(live[m].name != live[b].name) by {
                if m < b {
                    assert(live[m].name != live[b].name);
                } else {
                    assert(live[b].name != live[m].name);
                }
            }
            assert(live[m].name != live[c].name) by {
                if m < c {
                    assert(live[m].name != live[c].name);
                } else {
                    assert(live[c].name != live[m].name);
                }
            }
        }
    }
}

// ---- placing the entries ----------------------------------------------------------------

/// Whether some entry belongs to the branch `name`.
pub open spec fn has_entry(entries: Seq<StackEntryView>, name: Seq<char>) -> bool {
    exists|i: int| 0 <= i < entries.len() && (#[trigger] entries[i]).branch == name
}

/// An entry without its depth.
pub open spec fn link_in(e: StackEntryView) -> LinkView {
    LinkView { branch: e.branch, parent: e.parent, commits: e.commits }
}

/// The entries without their depths.
pub open spec fn links_in(entries: Seq<StackEntryView>) -> Seq<LinkView> {
    entries.map_values(|e: StackEntryView| link_in(e))
}

proof fn lemma_entry_from(entries: Seq<StackEntryView>, name: Seq<char>, i: int)
    requires
        0 <= i,
    ensures
        match entry_from(entries, name, i) {
            Some(k) => i <= k < entries.len() && entries[k].branch == name,
            None => forall|k: int|
                i <= k < entries.len() ==> (#[trigger] entries[k]).branch != name,
        },
    decreases entries.len() - i,
{
    if i < entries.len() && entries[i].branch != name {
        lemma_entry_from(entries, name, i + 1);
    }
}

proof fn lemma_depth_under(
    entries: Seq<StackEntryView>,
    default: Seq<char>,
    parent: Seq<char>,
)
    ensures
        depth_under(entries, default, parent) is Some <==> parent == default || has_entry(
            entries,
            parent,
        ),
{
    lemma_entry_from(entries, parent, 0);
    if parent != default {
        match entry_from(entries, parent, 0) {
            Some(k) => {
                assert(entries[k].branch == parent);
            },
            None => {},
        }
    }
}

/// Whether each entry stands one deeper than an earlier entry for its parent, or at depth
/// one under the default branch.
spec fn layered(entries: Seq<StackEntryView>, default: Seq<char>) -> bool {
    forall|j: int| 0 <= j < entries.len() ==> #[trigger] layered_at(entries, default, j)
}

spec fn layered_at(entries: Seq<StackEntryView>, default: Seq<char>, j: int) -> bool {
    if entries[j].parent == default {
        entries[j].depth == 1
    } else {
        exists|i: int|
            0 <= i < j && (#[trigger] entries[i]).branch == entries[j].parent && entries[j].depth
                == entries[i].depth + 1
    }
}

proof fn lemma_layered_push(
    entries: Seq<StackEntryView>,
    default: Seq<char>,
    link: LinkView,
    d: nat,
)
    requires
        layered(entries, default),
        depth_under(entries, default, link.parent) == Some(d),
    ensures
        layered(entries.push(entry_at(link, d)), default),
{
    let more = entries.push(entry_at(link, d));
    lemma_entry_from(entries, link.parent, 0);
    assert forall|j: int| 0 <= j < more.len() implies #[trigger] layered_at(more, default, j) by {
        if j < entries.len() {
            assert(layered_at(entries, default, j));
            assert(more[j] == entries[j]);
            if entries[j].parent != default {
                let i = choose|i: int|
                    0 <= i < j && (#[trigger] entries[i]).branch == entries[j].parent
                        && entries[j].depth == entries[i].depth + 1;
                assert(more[i] == entries[i]);
            }
        } else if link.parent != default {
            let i = entry_from(entries, link.parent, 0)->0;
            assert(more[i] == entries[i]);
        }
    }
}

/// A pass keeps the entries there are, keeps every link, and keeps the layers.
proof fn lemma_pass(default: Seq<char>, entries: Seq<StackEntryView>, links: Seq<LinkView>)
    requires
        layered(entries, default),
    ensures
        layered(pass(default, entries, links).0, default),
        links_in(pass(default, entries, links).0).to_multiset().add(
            pass(default, entries, links).1.to_multiset(),
        ) == links_in(entries).to_multiset().add(links.to_multiset()),
        forall|name: Seq<char>|
            has_entry(entries, name) ==> #[trigger] has_entry(
                pass(default, entries, links).0,
                name,
            ),
        forall|i: int|
            0 <= i < links.len() ==> has_entry(
                pass(default, entries, links).0,
                (#[trigger] links[i]).branch,
            ) || pass(default, entries, links).1.contains(links[i]),
        forall|i: int|
            0 <= i < pass(default, entries, links).1.len() ==> links.contains(
                #[trigger] pass(default, entries, links).1[i],
            ),
        pass(default, entries, links).1.len() <= links.len(),
        forall|i: int|
            #![trigger links[i]]
            0 <= i < links.len() && (links[i].parent == default || has_entry(
                entries,
                links[i].parent,
            )) ==> pass(default, entries, links).1.len() < links.len(),
    decreases links.len(),
{
    broadcast use vstd::seq_lib::group_to_multiset_ensures;

    if links.len() > 0 {
        let front = links.drop_last();
        let last = links.last();
        lemma_pass(default, entries, front);
        let (done, left) = pass(default, entries, front);
        let (more, over) = pass(default, entries, links);
        lemma_depth_under(done, default, last.parent);
        assert(links == front.push(last));
        let start = links_in(entries).to_multiset();
        assert(links.to_multiset() == front.to_multiset().insert(last));
        match depth_under(done, default, last.parent) {
            Some(d) => {
                lemma_layered_push(done, default, last, d);
                assert(more == done.push(entry_at(last, d)));
                assert(links_in(more) == links_in(done).push(last));
                assert(links_in(more).to_multiset().add(over.to_multiset()) =~= links_in(
                    done,
                ).to_multiset().add(left.to_multiset()).insert(last));
                assert forall|name: Seq<char>| has_entry(done, name) implies #[trigger] has_entry(
                    more,
                    name,
                ) by {
                    let i = choose|i: int|
                        0 <= i < done.len() && (#[trigger] done[i]).branch == name;
                    assert(more[i] == done[i]);
                }
                assert(more[done.len() as int].branch == last.branch);
                assert(has_entry(more, last.branch));
            },
            None => {
                assert(over == left.push(last));
                assert(links_in(more).to_multiset().add(over.to_multiset()) =~= links_in(
                    done,
                ).to_multiset().add(left.to_multiset()).insert(last));
                assert(over[left.len() as int] == last);
            },
        }
        assert(start.add(links.to_multiset()) =~= start.add(front.to_multiset()).insert(last));
        assert forall|i: int| 0 <= i < links.len() implies has_entry(
            more,
            (#[trigger] links[i]).branch,
        ) || over.contains(links[i]) by {
            if i < front.len() {
                assert(links[i] == front[i]);
                if left.contains(front[i]) {
                    let k = choose|k: int| 0 <= k < left.len() && left[k] == front[i];
                    assert(over[k] == left[k]);
                }
            }
        }
        assert forall|i: int| 0 <= i < over.len() implies links.contains(#[trigger] over[i]) by {
            if i < left.len() {
                assert(over[i] == left[i]);
                let k = choose|k: int| 0 <= k < front.len() && front[k] == left[i];
                assert(links[k] == left[i]);
            } else {
                assert(links[links.len() - 1] == last);
            }
        }
        assert forall|i: int|
            #![trigger links[i]]
            0 <= i < links.len() && (links[i].parent == default || has_entry(
                entries,
                links[i].parent,
            )) implies over.len() < links.len() by {
            if i < front.len() {
                assert(links[i] == front[i]);
            } else {
                if last.parent != default {
                    assert(has_entry(done, last.parent));
                }
            }
        }
    } else {
        assert(links_in(entries).to_multiset().add(Seq::<LinkView>::empty().to_multiset())
            =~= links_in(entries).to_multiset().add(links.to_multiset()));
    }
}

/// Whether each link leads to the default branch, or to a link that is lower in `rank`.
spec fn descends(
    links: Seq<LinkView>,
    default: Seq<char>,
    rank: spec_fn(Seq<char>) -> nat,
) -> bool {
    forall|i: int|
        0 <= i < links.len() ==> (#[trigger] links[i]).parent == default || (rank(links[i].parent)
            < rank(links[i].branch) && exists|j: int|
            0 <= j < links.len() && (#[trigger] links[j]).branch == links[i].parent)
}

/// The link of the least rank among the first `k + 1`.
proof fn lemma_least(links: Seq<LinkView>, rank: spec_fn(Seq<char>) -> nat, k: int) -> (m: int)
    requires
        0 <= k < links.len(),
    ensures
        0 <= m <= k,
        forall|i: int| 0 <= i <= k ==> rank(links[m].branch) <= rank((#[trigger] links[i]).branch),
    decreases k,
{
    if k == 0 {
        0
    } else {
        let m = lemma_least(links, rank, k - 1);
        if rank(links[m].branch) <= rank(links[k].branch) {
            m
        } else {
            k
        }
    }
}

/// Where the links descend, passes place them all, layer by layer.
proof fn lemma_settled(
    full: Seq<LinkView>,
    default: Seq<char>,
    rank: spec_fn(Seq<char>) -> nat,
    entries: Seq<StackEntryView>,
    links: Seq<LinkView>,
)
    requires
        descends(full, default, rank),
        layered(entries, default),
        forall|i: int| 0 <= i < links.len() ==> full.contains(#[trigger] links[i]),
        forall|i: int|
            0 <= i < full.len() ==> has_entry(entries, (#[trigger] full[i]).branch)
                || links.contains(full[i]),
    ensures
        layered(settled(default, entries, links), default),
        links_in(settled(default, entries, links)).to_multiset() == links_in(
            entries,
        ).to_multiset().add(links.to_multiset()),
    decreases links.len(),
{
    broadcast use vstd::seq_lib::group_to_multiset_ensures;

    lemma_pass(default, entries, links);
    let (done, left) = pass(default, entries, links);
    if links.len() == 0 {
        assert(left == Seq::<LinkView>::empty());
        assert(done + left.map_values(|l: LinkView| entry_at(l, 1)) == done);
        assert(links_in(done).to_multiset().add(left.to_multiset()) =~= links_in(
            done,
        ).to_multiset());
    } else {
        let m = lemma_least(links, rank, links.len() - 1);
        let low = links[m];
        let f = choose|f: int| 0 <= f < full.len() && full[f] == low;
        if low.parent != default {
            assert(full[f].parent != default);
            let j = choose|j: int| 0 <= j < full.len() && (#[trigger] full[j]).branch == low.parent;
            if links.contains(full[j]) {
                let i = choose|i: int| 0 <= i < links.len() && links[i] == full[j];
                assert(rank(low.branch) <= rank(links[i].branch));
            }
            assert(has_entry(entries, full[j].branch));
        }
        assert(left.len() < links.len());
        assert forall|i: int| 0 <= i < left.len() implies full.contains(#[trigger] left[i]) by {
            let k = choose|k: int| 0 <= k < links.len() && links[k] == left[i];
            assert(full.contains(links[k]));
        }
        assert forall|i: int| 0 <= i < full.len() implies has_entry(
            done,
            (#[trigger] full[i]).branch,
        ) || left.contains(full[i]) by {
            if links.contains(full[i]) {
                let k = choose|k: int| 0 <= k < links.len() && links[k] == full[i];
                assert(links[k].branch == full[i].branch);
            }
        }
        lemma_settled(full, default, rank, done, left);
    }
}

/// The links of the branches ahead of `default`.
pub open spec fn branch_links(
    tips: Seq<(Seq<char>, Seq<char>)>,
    default: Seq<char>,
    g: Graph,
) -> Seq<LinkView> {
    links_of(live_in(tips, tips, default, g), default)
}

/// The entries of the branches ahead of `default`, as they are placed.
pub open spec fn branch_entries(
    tips: Seq<(Seq<char>, Seq<char>)>,
    default: Seq<char>,
    g: Graph,
) -> Seq<StackEntryView> {
    settled(default, Seq::empty(), branch_links(tips, default, g))
}

proof fn lemma_branch_entries(tips: Seq<(Seq<char>, Seq<char>)>, default: Seq<char>, g: Graph)
    requires
        distinct_branches(tips),
        g.dom().finite(),
    ensures
        layered(branch_entries(tips, default, g), default),
        links_in(branch_entries(tips, default, g)).to_multiset() == branch_links(
            tips,
            default,
            g,
        ).to_multiset(),
{
    broadcast use vstd::seq_lib::group_to_multiset_ensures;

    let live = live_in(tips, tips, default, g);
    let links = branch_links(tips, default, g);
    let rank = |name: Seq<char>| ancestry(g, commit_of(tips, name)).len();
    lemma_live(tips, default, g);
    assert forall|i: int| 0 <= i < links.len() implies (#[trigger] links[i]).parent == default || (
    rank(links[i].parent) < rank(links[i].branch) && exists|j: int|
        0 <= j < links.len() && (#[trigger] links[j]).branch == links[i].parent) by {
        lemma_nearest(live, i, live.len() as int);
        let near = nearest(live, i, live.len() as int);
        assert(links[i] == link_of(live, default, i));
        if near is Some {
            assert(live[near->0].tip == commit_of(tips, live[near->0].name));
            assert(live[i].tip == commit_of(tips, live[i].name));
            assert(links[near->0].branch == live[near->0].name);
        }
    }
    let none = Seq::<StackEntryView>::empty();
    assert forall|i: int| 0 <= i < links.len() implies has_entry(none, (#[trigger] links[i]).branch)
        || links.contains(links[i]) by {}
    lemma_settled(links, default, rank, none, links);
    assert(links_in(none) == Seq::<LinkView>::empty());
    assert(Seq::<LinkView>::empty().to_multiset().add(links.to_multiset()) =~= links.to_multiset());
}

proof fn lemma_map_multiset<A, B>(s: Seq<A>, t: Seq<A>, f: spec_fn(A) -> B)
    requires
        s.to_multiset() == t.to_multiset(),
    ensures
        s.map_values(f).to_multiset() == t.map_values(f).to_multiset(),
    decreases s.len(),
{
    broadcast use vstd::seq_lib::group_to_multiset_ensures;

    assert(s.to_multiset().len() == s.len());
    assert(t.to_multiset().len() == t.len());
    if s.len() > 0 {
        let x = s.last();
        assert(s.contains(x)) by {
            assert(s[s.len() - 1] == x);
        }
        assert(t.to_multiset().count(x) > 0);
        assert(t.contains(x));
        let k = choose|k: int| 0 <= k < t.len() && t[k] == x;
        let rest = t.remove(k);
        assert(s == s.drop_last().push(x));
        assert(s.remove(s.len() - 1) == s.drop_last());
        assert(s.drop_last().to_multiset() == s.to_multiset().remove(x));
        assert(rest.to_multiset() == t.to_multiset().remove(x));
        lemma_map_multiset(s.drop_last(), rest, f);
        assert(s.map_values(f) == s.drop_last().map_values(f).push(f(x)));
        assert(t.map_values(f).remove(k) == rest.map_values(f));
        assert(t.map_values(f)[k] == f(x));
        assert(t.map_values(f).contains(f(x)));
        assert(t.map_values(f).to_multiset().remove(f(x)) == rest.map_values(f).to_multiset());
        assert(t.map_values(f).to_multiset() =~= rest.map_values(f).to_multiset().insert(f(x)));
    } else {
        assert(s.map_values(f) == Seq::<B>::empty());
        assert(t.map_values(f) == Seq::<B>::empty());
    }
}

proof fn lemma_displayed_members(entries: Seq<StackEntryView>)
    ensures
        displayed(entries).to_multiset() == entries.to_multiset(),
{
    let second = |k: (Seq<Seq<char>>, StackEntryView)| k.1;
    law_sorting_keeps_members(keyed(entries), key_order());
    lemma_map_multiset(sorted_stably(keyed(entries), key_order()), keyed(entries), second);
    assert(keyed(entries).map_values(second) == entries);
}

/// The stack shows every branch ahead of the default branch once, with the parent and
/// the commits that its link names, and nothing else.
pub proof fn law_every_live_branch_once(
    tips: Seq<(Seq<char>, Seq<char>)>,
    default: Seq<char>,
    g: Graph,
)
    requires
        distinct_branches(tips),
        g.dom().finite(),
    ensures
        links_in(displayed(branch_entries(tips, default, g))).to_multiset() == branch_links(
            tips,
            default,
            g,
        ).to_multiset(),
        forall|i: int, j: int|
            0 <= i < j < displayed(branch_entries(tips, default, g)).len() ==> (
            #[trigger] displayed(branch_entries(tips, default, g))[i]).branch != (
            #[trigger] displayed(branch_entries(tips, default, g))[j]).branch,
{
    let entries = branch_entries(tips, default, g);
    let shown = displayed(entries);
    lemma_branch_entries(tips, default, g);
    lemma_displayed_members(entries);
    lemma_map_multiset(shown, entries, |e: StackEntryView| link_in(e));
    lemma_distinct_entries(tips, default, g, shown);
}

/// Entries that are a rearrangement of the links belong to distinct branches.
proof fn lemma_distinct_entries(
    tips: Seq<(Seq<char>, Seq<char>)>,
    default: Seq<char>,
    g: Graph,
    entries: Seq<StackEntryView>,
)
    requires
        distinct_branches(tips),
        links_in(entries).to_multiset() == branch_links(tips, default, g).to_multiset(),
    ensures
        forall|i: int, j: int|
            0 <= i < j < entries.len() ==> (#[trigger] entries[i]).branch != (
            #[trigger] entries[j]).branch,
        forall|i: int| 0 <= i < entries.len() ==> (#[trigger] entries[i]).branch != default,
{
    broadcast use vstd::seq_lib::group_to_multiset_ensures;

    let live = live_in(tips, tips, default, g);
    let links = branch_links(tips, default, g);
    lemma_live(tips, default, g);
    let name = |l: LinkView| l.branch;
    let a = links_in(entries).map_values(name);
    let b = links.map_values(name);
    lemma_map_multiset(links_in(entries), links, name);
    assert(b.no_duplicates()) by {
        assert forall|i: int, j: int| 0 <= i < b.len() && 0 <= j < b.len() && i != j implies b[i]
            != b[j] by {
            assert(b[i] == live[i].name);
            assert(b[j] == live[j].name);
            if i < j {
                assert(live[i].name != live[j].name);
            } else {
                assert(live[j].name != live[i].name);
            }
        }
    }
    b.lemma_multiset_has_no_duplicates();
    a.lemma_multiset_has_no_duplicates_conv();
    assert forall|i: int, j: int| 0 <= i < j < entries.len() implies (#[trigger] entries[i]).branch
        != (#[trigger] entries[j]).branch by {
        assert(a[i] == entries[i].branch);
        assert(a[j] == entries[j].branch);
    }
    assert forall|i: int| 0 <= i < entries.len() implies (#[trigger] entries[i]).branch
        != default by {
        assert(a[i] == entries[i].branch);
        assert(a.contains(a[i]));
        assert(b.to_multiset().count(a[i]) > 0);
        assert(b.contains(a[i]));
        let k = choose|k: int| 0 <= k < b.len() && b[k] == a[i];
        assert(b[k] == live[k].name);
    }
}

// ---- display order ----------------------------------------------------------------------

proof fn lemma_path_order(a: Seq<Seq<char>>, b: Seq<Seq<char>>, c: Seq<Seq<char>>)
    ensures
        !path_before(a, a),
        path_before(a, b) && path_before(b, c) ==> path_before(a, c),
        !path_before(a, b) && !path_before(b, c) ==> !path_before(a, c),
    decreases a.len(),
{
    if a.len() > 0 {
        lemma_path_order(a.drop_first(), a.drop_first(), a.drop_first());
        if b.len() > 0 && c.len() > 0 {
            lemma_path_order(a.drop_first(), b.drop_first(), c.drop_first());
            lemma_text_order(a[0], b[0], c[0]);
            lemma_text_order(b[0], a[0], c[0]);
            lemma_text_order(a[0], c[0], b[0]);
            lemma_text_order(c[0], a[0], c[0]);
            if !text_before(a[0], b[0]) && !text_before(b[0], a[0]) {
                lemma_text_order_total(a[0], b[0]);
            }
            if !text_before(b[0], c[0]) && !text_before(c[0], b[0]) {
                lemma_text_order_total(b[0], c[0]);
            }
            if !text_before(a[0], c[0]) && !text_before(c[0], a[0]) {
                lemma_text_order_total(a[0], c[0]);
            }
            lemma_text_order(b[0], c[0], a[0]);
            lemma_text_order(c[0], b[0], a[0]);
        }
    }
}

proof fn lemma_key_order()
    ensures
        is_key_order(key_order()),
{
    let before = key_order();
    assert forall|a: (Seq<Seq<char>>, StackEntryView)| !#[trigger] before(a, a) by {
        lemma_path_order(a.0, a.0, a.0);
    }
    assert forall|
        a: (Seq<Seq<char>>, StackEntryView),
        b: (Seq<Seq<char>>, StackEntryView),
        c: (Seq<Seq<char>>, StackEntryView),
    |
        #![trigger before(a, b), before(b, c)]
        before(a, b) && before(b, c) implies before(a, c) by {
        lemma_path_order(a.0, b.0, c.0);
    }
    assert forall|
        a: (Seq<Seq<char>>, StackEntryView),
        b: (Seq<Seq<char>>, StackEntryView),
        c: (Seq<Seq<char>>, StackEntryView),
    |
        #![trigger before(a, b), before(b, c)]
        !before(a, b) && !before(b, c) implies !before(a, c) by {
        lemma_path_order(a.0, b.0, c.0);
    }
}

/// A path comes before every longer one that begins with it.
proof fn lemma_prefix_before(a: Seq<Seq<char>>, x: Seq<char>)
    ensures
        path_before(a, a.push(x)),
    decreases a.len(),
{
    if a.len() > 0 {
        lemma_prefix_before(a.drop_first(), x);
        assert(a.push(x).drop_first() == a.drop_first().push(x));
    }
}

/// What stands between a path and a path one longer begins with the path.
proof fn lemma_between(a: Seq<Seq<char>>, x: Seq<char>, k: Seq<Seq<char>>)
    requires
        !path_before(k, a),
        !path_before(a.push(x), k),
    ensures
        a.is_prefix_of(k),
    decreases a.len(),
{
    if a.len() == 0 {
        assert(a.is_prefix_of(k));
    } else {
        let ax = a.push(x);
        assert(k.len() > 0);
        assert(ax[0] == a[0]);
        if a[0] != k[0] {
            assert(!text_before(k[0], a[0]));
            assert(!text_before(a[0], k[0]));
            lemma_text_order_total(a[0], k[0]);
        }
        assert(ax.drop_first() == a.drop_first().push(x));
        lemma_between(a.drop_first(), x, k.drop_first());
        let (a1, k1) = (a.drop_first(), k.drop_first());
        assert forall|i: int| 0 <= i < a.len() implies a[i] == k[i] by {
            if i > 0 {
                assert(a1[i - 1] == a[i]);
                assert(k1[i - 1] == k[i]);
                assert(k1.subrange(0, a1.len() as int)[i - 1] == a1[i - 1]);
            }
        }
        assert(a.is_prefix_of(k));
    }
}

proof fn lemma_parent_from(entries: Seq<StackEntryView>, j: int, i: int)
    requires
        0 <= i <= j < entries.len(),
        forall|a: int, b: int|
            0 <= a < b < entries.len() ==> (#[trigger] entries[a]).branch != (
            #[trigger] entries[b]).branch,
    ensures
        parent_from(edges_of(entries), entries[j].branch, i) == Some(entries[j].parent),
    decreases j - i,
{
    assert(edges_of(entries)[i] == (entries[i].branch, entries[i].parent));
    if i < j {
        assert(entries[i].branch != entries[j].branch);
        lemma_parent_from(entries, j, i + 1);
    }
}

proof fn lemma_parent_none(entries: Seq<StackEntryView>, name: Seq<char>, i: int)
    requires
        0 <= i <= entries.len(),
        forall|a: int| 0 <= a < entries.len() ==> (#[trigger] entries[a]).branch != name,
    ensures
        parent_from(edges_of(entries), name, i) is None,
    decreases entries.len() - i,
{
    if i < entries.len() {
        assert(edges_of(entries)[i] == (entries[i].branch, entries[i].parent));
        lemma_parent_none(entries, name, i + 1);
    }
}

/// A chain as long as the depth allows does not grow when more names are allowed.
proof fn lemma_climb(entries: Seq<StackEntryView>, default: Seq<char>, j: int, n: nat)
    requires
        layered(entries, default),
        0 <= j < entries.len(),
        forall|a: int, b: int|
            0 <= a < b < entries.len() ==> (#[trigger] entries[a]).branch != (
            #[trigger] entries[b]).branch,
        forall|a: int| 0 <= a < entries.len() ==> (#[trigger] entries[a]).branch != default,
        n >= entries[j].depth,
    ensures
        entries[j].depth > 0,
        climb(edges_of(entries), entries[j].parent, n) == climb(
            edges_of(entries),
            entries[j].parent,
            entries[j].depth,
        ),
    decreases j,
{
    let edges = edges_of(entries);
    assert(layered_at(entries, default, j));
    if entries[j].parent == default {
        lemma_parent_none(entries, default, 0);
    } else {
        let i = choose|i: int|
            0 <= i < j && (#[trigger] entries[i]).branch == entries[j].parent && entries[j].depth
                == entries[i].depth + 1;
        lemma_parent_from(entries, i, 0);
        lemma_climb(entries, default, i, (n - 1) as nat);
    }
}

/// An entry stands no deeper than as many entries as there are up to it.
proof fn lemma_depth_bound(entries: Seq<StackEntryView>, default: Seq<char>, j: int)
    requires
        layered(entries, default),
        0 <= j < entries.len(),
    ensures
        entries[j].depth <= j + 1,
    decreases j,
{
    assert(layered_at(entries, default, j));
    if entries[j].parent != default {
        let i = choose|i: int|
            0 <= i < j && (#[trigger] entries[i]).branch == entries[j].parent && entries[j].depth
                == entries[i].depth + 1;
        lemma_depth_bound(entries, default, i);
    }
}

/// The path of a child is the path of its parent and its own name.
proof fn lemma_child_key(entries: Seq<StackEntryView>, default: Seq<char>, j: int) -> (i: int)
    requires
        layered(entries, default),
        0 <= j < entries.len(),
        forall|a: int, b: int|
            0 <= a < b < entries.len() ==> (#[trigger] entries[a]).branch != (
            #[trigger] entries[b]).branch,
        forall|a: int| 0 <= a < entries.len() ==> (#[trigger] entries[a]).branch != default,
        entries[j].parent != default,
    ensures
        0 <= i < j,
        entries[i].branch == entries[j].parent,
        entries[j].depth == entries[i].depth + 1,
        key_of(edges_of(entries), entries[j]) == key_of(edges_of(entries), entries[i]).push(
            entries[j].branch,
        ),
{
    let edges = edges_of(entries);
    assert(layered_at(entries, default, j));
    let i = choose|i: int|
        0 <= i < j && (#[trigger] entries[i]).branch == entries[j].parent && entries[j].depth
            == entries[i].depth + 1;
    lemma_parent_from(entries, i, 0);
    let n = edges.len();
    lemma_depth_bound(entries, default, i);
    lemma_climb(entries, default, i, n);
    lemma_climb(entries, default, i, n + 1);
    let up = seq![entries[i].branch] + climb(edges, entries[i].parent, n + 1);
    assert(climb(edges, entries[j].parent, n + 1) == up);
    assert((seq![entries[j].branch] + up).reverse() == up.reverse().push(entries[j].branch));
    i
}

/// In the displayed stack a branch with a parent other than the default branch stands
/// below that parent, one deeper, and what stands between the two lies below the parent
/// too: its path begins with the parent's path.
pub proof fn law_children_follow_parent(
    tips: Seq<(Seq<char>, Seq<char>)>,
    default: Seq<char>,
    g: Graph,
    j: int,
)
    requires
        distinct_branches(tips),
        g.dom().finite(),
        0 <= j < displayed(branch_entries(tips, default, g)).len(),
        displayed(branch_entries(tips, default, g))[j].parent != default,
    ensures
        ({
            let shown = displayed(branch_entries(tips, default, g));
            let edges = edges_of(branch_entries(tips, default, g));
            exists|i: int|
                0 <= i < j && (#[trigger] shown[i]).branch == shown[j].parent && shown[j].depth
                    == shown[i].depth + 1 && forall|k: int|
                    i < k < j ==> key_of(edges, shown[i]).is_prefix_of(
                        key_of(edges, #[trigger] shown[k]),
                    )
        }),
{
    broadcast use vstd::seq_lib::group_to_multiset_ensures;

    let entries = branch_entries(tips, default, g);
    let shown = displayed(entries);
    let edges = edges_of(entries);
    let all = keyed(entries);
    let sorted = sorted_stably(all, key_order());
    lemma_branch_entries(tips, default, g);
    lemma_distinct_entries(tips, default, g, entries);
    lemma_key_order();
    law_sorting_sorts(all, key_order());
    law_sorting_keeps_members(all, key_order());
    // Every member of the sorted list carries its own path.
    assert forall|k: int| 0 <= k < sorted.len() implies (#[trigger] sorted[k]).0 == key_of(
        edges,
        sorted[k].1,
    ) && all.contains(sorted[k]) by {
        assert(sorted.contains(sorted[k]));
        assert(all.to_multiset().count(sorted[k]) > 0);
        assert(all.contains(sorted[k]));
        let m = choose|m: int| 0 <= m < all.len() && all[m] == sorted[k];
        assert(all[m] == (key_of(edges, entries[m]), entries[m]));
    }
    assert(all.contains(sorted[j]));
    let m = choose|m: int| 0 <= m < all.len() && all[m] == sorted[j];
    assert(all[m].1 == entries[m]);
    assert(shown[j] == entries[m]);
    let p = lemma_child_key(entries, default, m);
    assert(all[p] == (key_of(edges, entries[p]), entries[p]));
    assert(all.contains(all[p]));
    assert(sorted.to_multiset().count(all[p]) > 0);
    assert(sorted.contains(all[p]));
    let i = choose|i: int| 0 <= i < sorted.len() && sorted[i] == all[p];
    let path = key_of(edges, entries[p]);
    lemma_prefix_before(path, entries[m].branch);
    assert(shown[i] == entries[p]);
    assert(sorted[i].0 == path);
    assert(sorted[j].0 == path.push(entries[m].branch));
    assert(key_order()(sorted[i], sorted[j]));
    if j < i {
        assert(!key_order()(sorted[i], sorted[j]));
    }
    if i == j {
        lemma_path_order(path, path, path);
    }
    assert forall|k: int| i < k < j implies key_of(edges, shown[i]).is_prefix_of(
        key_of(edges, #[trigger] shown[k]),
    ) by {
        assert(sorted[k].0 == key_of(edges, shown[k]));
        assert(!key_order()(sorted[k], sorted[i]));
        assert(!key_order()(sorted[j], sorted[k]));
        lemma_between(path, entries[m].branch, sorted[k].0);
    }
}

/// Siblings stand in the ascending order of their names.
pub proof fn law_siblings_are_in_order(
    tips: Seq<(Seq<char>, Seq<char>)>,
    default: Seq<char>,
    g: Graph,
    i: int,
    j: int,
)
    requires
        distinct_branches(tips),
        g.dom().finite(),
        0 <= i < j < displayed(branch_entries(tips, default, g)).len(),
        displayed(branch_entries(tips, default, g))[i].parent == displayed(
            branch_entries(tips, default, g),
        )[j].parent,
    ensures
        text_before(
            displayed(branch_entries(tips, default, g))[i].branch,
            displayed(branch_entries(tips, default, g))[j].branch,
        ),
{
    broadcast use vstd::seq_lib::group_to_multiset_ensures;

    let entries = branch_entries(tips, default, g);
    let shown = displayed(entries);
    let edges = edges_of(entries);
    let all = keyed(entries);
    let sorted = sorted_stably(all, key_order());
    law_every_live_branch_once(tips, default, g);
    lemma_key_order();
    law_sorting_sorts(all, key_order());
    law_sorting_keeps_members(all, key_order());
    assert forall|k: int| 0 <= k < sorted.len() implies (#[trigger] sorted[k]).0 == key_of(
        edges,
        sorted[k].1,
    ) by {
        assert(sorted.contains(sorted[k]));
        assert(all.to_multiset().count(sorted[k]) > 0);
        assert(all.contains(sorted[k]));
        let m = choose|m: int| 0 <= m < all.len() && all[m] == sorted[k];
        assert(all[m] == (key_of(edges, entries[m]), entries[m]));
    }
    let up = climb(edges, shown[i].parent, edges.len() + 1);
    let (x, y) = (shown[i].branch, shown[j].branch);
    assert((seq![x] + up).reverse() == up.reverse().push(x));
    assert((seq![y] + up).reverse() == up.reverse().push(y));
    assert(!key_order()(sorted[j], sorted[i]));
    assert(x != y);
    lemma_last_decides(up.reverse(), y, x);
    if !text_before(x, y) {
        lemma_text_order_total(x, y);
    }
}

/// Paths that differ in the last name alone come in the order of that name.
proof fn lemma_last_decides(a: Seq<Seq<char>>, x: Seq<char>, y: Seq<char>)
    requires
        x != y,
    ensures
        path_before(a.push(x), a.push(y)) == text_before(x, y),
    decreases a.len(),
{
    if a.len() > 0 {
        lemma_last_decides(a.drop_first(), x, y);
        assert(a.push(x).drop_first() == a.drop_first().push(x));
        assert(a.push(y).drop_first() == a.drop_first().push(y));
    }
}

// ---- paths ------------------------------------------------------------------------------

/// Whether following parents from `from` comes to an end at `top`, which has none.
pub open spec fn leads_to(
    edges: Seq<(Seq<char>, Seq<char>)>,
    from: Seq<char>,
    top: Seq<char>,
) -> bool {
    parent_from(edges, top, 0) is None && exists|m: nat|
        (#[trigger] climb(edges, from, m)).len() > 0 && climb(edges, from, m).last() == top
}

proof fn lemma_climb_steps(edges: Seq<(Seq<char>, Seq<char>)>, from: Seq<char>, m: nat)
    ensures
        m > 0 ==> climb(edges, from, m).len() > 0 && climb(edges, from, m)[0] == from,
        climb(edges, from, m).len() <= m,
        forall|i: int|
            0 <= i < climb(edges, from, m).len() - 1 ==> parent_from(
                edges,
                #[trigger] climb(edges, from, m)[i],
                0,
            ) == Some(climb(edges, from, m)[i + 1]),
        forall|i: int|
            0 <= i < climb(edges, from, m).len() ==> climb(edges, from, m).skip(i) == climb(
                edges,
                #[trigger] climb(edges, from, m)[i],
                (m - i) as nat,
            ),
    decreases m,
{
    if m > 0 {
        let c = climb(edges, from, m);
        match parent_from(edges, from, 0) {
            Some(p) => {
                let rest = climb(edges, p, (m - 1) as nat);
                lemma_climb_steps(edges, p, (m - 1) as nat);
                assert(c == seq![from] + rest);
                assert forall|i: int| 0 <= i < c.len() - 1 implies parent_from(
                    edges,
                    #[trigger] c[i],
                    0,
                ) == Some(c[i + 1]) by {
                    if i > 0 {
                        assert(c[i] == rest[i - 1]);
                        assert(c[i + 1] == rest[i]);
                    } else {
                        assert(c[1] == rest[0]);
                    }
                }
                assert forall|i: int| 0 <= i < c.len() implies c.skip(i) == climb(
                    edges,
                    #[trigger] c[i],
                    (m - i) as nat,
                ) by {
                    if i > 0 {
                        assert(c[i] == rest[i - 1]);
                        assert(c.skip(i) == rest.skip(i - 1));
                        assert((m - 1) as nat - (i - 1) == m - i);
                    } else {
                        assert(c.skip(0) == c);
                    }
                }
            },
            None => {
                assert(c.skip(0) == c);
            },
        }
    }
}

/// A climb that has come to its end is the same for every larger number of names.
proof fn lemma_climb_ends(
    edges: Seq<(Seq<char>, Seq<char>)>,
    from: Seq<char>,
    m: nat,
    n: nat,
)
    requires
        climb(edges, from, m).len() > 0,
        parent_from(edges, climb(edges, from, m).last(), 0) is None,
        n >= climb(edges, from, m).len(),
    ensures
        climb(edges, from, n) == climb(edges, from, m),
    decreases m,
{
    match parent_from(edges, from, 0) {
        Some(p) => {
            let rest = climb(edges, p, (m - 1) as nat);
            assert(climb(edges, from, m) == seq![from] + rest);
            if rest.len() == 0 {
                assert((seq![from] + rest).last() == from);
            } else {
                assert((seq![from] + rest).last() == rest.last());
                lemma_climb_ends(edges, p, (m - 1) as nat, (n - 1) as nat);
            }
        },
        None => {},
    }
}

proof fn lemma_parent_has_edge(edges: Seq<(Seq<char>, Seq<char>)>, name: Seq<char>, i: int)
    requires
        0 <= i,
        parent_from(edges, name, i) is Some,
    ensures
        edges.map_values(|e: (Seq<char>, Seq<char>)| e.0).contains(name),
    decreases edges.len() - i,
{
    let names = edges.map_values(|e: (Seq<char>, Seq<char>)| e.0);
    if edges[i].0 == name {
        assert(names[i] == name);
    } else {
        lemma_parent_has_edge(edges, name, i + 1);
    }
}

/// A climb that comes to an end takes each edge once at most.
proof fn lemma_climb_is_short(edges: Seq<(Seq<char>, Seq<char>)>, from: Seq<char>, m: nat)
    requires
        climb(edges, from, m).len() > 0,
        parent_from(edges, climb(edges, from, m).last(), 0) is None,
    ensures
        climb(edges, from, m).len() <= edges.len() + 1,
{
    let c = climb(edges, from, m);
    let front = c.drop_last();
    let names = edges.map_values(|e: (Seq<char>, Seq<char>)| e.0);
    lemma_climb_steps(edges, from, m);
    assert forall|i: int, j: int| 0 <= i < j < front.len() implies front[i] != front[j] by {
        if front[i] == front[j] {
            assert(c[i] == front[i] && c[j] == front[j]);
            let x = climb(edges, c[i], (m - i) as nat);
            let y = climb(edges, c[j], (m - j) as nat);
            assert(c.skip(i) == x && c.skip(j) == y);
            assert(x.last() == c.last() && y.last() == c.last());
            lemma_climb_ends(edges, c[j], (m - j) as nat, (m - i) as nat);
            assert(x.len() == c.len() - i && y.len() == c.len() - j);
        }
    }
    assert(front.no_duplicates());
    assert forall|x: Seq<char>| front.to_set().contains(x) implies names.to_set().contains(x) by {
        let i = choose|i: int| 0 <= i < front.len() && front[i] == x;
        assert(c[i] == x);
        lemma_parent_has_edge(edges, c[i], 0);
    }
    front.unique_seq_to_set();
    vstd::seq_lib::seq_to_set_is_finite(names);
    vstd::set_lib::lemma_len_subset(front.to_set(), names.to_set());
    names.lemma_cardinality_of_set();
}

/// The key of an entry is the whole path of branch names from the default branch down to it,
/// however long that is: it starts at `top`, ends with the branch, and each name but the
/// first is a branch whose parent is the name before it.
pub proof fn law_keys_are_whole_paths(
    edges: Seq<(Seq<char>, Seq<char>)>,
    e: StackEntryView,
    top: Seq<char>,
)
    requires
        leads_to(edges, e.parent, top),
    ensures
        ({
            let key = key_of(edges, e);
            &&& key.len() >= 2
            &&& key[0] == top
            &&& key.last() == e.branch
            &&& key[key.len() - 2] == e.parent
            &&& forall|k: int|
                1 <= k < key.len() - 1 ==> parent_from(edges, #[trigger] key[k], 0) == Some(
                    key[k - 1],
                )
        }),
{
    let m = choose|m: nat|
        (#[trigger] climb(edges, e.parent, m)).len() > 0 && climb(edges, e.parent, m).last()
            == top;
    lemma_climb_is_short(edges, e.parent, m);
    lemma_climb_ends(edges, e.parent, m, edges.len() + 1);
    let c = climb(edges, e.parent, edges.len() + 1);
    lemma_climb_steps(edges, e.parent, edges.len() + 1);
    let up = seq![e.branch] + c;
    let key = key_of(edges, e);
    assert(key == up.reverse());
    assert forall|k: int| 1 <= k < key.len() - 1 implies parent_from(edges, #[trigger] key[k], 0)
        == Some(key[k - 1]) by {
        let i = up.len() - 1 - k;
        assert(key[k] == up[i] && up[i] == c[i - 1]);
        assert(key[k - 1] == up[i + 1] && up[i + 1] == c[i]);
    }
}

// ---- the stack in terms of the tips and the graph --------------------------------------------

/// Whether a branch is ahead of the default branch: it is another one, and stands at a commit
/// that the default branch does not have.
pub open spec fn is_ahead(tip: (Seq<char>, Seq<char>), default: Seq<char>, g: Graph) -> bool {
    tip.0 != default && g.contains_key(tip.1)
}

/// Each branch that is ahead is among the live ones.
proof fn lemma_live_complete(
    tips: Seq<(Seq<char>, Seq<char>)>,
    some: Seq<(Seq<char>, Seq<char>)>,
    default: Seq<char>,
    g: Graph,
    i: int,
) -> (b: int)
    requires
        0 <= i < some.len(),
        is_ahead(some[i], default, g),
    ensures
        0 <= b < live_in(tips, some, default, g).len(),
        live_in(tips, some, default, g)[b].name == some[i].0,
    decreases some.len(),
{
    let before = live_in(tips, some.drop_last(), default, g);
    if i == some.len() - 1 {
        before.len() as int
    } else {
        assert(some.drop_last()[i] == some[i]);
        let b = lemma_live_complete(tips, some.drop_last(), default, g, i);
        assert(live_in(tips, some, default, g)[b] == before[b]);
        b
    }
}

/// Each live branch is one of the tips, and ahead.
proof fn lemma_live_sound(
    tips: Seq<(Seq<char>, Seq<char>)>,
    some: Seq<(Seq<char>, Seq<char>)>,
    default: Seq<char>,
    g: Graph,
    b: int,
) -> (i: int)
    requires
        0 <= b < live_in(tips, some, default, g).len(),
    ensures
        0 <= i < some.len(),
        live_in(tips, some, default, g)[b].name == some[i].0,
        is_ahead(some[i], default, g),
    decreases some.len(),
{
    let before = live_in(tips, some.drop_last(), default, g);
    if b < before.len() {
        let i = lemma_live_sound(tips, some.drop_last(), default, g, b);
        assert(some.drop_last()[i] == some[i]);
        i
    } else {
        some.len() - 1
    }
}

/// The link that an entry of the stack comes from.
proof fn lemma_entry_link(
    tips: Seq<(Seq<char>, Seq<char>)>,
    default: Seq<char>,
    g: Graph,
    k: int,
) -> (b: int)
    requires
        distinct_branches(tips),
        g.dom().finite(),
        0 <= k < displayed(branch_entries(tips, default, g)).len(),
    ensures
        0 <= b < live_in(tips, tips, default, g).len(),
        link_in(displayed(branch_entries(tips, default, g))[k]) == link_of(
            live_in(tips, tips, default, g),
            default,
            b,
        ),
{
    broadcast use vstd::seq_lib::group_to_multiset_ensures;

    law_every_live_branch_once(tips, default, g);
    let shown = displayed(branch_entries(tips, default, g));
    let links = branch_links(tips, default, g);
    let a = links_in(shown);
    assert(a[k] == link_in(shown[k]));
    assert(a.contains(a[k]));
    assert(a.to_multiset().count(a[k]) > 0);
    assert(links.contains(a[k]));
    choose|b: int| 0 <= b < links.len() && links[b] == a[k]
}

/// The entry that the link of a live branch becomes.
proof fn lemma_link_entry(
    tips: Seq<(Seq<char>, Seq<char>)>,
    default: Seq<char>,
    g: Graph,
    b: int,
) -> (k: int)
    requires
        distinct_branches(tips),
        g.dom().finite(),
        0 <= b < live_in(tips, tips, default, g).len(),
    ensures
        0 <= k < displayed(branch_entries(tips, default, g)).len(),
        displayed(branch_entries(tips, default, g))[k].branch == live_in(
            tips,
            tips,
            default,
            g,
        )[b].name,
{
    broadcast use vstd::seq_lib::group_to_multiset_ensures;

    law_every_live_branch_once(tips, default, g);
    let shown = displayed(branch_entries(tips, default, g));
    let links = branch_links(tips, default, g);
    let a = links_in(shown);
    assert(links.contains(links[b]));
    assert(links.to_multiset().count(links[b]) > 0);
    assert(a.contains(links[b]));
    let k = choose|k: int| 0 <= k < a.len() && a[k] == links[b];
    assert(a[k] == link_in(shown[k]));
    assert(links[b].branch == live_in(tips, tips, default, g)[b].name);
    k
}

/// The stack shows just the branches that are ahead of the default branch, each once: every
/// branch whose commit the default branch does not have, wherever it was forked, and no
/// other. The default branch is `main`, or `master` where there is no `main`; without either
/// there is no stack.
pub proof fn law_stack_shows_what_is_ahead(
    heads: Seq<char>,
    revs: Seq<char>,
    origin: Option<Seq<char>>,
    i: int,
    k: int,
)
    requires
        distinct_branches(tips_in(lines_of(heads))),
    ensures
        ({
            let tips = tips_in(lines_of(heads));
            let g = graph_in(lines_of(revs));
            match stack_in(heads, revs, origin) {
                Some(stack) => {
                    let default = stack.default_branch;
                    &&& default == "main"@ || default == "master"@
                    &&& exists|t: int| 0 <= t < tips.len() && (#[trigger] tips[t]).0 == default
                    &&& default != "main"@ && 0 <= i < tips.len() ==> tips[i].0 != "main"@
                    &&& 0 <= i < tips.len() && is_ahead(tips[i], default, g) ==> has_entry(
                        stack.entries,
                        tips[i].0,
                    )
                    &&& 0 <= k < stack.entries.len() ==> exists|t: int|
                        0 <= t < tips.len() && (#[trigger] tips[t]).0 == stack.entries[k].branch
                            && is_ahead(tips[t], default, g)
                    &&& 0 <= i < k < stack.entries.len() ==> stack.entries[i].branch
                        != stack.entries[k].branch
                },
                None => 0 <= i < tips.len() ==> tips[i].0 != "main"@ && tips[i].0 != "master"@,
            }
        }),
{
    let tips = tips_in(lines_of(heads));
    let g = graph_in(lines_of(revs));
    lemma_graph_finite(lines_of(revs));
    match stack_in(heads, revs, origin) {
        Some(stack) => {
            let default = stack.default_branch;
            let shown = displayed(branch_entries(tips, default, g));
            assert(stack.entries == shown);
            assert(has_branch(tips, default));
            law_every_live_branch_once(tips, default, g);
            if 0 <= i < tips.len() && is_ahead(tips[i], default, g) {
                let b = lemma_live_complete(tips, tips, default, g, i);
                let e = lemma_link_entry(tips, default, g, b);
                assert(shown[e].branch == tips[i].0);
            }
            if 0 <= k < shown.len() {
                let b = lemma_entry_link(tips, default, g, k);
                let t = lemma_live_sound(tips, tips, default, g, b);
                assert(tips[t].0 == shown[k].branch);
            }
            if default != "main"@ && 0 <= i < tips.len() {
                assert(!has_branch(tips, "main"@));
            }
            if 0 <= i < k < shown.len() {
                assert(shown[i].branch != shown[k].branch);
            }
        },
        None => {
            if 0 <= i < tips.len() {
                assert(!has_branch(tips, "main"@) && !has_branch(tips, "master"@));
            }
        },
    }
}

/// What each branch of the stack is stacked on. Under the default branch it stands at depth
/// one with all its commits ahead, and no other branch's commit lies below its own. Otherwise
/// its parent is another branch ahead, at a commit that it is built on; it has just its
/// commits beyond that parent's, at least one; no other branch below it has more commits; and
/// it stands under the parent's entry, one deeper.
pub proof fn law_stack_places_each_branch(
    heads: Seq<char>,
    revs: Seq<char>,
    origin: Option<Seq<char>>,
    i: int,
    c: int,
    k: int,
)
    requires
        distinct_branches(tips_in(lines_of(heads))),
        stack_in(heads, revs, origin) is Some,
        0 <= k < stack_in(heads, revs, origin)->0.entries.len(),
        0 <= i < tips_in(lines_of(heads)).len(),
        0 <= c < tips_in(lines_of(heads)).len(),
        stack_in(heads, revs, origin)->0.entries[k].branch == tips_in(lines_of(heads))[i].0,
    ensures
        ({
            let tips = tips_in(lines_of(heads));
            let g = graph_in(lines_of(revs));
            let stack = stack_in(heads, revs, origin)->0;
            let default = stack.default_branch;
            let e = stack.entries[k];
            let own = ancestry(g, tips[i].1);
            let other = ancestry(g, tips[c].1);
            let below = c != i && is_ahead(tips[c], default, g) && own.contains(tips[c].1)
                && other != own;
            if e.parent == default {
                e.commits == own.len() && e.depth == 1 && !below
            } else {
                &&& e.parent != e.branch
                &&& exists|m: int|
                    0 <= m < k && (#[trigger] stack.entries[m]).branch == e.parent && e.depth
                        == stack.entries[m].depth + 1
                &&& exists|t: int|
                    0 <= t < tips.len() && (#[trigger] tips[t]).0 == e.parent && is_ahead(
                        tips[t],
                        default,
                        g,
                    ) && own.contains(tips[t].1) && e.commits == own.difference(
                        ancestry(g, tips[t].1),
                    ).len() && e.commits > 0 && (below ==> other.len() <= ancestry(
                        g,
                        tips[t].1,
                    ).len())
            }
        }),
{
    let tips = tips_in(lines_of(heads));
    let g = graph_in(lines_of(revs));
    lemma_graph_finite(lines_of(revs));
    let stack = stack_in(heads, revs, origin)->0;
    let default = stack.default_branch;
    let shown = displayed(branch_entries(tips, default, g));
    assert(stack.entries == shown);
    let e = shown[k];
    let live = live_in(tips, tips, default, g);
    let b = lemma_entry_link(tips, default, g, k);
    let link = link_of(live, default, b);
    assert(link_in(e) == link);
    assert(live[b].name == tips[i].0);
    lemma_live(tips, default, g);
    lemma_commit_of(tips, i);
    lemma_commit_of(tips, c);
    law_commits_beyond_parent(tips, default, g, b);
    let own = ancestry(g, tips[i].1);
    let other = ancestry(g, tips[c].1);
    let below = c != i && is_ahead(tips[c], default, g) && own.contains(tips[c].1) && other != own;
    if below {
        let d = lemma_live_complete(tips, tips, default, g, c);
        assert(tips[c].0 != tips[i].0) by {
            if c < i {
                assert(tips[c].0 != tips[i].0);
            } else {
                assert(tips[i].0 != tips[c].0);
            }
        }
        assert(d != b);
        law_parent_is_nearest(tips, default, g, b, d);
    }
    if e.parent == default {
        lemma_shown_depth(tips, default, g, k);
    } else {
        law_children_follow_parent(tips, default, g, k);
        lemma_nearest(live, b, live.len() as int);
        let near = nearest(live, b, live.len() as int)->0;
        let t = lemma_live_sound(tips, tips, default, g, near);
        lemma_commit_of(tips, t);
        assert(tips[t].0 == e.parent);
        let m = choose|m: int|
            0 <= m < k && (#[trigger] shown[m]).branch == shown[k].parent && shown[k].depth
                == shown[m].depth + 1 && forall|x: int|
                m < x < k ==> key_of(edges_of(branch_entries(tips, default, g)), shown[m]).is_prefix_of(
                    key_of(edges_of(branch_entries(tips, default, g)), #[trigger] shown[x]),
                );
        assert(stack.entries[m].branch == e.parent);
    }
}

/// An entry under the default branch stands at depth one.
proof fn lemma_shown_depth(
    tips: Seq<(Seq<char>, Seq<char>)>,
    default: Seq<char>,
    g: Graph,
    k: int,
)
    requires
        distinct_branches(tips),
        g.dom().finite(),
        0 <= k < displayed(branch_entries(tips, default, g)).len(),
        displayed(branch_entries(tips, default, g))[k].parent == default,
    ensures
        displayed(branch_entries(tips, default, g))[k].depth == 1,
{
    broadcast use vstd::seq_lib::group_to_multiset_ensures;

    let entries = branch_entries(tips, default, g);
    let shown = displayed(entries);
    lemma_branch_entries(tips, default, g);
    lemma_displayed_members(entries);
    assert(shown.contains(shown[k]));
    assert(shown.to_multiset().count(shown[k]) > 0);
    assert(entries.contains(shown[k]));
    let m = choose|m: int| 0 <= m < entries.len() && entries[m] == shown[k];
    assert(layered_at(entries, default, m));
}

/// A commit's ancestry is the commit itself and, with each commit in it, every parent of that
/// commit that the default branch does not have; and nothing that this does not lead to.
pub proof fn law_ancestry_follows_every_parent(
    g: Graph,
    tip: Seq<char>,
    c: Seq<char>,
    p: Seq<char>,
    s: Set<Seq<char>>,
)
    ensures
        g.contains_key(tip) <==> ancestry(g, tip).contains(tip),
        ancestry(g, tip).contains(c) ==> g.contains_key(c),
        ancestry(g, tip).contains(c) && g[c].contains(p) && g.contains_key(p) ==> ancestry(
            g,
            tip,
        ).contains(p),
        (g.contains_key(tip) ==> s.contains(tip)) && (forall|a: Seq<char>, b: Seq<char>|
            #![trigger s.contains(a), g[a].contains(b)]
            s.contains(a) && g[a].contains(b) && g.contains_key(b) ==> s.contains(b))
            && ancestry(g, tip).contains(c) ==> s.contains(c),
{
    lemma_ancestry_closed(g, tip, c, p, s);
}

// ---- what git lists --------------------------------------------------------------------------

/// The branch tips are read as git lists them: the name of the branch, a blank and the
/// commit, a line each.
pub proof fn law_tips_are_read(tips: Seq<(Seq<char>, Seq<char>)>)
    requires
        forall|i: int| 0 <= i < tips.len() ==> !(#[trigger] tips[i]).1.contains(' '),
    ensures
        tips_in(tips.map_values(|t: (Seq<char>, Seq<char>)| t.0 + " "@ + t.1)) == tips,
    decreases tips.len(),
{
    reveal_strlit(" ");
    let lines = tips.map_values(|t: (Seq<char>, Seq<char>)| t.0 + " "@ + t.1);
    if tips.len() > 0 {
        let front = tips.drop_last();
        assert forall|i: int| 0 <= i < front.len() implies !(#[trigger] front[i]).1.contains(
            ' ',
        ) by {
            assert(front[i] == tips[i]);
        }
        law_tips_are_read(front);
        assert(lines.drop_last() == front.map_values(
            |t: (Seq<char>, Seq<char>)| t.0 + " "@ + t.1,
        ));
        let (name, commit) = tips.last();
        assert(!tips[tips.len() - 1].1.contains(' '));
        let line = lines.last();
        assert(line == name + " "@ + commit);
        lemma_last_at(line, ' ');
        let n = name.len() as int;
        assert(line[n] == ' ');
        match last_at(line, ' ') {
            Some(k) => {
                if k > n {
                    assert(line[k] == commit[k - n - 1]);
                    assert(commit.contains(commit[k - n - 1]));
                }
            },
            None => {},
        }
        assert(line.take(n) == name);
        assert(line.skip(n + 1) == commit);
        assert(front.push(tips.last()) == tips);
    }
}

/// The commit graph is read as git lists it: a commit and its parents on a line, with white
/// space between. Each line gives its commit those parents, and no other commit is in the
/// graph.
pub proof fn law_graph_is_read(rows: Seq<Seq<Seq<char>>>, i: int, c: Seq<char>)
    requires
        forall|r: int| 0 <= r < rows.len() ==> (#[trigger] rows[r]).len() > 0,
        forall|r: int, w: int|
            0 <= r < rows.len() && 0 <= w < rows[r].len() ==> is_word(#[trigger] rows[r][w]),
        forall|r: int, q: int|
            0 <= r < q < rows.len() ==> (#[trigger] rows[r])[0] != (#[trigger] rows[q])[0],
        0 <= i < rows.len(),
    ensures
        ({
            let g = graph_in(rows.map_values(|w: Seq<Seq<char>>| joined(w, seq![' '])));
            &&& g.contains_key(rows[i][0])
            &&& g[rows[i][0]] == rows[i].skip(1)
            &&& g.contains_key(c) ==> exists|r: int| 0 <= r < rows.len() && (#[trigger] rows[r])[0]
                == c
        }),
    decreases rows.len(),
{
    let lines = rows.map_values(|w: Seq<Seq<char>>| joined(w, seq![' ']));
    let front = rows.drop_last();
    let last = rows.last();
    assert(lines.drop_last() == front.map_values(|w: Seq<Seq<char>>| joined(w, seq![' '])));
    assert(rows[rows.len() - 1] == last);
    assert forall|a: int, b: int| 0 <= a < last.len() && 0 <= b < last[a].len() implies !is_white(
        #[trigger] last[a][b],
    ) by {
        assert(is_word(rows[rows.len() - 1][a]));
    }
    assert forall|a: int| 0 <= a < last.len() implies (#[trigger] last[a]).len() > 0 by {
        assert(is_word(rows[rows.len() - 1][a]));
    }
    law_words_are_read(last, ' ');
    assert(words_of(lines.last()) == last);
    let before = graph_in(lines.drop_last());
    assert(graph_in(lines) == before.insert(last[0], last.skip(1)));
    if front.len() > 0 {
        assert forall|r: int| 0 <= r < front.len() implies (#[trigger] front[r]).len() > 0 by {
            assert(front[r] == rows[r]);
        }
        assert forall|r: int, w: int|
            0 <= r < front.len() && 0 <= w < front[r].len() implies is_word(
            #[trigger] front[r][w],
        ) by {
            assert(is_word(rows[r][w]));
        }
        assert forall|r: int, q: int| 0 <= r < q < front.len() implies (#[trigger] front[r])[0] != (
        #[trigger] front[q])[0] by {
            assert(front[r] == rows[r] && front[q] == rows[q]);
        }
        let j = if i < front.len() {
            i
        } else {
            0
        };
        law_graph_is_read(front, j, c);
        if i < front.len() {
            assert(front[i] == rows[i]);
            assert(rows[i][0] != rows[rows.len() - 1][0]);
        }
        if before.contains_key(c) {
            let r = choose|r: int| 0 <= r < front.len() && (#[trigger] front[r])[0] == c;
            assert(rows[r][0] == c);
        }
    } else {
        assert(before == Map::<Seq<char>, Seq<Seq<char>>>::empty());
    }
}

/// Whether a text holds something, and no white space.
pub open spec fn is_word(s: Seq<char>) -> bool {
    s.len() > 0 && forall|j: int| 0 <= j < s.len() ==> !is_white(#[trigger] s[j])
}

/// What a GitHub remote is called there: for every way to write its address, what stands
/// behind the host, without a slash or a `.git` at the end; a remote elsewhere has no such
/// name.
pub proof fn law_slug_of_origin(slug: Seq<char>, url: Seq<char>)
    requires
        !has_suffix(slug, "/"@),
        !has_suffix(slug, ".git"@),
    ensures
        slug_of(Some("git@github.com:"@ + slug)) == Some(slug),
        slug_of(Some("https://github.com/"@ + slug)) == Some(slug),
        slug_of(Some("ssh://git@github.com/"@ + slug)) == Some(slug),
        slug_of(Some("git@github.com:"@ + slug + ".git"@)) == Some(slug),
        slug_of(Some("https://github.com/"@ + slug + ".git"@)) == Some(slug),
        slug_of(Some("ssh://git@github.com/"@ + slug + ".git"@)) == Some(slug),
        slug_of(Some("https://github.com/"@ + slug + "/"@)) == Some(slug),
        !has_text(url, "github.com"@) ==> slug_of(Some(url)) is None,
        slug_of(None) is None,
{
    reveal_strlit("git@github.com:");
    reveal_strlit("https://github.com/");
    reveal_strlit("ssh://git@github.com/");
    reveal_strlit("github.com");
    reveal_strlit("/");
    reveal_strlit(".git");
    let (a, b, c) = ("git@github.com:"@, "https://github.com/"@, "ssh://git@github.com/"@);
    assert(a[0] == 'g' && b[0] == 'h' && c[0] == 's');
    lemma_slug(a, slug, Seq::empty());
    lemma_slug(b, slug, Seq::empty());
    lemma_slug(c, slug, Seq::empty());
    lemma_slug(a, slug, ".git"@);
    lemma_slug(b, slug, ".git"@);
    lemma_slug(c, slug, ".git"@);
    lemma_slug(b, slug, "/"@);
    assert(a + slug + Seq::<char>::empty() == a + slug);
    assert(b + slug + Seq::<char>::empty() == b + slug);
    assert(c + slug + Seq::<char>::empty() == c + slug);
    let host = "github.com"@;
    if has_prefix(url, a) {
        assert(url.subrange(4, 14) == host) by {
            assert(url.subrange(0, 15) == a);
            assert(a.subrange(4, 14) == host);
            assert(url.subrange(0, 15).subrange(4, 14) == url.subrange(4, 14));
        }
        assert(occurs_at(url, host, 4));
    }
    if has_prefix(url, b) {
        assert(url.subrange(8, 18) == host) by {
            assert(url.subrange(0, 19) == b);
            assert(b.subrange(8, 18) == host);
            assert(url.subrange(0, 19).subrange(8, 18) == url.subrange(8, 18));
        }
        assert(occurs_at(url, host, 8));
    }
    if has_prefix(url, c) {
        assert(url.subrange(10, 20) == host) by {
            assert(url.subrange(0, 21) == c);
            assert(c.subrange(10, 20) == host);
            assert(url.subrange(0, 21).subrange(10, 20) == url.subrange(10, 20));
        }
        assert(occurs_at(url, host, 10));
    }
}

/// A slash behind the `.git` of an address does not count either.
pub proof fn law_slug_of_a_directory(slug: Seq<char>)
    requires
        !has_suffix(slug, ".git"@),
    ensures
        slug_of(Some("https://github.com/"@ + slug + ".git/"@)) == Some(slug),
{
    reveal_strlit("git@github.com:");
    reveal_strlit("https://github.com/");
    reveal_strlit("/");
    reveal_strlit(".git");
    reveal_strlit(".git/");
    let address = "https://github.com/"@;
    let (slash, git) = ("/"@, ".git"@);
    let url = address + slug + ".git/"@;
    let n = address.len() as int;
    assert(url.subrange(0, n) == address);
    assert(has_prefix(url, address));
    assert(!has_prefix(url, "git@github.com:"@)) by {
        if has_prefix(url, "git@github.com:"@) {
            assert(url.subrange(0, "git@github.com:"@.len() as int)[0] == url[0]);
        }
    }
    assert(repeated(slash, 0) == Seq::<char>::empty());
    assert(repeated(git, 0) == Seq::<char>::empty());
    assert(repeated(slash, 1) == slash) by {
        assert(repeated(slash, 0) + slash == slash);
    }
    assert(repeated(git, 1) == git) by {
        assert(repeated(git, 0) + git == git);
    }
    let whole = slug + git;
    assert(url.skip(n) == whole + slash);
    assert(!has_suffix(whole, slash)) by {
        assert(whole.last() == 't');
        if has_suffix(whole, slash) {
            assert(whole.subrange(whole.len() - 1, whole.len() as int)[0] == whole.last());
        }
    }
    law_endings_come_off(whole, slash, 1);
    law_endings_come_off(slug, git, 1);
}

proof fn lemma_slug(address: Seq<char>, slug: Seq<char>, end: Seq<char>)
    requires
        address == "git@github.com:"@ || address == "https://github.com/"@ || address
            == "ssh://git@github.com/"@,
        end.len() == 0 || end == ".git"@ || end == "/"@,
        !has_suffix(slug, "/"@),
        !has_suffix(slug, ".git"@),
    ensures
        slug_in(address + slug + end) == Some(slug),
{
    reveal_strlit("git@github.com:");
    reveal_strlit("https://github.com/");
    reveal_strlit("ssh://git@github.com/");
    reveal_strlit("/");
    reveal_strlit(".git");
    let url = address + slug + end;
    let n = address.len() as int;
    assert(url.subrange(0, n) == address);
    assert(has_prefix(url, address));
    assert(url[0] == address[0]);
    assert(url.skip(n) == slug + end);
    assert(forall|p: Seq<char>| #[trigger] has_prefix(url, p) && p.len() > 0 ==> p[0] == url[0]) by {
        assert forall|p: Seq<char>| #[trigger] has_prefix(url, p) && p.len() > 0 implies p[0]
            == url[0] by {
            assert(url.subrange(0, p.len() as int)[0] == url[0]);
        }
    }
    let s = slug + end;
    let (slash, git) = ("/"@, ".git"@);
    assert(slash == seq!['/']);
    let none = Seq::<char>::empty();
    assert(repeated(slash, 0) == none);
    assert(repeated(git, 0) == none);
    assert(repeated(slash, 1) == slash) by {
        assert(repeated(slash, 0) + slash == slash);
    }
    assert(repeated(git, 1) == git) by {
        assert(repeated(git, 0) + git == git);
    }
    assert(slug + none == slug);
    law_endings_come_off(slug, git, 0);
    law_endings_come_off(slug, slash, 0);
    law_endings_come_off(slug, git, 1);
    law_endings_come_off(slug, slash, 1);
    if end == git {
        assert(!has_suffix(s, slash)) by {
            if has_suffix(s, slash) {
                assert(s.subrange(s.len() - 1, s.len() as int)[0] == s[s.len() - 1]);
            }
        }
        law_endings_come_off(s, slash, 0);
        assert(s + none == s);
    } else if end.len() == 0 {
        assert(s == slug);
    }
}

// ---- layers and pull requests --------------------------------------------------------------------

/// A pull request is what gh lists: its head branch with its number, page, title and state,
/// where an open draft is a draft and any other state is kept. A list with a member that names
/// no head branch is not read.
pub proof fn law_pull_requests_are_read(list: Seq<JsonView>, i: int)
    requires
        0 <= i < list.len(),
    ensures
        text_at(list[i], "headRefName"@) is None ==> prs_of(JsonView::List(list)) is None,
        prs_of(JsonView::List(list)) matches Some(prs) ==> {
            &&& prs.len() == list.len()
            &&& text_at(list[i], "headRefName"@) == Some(prs[i].0)
            &&& member_of(list[i], "number"@) matches Some(JsonView::Number(Some(n)))
                ==> prs[i].1.number == n
            &&& text_at(list[i], "url"@) matches Some(url) ==> prs[i].1.url == url
            &&& text_at(list[i], "title"@) matches Some(title) ==> prs[i].1.title == title
            &&& text_at(list[i], "state"@) matches Some(state) ==> prs[i].1.state == (
            if state == "OPEN"@ && member_of(list[i], "isDraft"@) == Some(JsonView::Bool(true)) {
                "DRAFT"@
            } else {
                state
            })
        },
        (forall|k: int| 0 <= k < list.len() ==> text_at(#[trigger] list[k], "headRefName"@) is Some)
            ==> prs_of(JsonView::List(list)) is Some,
{
}

/// The diff of a layer is the summary, an empty line and the patch, line for line.
pub proof fn law_layer_diff_is_whole(stat: Seq<char>, patch: Seq<char>, i: int)
    ensures
        diff_lines(stat, patch).len() == lines_of(stat).len() + 1 + lines_of(patch).len(),
        0 <= i < lines_of(stat).len() ==> diff_lines(stat, patch)[i] == lines_of(stat)[i],
        diff_lines(stat, patch)[lines_of(stat).len() as int].len() == 0,
        0 <= i < lines_of(patch).len() ==> diff_lines(stat, patch)[lines_of(stat).len() + 1 + i]
            == lines_of(patch)[i],
{
}

proof fn lemma_nearest_is_last(live: Seq<LiveView>, b: int, k: int)
    requires
        0 <= k <= live.len(),
    ensures
        nearest(live, b, k) matches Some(m) ==> forall|c: int|
            m < c < k && #[trigger] carries(live, b, c) ==> live[c].own.len() < live[m].own.len(),
    decreases k,
{
    if k > 0 {
        lemma_nearest_is_last(live, b, k - 1);
    }
}

proof fn lemma_live_order(
    tips: Seq<(Seq<char>, Seq<char>)>,
    some: Seq<(Seq<char>, Seq<char>)>,
    default: Seq<char>,
    g: Graph,
    i: int,
    c: int,
) -> (places: (int, int))
    requires
        0 <= i < c < some.len(),
        is_ahead(some[i], default, g),
        is_ahead(some[c], default, g),
    ensures
        0 <= places.0 < places.1 < live_in(tips, some, default, g).len(),
        live_in(tips, some, default, g)[places.0].name == some[i].0,
        live_in(tips, some, default, g)[places.1].name == some[c].0,
    decreases some.len(),
{
    let front = some.drop_last();
    let before = live_in(tips, front, default, g);
    let all = live_in(tips, some, default, g);
    assert(front[i] == some[i]);
    if c == some.len() - 1 {
        let l = lemma_live_complete(tips, front, default, g, i);
        assert(all[l] == before[l]);
        (l, before.len() as int)
    } else {
        assert(front[c] == some[c]);
        let (l, m) = lemma_live_order(tips, front, default, g, i, c);
        assert(all[l] == before[l] && all[m] == before[m]);
        (l, m)
    }
}

/// Of several branches that a branch could be stacked on, with as many commits each, it is
/// stacked on the one that git lists last.
pub proof fn law_last_of_equals_is_the_parent(
    heads: Seq<char>,
    revs: Seq<char>,
    origin: Option<Seq<char>>,
    i: int,
    t: int,
    c: int,
    k: int,
)
    requires
        distinct_branches(tips_in(lines_of(heads))),
        stack_in(heads, revs, origin) is Some,
        0 <= k < stack_in(heads, revs, origin)->0.entries.len(),
        0 <= i < tips_in(lines_of(heads)).len(),
        0 <= t < tips_in(lines_of(heads)).len(),
        0 <= c < tips_in(lines_of(heads)).len(),
        stack_in(heads, revs, origin)->0.entries[k].branch == tips_in(lines_of(heads))[i].0,
        stack_in(heads, revs, origin)->0.entries[k].parent == tips_in(lines_of(heads))[t].0,
        stack_in(heads, revs, origin)->0.entries[k].parent != stack_in(
            heads,
            revs,
            origin,
        )->0.default_branch,
    ensures
        ({
            let tips = tips_in(lines_of(heads));
            let g = graph_in(lines_of(revs));
            let default = stack_in(heads, revs, origin)->0.default_branch;
            let own = ancestry(g, tips[i].1);
            let other = ancestry(g, tips[c].1);
            c != i && is_ahead(tips[c], default, g) && own.contains(tips[c].1) && other.len()
                < own.len() && other.len() == ancestry(g, tips[t].1).len() ==> c <= t
        }),
{
    let tips = tips_in(lines_of(heads));
    let g = graph_in(lines_of(revs));
    let stack = stack_in(heads, revs, origin)->0;
    let default = stack.default_branch;
    let shown = displayed(branch_entries(tips, default, g));
    assert(stack.entries == shown);
    let live = live_in(tips, tips, default, g);
    let n = live.len() as int;
    lemma_graph_finite(lines_of(revs));
    let b = lemma_entry_link(tips, default, g, k);
    assert(link_in(shown[k]) == link_of(live, default, b));
    lemma_live(tips, default, g);
    lemma_commit_of(tips, i);
    lemma_commit_of(tips, t);
    lemma_commit_of(tips, c);
    lemma_nearest(live, b, n);
    lemma_nearest_is_last(live, b, n);
    let near = nearest(live, b, n)->0;
    let at = lemma_live_sound(tips, tips, default, g, near);
    assert(at == t) by {
        if at < t {
            assert(tips[at].0 != tips[t].0);
        } else if t < at {
            assert(tips[t].0 != tips[at].0);
        }
    }
    let own = ancestry(g, tips[i].1);
    let other = ancestry(g, tips[c].1);
    if c != i && is_ahead(tips[c], default, g) && own.contains(tips[c].1) && other.len() < own.len()
        && other.len() == ancestry(g, tips[t].1).len() && c > t {
        let (l, m) = lemma_live_order(tips, tips, default, g, t, c);
        assert(l == near) by {
            if l < near {
                assert(live[l].name != live[near].name);
            } else if near < l {
                assert(live[near].name != live[l].name);
            }
        }
        assert(tips[c].0 != tips[i].0) by {
            if c < i {
                assert(tips[c].0 != tips[i].0);
            } else {
                assert(tips[i].0 != tips[c].0);
            }
        }
        assert(live[m].tip == tips[c].1 && live[b].tip == tips[i].1 && live[near].tip == tips[t].1);
        assert(carries(live, b, m));
    }
}

/// A stack goes by the name that origin has on GitHub.
pub proof fn law_stack_has_the_slug(heads: Seq<char>, revs: Seq<char>, origin: Option<Seq<char>>)
    ensures
        stack_in(heads, revs, origin) matches Some(stack) ==> stack.slug == slug_of(origin),
{
}

/// What a pull request does not say is left open: its number is zero, its page and its title are
/// empty, its state is a question mark.
pub proof fn law_bare_pull_requests(list: Seq<JsonView>, i: int)
    requires
        0 <= i < list.len(),
    ensures
        prs_of(JsonView::List(list)) matches Some(prs) ==> {
            &&& !(member_of(list[i], "number"@) matches Some(JsonView::Number(Some(_))))
                ==> prs[i].1.number == 0
            &&& text_at(list[i], "url"@) is None ==> prs[i].1.url.len() == 0
            &&& text_at(list[i], "title"@) is None ==> prs[i].1.title.len() == 0
            &&& text_at(list[i], "state"@) is None ==> prs[i].1.state == seq!['?']
        },
        forall|j: JsonView| !(j is List) ==> #[trigger] prs_of(j) is None,
{
    reveal_strlit("?");
    assert("?"@ == seq!['?']);
}

/// A diff is shown up to five thousand lines.
pub proof fn law_diffs_are_cut()
    ensures
        MAX_LINES == 5_000,
{
}

} // verus!
