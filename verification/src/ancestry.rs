//! Commit graphs: which commits a commit is built on.

use vstd::hash_map::StringHashMap;
use vstd::hash_set::StringHashSet;
use vstd::prelude::*;

verus! {

/// A commit graph: the parents of each commit in it.
pub type Graph = Map<Seq<char>, Seq<Seq<char>>>;

/// The graph that a table of parents holds.
pub open spec fn graph_of(table: Map<Seq<char>, Vec<String>>) -> Graph {
    Map::new(|c: Seq<char>| table.contains_key(c), |c: Seq<char>| table[c].deep_view())
}

/// Whether `w` goes from commit to parent, inside the graph all the way.
pub open spec fn is_walk(g: Graph, w: Seq<Seq<char>>) -> bool {
    &&& w.len() > 0
    &&& forall|i: int| 0 <= i < w.len() ==> g.contains_key(#[trigger] w[i])
    &&& forall|i: int| 0 <= i < w.len() - 1 ==> g[#[trigger] w[i]].contains(w[i + 1])
}

/// Whether `b` is `a` or one of its ancestors.
pub open spec fn reaches(g: Graph, a: Seq<char>, b: Seq<char>) -> bool {
    exists|w: Seq<Seq<char>>| #[trigger] is_walk(g, w) && w[0] == a && w.last() == b
}

/// `tip` and its ancestors, as far as they are in the graph.
pub open spec fn ancestry(g: Graph, tip: Seq<char>) -> Set<Seq<char>> {
    Set::new(|c: Seq<char>| reaches(g, tip, c))
}

proof fn lemma_reaches_self(g: Graph, a: Seq<char>)
    requires
        g.contains_key(a),
    ensures
        reaches(g, a, a),
{
    assert(is_walk(g, seq![a]));
}

proof fn lemma_reaches_parent(g: Graph, a: Seq<char>, b: Seq<char>, p: Seq<char>)
    requires
        reaches(g, a, b),
        g[b].contains(p),
        g.contains_key(p),
    ensures
        reaches(g, a, p),
{
    let w = choose|w: Seq<Seq<char>>| #[trigger] is_walk(g, w) && w[0] == a && w.last() == b;
    let x = w.push(p);
    assert forall|i: int| 0 <= i < x.len() - 1 implies g[#[trigger] x[i]].contains(x[i + 1]) by {
        if i < w.len() - 1 {
            assert(w[i] == x[i]);
        }
    }
    assert(is_walk(g, x));
}

/// A set that holds `tip` and the parents of what it holds holds the whole ancestry.
proof fn lemma_closed_holds(g: Graph, tip: Seq<char>, s: Set<Seq<char>>, w: Seq<Seq<char>>, k: int)
    requires
        g.contains_key(tip) ==> s.contains(tip),
        forall|c: Seq<char>, p: Seq<char>| #![trigger s.contains(c), g[c].contains(p)]
            s.contains(c) && g[c].contains(p) && g.contains_key(p) ==> s.contains(p),
        is_walk(g, w),
        w[0] == tip,
        0 <= k < w.len(),
    ensures
        s.contains(w[k]),
    decreases k,
{
    if k > 0 {
        lemma_closed_holds(g, tip, s, w, k - 1);
        assert(g[w[k - 1]].contains(w[k - 1 + 1]));
    }
}

/// An ancestry holds the commit and the parents of what it holds, and is part of every set that
/// does.
pub proof fn lemma_ancestry_closed(
    g: Graph,
    tip: Seq<char>,
    c: Seq<char>,
    p: Seq<char>,
    s: Set<Seq<char>>,
)
    ensures
        g.contains_key(tip) <==> ancestry(g, tip).contains(tip),
        ancestry(g, tip).contains(c) ==> g.contains_key(c),
        ancestry(g, tip).contains(c) && g[c].contains(p) && g.contains_key(p) ==> ancestry(
            g,
            tip,
        ).contains(p),
        (g.contains_key(tip) ==> s.contains(tip)) && (forall|a: Seq<char>, b: Seq<char>|
            #![trigger s.contains(a), g[a].contains(b)]
            s.contains(a) && g[a].contains(b) && g.contains_key(b) ==> s.contains(b))
            && ancestry(g, tip).contains(c) ==> s.contains(c),
{
    if g.contains_key(tip) {
        lemma_reaches_self(g, tip);
    }
    if ancestry(g, tip).contains(tip) {
        let w = choose|w: Seq<Seq<char>>| #[trigger] is_walk(g, w) && w[0] == tip && w.last() == tip;
        assert(g.contains_key(w[0]));
    }
    if ancestry(g, tip).contains(c) {
        let w = choose|w: Seq<Seq<char>>| #[trigger] is_walk(g, w) && w[0] == tip && w.last() == c;
        assert(g.contains_key(w[w.len() - 1]));
        assert(g.contains_key(w[0]));
        if g[c].contains(p) && g.contains_key(p) {
            lemma_reaches_parent(g, tip, c, p);
        }
        if (g.contains_key(tip) ==> s.contains(tip)) && (forall|a: Seq<char>, b: Seq<char>|
            #![trigger s.contains(a), g[a].contains(b)]
            s.contains(a) && g[a].contains(b) && g.contains_key(b) ==> s.contains(b)) {
            lemma_closed_holds(g, tip, s, w, w.len() - 1);
        }
    }
}

/// Ancestry can be chained: the ancestry of an ancestor is part of one's own.
pub proof fn law_ancestry_nests(g: Graph, a: Seq<char>, b: Seq<char>)
    requires
        ancestry(g, a).contains(b),
    ensures
        ancestry(g, b).subset_of(ancestry(g, a)),
{
    assert forall|c: Seq<char>| ancestry(g, b).contains(c) implies ancestry(g, a).contains(c) by {
        let u = choose|w: Seq<Seq<char>>| #[trigger] is_walk(g, w) && w[0] == a && w.last() == b;
        let v = choose|w: Seq<Seq<char>>| #[trigger] is_walk(g, w) && w[0] == b && w.last() == c;
        let w = u + v.skip(1);
        assert forall|i: int| 0 <= i < w.len() - 1 implies g[#[trigger] w[i]].contains(
            w[i + 1],
        ) by {
            if i < u.len() - 1 {
                assert(w[i] == u[i]);
                assert(w[i + 1] == u[i + 1]);
            } else {
                let j = i - (u.len() - 1);
                assert(w[i] == v[j]);
                assert(w[i + 1] == v[j + 1]);
            }
        }
        assert forall|i: int| 0 <= i < w.len() implies g.contains_key(#[trigger] w[i]) by {
            if i < u.len() {
                assert(w[i] == u[i]);
            } else {
                assert(w[i] == v[i - (u.len() - 1)]);
            }
        }
        assert(is_walk(g, w));
        if v.len() == 1 {
            assert(w == u);
        } else {
            assert(w.last() == v.last());
        }
        assert(w[0] == a);
        assert(reaches(g, a, c));
    }
}

/// An ancestry lies inside the graph.
pub proof fn lemma_ancestry_inside(g: Graph, tip: Seq<char>)
    requires
        g.dom().finite(),
    ensures
        ancestry(g, tip).subset_of(g.dom()),
        ancestry(g, tip).finite(),
{
    assert forall|c: Seq<char>| ancestry(g, tip).contains(c) implies g.dom().contains(c) by {
        let w = choose|w: Seq<Seq<char>>| #[trigger] is_walk(g, w) && w[0] == tip && w.last() == c;
        assert(g.contains_key(w[w.len() - 1]));
    }
    vstd::set_lib::lemma_set_subset_finite(g.dom(), ancestry(g, tip));
}

/// `tip` and its ancestors, as far as `parents` lists them.
pub fn ancestors(parents: &StringHashMap<Vec<String>>, tip: &str) -> (r: StringHashSet)
    requires
        parents@.dom().finite(),
    ensures
        r@ == ancestry(graph_of(parents@), tip@),
        r@.finite(),
{
    let ghost g = graph_of(parents@);
    let ghost dom = parents@.dom();
    assert(g.dom() == dom);
    let mut seen = StringHashSet::new();
    let mut todo: Vec<String> = Vec::new();
    todo.push(tip.to_owned());
    assert(todo.deep_view()[0] == tip@);
    proof {
        if g.contains_key(tip@) {
            lemma_reaches_self(g, tip@);
        }
    }
    while todo.len() > 0
        invariant
            dom.finite(),
            g == graph_of(parents@),
            dom == parents@.dom(),
            g.dom() == dom,
            seen@.subset_of(dom),
            seen@.finite(),
            forall|c: Seq<char>| #[trigger] seen@.contains(c) ==> reaches(g, tip@, c),
            forall|i: int|
                0 <= i < todo@.len() && g.contains_key(#[trigger] todo@[i]@) ==> reaches(
                    g,
                    tip@,
                    todo@[i]@,
                ),
            g.contains_key(tip@) ==> seen@.contains(tip@) || todo.deep_view().contains(tip@),
            forall|c: Seq<char>, p: Seq<char>|
                #![trigger seen@.contains(c), g[c].contains(p)]
                seen@.contains(c) && g[c].contains(p) && g.contains_key(p) ==> seen@.contains(p)
                    || todo.deep_view().contains(p),
        decreases dom.difference(seen@).len(), todo@.len(),
    {
        let ghost before = todo.deep_view();
        let ghost had = seen@;
        let next = todo.pop();
        let c = match next {
            Some(c) => c,
            None => {
                assert(false);
                String::new()
            },
        };
        assert(before == todo.deep_view().push(c@));
        assert forall|p: Seq<char>| before.contains(p) && p != c@ implies todo.deep_view().contains(
            p,
        ) by {
            let i = choose|i: int| 0 <= i < before.len() && before[i] == p;
            assert(todo.deep_view()[i] == p);
        }
        assert(before[before.len() - 1] == c@);
        match parents.get(c.as_str()) {
            None => {},
            Some(ps) => {
                let fresh = seen.insert(c.clone());
                if fresh {
                    assert(dom.difference(had).contains(c@));
                    assert(dom.difference(seen@) == dom.difference(had).remove(c@));
                    assert(g[c@] == ps.deep_view());
                    let ghost kept = todo.deep_view();
                    for i in 0..ps.len()
                        invariant
                            g == graph_of(parents@),
                            g.contains_key(c@),
                            reaches(g, tip@, c@),
                            g[c@] == ps.deep_view(),
                            todo.deep_view() == kept + ps.deep_view().take(i as int),
                            forall|j: int|
                                0 <= j < todo@.len() && g.contains_key(#[trigger] todo@[j]@)
                                    ==> reaches(g, tip@, todo@[j]@),
                    {
                        let ghost was = todo.deep_view();
                        let p = ps[i].clone();
                        assert(ps.deep_view()[i as int] == p@);
                        proof {
                            if g.contains_key(p@) {
                                lemma_reaches_parent(g, tip@, c@, p@);
                            }
                        }
                        todo.push(p);
                        assert(todo.deep_view() == was.push(p@));
                        assert(ps.deep_view().take(i + 1) == ps.deep_view().take(i as int).push(
                            p@,
                        ));
                    }
                    assert(ps.deep_view().take(ps@.len() as int) == ps.deep_view());
                    let ghost after = todo.deep_view();
                    assert(after == kept + ps.deep_view());
                    assert forall|p: Seq<char>| kept.contains(p) implies after.contains(p) by {
                        let i = choose|i: int| 0 <= i < kept.len() && kept[i] == p;
                        assert(after[i] == p);
                    }
                    assert forall|p: Seq<char>| g[c@].contains(p) implies after.contains(p) by {
                        let i = choose|i: int| 0 <= i < ps.deep_view().len() && ps.deep_view()[i] == p;
                        assert(after[kept.len() + i] == p);
                    }
                } else {
                    assert(seen@ == had);
                }
            },
        }
    }
    assert(todo.deep_view().len() == 0);
    assert(seen@ == ancestry(g, tip@)) by {
        assert forall|c: Seq<char>| ancestry(g, tip@).contains(c) implies seen@.contains(c) by {
            let w = choose|w: Seq<Seq<char>>|
                #[trigger] is_walk(g, w) && w[0] == tip@ && w.last() == c;
            assert(g.contains_key(w[0]));
            lemma_closed_holds(g, tip@, seen@, w, w.len() - 1);
        }
    }
    seen
}

} // verus!
