//! Slash-separated paths as text: joining, the parent, the name at the end.
//!
//! Repeated separators, separators at the end and `.` components after the first are
//! passed over.

use crate::text::{cat, cat3, chars_of, last_at, same, split_last, string_between, string_of};
use vstd::prelude::*;

verus! {

/// `child` under `base`; an absolute `child` stands for itself.
pub open spec fn joined_path(base: Seq<char>, child: Seq<char>) -> Seq<char> {
    if child.len() > 0 && child[0] == '/' {
        child
    } else if base.len() == 0 || base.last() == '/' {
        base + child
    } else {
        base + "/"@ + child
    }
}

/// `p` without the separators and the `.` components it ends with.
pub open spec fn bare(p: Seq<char>) -> Seq<char>
    decreases p.len(),
{
    if p.len() > 1 && p.last() == '/' {
        bare(p.drop_last())
    } else if p.len() > 1 && p.last() == '.' && p[p.len() - 2] == '/' {
        bare(p.drop_last())
    } else {
        p
    }
}

/// Whether a bare path names nothing below a root.
pub open spec fn is_top(q: Seq<char>) -> bool {
    q.len() == 0 || (q.len() == 1 && q[0] == '/')
}

/// The last component of a bare path.
pub open spec fn last_component(q: Seq<char>) -> Seq<char> {
    match last_at(q, '/') {
        Some(k) => q.skip(k + 1),
        None => q,
    }
}

/// The path without its last component, where it has one.
pub open spec fn parent_of(p: Seq<char>) -> Option<Seq<char>> {
    let q = bare(p);
    if is_top(q) {
        None
    } else {
        match last_at(q, '/') {
            Some(k) => if k == 0 {
                Some(q.take(1))
            } else {
                Some(bare(q.take(k)))
            },
            None => Some(Seq::empty()),
        }
    }
}

/// The last component, where it is an ordinary name.
pub open spec fn file_name_of(p: Seq<char>) -> Option<Seq<char>> {
    let q = bare(p);
    let name = last_component(q);
    if is_top(q) || name == seq!['.'] || name == seq!['.', '.'] {
        None
    } else {
        Some(name)
    }
}

/// The last component up to its last dot, a dot at its start aside.
pub open spec fn file_stem_of(p: Seq<char>) -> Option<Seq<char>> {
    match file_name_of(p) {
        Some(name) => match last_at(name, '.') {
            Some(k) => if k > 0 {
                Some(name.take(k))
            } else {
                Some(name)
            },
            None => Some(name),
        },
        None => None,
    }
}

/// Whether the last component has a dot, other than at its start, and `ext` behind the
/// last one.
pub open spec fn has_extension(p: Seq<char>, ext: Seq<char>) -> bool {
    match file_name_of(p) {
        Some(name) => match last_at(name, '.') {
            Some(k) => k > 0 && name.skip(k + 1) == ext,
            None => false,
        },
        None => false,
    }
}

/// The path with `name` in place of its last component.
pub open spec fn renamed_path(p: Seq<char>, name: Seq<char>) -> Seq<char> {
    match file_name_of(p) {
        Some(_) => joined_path(parent_of(p)->0, name),
        None => joined_path(p, name),
    }
}

/// Whether the path starts at the root.
pub open spec fn is_rooted(p: Seq<char>) -> bool {
    p.len() > 0 && p[0] == '/'
}

pub proof fn lemma_bare_shrinks(p: Seq<char>)
    ensures
        bare(p).len() <= p.len(),
    decreases p.len(),
{
    if p.len() > 1 {
        lemma_bare_shrinks(p.drop_last());
    }
}

pub proof fn lemma_last_at(s: Seq<char>, c: char)
    ensures
        match last_at(s, c) {
            Some(k) => 0 <= k < s.len() && s[k] == c && (forall|j: int|
                k < j < s.len() ==> s[j] != c),
            None => forall|j: int| 0 <= j < s.len() ==> s[j] != c,
        },
    decreases s.len(),
{
    if s.len() > 0 && s.last() != c {
        lemma_last_at(s.drop_last(), c);
        assert forall|j: int| 0 <= j < s.len() - 1 implies s[j] == s.drop_last()[j] by {}
    }
}

/// A parent is a shorter path.
pub proof fn lemma_parent_shrinks(p: Seq<char>)
    ensures
        parent_of(p) matches Some(q) ==> q.len() < p.len(),
{
    lemma_bare_shrinks(p);
    let q = bare(p);
    lemma_last_at(q, '/');
    match last_at(q, '/') {
        Some(k) => {
            lemma_bare_shrinks(q.take(k));
        },
        None => {},
    }
}

/// The path itself, its parent, the parent of that, and so on.
pub open spec fn ancestors_of(p: Seq<char>) -> Seq<Seq<char>>
    decreases p.len(),
    via ancestors_shrink
{
    match parent_of(p) {
        Some(q) => seq![p] + ancestors_of(q),
        None => seq![p],
    }
}

#[via_fn]
proof fn ancestors_shrink(p: Seq<char>) {
    lemma_parent_shrinks(p);
}

// ---- computing them -----------------------------------------------------------------

/// `child` under `base`; an absolute `child` stands for itself.
pub fn join(base: &str, child: &str) -> (r: String)
    ensures
        r@ == joined_path(base@, child@),
{
    let b = chars_of(base);
    let c = chars_of(child);
    if c.len() > 0 && c[0] == '/' {
        child.to_owned()
    } else if b.len() == 0 || b[b.len() - 1] == '/' {
        cat(base, child)
    } else {
        cat3(base, "/", child)
    }
}

fn bare_path(p: &str) -> (r: String)
    ensures
        r@ == bare(p@),
{
    let mut cs = chars_of(p);
    loop
        invariant
            bare(p@) == bare(cs@),
        ensures
            bare(p@) == cs@,
        decreases cs@.len(),
    {
        let n = cs.len();
        if n > 1 && (cs[n - 1] == '/' || (cs[n - 1] == '.' && cs[n - 2] == '/')) {
            assert(cs@.drop_last() == cs@.subrange(0, n - 1));
            cs.truncate(n - 1);
        } else {
            break;
        }
    }
    string_of(&cs)
}

fn top(q: &str) -> (r: bool)
    ensures
        r == is_top(q@),
{
    let cs = chars_of(q);
    cs.len() == 0 || (cs.len() == 1 && cs[0] == '/')
}

/// The path without its last component, where it has one.
pub fn parent(p: &str) -> (r: Option<String>)
    ensures
        match r {
            Some(q) => parent_of(p@) == Some(q@),
            None => parent_of(p@) is None,
        },
{
    let q = bare_path(p);
    if top(q.as_str()) {
        return None;
    }
    match split_last(q.as_str(), '/') {
        Some((before, after)) => {
            if before.as_str().is_empty() {
                let cs = chars_of(q.as_str());
                assert(q@.take(1) == q@.subrange(0, 1));
                Some(string_between(&cs, 0, 1))
            } else {
                Some(bare_path(before.as_str()))
            }
        },
        None => Some(String::new()),
    }
}

/// The last component, where it is an ordinary name.
pub fn file_name(p: &str) -> (r: Option<String>)
    ensures
        match r {
            Some(q) => file_name_of(p@) == Some(q@),
            None => file_name_of(p@) is None,
        },
{
    let q = bare_path(p);
    let name = match split_last(q.as_str(), '/') {
        Some((before, after)) => after,
        None => q.clone(),
    };
    proof {
        reveal_strlit(".");
        reveal_strlit("..");
        assert("."@ == seq!['.']);
        assert(".."@ == seq!['.', '.']);
    }
    if top(q.as_str()) || same(name.as_str(), ".") || same(name.as_str(), "..") {
        None
    } else {
        Some(name)
    }
}

/// The name at the end of the path, or nothing at all where it has none.
pub open spec fn base_name_of(p: Seq<char>) -> Seq<char> {
    match file_name_of(p) {
        Some(name) => name,
        None => Seq::empty(),
    }
}

/// The name at the end of the path, or an empty text where it has none.
pub fn base_name(p: &str) -> (r: String)
    ensures
        r@ == base_name_of(p@),
{
    match file_name(p) {
        Some(name) => name,
        None => String::new(),
    }
}

/// The last component up to its last dot, a dot at its start aside.
pub fn file_stem(p: &str) -> (r: Option<String>)
    ensures
        match r {
            Some(q) => file_stem_of(p@) == Some(q@),
            None => file_stem_of(p@) is None,
        },
{
    let name = file_name(p)?;
    match split_last(name.as_str(), '.') {
        Some((before, after)) => {
            if before.as_str().is_empty() {
                Some(name)
            } else {
                Some(before)
            }
        },
        None => Some(name),
    }
}

/// Whether the extension of the path is `ext`.
pub fn extension_is(p: &str, ext: &str) -> (r: bool)
    ensures
        r == has_extension(p@, ext@),
{
    match file_name(p) {
        Some(name) => match split_last(name.as_str(), '.') {
            Some((before, after)) => !before.as_str().is_empty() && same(after.as_str(), ext),
            None => false,
        },
        None => false,
    }
}

/// The path with `name` in place of its last component.
pub fn with_name(p: &str, name: &str) -> (r: String)
    ensures
        r@ == renamed_path(p@, name@),
{
    match file_name(p) {
        Some(_) => match parent(p) {
            Some(dir) => join(dir.as_str(), name),
            None => {
                assert(false);
                String::new()
            },
        },
        None => join(p, name),
    }
}

/// Whether the path starts at the root.
pub fn rooted(p: &str) -> (r: bool)
    ensures
        r == is_rooted(p@),
{
    let cs = chars_of(p);
    cs.len() > 0 && cs[0] == '/'
}

/// The path itself, its parent, the parent of that, and so on.
pub fn ancestors(p: &str) -> (r: Vec<String>)
    ensures
        r.deep_view() == ancestors_of(p@),
{
    let mut out: Vec<String> = Vec::new();
    let mut cur = p.to_owned();
    assert(ancestors_of(p@) == out.deep_view() + ancestors_of(cur@));
    loop
        invariant_except_break
            ancestors_of(p@) == out.deep_view() + ancestors_of(cur@),
        ensures
            ancestors_of(p@) == out.deep_view(),
        decreases cur@.len(),
    {
        let ghost before = out.deep_view();
        let ghost here = cur@;
        proof {
            lemma_parent_shrinks(here);
        }
        let up = parent(cur.as_str());
        out.push(cur);
        assert(out.deep_view() == before.push(here));
        match up {
            Some(q) => {
                assert(before + (seq![here] + ancestors_of(q@)) == before.push(here)
                    + ancestors_of(q@));
                cur = q;
            },
            None => {
                assert(before + seq![here] == before.push(here));
                break;
            },
        }
    }
    out
}

proof fn lemma_bare_end(p: Seq<char>)
    ensures
        bare(p).len() > 1 ==> bare(p).last() != '/',
    decreases p.len(),
{
    if p.len() > 1 && (p.last() == '/' || (p.last() == '.' && p[p.len() - 2] == '/')) {
        lemma_bare_end(p.drop_last());
    }
}

/// A name at the end of a path holds something, and so does its stem.
pub proof fn law_names_are_filled(p: Seq<char>)
    ensures
        file_name_of(p) matches Some(name) ==> name.len() > 0,
        file_stem_of(p) matches Some(stem) ==> stem.len() > 0,
{
    let q = bare(p);
    lemma_bare_end(p);
    lemma_last_at(q, '/');
    lemma_last_at(last_component(q), '.');
}

} // verus!
