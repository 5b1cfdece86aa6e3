//! What holds of paths, in terms of the names they are made of.

use crate::path::{
    bare, base_name_of, file_name_of, file_stem_of, has_extension, is_rooted, joined_path,
    lemma_last_at, parent_of, renamed_path,
};
use crate::text::last_at;
use vstd::prelude::*;

verus! {

/// Whether a text is the name of something in a directory.
pub open spec fn is_plain_name(name: Seq<char>) -> bool {
    &&& name.len() > 0
    &&& !name.contains('/')
    &&& name != seq!['.']
    &&& name != seq!['.', '.']
}

/// Whether a path ends in the name of what it leads to: it is not empty, and ends neither in a
/// slash nor in a component that is a dot.
pub open spec fn ends_in_a_name(p: Seq<char>) -> bool {
    &&& p.len() > 0
    &&& p.last() != '/'
    &&& p.len() > 1 ==> !(p.last() == '.' && p[p.len() - 2] == '/')
}

/// A path and a relative one come together with one slash between them; an absolute one stands
/// for itself.
pub proof fn law_paths_are_joined(base: Seq<char>, child: Seq<char>)
    ensures
        child.len() > 0 && child[0] == '/' ==> joined_path(base, child) == child,
        base.len() > 0 && base.last() != '/' && !(child.len() > 0 && child[0] == '/')
            ==> joined_path(base, child) == base + seq!['/'] + child,
        base.len() > 0 && base.last() == '/' && !(child.len() > 0 && child[0] == '/')
            ==> joined_path(base, child) == base + child,
        base.len() == 0 && !(child.len() > 0 && child[0] == '/') ==> joined_path(base, child)
            == child,
{
    reveal_strlit("/");
    assert("/"@ == seq!['/']);
    assert(Seq::<char>::empty() + child == child);
    if base.len() == 0 {
        assert(base + child == child);
    }
}

proof fn lemma_last_slash(base: Seq<char>, name: Seq<char>)
    requires
        !name.contains('/'),
    ensures
        last_at(base + seq!['/'] + name, '/') == Some(base.len() as int),
        last_at(name, '/') is None,
{
    let p = base + seq!['/'] + name;
    lemma_last_at(p, '/');
    lemma_last_at(name, '/');
    assert(p[base.len() as int] == '/');
    match last_at(p, '/') {
        Some(k) => {
            if k > base.len() {
                assert(p[k] == name[k - base.len() - 1]);
                assert(name.contains(p[k]));
            }
        },
        None => {},
    }
    match last_at(name, '/') {
        Some(k) => {
            assert(name.contains(name[k]));
        },
        None => {},
    }
}

/// What is joined to a directory has that directory for its parent and its own name for its
/// name; a name that stands alone is its own name, in the directory without a name.
pub proof fn law_joining_is_undone(base: Seq<char>, name: Seq<char>)
    requires
        is_plain_name(name),
    ensures
        ends_in_a_name(base) ==> file_name_of(joined_path(base, name)) == Some(name) && parent_of(
            joined_path(base, name),
        ) == Some(base) && base_name_of(joined_path(base, name)) == name,
        file_name_of(joined_path(seq!['/'], name)) == Some(name),
        parent_of(joined_path(seq!['/'], name)) == Some(seq!['/']),
        file_name_of(name) == Some(name),
        parent_of(name) == Some(Seq::<char>::empty()),
{
    reveal_strlit("/");
    assert("/"@ == seq!['/']);
    assert(name.contains(name[0]));
    assert(name.contains(name.last()));
    // A name by itself.
    if name.len() > 1 && name.last() == '.' && name[name.len() - 2] == '/' {
        assert(name.contains(name[name.len() - 2]));
    }
    assert(bare(name) == name);
    lemma_last_slash(base, name);
    assert(name.len() == 1 ==> name == seq![name[0]]);
    // A name below the top.
    let top = seq!['/'] + name;
    lemma_last_slash(Seq::empty(), name);
    assert(Seq::<char>::empty() + seq!['/'] + name == top);
    assert(top.last() == name.last());
    assert(name.len() == 1 ==> name == seq![name[0]]);
    assert(bare(top) == top) by {
        if top.last() == '.' && top[top.len() - 2] == '/' {
            if name.len() > 1 {
                assert(top[top.len() - 2] == name[name.len() - 2]);
                assert(name.contains(name[name.len() - 2]));
            } else {
                assert(name == seq!['.']);
            }
        }
    }
    assert(top.skip(1) == name);
    assert(top.take(1) == seq!['/']);
    // A name below another.
    if ends_in_a_name(base) {
        let p = base + seq!['/'] + name;
        assert(p.last() == name.last());
        assert(bare(p) == p) by {
            if p.last() == '.' && p[p.len() - 2] == '/' {
                if name.len() > 1 {
                    assert(p[p.len() - 2] == name[name.len() - 2]);
                    assert(name.contains(name[name.len() - 2]));
                } else {
                    assert(name == seq!['.']);
                }
            }
        }
        assert(p.skip(base.len() as int + 1) == name);
        assert(p.take(base.len() as int) == base);
        assert(bare(base) == base);
    }
}

/// A slash at the end of a path, or a dot behind one, changes nothing; a path that ends in two
/// dots has no name, and neither has the top nor the empty path, which have no parent either.
pub proof fn law_trailing_slashes(p: Seq<char>)
    ensures
        p.len() > 0 ==> file_name_of(p + seq!['/']) == file_name_of(p) && parent_of(
            p + seq!['/'],
        ) == parent_of(p),
        p.len() > 0 ==> file_name_of(p + seq!['/', '.']) == file_name_of(p) && parent_of(
            p + seq!['/', '.'],
        ) == parent_of(p),
        p.len() > 0 ==> file_name_of(p + seq!['/', '.', '.']) is None,
        file_name_of(seq!['/']) is None && parent_of(seq!['/']) is None,
        file_name_of(Seq::empty()) is None && parent_of(Seq::empty()) is None,
{
    let (a, b, c) = (p + seq!['/'], p + seq!['/', '.'], p + seq!['/', '.', '.']);
    assert(a.drop_last() == p);
    assert(b.drop_last() == a);
    assert(bare(a) == bare(p) || p.len() == 0);
    if p.len() > 0 {
        assert(bare(c) == c);
        let dots = seq!['.', '.'];
        assert(!dots.contains('/')) by {
            assert(dots[0] == '.' && dots[1] == '.');
        }
        lemma_last_slash(p, dots);
        assert(p + seq!['/'] + dots == c);
        assert(c.skip(p.len() as int + 1) == dots);
    }
}

proof fn lemma_last_dot(stem: Seq<char>, ext: Seq<char>)
    requires
        !ext.contains('.'),
    ensures
        last_at(stem + seq!['.'] + ext, '.') == Some(stem.len() as int),
        last_at(ext, '.') is None,
{
    let p = stem + seq!['.'] + ext;
    lemma_last_at(p, '.');
    lemma_last_at(ext, '.');
    assert(p[stem.len() as int] == '.');
    match last_at(p, '.') {
        Some(k) => {
            if k > stem.len() {
                assert(p[k] == ext[k - stem.len() - 1]);
                assert(ext.contains(p[k]));
            }
        },
        None => {},
    }
    match last_at(ext, '.') {
        Some(k) => {
            assert(ext.contains(ext[k]));
        },
        None => {},
    }
}

/// The stem of a name is what stands before its last dot and the extension what stands behind;
/// a name without a dot, or with just one at its start, is its own stem and has none.
pub proof fn law_stem_and_extension(
    p: Seq<char>,
    name: Seq<char>,
    stem: Seq<char>,
    ext: Seq<char>,
    other: Seq<char>,
)
    requires
        file_name_of(p) == Some(name),
        !ext.contains('.'),
    ensures
        name == stem + seq!['.'] + ext && stem.len() > 0 ==> file_stem_of(p) == Some(stem) && (
        has_extension(p, other) <==> other == ext),
        name == ext || name == seq!['.'] + ext ==> file_stem_of(p) == Some(name) && !has_extension(
            p,
            other,
        ),
{
    lemma_last_dot(stem, ext);
    lemma_last_dot(Seq::empty(), ext);
    assert(Seq::<char>::empty() + seq!['.'] + ext == seq!['.'] + ext);
    let whole = stem + seq!['.'] + ext;
    assert(whole.take(stem.len() as int) == stem);
    assert(whole.skip(stem.len() as int + 1) == ext);
}

/// Another name for a file is a name in the same directory.
pub proof fn law_renaming_stays_in_place(base: Seq<char>, name: Seq<char>, other: Seq<char>)
    requires
        is_plain_name(name),
        ends_in_a_name(base),
    ensures
        renamed_path(joined_path(base, name), other) == joined_path(base, other),
{
    law_joining_is_undone(base, name);
}

/// A path starts at the top where a slash comes first.
pub proof fn law_rooted_paths(rest: Seq<char>, p: Seq<char>)
    ensures
        is_rooted(seq!['/'] + rest),
        is_rooted(p) ==> p == seq!['/'] + p.skip(1),
{
    if is_rooted(p) {
        assert(p == seq!['/'] + p.skip(1));
    }
}

} // verus!
