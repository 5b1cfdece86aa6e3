//! Shell-integration handoff: when the zsh wrapper passes `--handoff-file`,
//! one-shot effects are reported as data for the interactive shell to act on,
//! instead of the binary exec-ing shells itself.
//!
//! Format: line 1 is the cwd; each remaining line is one argv element
//! (program, then args). No quoting layer exists because the wrapper runs the
//! array directly (`"${cmd[@]}"`): data, not code. An empty file means
//! "nothing to do".

use crate::text::{
    cat, debug_form, has_char, joined, lemma_pieces_nonempty, pieces, split, to_debug,
};
use vstd::prelude::*;

verus! {

/// Why a handoff cannot be written.
#[derive(Debug)]
pub enum HandoffError {
    /// The element holds a line feed.
    Newline(String),
}

impl HandoffError {
    /// The error in words.
    pub fn message(&self) -> (r: String)
        ensures
            r@ == "handoff element contains a newline: "@ + debug_form(self->Newline_0@),
    {
        match self {
            HandoffError::Newline(piece) => cat(
                "handoff element contains a newline: ",
                to_debug(piece.as_str()).as_str(),
            ),
        }
    }
}

/// Whether every element fits on one line.
pub open spec fn one_line_each(parts: Seq<Seq<char>>) -> bool {
    forall|i: int| 0 <= i < parts.len() ==> !(#[trigger] parts[i]).contains('\n')
}

/// The elements of a handoff, each on a line of its own.
pub open spec fn handoff_text(parts: Seq<Seq<char>>) -> Seq<char> {
    joined(parts, "\n"@) + "\n"@
}

/// The elements in a handoff: what each line feed ends, and what stands behind the last one.
pub open spec fn elements_in(s: Seq<char>) -> Seq<Seq<char>> {
    let all = pieces(s, '\n');
    if all.last().len() == 0 {
        all.drop_last()
    } else {
        all
    }
}

/// The cwd and the argv that a handoff holds, where it holds any.
pub open spec fn handoff_in(s: Seq<char>) -> Option<(Seq<char>, Seq<Seq<char>>)> {
    let all = elements_in(s);
    if all.len() == 0 || all[0].len() == 0 {
        None
    } else {
        Some((all[0], all.skip(1)))
    }
}

/// The first of `parts` from `i` on that holds a line feed.
pub open spec fn first_broken(parts: Seq<Seq<char>>, i: int) -> Option<Seq<char>>
    decreases parts.len() - i,
{
    if i < 0 || i >= parts.len() {
        None
    } else if parts[i].contains('\n') {
        Some(parts[i])
    } else {
        first_broken(parts, i + 1)
    }
}

/// Serialize a handoff. `argv` empty means "cd only". Refuses the first element that
/// holds a line feed.
pub fn render(cwd: &str, argv: &[String]) -> (r: Result<String, HandoffError>)
    ensures
        match r {
            Ok(s) => one_line_each(seq![cwd@] + argv.deep_view()) && s@ == handoff_text(
                seq![cwd@] + argv.deep_view(),
            ),
            Err(HandoffError::Newline(piece)) => first_broken(seq![cwd@] + argv.deep_view(), 0)
                == Some(piece@),
        },
{
    let ghost parts = seq![cwd@] + argv.deep_view();
    if has_char(cwd, '\n') {
        return Err(HandoffError::Newline(cwd.to_owned()));
    }
    let mut out = cwd.to_owned();
    assert(parts.take(1) == seq![cwd@]);
    assert(first_broken(parts, 0) == first_broken(parts, 1));
    for i in 0..argv.len()
        invariant
            parts == seq![cwd@] + argv.deep_view(),
            out@ == joined(parts.take(i + 1), "\n"@),
            first_broken(parts, 0) == first_broken(parts, i + 1),
            forall|j: int| 0 <= j <= i ==> !(#[trigger] parts[j]).contains('\n'),
    {
        assert(parts[i + 1] == argv@[i as int]@);
        if has_char(argv[i].as_str(), '\n') {
            return Err(HandoffError::Newline(argv[i].clone()));
        }
        assert(parts.take(i + 2).drop_last() == parts.take(i + 1));
        assert(parts.take(i + 2).last() == argv@[i as int]@);
        out.append("\n");
        out.append(argv[i].as_str());
    }
    assert(parts.take((argv@.len() + 1) as int) == parts);
    out.append("\n");
    Ok(out)
}

/// Parse a rendered handoff back into (cwd, argv), as the zsh wrapper reads it.
pub fn parse(s: &str) -> (r: Option<(String, Vec<String>)>)
    ensures
        match r {
            Some((cwd, argv)) => handoff_in(s@) == Some((cwd@, argv.deep_view())),
            None => handoff_in(s@) is None,
        },
{
    let mut all = split(s, '\n');
    let n = all.len();
    assert(all.deep_view().last() == all@[n - 1]@);
    if all[n - 1].as_str().is_empty() {
        let ghost whole = all.deep_view();
        all.truncate(n - 1);
        assert(all.deep_view() == whole.drop_last());
    }
    assert(all.deep_view() == elements_in(s@));
    if all.len() == 0 {
        return None;
    }
    assert(elements_in(s@)[0] == all@[0]@);
    let cwd = all[0].clone();
    if cwd.as_str().is_empty() {
        return None;
    }
    let mut argv: Vec<String> = Vec::new();
    for i in 1..all.len()
        invariant
            1 <= i <= all@.len(),
            argv.deep_view() == all.deep_view().subrange(1, i as int),
    {
        let ghost before = argv.deep_view();
        argv.push(all[i].clone());
        assert(argv.deep_view() == before.push(all@[i as int]@));
        assert(all.deep_view().subrange(1, i + 1) == before.push(all@[i as int]@));
    }
    assert(all.deep_view().skip(1) == all.deep_view().subrange(1, all@.len() as int));
    Some((cwd, argv))
}

// ---- what is written is read back ------------------------------------------------------

/// Text without a separator extends the last piece.
proof fn lemma_pieces_extend(s: Seq<char>, t: Seq<char>, sep: char)
    requires
        !t.contains(sep),
    ensures
        pieces(s, sep).len() > 0,
        pieces(s + t, sep) == pieces(s, sep).drop_last().push(pieces(s, sep).last() + t),
    decreases t.len(),
{
    lemma_pieces_nonempty(s, sep);
    let p = pieces(s, sep);
    if t.len() == 0 {
        assert(s + t == s);
        assert(p.last() + t == p.last());
        assert(p == p.drop_last().push(p.last()));
    } else {
        let u = t.drop_last();
        assert forall|i: int| 0 <= i < u.len() implies u[i] != sep by {
            assert(t[i] == u[i]);
        }
        lemma_pieces_extend(s, u, sep);
        assert((s + t).drop_last() == s + u);
        assert((s + t).last() == t.last());
        assert(t[t.len() - 1] != sep);
        let q = pieces(s + u, sep);
        assert(q.drop_last() == p.drop_last());
        assert(q.last().push(t.last()) == p.last() + t);
    }
}

/// Joined pieces without separators are found again.
proof fn lemma_pieces_joined(parts: Seq<Seq<char>>)
    requires
        parts.len() > 0,
        one_line_each(parts),
    ensures
        pieces(joined(parts, "\n"@), '\n') == parts,
    decreases parts.len(),
{
    reveal_strlit("\n");
    assert(!parts[parts.len() - 1].contains('\n'));
    if parts.len() == 1 {
        let none = Seq::<char>::empty();
        lemma_pieces_extend(none, parts[0], '\n');
        assert(none + parts[0] == parts[0]);
        assert(pieces(none, '\n') == seq![none]);
        assert(seq![none].drop_last().push(parts[0]) == parts);
    } else {
        let front = parts.drop_last();
        assert forall|i: int| 0 <= i < front.len() implies !(#[trigger] front[i]).contains(
            '\n',
        ) by {
            assert(front[i] == parts[i]);
        }
        lemma_pieces_joined(front);
        let s = joined(front, "\n"@);
        assert(s + "\n"@ == s.push('\n'));
        assert(s.push('\n').drop_last() == s);
        let p = pieces(s.push('\n'), '\n');
        assert(p == front.push(Seq::empty()));
        lemma_pieces_extend(s.push('\n'), parts.last(), '\n');
        assert(p.drop_last() == front);
        assert(p.last() + parts.last() == parts.last());
        assert(front.push(parts.last()) == parts);
    }
}

/// A handoff reads back as it was written: the cwd and every element of the argv, for a
/// cwd that is not empty, where no element holds a line feed (such a handoff is not
/// written).
pub proof fn law_handoff_round_trip(cwd: Seq<char>, argv: Seq<Seq<char>>)
    requires
        cwd.len() > 0,
        one_line_each(seq![cwd] + argv),
    ensures
        handoff_in(handoff_text(seq![cwd] + argv)) == Some((cwd, argv)),
{
    reveal_strlit("\n");
    let parts = seq![cwd] + argv;
    lemma_pieces_joined(parts);
    let s = joined(parts, "\n"@);
    assert(s + "\n"@ == s.push('\n'));
    assert(s.push('\n').drop_last() == s);
    let p = pieces(s.push('\n'), '\n');
    assert(p == parts.push(Seq::empty()));
    assert(p.drop_last() == parts);
    assert(parts[0] == cwd);
    assert(parts.skip(1) == argv);
}

} // verus!
