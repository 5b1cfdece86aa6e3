//! What holds of the conversations that the lists show and of those that keys resume.

use crate::app::{
    convos, found, held_in, key_step, law_rows_are_exact, mentions, newest_first,
    rows, session_added, AppView, EffectView, Key, ListState, ModalView, Pane,
};
use crate::data::{backend_label, Backend, SessionView};
use crate::order::{law_sorting_keeps_members, sorted_stably};
use crate::text::{has_prefix, has_text, lowercase};
use crate::text_laws::{law_held_text_has_surroundings, law_holding_text};
use vstd::prelude::*;

verus! {

/// Whether a conversation holds the text, somewhere in what can be searched of it.
pub open spec fn tells_of(s: SessionView, needle: Seq<char>) -> bool {
    exists|at: int|
        0 <= at && at + needle.len() <= s.search_blob.len() && #[trigger] s.search_blob.subrange(
            at,
            at + needle.len(),
        ) == needle
}

/// Whether a conversation was held in a directory or below it.
pub open spec fn is_below(s: SessionView, dir: Seq<char>) -> bool {
    s.cwd == dir || exists|rest: Seq<char>| s.cwd == #[trigger] (dir + seq!['/'] + rest)
}

/// Whether the agent of a conversation can be run.
pub open spec fn runs(v: AppView, s: SessionView) -> bool {
    match s.backend {
        Backend::Claude => v.claude_ok,
        Backend::Codex => v.codex_ok,
    }
}

proof fn lemma_mentions(s: SessionView, needle: Seq<char>)
    ensures
        mentions(needle)(s) <==> tells_of(s, needle),
{
    if needle.len() == 0 {
        let at: int = 0;
        assert(s.search_blob.subrange(at, at + needle.len()) == needle);
    } else {
        if has_text(s.search_blob, needle) {
            let around = law_held_text_has_surroundings(s.search_blob, needle);
            let at = around.0.len() as int;
            assert(s.search_blob.subrange(at, at + needle.len()) == needle);
        }
        if tells_of(s, needle) {
            let at = choose|at: int|
                0 <= at && at + needle.len() <= s.search_blob.len()
                    && #[trigger] s.search_blob.subrange(at, at + needle.len()) == needle;
            let before = s.search_blob.take(at);
            let after = s.search_blob.skip(at + needle.len());
            assert(s.search_blob == before + needle + after);
            law_holding_text(before, needle, after);
        }
    }
}

proof fn lemma_held_in(s: SessionView, dir: Seq<char>)
    ensures
        held_in(dir)(s) <==> is_below(s, dir),
{
    reveal_strlit("/");
    assert("/"@ == seq!['/']);
    let start = dir + seq!['/'];
    if has_prefix(s.cwd, start) {
        let rest = s.cwd.skip(start.len() as int);
        assert(s.cwd == dir + seq!['/'] + rest);
    }
    if exists|rest: Seq<char>| s.cwd == #[trigger] (dir + seq!['/'] + rest) {
        let rest = choose|rest: Seq<char>| s.cwd == #[trigger] (dir + seq!['/'] + rest);
        assert(s.cwd.subrange(0, start.len() as int) == start);
        assert(s.cwd.take(start.len() as int) == start);
    }
}

/// The row of a session among those that a filter admits is the number of admitted ones in
/// front of it.
proof fn lemma_row_of(sessions: Seq<SessionView>, keep: spec_fn(SessionView) -> bool, i: int)
    requires
        0 <= i < sessions.len() <= usize::MAX,
        keep(sessions[i]),
    ensures
        sessions.take(i).filter(keep).len() < rows(sessions, keep).len(),
        rows(sessions, keep)[sessions.take(i).filter(keep).len() as int] == i,
        rows(sessions, keep).len() == sessions.filter(keep).len(),
    decreases sessions.len(),
{
    lemma_rows_len(sessions, keep);
    let front = sessions.drop_last();
    lemma_rows_len(front, keep);
    if i < sessions.len() - 1 {
        assert(front.take(i) == sessions.take(i));
        assert(front[i] == sessions[i]);
        lemma_row_of(front, keep, i);
    } else {
        assert(sessions.take(i) == front);
    }
}

proof fn lemma_rows_len(sessions: Seq<SessionView>, keep: spec_fn(SessionView) -> bool)
    ensures
        rows(sessions, keep).len() == sessions.filter(keep).len(),
    decreases sessions.len(),
{
    reveal(Seq::filter);
    if sessions.len() > 0 {
        lemma_rows_len(sessions.drop_last(), keep);
    }
}

proof fn lemma_filter_same(
    sessions: Seq<SessionView>,
    a: spec_fn(SessionView) -> bool,
    b: spec_fn(SessionView) -> bool,
)
    requires
        forall|s: SessionView| #[trigger] a(s) == b(s),
    ensures
        sessions.filter(a) == sessions.filter(b),
    decreases sessions.len(),
{
    reveal(Seq::filter);
    if sessions.len() > 0 {
        lemma_filter_same(sessions.drop_last(), a, b);
        assert(a(sessions.last()) == b(sessions.last()));
    }
}

/// Whether the open search lists just the conversations that hold its text, each by its place
/// among all of them, in their order.
pub open spec fn search_is_exact(v: AppView) -> bool {
    v.modal matches ModalView::ConvoSearch { filter, matches, .. } ==> {
        &&& forall|i: usize| #[trigger]
            matches.contains(i) <==> i < v.sessions.len() && tells_of(
                v.sessions[i as int],
                lowercase(filter),
            )
        &&& forall|a: int, b: int| 0 <= a < b < matches.len() ==> matches[a] < matches[b]
    }
}

proof fn lemma_found(sessions: Seq<SessionView>, filter: Seq<char>)
    requires
        sessions.len() <= usize::MAX,
    ensures
        ({
            let matches = found(sessions, filter);
            &&& forall|i: usize| #[trigger]
                matches.contains(i) <==> i < sessions.len() && tells_of(
                    sessions[i as int],
                    lowercase(filter),
                )
            &&& forall|a: int, b: int| 0 <= a < b < matches.len() ==> matches[a] < matches[b]
        }),
{
    let needle = lowercase(filter);
    let matches = found(sessions, filter);
    law_rows_are_exact(sessions, mentions(needle), 0);
    assert forall|i: usize| #[trigger]
        matches.contains(i) <==> i < sessions.len() && tells_of(sessions[i as int], needle) by {
        law_rows_are_exact(sessions, mentions(needle), i);
        if i < sessions.len() {
            lemma_mentions(sessions[i as int], needle);
        }
    }
}

proof fn lemma_exact_in_search(v: AppView, key: Key, ctrl: bool)
    requires
        v.sessions.len() <= usize::MAX,
        v.modal is ConvoSearch,
        search_is_exact(v),
    ensures
        search_is_exact(key_step(v, key, ctrl).0),
{
    let filter = v.modal->ConvoSearch_filter;
    let w = key_step(v, key, ctrl).0;
    match w.modal {
        ModalView::ConvoSearch { filter: next, matches, .. } => {
            if matches != v.modal->matches || next != filter {
                assert(matches == found(v.sessions, next));
                lemma_found(v.sessions, next);
            }
        },
        _ => {},
    }
}

proof fn lemma_no_search_elsewhere(v: AppView, key: Key, ctrl: bool)
    requires
        !(v.modal is ConvoSearch),
        v.modal is Closed ==> key != Key::Char('/'),
    ensures
        !(key_step(v, key, ctrl).0.modal is ConvoSearch),
{
}

/// The search stays exact: it lists the conversations that hold its text when it is opened, with
/// every key, and as further conversations come in.
pub proof fn law_search_stays_exact(v: AppView, key: Key, ctrl: bool, s: SessionView)
    requires
        v.sessions.len() < usize::MAX,
        search_is_exact(v),
    ensures
        search_is_exact(key_step(v, key, ctrl).0),
        search_is_exact(session_added(v, s)),
{
    if v.modal is ConvoSearch {
        lemma_exact_in_search(v, key, ctrl);
    } else if v.modal is Closed && key == Key::Char('/') {
        lemma_found(v.sessions, Seq::empty());
    } else {
        lemma_no_search_elsewhere(v, key, ctrl);
    }
    lemma_exact_with_more(v, s);
}

proof fn lemma_exact_with_more(v: AppView, s: SessionView)
    requires
        v.sessions.len() < usize::MAX,
        search_is_exact(v),
    ensures
        search_is_exact(session_added(v, s)),
{
    let all = sorted_stably(v.sessions.push(s), newest_first());
    law_sorting_keeps_members(v.sessions.push(s), newest_first());
    v.sessions.push(s).to_multiset_ensures();
    all.to_multiset_ensures();
    if v.modal is ConvoSearch {
        lemma_found(all, v.modal->ConvoSearch_filter);
    }
}

/// The slash opens the search, with nothing typed, on the first of all conversations.
pub proof fn law_slash_opens_the_search(v: AppView, ctrl: bool)
    requires
        v.modal is Closed,
        v.sessions.len() <= usize::MAX,
    ensures
        ({
            let m = key_step(v, Key::Char('/'), ctrl).0.modal;
            &&& key_step(v, Key::Char('/'), ctrl).1 is Nothing
            &&& m is ConvoSearch
            &&& m->ConvoSearch_filter.len() == 0
            &&& m->preview_scroll == 0
            &&& m->matches.len() > 0 ==> m->ConvoSearch_state.selected == Some(0usize)
            &&& key_step(v, Key::Char('/'), ctrl).0 == (AppView { status: None, modal: m, ..v })
        }),
{
}

/// Enter in the search resumes, and `^f` forks, the conversation of the selected row: the one
/// that stands at that place among all conversations. It goes by its id, its directory and its
/// agent. Where the agent cannot be run, nothing is started and the status bar says so.
pub proof fn law_search_resumes_its_row(v: AppView, p: usize, ctrl: bool)
    requires
        v.modal is ConvoSearch,
        v.modal->ConvoSearch_state.selected == Some(p),
        p < v.modal->matches.len(),
        v.modal->matches[p as int] < v.sessions.len(),
    ensures
        ({
            let s = v.sessions[v.modal->matches[p as int] as int];
            let closed = AppView { status: None, modal: ModalView::Closed, ..v };
            &&& runs(v, s) ==> key_step(v, Key::Enter, ctrl) == (
                closed,
                EffectView::Resume { backend: s.backend, cwd: s.cwd, id: s.id, fork: false },
            )
            &&& runs(v, s) ==> key_step(v, Key::Char('f'), true) == (
                closed,
                EffectView::Resume { backend: s.backend, cwd: s.cwd, id: s.id, fork: true },
            )
            &&& !runs(v, s) ==> key_step(v, Key::Enter, ctrl) == (
                AppView {
                    status: Some(
                        backend_label(s.backend, v.names) + " is not on PATH, cannot resume"@,
                    ),
                    modal: ModalView::Closed,
                    ..v
                },
                EffectView::Nothing,
            )
            &&& !runs(v, s) ==> key_step(v, Key::Char('f'), true) == key_step(v, Key::Enter, ctrl)
        }),
{
}

/// What the search resumes or forks is a conversation that holds its text: one of those with
/// the id, the directory and the agent that are handed on.
pub proof fn law_search_resumes_what_it_found(v: AppView, key: Key, ctrl: bool)
    requires
        v.modal is ConvoSearch,
        v.sessions.len() <= usize::MAX,
        search_is_exact(v),
    ensures
        key_step(v, key, ctrl).1 matches EffectView::Resume { backend, cwd, id, fork } ==> {
            &&& key == Key::Enter && !fork || key == Key::Char('f') && ctrl && fork
            &&& exists|i: int|
                0 <= i < v.sessions.len() && (#[trigger] v.sessions[i]).id == id
                    && v.sessions[i].cwd == cwd && v.sessions[i].backend == backend && tells_of(
                    v.sessions[i],
                    lowercase(v.modal->ConvoSearch_filter),
                )
        },
{
    let matches = v.modal->matches;
    match key_step(v, key, ctrl).1 {
        EffectView::Resume { backend, cwd, id, fork } => {
            let p = v.modal->ConvoSearch_state.selected->0;
            assert(matches.contains(matches[p as int]));
            let i = matches[p as int] as int;
            assert(v.sessions[i].id == id);
        },
        _ => {},
    }
}

/// The rows of the search stand in the order of the conversations: the row of one that holds
/// the text is the number of such ones in front of it, and Enter on that row resumes it.
pub proof fn law_search_rows_are_in_order(v: AppView, i: int, c: char)
    requires
        v.modal is ConvoSearch,
        0 <= i < v.sessions.len() <= usize::MAX,
        !(c == 'd' || c == 'u' || c == 'f'),
        tells_of(v.sessions[i], lowercase(v.modal->ConvoSearch_filter.push(c))),
    ensures
        ({
            let filter = v.modal->ConvoSearch_filter.push(c);
            let row = v.sessions.take(i).filter(|s: SessionView| tells_of(s, lowercase(filter))).len();
            let typed = key_step(v, Key::Char(c), false).0;
            &&& typed.modal is ConvoSearch
            &&& typed.modal->ConvoSearch_filter == filter
            &&& row < typed.modal->matches.len()
            &&& typed.modal->matches[row as int] == i
            &&& typed.sessions == v.sessions
        }),
{
    let filter = v.modal->ConvoSearch_filter.push(c);
    let needle = lowercase(filter);
    let keep = |s: SessionView| tells_of(s, needle);
    assert forall|s: SessionView| #[trigger] mentions(needle)(s) == keep(s) by {
        lemma_mentions(s, needle);
    }
    lemma_filter_same(v.sessions.take(i), mentions(needle), keep);
    lemma_row_of(v.sessions, mentions(needle), i);
}

/// Typing in the search narrows it by the text as typed, from the first row on; moving goes a
/// row at a time and `^d` and `^u` scroll the preview by ten lines; Esc closes it. None of these
/// starts anything.
pub proof fn law_search_keys(v: AppView, c: char, ctrl: bool)
    requires
        v.modal is ConvoSearch,
        v.modal->matches.len() <= usize::MAX,
        v.sessions.len() <= usize::MAX,
    ensures
        ({
            let m = v.modal;
            let typed = key_step(v, Key::Char(c), ctrl);
            let rubbed = key_step(v, Key::Backspace, ctrl);
            let plain = !(ctrl && (c == 'd' || c == 'u' || c == 'f'));
            &&& plain ==> typed.1 is Nothing && typed.0.modal is ConvoSearch
                && typed.0.modal->ConvoSearch_filter == m->ConvoSearch_filter.push(c)
                && typed.0.modal->preview_scroll == 0 && (typed.0.modal->matches.len() > 0
                ==> typed.0.modal->ConvoSearch_state.selected == Some(0usize)) && (
            typed.0.modal->matches.len() == 0 ==> typed.0.modal->ConvoSearch_state.selected is None)
            &&& rubbed.1 is Nothing && rubbed.0.modal is ConvoSearch
            &&& m->ConvoSearch_filter.len() > 0 ==> rubbed.0.modal->ConvoSearch_filter
                == m->ConvoSearch_filter.take(m->ConvoSearch_filter.len() - 1)
            &&& m->ConvoSearch_filter.len() == 0 ==> rubbed.0.modal->ConvoSearch_filter.len() == 0
            &&& key_step(v, Key::Esc, ctrl) == (
                AppView { status: None, modal: ModalView::Closed, ..v },
                EffectView::Nothing,
            )
        }),
{
    let f = v.modal->ConvoSearch_filter;
    if f.len() > 0 {
        assert(f.drop_last() == f.take(f.len() - 1));
    }
}

/// In the search, up and down go one row, and stop at the ends; the preview starts over. `^d` and
/// `^u` move the preview by ten lines and leave the row.
pub proof fn law_search_moves(v: AppView, p: usize, ctrl: bool)
    requires
        v.modal is ConvoSearch,
        v.modal->ConvoSearch_state.selected == Some(p),
        p < v.modal->matches.len() <= usize::MAX,
    ensures
        ({
            let m = v.modal;
            let at = |row: int, scroll: int|
                AppView {
                    status: None,
                    modal: ModalView::ConvoSearch {
                        filter: m->ConvoSearch_filter,
                        matches: m->matches,
                        state: ListState { selected: Some(row as usize) },
                        preview_scroll: scroll as u16,
                    },
                    ..v
                };
            &&& p + 1 < m->matches.len() ==> key_step(v, Key::Down, ctrl) == (
                at(p + 1, 0),
                EffectView::Nothing,
            )
            &&& p + 1 == m->matches.len() ==> key_step(v, Key::Down, ctrl) == (
                at(p as int, 0),
                EffectView::Nothing,
            )
            &&& p > 0 ==> key_step(v, Key::Up, ctrl) == (at(p - 1, 0), EffectView::Nothing)
            &&& p == 0 ==> key_step(v, Key::Up, ctrl) == (at(0, 0), EffectView::Nothing)
            &&& m->preview_scroll + 10 <= u16::MAX ==> key_step(v, Key::Char('d'), true) == (
                at(p as int, m->preview_scroll + 10),
                EffectView::Nothing,
            )
            &&& m->preview_scroll >= 10 ==> key_step(v, Key::Char('u'), true) == (
                at(p as int, m->preview_scroll - 10),
                EffectView::Nothing,
            )
            &&& m->preview_scroll < 10 ==> key_step(v, Key::Char('u'), true) == (
                at(p as int, 0),
                EffectView::Nothing,
            )
        }),
{
    assert(v.modal->ConvoSearch_state == (ListState { selected: Some(p) }));
}

/// The conversations of a space are those held in its directory or below it, in their order:
/// with the selection on the row of one of them, Enter resumes it and `f` forks it.
pub proof fn law_conversations_resume_their_row(v: AppView, k: usize, i: int, ctrl: bool)
    requires
        v.modal is Closed,
        v.pane == Pane::Convos,
        v.space_state.selected == Some(k),
        k < v.spaces.len(),
        0 <= i < v.sessions.len() <= usize::MAX,
        is_below(v.sessions[i], v.spaces[k as int].path),
        v.convo_state.selected == Some(
            v.sessions.take(i).filter(
                |s: SessionView| is_below(s, v.spaces[k as int].path),
            ).len() as usize,
        ),
    ensures
        ({
            let s = v.sessions[i];
            let quiet = AppView { status: None, ..v };
            &&& runs(v, s) ==> key_step(v, Key::Enter, ctrl) == (
                quiet,
                EffectView::Resume { backend: s.backend, cwd: s.cwd, id: s.id, fork: false },
            )
            &&& runs(v, s) ==> key_step(v, Key::Char('f'), ctrl) == (
                quiet,
                EffectView::Resume { backend: s.backend, cwd: s.cwd, id: s.id, fork: true },
            )
            &&& !runs(v, s) ==> key_step(v, Key::Enter, ctrl) == (
                AppView {
                    status: Some(
                        backend_label(s.backend, v.names) + " is not on PATH, cannot resume"@,
                    ),
                    ..v
                },
                EffectView::Nothing,
            )
        }),
{
    let dir = v.spaces[k as int].path;
    let keep = |s: SessionView| is_below(s, dir);
    assert forall|s: SessionView| #[trigger] held_in(dir)(s) == keep(s) by {
        lemma_held_in(s, dir);
    }
    lemma_filter_same(v.sessions.take(i), held_in(dir), keep);
    lemma_row_of(v.sessions, held_in(dir), i);
    lemma_rows_len(v.sessions, held_in(dir));
}

/// From the conversations of a space nothing is resumed that was held elsewhere.
pub proof fn law_conversations_belong_to_the_space(v: AppView, k: usize, key: Key, ctrl: bool)
    requires
        v.modal is Closed,
        v.space_state.selected == Some(k),
        k < v.spaces.len(),
        v.sessions.len() <= usize::MAX,
    ensures
        key_step(v, key, ctrl).1 matches EffectView::Resume { backend, cwd, id, fork } ==> {
            &&& v.pane == Pane::Convos
            &&& key == Key::Enter && !fork || key == Key::Char('f') && fork
            &&& exists|i: int|
                0 <= i < v.sessions.len() && (#[trigger] v.sessions[i]).id == id
                    && v.sessions[i].cwd == cwd && v.sessions[i].backend == backend && is_below(
                    v.sessions[i],
                    v.spaces[k as int].path,
                )
        },
{
    let dir = v.spaces[k as int].path;
    let c = AppView { status: None, ..v };
    match key_step(v, key, ctrl).1 {
        EffectView::Resume { backend, cwd, id, fork } => {
            let all = convos(c);
            assert(all == rows(v.sessions, held_in(dir)));
            let p = v.convo_state.selected->0;
            let i = all[p as int];
            assert(all.contains(i));
            law_rows_are_exact(v.sessions, held_in(dir), i);
            lemma_held_in(v.sessions[i as int], dir);
            assert(v.sessions[i as int].id == id);
        },
        _ => {},
    }
}

} // verus!
