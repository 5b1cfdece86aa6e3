//! What the app lists, and what becomes of it as outcomes come in.

use crate::app::{
    available_first, filtered, first_wins, key_step, newest_first, outcomes, picker_rows,
    picker_row, prs_polled, pull_polled, reloaded, repo_added, repo_removed, session_added,
    space_chosen, space_from, stack_opened, started, AppView, CachedPrsView, EffectView, Key,
    ListState, ModalView, Pane, PickerItemView, PullJobView, PullMsg, RequestView,
};
use crate::data::SessionView;
use crate::key_laws::{on_space, over, row, saying, silent};
use crate::names::AgentNamesView;
use crate::order::{
    law_sorting_is_stable, law_sorting_keeps_members, law_sorting_sorts, placed, sorted_stably,
};
use crate::path::joined_path;
use crate::pool_laws::{is_called, lemma_bare_name};
use crate::space::{
    bare_name, pool_shown, reply_view, LayoutView, PoolRepoView, SpaceRepoView, SpaceView,
};
use crate::stack::{PrInfoView, StackView};
use crate::text::{has_text, lowercase};
use crate::text_laws::{
    law_held_text_has_surroundings, law_holding_text, law_joining_undoes_splitting,
};
use vstd::prelude::*;

verus! {

// ---- the sessions -----------------------------------------------------------------------------

/// A session that comes in is put among the others by its time: each is at least as recent as
/// those behind it, none is lost, and those of one time keep their order, the new one last.
pub proof fn law_sessions_come_newest_first(v: AppView, s: SessionView, i: int, j: int)
    requires
        0 <= i < j <= v.sessions.len(),
    ensures
        ({
            let all = session_added(v, s).sessions;
            &&& all.len() == v.sessions.len() + 1
            &&& all[i].last_activity >= all[j].last_activity
            &&& all.to_multiset() == v.sessions.push(s).to_multiset()
            &&& all.filter(|x: SessionView| x.last_activity == s.last_activity)
                == v.sessions.push(s).filter(|x: SessionView| x.last_activity == s.last_activity)
        }),
{
    let before = newest_first();
    let given = v.sessions.push(s);
    law_sorting_sorts(given, before);
    law_sorting_keeps_members(given, before);
    law_sorting_is_stable(given, before, s);
    let all = session_added(v, s).sessions;
    assert(!before(all[j], all[i]));
    let same = |x: SessionView| !before(s, x) && !before(x, s);
    let equal = |x: SessionView| x.last_activity == s.last_activity;
    assert forall|x: SessionView| #[trigger] same(x) == equal(x) by {}
    lemma_filter_same(all, same, equal);
    lemma_filter_same(given, same, equal);
}

proof fn lemma_filter_same<T>(s: Seq<T>, a: spec_fn(T) -> bool, b: spec_fn(T) -> bool)
    requires
        forall|x: T| #[trigger] a(x) == b(x),
    ensures
        s.filter(a) == s.filter(b),
    decreases s.len(),
{
    reveal(Seq::filter);
    if s.len() > 0 {
        lemma_filter_same(s.drop_last(), a, b);
        assert(a(s.last()) == b(s.last()));
    }
}

// ---- the picker ---------------------------------------------------------------------------------

/// Whether a space has a repo of the pool already: a member of the name under which it is
/// called, in whichever group it stands.
pub open spec fn is_member(p: PoolRepoView, repos: Seq<SpaceRepoView>) -> bool {
    exists|i: int|
        0 <= i < repos.len() && !(#[trigger] repos[i]).name.contains('/') && is_called(
            p.name,
            repos[i].name,
        )
}

proof fn lemma_picker_row(p: PoolRepoView, repos: Seq<SpaceRepoView>)
    ensures
        picker_row(p, repos) == (PickerItemView { name: p.name, added: is_member(p, repos) }),
{
    law_joining_undoes_splitting(p.name, '/');
    let bare = bare_name(p.name);
    assert(!bare.contains('/'));
    lemma_bare_name(p.name, bare);
    if picker_row(p, repos).added {
        let i = choose|i: int| 0 <= i < repos.len() && (#[trigger] repos[i]).name == bare;
        assert(!repos[i].name.contains('/') && is_called(p.name, repos[i].name));
    }
    if is_member(p, repos) {
        let i = choose|i: int|
            0 <= i < repos.len() && !(#[trigger] repos[i]).name.contains('/') && is_called(
                p.name,
                repos[i].name,
            );
        lemma_bare_name(p.name, repos[i].name);
        assert(repos[i].name == bare);
    }
}

/// The picker offers every repo of the pool, those that the space lacks first, and of either
/// kind in the order of the pool; those that the space has are marked.
pub proof fn law_picker_offers_the_pool(v: AppView, k: int, ctrl: bool)
    requires
        on_space(v, k),
        v.pool.len() > 0,
    ensures
        ({
            let opened = key_step(v, Key::Char('a'), ctrl);
            let given = v.pool.map_values(
                |p: PoolRepoView|
                    PickerItemView { name: p.name, added: is_member(p, v.spaces[k].repos) },
            );
            &&& opened.1 is Nothing
            &&& opened.0.modal is RepoPicker
            &&& opened.0 == over(v, opened.0.modal)
            &&& opened.0.modal->all == given.filter(|x: PickerItemView| !x.added) + given.filter(
                |x: PickerItemView| x.added,
            )
            &&& opened.0.modal->candidates == opened.0.modal->all
            &&& opened.0.modal->RepoPicker_filter.len() == 0
            &&& opened.0.modal->RepoPicker_state == row(0)
        }),
{
    let repos = v.spaces[k].repos;
    let given = v.pool.map_values(
        |p: PoolRepoView| PickerItemView { name: p.name, added: is_member(p, repos) },
    );
    let rows = v.pool.map_values(|p: PoolRepoView| picker_row(p, repos));
    assert forall|i: int| 0 <= i < rows.len() implies #[trigger] rows[i] == given[i] by {
        lemma_picker_row(v.pool[i], repos);
    }
    assert(rows == given);
    lemma_available_first(given);
}

proof fn lemma_available_first(s: Seq<PickerItemView>)
    ensures
        sorted_stably(s, available_first()) == s.filter(|x: PickerItemView| !x.added) + s.filter(
            |x: PickerItemView| x.added,
        ),
    decreases s.len(),
{
    reveal(Seq::filter);
    let (free, taken) = (|x: PickerItemView| !x.added, |x: PickerItemView| x.added);
    if s.len() == 0 {
        assert(s == s.filter(free) + s.filter(taken));
    } else {
        let front = s.drop_last();
        lemma_available_first(front);
        let (f, t) = (front.filter(free), front.filter(taken));
        assert forall|i: int| 0 <= i < t.len() implies (#[trigger] t[i]).added by {
            front.lemma_filter_pred(taken, i);
        }
        assert forall|i: int| 0 <= i < f.len() implies !(#[trigger] f[i]).added by {
            front.lemma_filter_pred(free, i);
        }
        lemma_placed_first(f, t, s.last());
        if s.last().added {
            assert((f + t).push(s.last()) == f + t.push(s.last()));
        }
    }
}

/// A row that goes behind free rows `f` and taken ones `t` goes to the end if it is taken, and
/// to the end of the free ones if it is free.
proof fn lemma_placed_first(f: Seq<PickerItemView>, t: Seq<PickerItemView>, x: PickerItemView)
    requires
        forall|i: int| 0 <= i < t.len() ==> (#[trigger] t[i]).added,
        forall|i: int| 0 <= i < f.len() ==> !(#[trigger] f[i]).added,
    ensures
        x.added ==> placed(f + t, x, available_first()) == (f + t).push(x),
        !x.added ==> placed(f + t, x, available_first()) == f.push(x) + t,
    decreases t.len(),
{
    let all = f + t;
    if t.len() == 0 {
        assert(all == f);
        assert(f.push(x) + t == f.push(x));
        if f.len() > 0 {
            assert(!f[f.len() - 1].added);
        }
    } else {
        assert(all.last() == t[t.len() - 1]);
        assert(all.drop_last() == f + t.drop_last());
        lemma_placed_first(f, t.drop_last(), x);
        assert((f.push(x) + t.drop_last()).push(t.last()) == f.push(x) + t);
    }
}

/// Without a space there is nothing to pick for, and without a pool nothing to pick.
pub proof fn law_picker_needs_a_space_and_a_pool(v: AppView, k: int, ctrl: bool)
    requires
        v.modal is Closed,
    ensures
        v.spaces.len() == 0 ==> key_step(v, Key::Char('a'), ctrl) == (
            saying(v, "create a space first (n)"@),
            EffectView::Nothing,
        ),
        on_space(v, k) && v.pool.len() == 0 ==> key_step(v, Key::Char('a'), ctrl) == (
            saying(v, "no repos in "@ + pool_shown(v.layout) + " to add"@),
            EffectView::Nothing,
        ),
{
}

/// Whether a text holds another, whatever the case of either.
pub open spec fn holds_any_case(s: Seq<char>, part: Seq<char>) -> bool {
    exists|a: Seq<char>, b: Seq<char>| lowercase(s) == #[trigger] (a + lowercase(part) + b)
}

proof fn lemma_filtered(all: Seq<PickerItemView>, filter: Seq<char>)
    ensures
        filtered(all, filter) == all.filter(|x: PickerItemView| holds_any_case(x.name, filter)),
    decreases all.len(),
{
    reveal(Seq::filter);
    if all.len() > 0 {
        lemma_filtered(all.drop_last(), filter);
        let (s, pat) = (lowercase(all.last().name), lowercase(filter));
        if has_text(s, pat) {
            let around = law_held_text_has_surroundings(s, pat);
            assert(s == around.0 + pat + around.1);
        }
        if holds_any_case(all.last().name, filter) {
            let (a, b) = choose|a: Seq<char>, b: Seq<char>| s == #[trigger] (a + pat + b);
            law_holding_text(a, pat, b);
        }
    }
}

/// Typing in the picker narrows it to the repos that hold the text, whatever the case, in their
/// order; taking a character back widens it again. The selected row stays where it can, and
/// is else the last one.
pub proof fn law_picker_narrows(v: AppView, c: char, ctrl: bool)
    requires
        v.modal is RepoPicker,
    ensures
        ({
            let m = v.modal;
            let filter = m->RepoPicker_filter;
            let typed = key_step(v, Key::Char(c), ctrl);
            let rubbed = key_step(v, Key::Backspace, ctrl);
            let narrowed = |to: AppView, f: Seq<char>|
                {
                    &&& to.modal is RepoPicker
                    &&& to == over(v, to.modal)
                    &&& to.modal->all == m->all
                    &&& to.modal->RepoPicker_filter == f
                    &&& to.modal->candidates == m->all.filter(
                        |x: PickerItemView| holds_any_case(x.name, f),
                    )
                    &&& stays_inside(
                        m->RepoPicker_state,
                        to.modal->RepoPicker_state,
                        to.modal->candidates.len(),
                    )
                };
            &&& typed.1 is Nothing && narrowed(typed.0, filter + seq![c])
            &&& rubbed.1 is Nothing && (filter.len() > 0 ==> narrowed(
                rubbed.0,
                filter.take(filter.len() - 1),
            )) && (filter.len() == 0 ==> narrowed(rubbed.0, filter))
        }),
{
    let filter = v.modal->RepoPicker_filter;
    assert(filter.push(c) == filter + seq![c]);
    lemma_filtered(v.modal->all, filter + seq![c]);
    if filter.len() > 0 {
        assert(filter.drop_last() == filter.take(filter.len() - 1));
        lemma_filtered(v.modal->all, filter.take(filter.len() - 1));
    } else {
        lemma_filtered(v.modal->all, filter);
    }
}

/// Whether a selection has gone over to a list of another length as it should: none in an empty
/// list, the same row where there is one, else the last, and the first where none was selected.
pub open spec fn stays_inside(was: ListState, is: ListState, len: nat) -> bool {
    &&& len == 0 ==> is.selected is None
    &&& len > 0 && was.selected is None ==> is == row(0)
    &&& len > 0 && (was.selected matches Some(i) && i < len) ==> is == was
    &&& len > 0 && (was.selected matches Some(i) && i >= len) ==> is == row(len - 1)
}

/// In the picker, Enter adds the repo of the selected row to the selected space, unless it is
/// there already; the arrows move a row at a time, and Esc closes it.
pub proof fn law_picker_keys(v: AppView, i: int, k: int, ctrl: bool)
    requires
        v.modal is RepoPicker,
        v.modal->RepoPicker_state == row(i),
        0 <= i < v.modal->candidates.len() <= usize::MAX,
        v.space_state == row(k),
        0 <= k < v.spaces.len() <= usize::MAX,
    ensures
        ({
            let m = v.modal;
            let item = m->candidates[i];
            let at = |to: int|
                (
                    over(
                        v,
                        ModalView::RepoPicker {
                            all: m->all,
                            candidates: m->candidates,
                            filter: m->RepoPicker_filter,
                            state: row(to),
                        },
                    ),
                    EffectView::Nothing,
                );
            &&& item.added ==> key_step(v, Key::Enter, ctrl) == (
                saying(v, item.name + " is already in this space"@),
                EffectView::Nothing,
            )
            &&& !item.added ==> key_step(v, Key::Enter, ctrl) == (
                silent(v),
                EffectView::Ask {
                    request: RequestView::AddRepo {
                        space: v.spaces[k].path,
                        repo: item.name,
                        filter: m->RepoPicker_filter,
                    },
                },
            )
            &&& i + 1 < m->candidates.len() ==> key_step(v, Key::Down, ctrl) == at(i + 1)
            &&& i + 1 == m->candidates.len() ==> key_step(v, Key::Down, ctrl) == at(i)
            &&& i > 0 ==> key_step(v, Key::Up, ctrl) == at(i - 1)
            &&& i == 0 ==> key_step(v, Key::Up, ctrl) == at(0)
            &&& key_step(v, Key::Esc, ctrl) == (over(v, ModalView::Closed), EffectView::Nothing)
        }),
{
}

// ---- scans --------------------------------------------------------------------------------------

proof fn lemma_space_from(spaces: Seq<SpaceView>, name: Seq<char>, i: int, k: int)
    requires
        0 <= i,
    ensures
        i <= k < spaces.len() && spaces[k].name == name && (forall|j: int|
            i <= j < k ==> (#[trigger] spaces[j]).name != name) ==> space_from(spaces, name, i)
            == Some(k),
        (forall|j: int| i <= j < spaces.len() ==> (#[trigger] spaces[j]).name != name)
            ==> space_from(spaces, name, i) is None,
    decreases spaces.len() - i,
{
    if i < spaces.len() {
        lemma_space_from(spaces, name, i + 1, k);
    }
}

/// A scan replaces what was known of the spaces and the pool. The space of the name that was
/// selected stays selected, wherever it now stands, else the first one is; the selected row of
/// its members stays where it can. Nothing else changes.
pub proof fn law_scan_keeps_the_selected_space(
    v: AppView,
    spaces: Seq<SpaceView>,
    pool: Seq<PoolRepoView>,
    k: int,
    n: int,
)
    requires
        v.space_state == row(k),
        0 <= k < v.spaces.len() <= usize::MAX,
        spaces.len() <= usize::MAX,
    ensures
        ({
            let w = reloaded(v, spaces, pool);
            let name = v.spaces[k].name;
            &&& w.spaces == spaces && w.pool == pool
            &&& 0 <= n < spaces.len() && spaces[n].name == name && (forall|j: int|
                0 <= j < n ==> (#[trigger] spaces[j]).name != name) ==> w.space_state == row(n)
                && stays_inside(v.repo_state, w.repo_state, spaces[n].repos.len())
            &&& spaces.len() > 0 && (forall|j: int|
                0 <= j < spaces.len() ==> (#[trigger] spaces[j]).name != name) ==> w.space_state
                == row(0) && stays_inside(v.repo_state, w.repo_state, spaces[0].repos.len())
            &&& spaces.len() == 0 ==> w.space_state.selected is None && w.repo_state.selected
                is None
            &&& w == AppView {
                spaces,
                pool,
                space_state: w.space_state,
                repo_state: w.repo_state,
                ..v
            }
        }),
{
    lemma_space_from(spaces, v.spaces[k].name, 0, n);
}

/// The app starts on the list of the spaces, the first one selected, still reading the
/// conversations, with nothing shown over the lists and nothing under way.
pub proof fn law_app_starts_empty(
    names: AgentNamesView,
    layout: LayoutView,
    claude_ok: bool,
    codex_ok: bool,
    delta_ok: bool,
    now: i64,
    spaces: Seq<SpaceView>,
    pool: Seq<PoolRepoView>,
)
    ensures
        ({
            let v = started(names, layout, claude_ok, codex_ok, delta_ok, now, spaces, pool);
            &&& v.names == names && v.layout == layout && v.now == now
            &&& v.claude_ok == claude_ok && v.codex_ok == codex_ok && v.delta_ok == delta_ok
            &&& v.spaces == spaces && v.pool == pool
            &&& v.pane == Pane::Spaces && v.modal is Closed && v.status is None
            &&& spaces.len() > 0 ==> v.space_state == row(0)
            &&& spaces.len() > 0 && spaces[0].repos.len() > 0 ==> v.repo_state == row(0)
            &&& v.convo_state == row(0)
            &&& v.sessions.len() == 0 && v.loading
            &&& !v.pull_active && v.pull_results.len() == 0 && v.pr_wait is None
            &&& v.pr_cache.dom() == Set::<Seq<char>>::empty()
        }),
{
    assert(Map::<Seq<char>, CachedPrsView>::empty().dom() == Set::<Seq<char>>::empty());
}

/// Adding a repo brings the picker back over the new scan, narrowed by what was typed; where it
/// failed, the picker closes and the status bar tells why.
pub proof fn law_picker_comes_back(
    v: AppView,
    spaces: Seq<SpaceView>,
    pool: Seq<PoolRepoView>,
    report: Seq<char>,
    keep: Seq<char>,
)
    ensures
        ({
            let w = repo_added(v, Ok((spaces, pool)), keep);
            &&& repo_added(v, Err(report), keep) == AppView {
                status: Some(report),
                modal: ModalView::Closed,
                ..v
            }
            &&& w.spaces == spaces && w.pool == pool
            &&& spaces.len() > 0 && spaces.len() <= usize::MAX && pool.len() > 0 ==> {
                &&& w.modal is RepoPicker
                &&& w.modal->RepoPicker_filter == keep
                &&& w.modal->candidates == w.modal->all.filter(
                    |x: PickerItemView| holds_any_case(x.name, keep),
                )
                &&& w.modal->all.len() == pool.len()
                &&& stays_inside(row(0), w.modal->RepoPicker_state, w.modal->candidates.len())
            }
        }),
{
    let r = reloaded(v, spaces, pool);
    match space_chosen(v) {
        Some(s) => {
            lemma_space_found(spaces, s.name, 0);
        },
        None => {},
    }
    if spaces.len() > 0 && spaces.len() <= usize::MAX && pool.len() > 0 {
        let k = r.space_state.selected->0 as int;
        assert(0 <= k < spaces.len());
        let repos = spaces[k].repos;
        let all = picker_rows(pool, repos);
        law_sorting_keeps_members(
            pool.map_values(|p: PoolRepoView| picker_row(p, repos)),
            available_first(),
        );
        lemma_filtered(all, keep);
    }
}

proof fn lemma_space_found(spaces: Seq<SpaceView>, name: Seq<char>, i: int)
    requires
        0 <= i,
    ensures
        space_from(spaces, name, i) matches Some(k) ==> i <= k < spaces.len(),
    decreases spaces.len() - i,
{
    if i < spaces.len() {
        lemma_space_found(spaces, name, i + 1);
    }
}

/// Removing a member leaves its list where no member is left; a failure is told.
pub proof fn law_last_member_gone(
    v: AppView,
    failure: Option<Seq<char>>,
    spaces: Seq<SpaceView>,
    pool: Seq<PoolRepoView>,
    k: int,
)
    ensures
        ({
            let w = repo_removed(v, failure, spaces, pool);
            &&& w.spaces == spaces && w.pool == pool && w.modal == v.modal
            &&& failure is Some ==> w.status == failure
            &&& failure is None ==> w.status == v.status
            &&& w.space_state == row(k) && 0 <= k < spaces.len() <= usize::MAX
                && spaces[k].repos.len() > 0 ==> w.pane == v.pane
            &&& w.space_state == row(k) && 0 <= k < spaces.len() <= usize::MAX
                && spaces[k].repos.len() == 0 ==> w.pane == Pane::Spaces
            &&& spaces.len() == 0 ==> w.pane == Pane::Spaces
        }),
{
}

// ---- pulling -------------------------------------------------------------------------------------

/// `p` pulls every member of the selected space, each in its own directory, those that are no
/// repos marked; not where a pull is running, and not where there is nothing to pull.
pub proof fn law_pull_takes_every_member(v: AppView, k: int, i: int, ctrl: bool)
    requires
        v.modal is Closed,
    ensures
        v.pull_active ==> key_step(v, Key::Char('p'), ctrl) == (
            saying(v, "a pull is already running"@),
            EffectView::Nothing,
        ),
        !v.pull_active && v.spaces.len() == 0 ==> key_step(v, Key::Char('p'), ctrl) == (
            saying(v, "no space selected"@),
            EffectView::Nothing,
        ),
        !v.pull_active && on_space(v, k) && v.spaces[k].repos.len() == 0 ==> key_step(
            v,
            Key::Char('p'),
            ctrl,
        ) == (saying(v, "space has no repos"@), EffectView::Nothing),
        !v.pull_active && on_space(v, k) && 0 < v.spaces[k].repos.len() <= usize::MAX ==> ({
            let s = v.spaces[k];
            let (w, effect) = key_step(v, Key::Char('p'), ctrl);
            &&& w == AppView {
                pull_active: true,
                pull_space: s.name,
                pull_total: w.pull_total,
                pull_results: Seq::empty(),
                ..silent(v)
            }
            &&& w.pull_total == s.repos.len()
            &&& effect matches EffectView::Ask { request: RequestView::Pull { jobs } }
                && jobs.len() == s.repos.len() && (0 <= i < s.repos.len() ==> jobs[i] == (
            PullJobView {
                repo: s.repos[i].name,
                dir: joined_path(s.path, s.repos[i].name),
                foreign: s.repos[i].state is Foreign,
            }))
        }),
{
}

proof fn lemma_outcomes_add(a: Seq<PullMsg>, b: Seq<PullMsg>)
    ensures
        outcomes(a + b) == outcomes(a) + outcomes(b),
    decreases b.len(),
{
    if b.len() == 0 {
        assert(a + b == a);
    } else {
        assert((a + b).drop_last() == a + b.drop_last());
        lemma_outcomes_add(a, b.drop_last());
    }
}

/// The outcomes of a pull are gathered in the order in which they come, one for each member;
/// when it is done they are all shown, under the name of the space, and no pull is running.
/// Hearing of them at once or bit by bit comes to the same.
pub proof fn law_pull_gathers_outcomes(v: AppView, msgs: Seq<PullMsg>, more: Seq<PullMsg>)
    ensures
        !v.pull_active ==> pull_polled(v, msgs) == v,
        v.pull_active && msgs.len() == 1 ==> (msgs[0] matches PullMsg::One { repo, result }
            ==> pull_polled(v, msgs) == AppView {
            pull_results: v.pull_results.push((repo@, reply_view(result))),
            ..v
        }),
        v.pull_active ==> pull_polled(v, seq![PullMsg::Done]) == (AppView {
            pull_active: false,
            pull_space: Seq::empty(),
            pull_results: Seq::empty(),
            modal: ModalView::PullResults { space: v.pull_space, results: v.pull_results },
            ..v
        }),
        pull_polled(v, Seq::empty()) == v,
        !msgs.contains(PullMsg::Done) ==> pull_polled(pull_polled(v, msgs), more) == pull_polled(
            v,
            msgs + more,
        ),
{
    assert(seq![PullMsg::Done].contains(PullMsg::Done)) by {
        assert(seq![PullMsg::Done][0] == PullMsg::Done);
    }
    assert(seq![PullMsg::Done].drop_last() == Seq::<PullMsg>::empty());
    assert(outcomes(Seq::<PullMsg>::empty()).len() == 0);
    assert(v.pull_results + outcomes(seq![PullMsg::Done]) == v.pull_results);
    assert(v.pull_results + outcomes(Seq::<PullMsg>::empty()) == v.pull_results);
    if msgs.len() == 1 {
        assert(msgs.drop_last() == Seq::<PullMsg>::empty());
        match msgs[0] {
            PullMsg::One { repo, result } => {
                assert(!msgs.contains(PullMsg::Done));
                assert(v.pull_results + outcomes(msgs) == v.pull_results.push(
                    (repo@, reply_view(result)),
                ));
            },
            _ => {},
        }
    }
    if !msgs.contains(PullMsg::Done) {
        lemma_outcomes_add(msgs, more);
        assert((msgs + more).contains(PullMsg::Done) <==> more.contains(PullMsg::Done)) by {
            if more.contains(PullMsg::Done) {
                let i = choose|i: int| 0 <= i < more.len() && more[i] == PullMsg::Done;
                assert((msgs + more)[msgs.len() + i] == PullMsg::Done);
            }
            if (msgs + more).contains(PullMsg::Done) {
                let i = choose|i: int|
                    0 <= i < (msgs + more).len() && (msgs + more)[i] == PullMsg::Done;
                if i < msgs.len() {
                    assert(msgs[i] == PullMsg::Done);
                } else {
                    assert(more[i - msgs.len()] == PullMsg::Done);
                }
            }
        }
        assert(v.pull_results + outcomes(msgs) + outcomes(more) == v.pull_results + (outcomes(msgs)
            + outcomes(more)));
    }
}

// ---- pull requests -------------------------------------------------------------------------------

/// What is known of pull requests after a list came in: what was known before, and of the other
/// branches just those of the list.
pub proof fn law_known_branches(
    prs: Map<Seq<char>, PrInfoView>,
    list: Seq<(Seq<char>, PrInfoView)>,
    branch: Seq<char>,
)
    ensures
        first_wins(prs, list).contains_key(branch) <==> prs.contains_key(branch) || exists|i: int|
            0 <= i < list.len() && (#[trigger] list[i]).0 == branch,
    decreases list.len(),
{
    if list.len() > 0 {
        let front = list.drop_last();
        law_known_branches(prs, front, branch);
        if exists|i: int| 0 <= i < front.len() && (#[trigger] front[i]).0 == branch {
            let i = choose|i: int| 0 <= i < front.len() && (#[trigger] front[i]).0 == branch;
            assert(list[i].0 == branch);
        }
        if exists|i: int| 0 <= i < list.len() && (#[trigger] list[i]).0 == branch {
            let i = choose|i: int| 0 <= i < list.len() && (#[trigger] list[i]).0 == branch;
            if i < front.len() {
                assert(front[i].0 == branch);
            }
        }
        if list.last().0 == branch {
            assert(list[list.len() - 1].0 == branch);
        }
    }
}

/// A stack opens on its first branch. Its pull requests are asked for, by the name of the repo
/// on GitHub; unless there is no such name, or they came in less than a minute ago: then what
/// came in is shown. Where there is no stack, the status bar tells why.
pub proof fn law_stack_opens(
    v: AppView,
    repo: Seq<char>,
    dir: Seq<char>,
    stack: StackView,
    report: Seq<char>,
    clock: u64,
)
    ensures
        ({
            let open = stack_opened(v, repo, dir, Ok(stack), clock);
            let recent = stack.slug is Some && v.pr_cache.contains_key(stack.slug->0) && clock
                - v.pr_cache[stack.slug->0].at < 60 * 1_000_000_000;
            let shown = |prs: Map<Seq<char>, PrInfoView>, prs_loading: bool|
                ModalView::Stack { repo, dir, stack, prs, prs_loading, state: row(0) };
            &&& stack_opened(v, repo, dir, Err(report), clock) == (
                AppView { status: Some(report), ..v },
                None::<Seq<char>>,
            )
            &&& stack.slug is None ==> open == (
                AppView { modal: shown(Map::empty(), false), ..v },
                None::<Seq<char>>,
            )
            &&& recent ==> open == (
                AppView {
                    modal: shown(first_wins(Map::empty(), v.pr_cache[stack.slug->0].list), false),
                    ..v
                },
                None::<Seq<char>>,
            )
            &&& stack.slug is Some && !recent ==> open == (
                AppView { pr_wait: stack.slug, modal: shown(Map::empty(), true), ..v },
                stack.slug,
            )
        }),
{
}

/// Pull requests that came in are kept under the name they were asked for by, and a stack of that
/// name that is opened within a minute shows them without asking again.
pub proof fn law_pull_requests_are_kept(
    v: AppView,
    list: Seq<(Seq<char>, PrInfoView)>,
    at: u64,
    repo: Seq<char>,
    dir: Seq<char>,
    stack: StackView,
    clock: u64,
)
    requires
        v.pr_wait is Some,
        stack.slug == v.pr_wait,
        clock - at < 60 * 1_000_000_000,
    ensures
        ({
            let w = prs_polled(v, Some(list), at);
            let open = stack_opened(w, repo, dir, Ok(stack), clock);
            &&& w.pr_wait is None
            &&& open.1 is None
            &&& open.0.modal is Stack
            &&& open.0.modal->Stack_prs == first_wins(Map::empty(), list)
            &&& !open.0.modal->prs_loading
        }),
{
}

/// When pull requests come in, an open stack shows them and waits no more; what was kept under
/// other names stays. Where none could be had, only the waiting ends. Nothing comes in unasked.
pub proof fn law_pull_requests_come_in(
    v: AppView,
    list: Seq<(Seq<char>, PrInfoView)>,
    at: u64,
    other: Seq<char>,
)
    ensures
        ({
            let w = prs_polled(v, Some(list), at);
            let none = prs_polled(v, None, at);
            &&& v.pr_wait is None ==> w == v && none == v
            &&& v.pr_wait is Some ==> none.pr_wait is None && none.pr_cache == v.pr_cache
            &&& v.pr_wait is Some && other != v.pr_wait->0 && v.pr_cache.contains_key(other)
                ==> w.pr_cache.contains_key(other) && w.pr_cache[other] == v.pr_cache[other]
            &&& v.pr_wait is Some && v.modal is Stack ==> {
                &&& w.modal is Stack && none.modal is Stack
                &&& w.modal->Stack_prs == first_wins(v.modal->Stack_prs, list)
                &&& none.modal->Stack_prs == v.modal->Stack_prs
                &&& !w.modal->prs_loading && !none.modal->prs_loading
                &&& w.modal->Stack_repo == v.modal->Stack_repo && w.modal->Stack_dir
                    == v.modal->Stack_dir && w.modal->stack == v.modal->stack
                    && w.modal->Stack_state == v.modal->Stack_state
            }
            &&& v.pr_wait is Some && !(v.modal is Stack) ==> w.modal == v.modal && none.modal
                == v.modal
        }),
{
}

/// A session that comes in leaves everything but the sessions as it is, and an open search where
/// it stands.
pub proof fn law_sessions_come_quietly(v: AppView, s: SessionView)
    ensures
        ({
            let w = session_added(v, s);
            &&& w == AppView { sessions: w.sessions, modal: w.modal, ..v }
            &&& !(v.modal is ConvoSearch) ==> w.modal == v.modal
            &&& v.modal is ConvoSearch ==> w.modal is ConvoSearch && w.modal->ConvoSearch_filter
                == v.modal->ConvoSearch_filter && w.modal->ConvoSearch_state
                == v.modal->ConvoSearch_state && w.modal->preview_scroll == v.modal->preview_scroll
        }),
{
}

} // verus!
