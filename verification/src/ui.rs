//! What the screen shows: texts, their looks, and where boxes go.
//!
//! Rows are lists of pieces of text, each with its look; drawing them is left to the
//! terminal side.

use crate::app::{
    chosen, convos, held_in, law_rows_are_exact, rows, space_chosen, App, AppView, InputKind,
    ListState, Pane, PickerItem, PickerItemView, RepoConfirm,
};
use crate::data::{
    age_text, backend_label, humanize_since, Backend, Message, MessageView, Session, SessionView,
};
use crate::names::{AgentNames, AgentNamesView, CODEX_PROGRAM};
use crate::space::{
    plural, reply_view, RepoState, RepoStateView, Space, SpaceRepo, SpaceRepoView, SpaceView,
};
use crate::stack::{PrInfo, PrInfoView, Stack, StackEntry, StackEntryView, StackView};
use crate::text::{
    begins, begins_char, blanks, cat, cat3, cat4, cat5, clip, decimal, decimal_of, fill, filled,
    has_prefix, join, joined, lines, lines_of, lowercase, repeat, repeated, same, space_run,
    strip_prefix, to_lower,
};
use vstd::hash_map::StringHashMap;
use vstd::prelude::*;

verus! {

// ---- pieces -----------------------------------------------------------------------------------

/// A color of the terminal.
#[derive(PartialEq, Eq, Clone, Copy, Debug, Structural)]
pub enum Hue {
    /// The terminal's own.
    Default,
    Gray,
    DarkGray,
    Red,
    Green,
    Yellow,
    Magenta,
    Cyan,
}

/// How a piece of text looks.
#[derive(PartialEq, Eq, Clone, Copy, Debug, Structural)]
pub struct Face {
    pub hue: Hue,
    pub bold: bool,
    pub italic: bool,
}

/// A text in one look.
#[derive(Clone, Debug)]
pub struct Piece {
    pub text: String,
    pub face: Face,
}

/// A piece over text.
#[verifier::ext_equal]
pub struct PieceView {
    pub text: Seq<char>,
    pub face: Face,
}

impl DeepView for Piece {
    type V = PieceView;

    open spec fn deep_view(&self) -> PieceView {
        PieceView { text: self.text@, face: self.face }
    }
}

/// The look of plain text in a color.
pub open spec fn hued(hue: Hue) -> Face {
    Face { hue, bold: false, italic: false }
}

/// The look of bold text in a color.
pub open spec fn bolded(hue: Hue) -> Face {
    Face { hue, bold: true, italic: false }
}

/// A piece of plain text.
pub open spec fn raw(text: Seq<char>) -> PieceView {
    PieceView { text, face: hued(Hue::Default) }
}

/// A piece of dim text.
pub open spec fn dim(text: Seq<char>) -> PieceView {
    PieceView { text, face: hued(Hue::DarkGray) }
}

/// A piece of text in a color.
pub open spec fn tinted(text: Seq<char>, hue: Hue) -> PieceView {
    PieceView { text, face: hued(hue) }
}

/// A piece of bold text in a color.
pub open spec fn strong(text: Seq<char>, hue: Hue) -> PieceView {
    PieceView { text, face: bolded(hue) }
}

fn hue(h: Hue) -> (r: Face)
    ensures
        r == hued(h),
{
    Face { hue: h, bold: false, italic: false }
}

fn bold(h: Hue) -> (r: Face)
    ensures
        r == bolded(h),
{
    Face { hue: h, bold: true, italic: false }
}

fn lit(text: &str, face: Face) -> (r: Piece)
    ensures
        r.deep_view() == (PieceView { text: text@, face }),
{
    Piece { text: text.to_owned(), face }
}

fn piece(text: String, face: Face) -> (r: Piece)
    ensures
        r.deep_view() == (PieceView { text: text@, face }),
{
    Piece { text, face }
}

fn row0() -> (r: Vec<Piece>)
    ensures
        r.deep_view() == Seq::<PieceView>::empty(),
{
    let r: Vec<Piece> = Vec::new();
    assert(r.deep_view() == Seq::<PieceView>::empty());
    r
}

fn row1(a: Piece) -> (r: Vec<Piece>)
    ensures
        r.deep_view() == seq![a.deep_view()],
{
    let r = vec![a];
    assert(r.deep_view() == seq![a.deep_view()]);
    r
}

fn row2(a: Piece, b: Piece) -> (r: Vec<Piece>)
    ensures
        r.deep_view() == seq![a.deep_view(), b.deep_view()],
{
    let r = vec![a, b];
    assert(r.deep_view() == seq![a.deep_view(), b.deep_view()]);
    r
}

fn row3(a: Piece, b: Piece, c: Piece) -> (r: Vec<Piece>)
    ensures
        r.deep_view() == seq![a.deep_view(), b.deep_view(), c.deep_view()],
{
    let r = vec![a, b, c];
    assert(r.deep_view() == seq![a.deep_view(), b.deep_view(), c.deep_view()]);
    r
}

fn row4(a: Piece, b: Piece, c: Piece, d: Piece) -> (r: Vec<Piece>)
    ensures
        r.deep_view() == seq![a.deep_view(), b.deep_view(), c.deep_view(), d.deep_view()],
{
    let r = vec![a, b, c, d];
    assert(r.deep_view() == seq![a.deep_view(), b.deep_view(), c.deep_view(), d.deep_view()]);
    r
}

fn put(out: &mut Vec<Vec<Piece>>, row: Vec<Piece>)
    ensures
        final(out).deep_view() == old(out).deep_view().push(row.deep_view()),
{
    let ghost before = out.deep_view();
    out.push(row);
    assert(out.deep_view() == before.push(row.deep_view()));
}

fn no_rows() -> (r: Vec<Vec<Piece>>)
    ensures
        r.deep_view() == Seq::<Seq<PieceView>>::empty(),
{
    let r: Vec<Vec<Piece>> = Vec::new();
    assert(r.deep_view() == Seq::<Seq<PieceView>>::empty());
    r
}

// ---- text helpers -------------------------------------------------------------------------------

/// The color of an agent.
pub open spec fn agent_hue(b: Backend) -> Hue {
    match b {
        Backend::Claude => Hue::Magenta,
        Backend::Codex => Hue::Cyan,
    }
}

/// The color of an agent.
pub fn backend_color(b: Backend) -> (r: Hue)
    ensures
        r == agent_hue(b),
{
    match b {
        Backend::Claude => Hue::Magenta,
        Backend::Codex => Hue::Cyan,
    }
}

/// A path with the home directory it begins with written `~`.
pub open spec fn homely(path: Seq<char>, home: Option<Seq<char>>) -> Seq<char> {
    match home {
        Some(h) => if has_prefix(path, h) {
            "~"@ + path.skip(h.len() as int)
        } else {
            path
        },
        None => path,
    }
}

/// A path with the home directory it begins with written `~`.
pub fn shorten_home(path: &str, home: Option<&str>) -> (r: String)
    ensures
        r@ == homely(path@, home.deep_view()),
{
    match home {
        Some(h) => match strip_prefix(path, h) {
            Some(rest) => cat("~", rest.as_str()),
            None => path.to_owned(),
        },
        None => path.to_owned(),
    }
}

/// A text in a column of `width`: filled up with blanks, or cut with an ellipsis.
pub open spec fn padded(s: Seq<char>, width: nat) -> Seq<char> {
    if s.len() > width {
        s.take(
            if width > 0 {
                width - 1
            } else {
                0
            },
        ) + "…"@
    } else {
        s + blanks((width - s.len()) as nat)
    }
}

/// A text in a column of `width`: filled up with blanks, or cut with an ellipsis.
pub fn pad(s: &str, width: usize) -> (r: String)
    ensures
        r@ == padded(s@, width as nat),
{
    let count = s.unicode_len();
    if count > width {
        let keep: usize = if width > 0 {
            width - 1
        } else {
            0
        };
        let clipped = clip(s, keep);
        cat(clipped.as_str(), "…")
    } else {
        let gap = space_run(width - count);
        cat(s, gap.as_str())
    }
}

/// A text at the right of a column of `width`, cut where it is longer.
pub open spec fn padded_left(s: Seq<char>, width: nat) -> Seq<char> {
    if s.len() >= width {
        s.take(width as int)
    } else {
        blanks((width - s.len()) as nat) + s
    }
}

/// A text at the right of a column of `width`, cut where it is longer.
pub fn rpad(s: &str, width: usize) -> (r: String)
    ensures
        r@ == padded_left(s@, width as nat),
{
    let count = s.unicode_len();
    if count >= width {
        assert(s@.len() == width ==> s@.take(width as int) == s@);
        clip(s, width)
    } else {
        let gap = space_run(width - count);
        cat(gap.as_str(), s)
    }
}

/// A padded column is as wide as it says, unless it is no column at all.
pub proof fn law_columns_have_their_width(s: Seq<char>, width: nat)
    requires
        width > 0,
    ensures
        padded(s, width).len() == width,
        padded_left(s, width).len() == width,
{
    reveal_strlit("…");
}

/// A number of things, the noun in the singular where it is one.
pub open spec fn counted(n: nat, noun: Seq<char>) -> Seq<char> {
    decimal_of(n) + " "@ + noun + plural(n == 1)
}

fn count_text(n: usize, noun: &str) -> (r: String)
    ensures
        r@ == counted(n as nat, noun@),
{
    let num = decimal(n as u64);
    let ending = if n == 1 {
        String::new()
    } else {
        "s".to_owned()
    };
    cat4(num.as_str(), " ", noun, ending.as_str())
}

// ---- boxes ----------------------------------------------------------------------------------------

/// A rectangle of the screen.
#[derive(PartialEq, Eq, Clone, Copy, Debug, Structural)]
pub struct Area {
    pub x: u16,
    pub y: u16,
    pub width: u16,
    pub height: u16,
}

/// The extent of a centered box along one side: what is wanted, with a margin kept.
pub open spec fn fitted(want: u16, have: u16) -> u16 {
    let most: u16 = if have >= 2 {
        (have - 2) as u16
    } else {
        0
    };
    if want < most {
        want
    } else {
        most
    }
}

/// A box of the wanted size in the middle of an area.
pub open spec fn middle(w: u16, h: u16, r: Area) -> Area {
    Area {
        x: (r.x + (r.width - fitted(w, r.width)) / 2) as u16,
        y: (r.y + (r.height - fitted(h, r.height)) / 2) as u16,
        width: fitted(w, r.width),
        height: fitted(h, r.height),
    }
}

fn fit(want: u16, have: u16) -> (r: u16)
    ensures
        r == fitted(want, have),
        r <= have,
{
    let most: u16 = if have >= 2 {
        have - 2
    } else {
        0
    };
    if want < most {
        want
    } else {
        most
    }
}

/// A box of the wanted size in the middle of an area.
pub fn centered(w: u16, h: u16, r: Area) -> (a: Area)
    requires
        r.x + (r.width - fitted(w, r.width)) / 2 <= u16::MAX,
        r.y + (r.height - fitted(h, r.height)) / 2 <= u16::MAX,
    ensures
        a == middle(w, h, r),
{
    let width = fit(w, r.width);
    let height = fit(h, r.height);
    Area { x: r.x + (r.width - width) / 2, y: r.y + (r.height - height) / 2, width, height }
}

/// Whether percentages of an area's sides can be taken.
pub open spec fn can_take(wp: u16, hp: u16, r: Area) -> bool {
    r.width * wp <= u16::MAX && r.height * hp <= u16::MAX
}

/// A box of the wanted share of an area, in its middle.
pub fn centered_pct(wp: u16, hp: u16, r: Area) -> (a: Area)
    requires
        can_take(wp, hp, r),
        r.x + r.width <= u16::MAX,
        r.y + r.height <= u16::MAX,
    ensures
        a == middle((r.width * wp / 100) as u16, (r.height * hp / 100) as u16, r),
{
    let w = r.width * wp / 100;
    let h = r.height * hp / 100;
    centered(w, h, r)
}

/// A centered box lies inside its area, with a margin where there is room for one.
pub proof fn law_centered_box_lies_inside(w: u16, h: u16, r: Area)
    requires
        r.x + r.width <= u16::MAX,
        r.y + r.height <= u16::MAX,
    ensures
        ({
            let a = middle(w, h, r);
            &&& r.x <= a.x && a.x + a.width <= r.x + r.width
            &&& r.y <= a.y && a.y + a.height <= r.y + r.height
            &&& r.width >= 2 ==> r.x < a.x && a.x + a.width < r.x + r.width
            &&& r.height >= 2 ==> r.y < a.y && a.y + a.height < r.y + r.height
        }),
{
}

// ---- rows of the panes --------------------------------------------------------------------------------

/// The row of a space.
pub open spec fn space_row(s: SpaceView) -> Seq<PieceView> {
    seq![strong(s.name, Hue::Default), dim("  "@ + counted(s.repos.len(), "repo"@))]
}

fn make_space_row(s: &Space) -> (r: Vec<Piece>)
    ensures
        r.deep_view() == space_row(s.deep_view()),
{
    let n = s.repos.len();
    let count = count_text(n, "repo");
    assert(s.repos.deep_view().len() == n);
    row2(
        piece(s.name.clone(), bold(Hue::Default)),
        piece(cat("  ", count.as_str()), hue(Hue::DarkGray)),
    )
}

/// The row of a member.
pub open spec fn repo_row(r: SpaceRepoView) -> Seq<PieceView> {
    let state = match r.state {
        RepoStateView::Symlink => dim("-> repos/"@),
        RepoStateView::Worktree { branch } => tinted(" "@ + branch, Hue::Green),
        RepoStateView::Foreign => tinted("(unmanaged)"@, Hue::Red),
    };
    seq![strong(filled(r.name, 28), Hue::Default), state]
}

fn make_repo_row(r: &SpaceRepo) -> (row: Vec<Piece>)
    ensures
        row.deep_view() == repo_row(r.deep_view()),
{
    let state = match &r.state {
        RepoState::Symlink => lit("-> repos/", hue(Hue::DarkGray)),
        RepoState::Worktree { branch } => piece(cat(" ", branch.as_str()), hue(Hue::Green)),
        RepoState::Foreign => lit("(unmanaged)", hue(Hue::Red)),
    };
    row2(piece(fill(r.name.as_str(), 28), bold(Hue::Default)), state)
}

/// Whether the age of a session can be told: the difference of the times fits the machine.
pub open spec fn has_age(s: SessionView, now: i64) -> bool {
    s.last_activity <= 0 || i64::MIN <= now - s.last_activity
}

/// The width of the title in a row of `width`: what the columns around it leave, at least
/// `least`.
pub open spec fn title_width(width: nat, others: nat, least: nat) -> nat {
    if width >= others + least {
        (width - others) as nat
    } else {
        least
    }
}

/// The row of a conversation: its agent, its title, its age.
pub open spec fn convo_row(
    s: SessionView,
    now: i64,
    width: nat,
    names: AgentNamesView,
) -> Seq<PieceView> {
    seq![
        tinted(padded(backend_label(s.backend, names), 7), agent_hue(s.backend)),
        raw(padded(s.title, title_width(width, 18, 10))),
        dim(padded_left(age_text(s.last_activity as int, now as int), 9)),
    ]
}

/// The row of a conversation: its agent, its title, its age.
pub fn session_row(s: &Session, now: i64, width: usize, names: &AgentNames) -> (r: Vec<Piece>)
    requires
        has_age(s.deep_view(), now),
    ensures
        r.deep_view() == convo_row(s.deep_view(), now, width as nat, names.deep_view()),
{
    let title_w: usize = if width >= 28 {
        width - 18
    } else {
        10
    };
    let age = humanize_since(s.last_activity, now);
    row3(
        piece(pad(s.backend.label(names), 7), hue(backend_color(s.backend))),
        piece(pad(s.title.as_str(), title_w), hue(Hue::Default)),
        piece(rpad(age.as_str(), 9), hue(Hue::DarkGray)),
    )
}

/// The row of a search result: its agent, its space, its title.
pub open spec fn result_row(s: SessionView, width: nat, names: AgentNamesView) -> Seq<PieceView> {
    seq![
        tinted(padded(backend_label(s.backend, names), 7), agent_hue(s.backend)),
        tinted(padded(s.space, 10), Hue::Yellow),
        raw(padded(s.title, title_width(width, 18, 8))),
    ]
}

/// The row of a search result: its agent, its space, its title.
pub fn search_row(s: &Session, width: usize, names: &AgentNames) -> (r: Vec<Piece>)
    ensures
        r.deep_view() == result_row(s.deep_view(), width as nat, names.deep_view()),
{
    let title_w: usize = if width >= 26 {
        width - 18
    } else {
        8
    };
    row3(
        piece(pad(s.backend.label(names), 7), hue(backend_color(s.backend))),
        piece(pad(s.space.as_str(), 10), hue(Hue::Yellow)),
        piece(pad(s.title.as_str(), title_w), hue(Hue::Default)),
    )
}

// ---- the panes ----------------------------------------------------------------------------------------

/// What a pane or a box shows.
pub enum Body {
    /// Nothing.
    Blank,
    /// Lines of text.
    Lines { rows: Vec<Vec<Piece>> },
    /// Lines of text with room around them.
    Roomy { rows: Vec<Vec<Piece>> },
    /// A list, one row of it selected.
    List { rows: Vec<Vec<Piece>> },
}

/// The body of a pane over text.
#[verifier::ext_equal]
pub enum BodyView {
    Blank,
    Lines { rows: Seq<Seq<PieceView>> },
    Roomy { rows: Seq<Seq<PieceView>> },
    List { rows: Seq<Seq<PieceView>> },
}

impl DeepView for Body {
    type V = BodyView;

    open spec fn deep_view(&self) -> BodyView {
        match self {
            Body::Blank => BodyView::Blank,
            Body::Lines { rows } => BodyView::Lines { rows: rows.deep_view() },
            Body::Roomy { rows } => BodyView::Roomy { rows: rows.deep_view() },
            Body::List { rows } => BodyView::List { rows: rows.deep_view() },
        }
    }
}

/// A pane: its title, whether it has the focus, and what it shows.
pub struct PaneModel {
    pub title: String,
    pub focused: bool,
    pub body: Body,
}

/// A pane over text.
#[verifier::ext_equal]
pub struct PaneView {
    pub title: Seq<char>,
    pub focused: bool,
    pub body: BodyView,
}

impl DeepView for PaneModel {
    type V = PaneView;

    open spec fn deep_view(&self) -> PaneView {
        PaneView { title: self.title@, focused: self.focused, body: self.body.deep_view() }
    }
}

/// An invitation: what is missing, and the key that mends it.
pub open spec fn invitation(what: Seq<char>, key: Seq<char>, how: Seq<char>) -> Seq<
    Seq<PieceView>,
> {
    seq![
        Seq::empty(),
        seq![dim(what)],
        Seq::empty(),
        seq![raw("  press "@), strong(key, Hue::Yellow), raw(how)],
    ]
}

fn invite(what: &str, key: &str, how: &str) -> (r: Vec<Vec<Piece>>)
    ensures
        r.deep_view() == invitation(what@, key@, how@),
{
    let mut out = no_rows();
    put(&mut out, row0());
    put(&mut out, row1(lit(what, hue(Hue::DarkGray))));
    put(&mut out, row0());
    put(
        &mut out,
        row3(
            lit("  press ", hue(Hue::Default)),
            lit(key, bold(Hue::Yellow)),
            lit(how, hue(Hue::Default)),
        ),
    );
    assert(out.deep_view() == invitation(what@, key@, how@));
    out
}

/// The pane of spaces.
pub open spec fn spaces_shown(v: AppView) -> PaneView {
    PaneView {
        title: " spaces ("@ + decimal_of(v.spaces.len()) + ") "@,
        focused: v.pane == Pane::Spaces,
        body: if v.spaces.len() == 0 {
            BodyView::Lines { rows: invitation("  no spaces yet"@, "n"@, " to create one"@) }
        } else {
            BodyView::List { rows: v.spaces.map_values(|s: SpaceView| space_row(s)) }
        },
    }
}

/// The pane of spaces.
pub fn space_pane(app: &App) -> (r: PaneModel)
    ensures
        r.deep_view() == spaces_shown(app.deep_view()),
{
    let n = decimal(app.spaces.len() as u64);
    let title = cat3(" spaces (", n.as_str(), ") ");
    let focused = app.pane == Pane::Spaces;
    assert(app.spaces.deep_view().len() == app.spaces@.len());
    if app.spaces.len() == 0 {
        let body = Body::Lines { rows: invite("  no spaces yet", "n", " to create one") };
        return PaneModel { title, focused, body };
    }
    let ghost want = app.spaces.deep_view().map_values(|s: SpaceView| space_row(s));
    let mut out = no_rows();
    for i in 0..app.spaces.len()
        invariant
            want == app.spaces.deep_view().map_values(|s: SpaceView| space_row(s)),
            out.deep_view() == want.take(i as int),
    {
        assert(app.spaces.deep_view()[i as int] == app.spaces@[i as int].deep_view());
        put(&mut out, make_space_row(&app.spaces[i]));
        assert(want.take(i + 1) == want.take(i as int).push(want[i as int]));
    }
    assert(want.take(app.spaces@.len() as int) == want);
    PaneModel { title, focused, body: Body::List { rows: out } }
}

/// The pane of members.
pub open spec fn repos_shown(v: AppView) -> PaneView {
    PaneView {
        title: match space_chosen(v) {
            Some(s) => " repos in "@ + s.name + " "@,
            None => " repos "@,
        },
        focused: v.pane == Pane::Repos,
        body: match space_chosen(v) {
            Some(s) => if s.repos.len() == 0 {
                BodyView::Lines {
                    rows: invitation(
                        "  empty space"@,
                        "a"@,
                        " to add a repo from ~/Desktop/repos"@,
                    ),
                }
            } else {
                BodyView::List { rows: s.repos.map_values(|r: SpaceRepoView| repo_row(r)) }
            },
            None => BodyView::Blank,
        },
    }
}

/// The pane of members.
pub fn repo_pane(app: &App) -> (r: PaneModel)
    ensures
        r.deep_view() == repos_shown(app.deep_view()),
{
    let focused = app.pane == Pane::Repos;
    let space = match app.selected_space() {
        Some(s) => s,
        None => {
            return PaneModel { title: " repos ".to_owned(), focused, body: Body::Blank };
        },
    };
    let title = cat3(" repos in ", space.name.as_str(), " ");
    assert(space.repos.deep_view().len() == space.repos@.len());
    if space.repos.len() == 0 {
        let body = Body::Lines {
            rows: invite("  empty space", "a", " to add a repo from ~/Desktop/repos"),
        };
        return PaneModel { title, focused, body };
    }
    let ghost want = space.repos.deep_view().map_values(|r: SpaceRepoView| repo_row(r));
    let mut out = no_rows();
    for i in 0..space.repos.len()
        invariant
            want == space.repos.deep_view().map_values(|r: SpaceRepoView| repo_row(r)),
            out.deep_view() == want.take(i as int),
    {
        assert(space.repos.deep_view()[i as int] == space.repos@[i as int].deep_view());
        put(&mut out, make_repo_row(&space.repos[i]));
        assert(want.take(i + 1) == want.take(i as int).push(want[i as int]));
    }
    assert(want.take(space.repos@.len() as int) == want);
    PaneModel { title, focused, body: Body::List { rows: out } }
}

/// Whether the age of every session can be told.
pub open spec fn have_ages(sessions: Seq<SessionView>, now: i64) -> bool {
    forall|i: int| 0 <= i < sessions.len() ==> has_age(#[trigger] sessions[i], now)
}

/// The pane of conversations, `width` wide inside.
pub open spec fn convos_shown(v: AppView, width: nat) -> PaneView {
    let found = convos(v);
    PaneView {
        title: match space_chosen(v) {
            Some(s) => " conversations in "@ + s.name + " "@,
            None => " conversations "@,
        },
        focused: v.pane == Pane::Convos,
        body: match space_chosen(v) {
            Some(s) => if found.len() == 0 {
                BodyView::Roomy {
                    rows: seq![
                        seq![
                            dim(
                                if v.loading {
                                    "loading"@
                                } else {
                                    "none yet (c starts "@ + v.names.program + " here, o "@
                                        + CODEX_PROGRAM@ + ", / searches everywhere)"@
                                },
                            ),
                        ],
                    ],
                }
            } else {
                BodyView::List {
                    rows: found.map_values(
                        |i: usize| convo_row(v.sessions[i as int], v.now, width, v.names),
                    ),
                }
            },
            None => BodyView::Blank,
        },
    }
}

/// The pane of conversations, `width` wide inside.
pub fn convo_pane(app: &App, width: usize) -> (r: PaneModel)
    requires
        have_ages(app.deep_view().sessions, app.now),
    ensures
        r.deep_view() == convos_shown(app.deep_view(), width as nat),
{
    let focused = app.pane == Pane::Convos;
    let ghost v = app.deep_view();
    let space = match app.selected_space() {
        Some(s) => s,
        None => {
            return PaneModel { title: " conversations ".to_owned(), focused, body: Body::Blank };
        },
    };
    let title = cat3(" conversations in ", space.name.as_str(), " ");
    let found = app.space_session_indices(space);
    if found.len() == 0 {
        let msg = if app.loading {
            "loading".to_owned()
        } else {
            cat5(
                "none yet (c starts ",
                app.names.program.as_str(),
                " here, o ",
                CODEX_PROGRAM,
                ", / searches everywhere)",
            )
        };
        let mut out = no_rows();
        put(&mut out, row1(lit(msg.as_str(), hue(Hue::DarkGray))));
        assert(out.deep_view() == seq![seq![dim(msg@)]]);
        return PaneModel { title, focused, body: Body::Roomy { rows: out } };
    }
    let ghost want = found@.map_values(
        |i: usize| convo_row(v.sessions[i as int], v.now, width as nat, v.names),
    );
    let mut out = no_rows();
    let n = app.sessions.len();
    for k in 0..found.len()
        invariant
            v == app.deep_view(),
            n == app.sessions@.len(),
            have_ages(v.sessions, app.now),
            found@ == rows(v.sessions, held_in(space.path@)),
            want == found@.map_values(
                |i: usize| convo_row(v.sessions[i as int], v.now, width as nat, v.names),
            ),
            out.deep_view() == want.take(k as int),
    {
        let i = found[k];
        proof {
            assert(v.sessions.len() == n);
            law_rows_are_exact(v.sessions, held_in(space.path@), i);
            assert(found@.contains(found@[k as int]));
            assert(v.sessions[i as int] == app.sessions@[i as int].deep_view());
        }
        put(&mut out, session_row(&app.sessions[i], app.now, width, &app.names));
        assert(want.take(k + 1) == want.take(k as int).push(want[k as int]));
    }
    assert(want.take(found@.len() as int) == want);
    PaneModel { title, focused, body: Body::List { rows: out } }
}

// ---- the preview of a conversation ----------------------------------------------------------------------

/// Chat-style preview: role-colored headers, long messages clipped so one
/// giant prompt doesn't drown the pane.
pub const PREVIEW_MSG_MAX_LINES: usize = 14;

/// What the author of a message is called.
pub open spec fn author(role: Seq<char>) -> Seq<char> {
    if role == "user"@ {
        "you"@
    } else if role == "assistant"@ {
        "agent"@
    } else {
        role
    }
}

/// The color of the author of a message.
pub open spec fn author_hue(role: Seq<char>, b: Backend) -> Hue {
    if role == "user"@ {
        Hue::Green
    } else if role == "assistant"@ {
        agent_hue(b)
    } else {
        Hue::Gray
    }
}

/// The first lines of a message, indented; and how many more there are.
pub open spec fn body_rows(text: Seq<char>) -> Seq<Seq<PieceView>> {
    let all = lines_of(text);
    let shown = if all.len() > PREVIEW_MSG_MAX_LINES {
        all.take(PREVIEW_MSG_MAX_LINES as int)
    } else {
        all
    };
    let rows = shown.map_values(|l: Seq<char>| seq![raw("  "@ + l)]);
    if all.len() > PREVIEW_MSG_MAX_LINES {
        rows.push(
            seq![
                dim(
                    "  + "@ + decimal_of((all.len() - PREVIEW_MSG_MAX_LINES) as nat)
                        + " more lines"@,
                ),
            ],
        )
    } else {
        rows
    }
}

/// A message in the preview.
pub open spec fn message_rows(m: MessageView, b: Backend) -> Seq<Seq<PieceView>> {
    seq![seq![strong("● "@ + author(m.role), author_hue(m.role, b))]] + body_rows(m.text) + seq![
        Seq::<PieceView>::empty(),
    ]
}

/// The messages in the preview.
pub open spec fn all_message_rows(messages: Seq<MessageView>, b: Backend) -> Seq<Seq<PieceView>>
    decreases messages.len(),
{
    if messages.len() == 0 {
        Seq::empty()
    } else {
        all_message_rows(messages.drop_last(), b) + message_rows(messages.last(), b)
    }
}

/// The preview of a conversation: its title, where it was held, its messages.
pub open spec fn preview(
    s: SessionView,
    home: Option<Seq<char>>,
    names: AgentNamesView,
) -> Seq<Seq<PieceView>> {
    seq![
        seq![strong(s.title, Hue::Default)],
        seq![
            tinted(backend_label(s.backend, names) + "  "@, agent_hue(s.backend)),
            dim(homely(s.cwd, home)),
            dim("  "@ + decimal_of(s.msg_count as nat) + " messages"@),
        ],
        seq![dim(repeated("─"@, 60))],
    ] + all_message_rows(s.messages, s.backend)
}

fn put_body(out: &mut Vec<Vec<Piece>>, text: &str)
    ensures
        final(out).deep_view() == old(out).deep_view() + body_rows(text@),
{
    let ghost start = out.deep_view();
    let all = lines(text);
    let ghost view = all.deep_view();
    let n = all.len();
    assert(view.len() == n);
    let shown: usize = if n > PREVIEW_MSG_MAX_LINES {
        PREVIEW_MSG_MAX_LINES
    } else {
        n
    };
    let ghost top = view.take(shown as int);
    assert(n <= PREVIEW_MSG_MAX_LINES ==> top == view);
    let ghost rows = top.map_values(|l: Seq<char>| seq![raw("  "@ + l)]);
    assert(start + rows.take(0) == start);
    for i in 0..shown
        invariant
            shown <= n,
            n == all@.len(),
            view == all.deep_view(),
            top == view.take(shown as int),
            rows == top.map_values(|l: Seq<char>| seq![raw("  "@ + l)]),
            out.deep_view() == start + rows.take(i as int),
    {
        let ghost before = out.deep_view();
        assert(top[i as int] == all@[i as int]@);
        put(out, row1(piece(cat("  ", all[i].as_str()), hue(Hue::Default))));
        assert(rows.take(i + 1) == rows.take(i as int).push(rows[i as int]));
        assert(start + rows.take(i + 1) == (start + rows.take(i as int)).push(rows[i as int]));
    }
    assert(rows.take(shown as int) == rows);
    if n > PREVIEW_MSG_MAX_LINES {
        let more = decimal((n - PREVIEW_MSG_MAX_LINES) as u64);
        let line = piece(cat3("  + ", more.as_str(), " more lines"), hue(Hue::DarkGray));
        let ghost last = seq![line.deep_view()];
        put(out, row1(line));
        assert((start + rows).push(last) == start + rows.push(last));
    }
    assert(out.deep_view() == start + body_rows(text@));
}

fn put_message(out: &mut Vec<Vec<Piece>>, m: &Message, b: Backend)
    ensures
        final(out).deep_view() == old(out).deep_view() + message_rows(m.deep_view(), b),
{
    let ghost start = out.deep_view();
    let role = m.role.as_str();
    let (label, color) = if same(role, "user") {
        ("you", Hue::Green)
    } else if same(role, "assistant") {
        ("agent", backend_color(b))
    } else {
        (role, Hue::Gray)
    };
    let head = piece(cat("● ", label), bold(color));
    let ghost first = seq![head.deep_view()];
    put(out, row1(head));
    put_body(out, m.text.as_str());
    put(out, row0());
    assert(out.deep_view() == start + (seq![first] + body_rows(m.text@) + seq![
        Seq::<PieceView>::empty(),
    ]));
}

/// The preview of a conversation.
pub fn preview_lines(s: &Session, home: Option<&str>, names: &AgentNames) -> (r: Vec<Vec<Piece>>)
    ensures
        r.deep_view() == preview(s.deep_view(), home.deep_view(), names.deep_view()),
{
    let ghost v = s.deep_view();
    let mut out = no_rows();
    put(&mut out, row1(piece(s.title.clone(), bold(Hue::Default))));
    let count = decimal(s.msg_count as u64);
    put(
        &mut out,
        row3(
            piece(cat(s.backend.label(names), "  "), hue(backend_color(s.backend))),
            piece(shorten_home(s.cwd.as_str(), home), hue(Hue::DarkGray)),
            piece(cat3("  ", count.as_str(), " messages"), hue(Hue::DarkGray)),
        ),
    );
    put(&mut out, row1(piece(repeat("─", 60), hue(Hue::DarkGray))));
    let ghost top = out.deep_view();
    let ghost all = v.messages;
    assert(all.take(0) == Seq::<MessageView>::empty());
    assert(top + all_message_rows(all.take(0), s.backend) == top);
    for i in 0..s.messages.len()
        invariant
            all == s.messages.deep_view(),
            out.deep_view() == top + all_message_rows(all.take(i as int), s.backend),
    {
        assert(all.take(i + 1).drop_last() == all.take(i as int));
        assert(all.take(i + 1).last() == s.messages@[i as int].deep_view());
        put_message(&mut out, &s.messages[i], s.backend);
        assert(out.deep_view() == top + (all_message_rows(all.take(i as int), s.backend)
            + message_rows(all[i as int], s.backend)));
    }
    assert(all.take(s.messages@.len() as int) == all);
    assert(out.deep_view() == preview(v, home.deep_view(), names.deep_view()));
    out
}

// ---- modals --------------------------------------------------------------------------------------------

/// A line that is typed into, with a cursor behind it.
pub open spec fn prompt(filter: Seq<char>) -> Seq<PieceView> {
    seq![tinted("> "@, Hue::Yellow), raw(filter), tinted("█"@, Hue::Yellow)]
}

fn make_prompt(filter: &str) -> (r: Vec<Piece>)
    ensures
        r.deep_view() == prompt(filter@),
{
    row3(
        lit("> ", hue(Hue::Yellow)),
        lit(filter, hue(Hue::Default)),
        lit("█", hue(Hue::Yellow)),
    )
}

/// A box over the panes.
pub struct Panel {
    pub title: String,
    pub border: Hue,
    pub width: u16,
    pub height: u16,
    pub rows: Vec<Vec<Piece>>,
}

/// A box over text.
#[verifier::ext_equal]
pub struct PanelView {
    pub title: Seq<char>,
    pub border: Hue,
    pub width: u16,
    pub height: u16,
    pub rows: Seq<Seq<PieceView>>,
}

impl DeepView for Panel {
    type V = PanelView;

    open spec fn deep_view(&self) -> PanelView {
        PanelView {
            title: self.title@,
            border: self.border,
            width: self.width,
            height: self.height,
            rows: self.rows.deep_view(),
        }
    }
}

/// The box in which a name is typed.
pub open spec fn input_shown(kind: InputKind, buffer: Seq<char>) -> PanelView {
    PanelView {
        title: match kind {
            InputKind::NewSpace => " new space "@,
            InputKind::Branch => " new branch "@,
        },
        border: Hue::Yellow,
        width: 50,
        height: 5,
        rows: seq![
            seq![raw(buffer), tinted("█"@, Hue::Yellow)],
            seq![
                dim(
                    match kind {
                        InputKind::NewSpace => "folder name under ~/Desktop"@,
                        InputKind::Branch => "branch for the worktree"@,
                    } + "  Enter confirm  Esc cancel"@,
                ),
            ],
        ],
    }
}

/// The box in which a name is typed.
pub fn input_panel(kind: InputKind, buffer: &str) -> (r: Panel)
    ensures
        r.deep_view() == input_shown(kind, buffer@),
{
    let (title, hint) = match kind {
        InputKind::NewSpace => (" new space ", "folder name under ~/Desktop"),
        InputKind::Branch => (" new branch ", "branch for the worktree"),
    };
    let mut out = no_rows();
    put(&mut out, row2(lit(buffer, hue(Hue::Default)), lit("█", hue(Hue::Yellow))));
    put(&mut out, row1(piece(cat(hint, "  Enter confirm  Esc cancel"), hue(Hue::DarkGray))));
    assert(out.deep_view() == input_shown(kind, buffer@).rows);
    Panel { title: title.to_owned(), border: Hue::Yellow, width: 50, height: 5, rows: out }
}

/// The height of a box around `n` rows: four more, at most `most`. The row count is taken
/// in sixteen bits.
pub open spec fn box_height(n: nat, most: u16) -> u16 {
    let h = n % 0x1_0000 + 4;
    if h < most {
        h as u16
    } else {
        most
    }
}

/// Whether the height of a box around `n` rows fits the machine.
pub open spec fn has_height(n: nat) -> bool {
    n % 0x1_0000 + 4 <= u16::MAX
}

fn make_height(n: usize, most: u16) -> (r: u16)
    requires
        has_height(n as nat),
    ensures
        r == box_height(n as nat, most),
{
    let h = (n % 0x1_0000) as u16 + 4;
    if h < most {
        h
    } else {
        most
    }
}

/// The row of a repo in the picker.
pub open spec fn pick_row(c: PickerItemView) -> Seq<PieceView> {
    if c.added {
        seq![
            dim(c.name),
            PieceView {
                text: "  (added)"@,
                face: Face { hue: Hue::DarkGray, bold: false, italic: true },
            },
        ]
    } else {
        seq![raw(c.name)]
    }
}

fn make_pick_row(c: &PickerItem) -> (r: Vec<Piece>)
    ensures
        r.deep_view() == pick_row(c.deep_view()),
{
    if c.added {
        row2(
            piece(c.name.clone(), hue(Hue::DarkGray)),
            lit("  (added)", Face { hue: Hue::DarkGray, bold: false, italic: true }),
        )
    } else {
        row1(piece(c.name.clone(), hue(Hue::Default)))
    }
}

/// How many rows the picker makes room for.
pub open spec fn picker_room(n: nat) -> nat {
    if n == 0 {
        1
    } else {
        n
    }
}

/// The head of the picker: the filter, and the keys.
pub open spec fn picker_shown(candidates: Seq<PickerItemView>, filter: Seq<char>) -> PanelView {
    PanelView {
        title: " add repo (from ~/Desktop/repos) "@,
        border: Hue::Yellow,
        width: 56,
        height: box_height(picker_room(candidates.len()), 18),
        rows: seq![
            prompt(filter),
            seq![dim("type to filter  ↑↓ move  Enter add  Esc close"@)],
        ],
    }
}

/// The list in the picker.
pub open spec fn picker_list(candidates: Seq<PickerItemView>) -> BodyView {
    if candidates.len() == 0 {
        BodyView::Lines { rows: seq![seq![dim("no match"@)]] }
    } else {
        BodyView::List { rows: candidates.map_values(|c: PickerItemView| pick_row(c)) }
    }
}

/// The picker: its head, and its list.
pub fn picker_panel(candidates: &Vec<PickerItem>, filter: &str) -> (r: (Panel, Body))
    requires
        has_height(picker_room(candidates@.len())),
    ensures
        r.0.deep_view() == picker_shown(candidates.deep_view(), filter@),
        r.1.deep_view() == picker_list(candidates.deep_view()),
{
    let n = candidates.len();
    assert(candidates.deep_view().len() == n);
    let height = make_height(
        if n == 0 {
            1
        } else {
            n
        },
        18,
    );
    let mut head = no_rows();
    put(&mut head, make_prompt(filter));
    put(
        &mut head,
        row1(lit("type to filter  ↑↓ move  Enter add  Esc close", hue(Hue::DarkGray))),
    );
    assert(head.deep_view() == picker_shown(candidates.deep_view(), filter@).rows);
    let panel = Panel {
        title: " add repo (from ~/Desktop/repos) ".to_owned(),
        border: Hue::Yellow,
        width: 56,
        height,
        rows: head,
    };
    let mut out = no_rows();
    if n == 0 {
        put(&mut out, row1(lit("no match", hue(Hue::DarkGray))));
        assert(out.deep_view() == seq![seq![dim("no match"@)]]);
        return (panel, Body::Lines { rows: out });
    }
    let ghost want = candidates.deep_view().map_values(|c: PickerItemView| pick_row(c));
    for i in 0..n
        invariant
            n == candidates@.len(),
            want == candidates.deep_view().map_values(|c: PickerItemView| pick_row(c)),
            out.deep_view() == want.take(i as int),
    {
        assert(candidates.deep_view()[i as int] == candidates@[i as int].deep_view());
        put(&mut out, make_pick_row(&candidates[i]));
        assert(want.take(i + 1) == want.take(i as int).push(want[i as int]));
    }
    assert(want.take(n as int) == want);
    (panel, Body::List { rows: out })
}

/// The title over the search results.
pub open spec fn search_title_of(n: nat) -> Seq<char> {
    " search conversations ("@ + decimal_of(n) + ") "@
}

/// What the search over conversations shows: the title, the prompt, the results, the keys,
/// and the preview of the selected result.
pub struct SearchModel {
    pub title: String,
    pub head: Vec<Vec<Piece>>,
    pub results: Vec<Vec<Piece>>,
    pub keys: Vec<Piece>,
    /// The preview; where nothing is selected, why.
    pub preview: Result<Vec<Vec<Piece>>, Vec<Piece>>,
}

/// The sessions at the given positions.
pub open spec fn sessions_at(sessions: Seq<SessionView>, matches: Seq<usize>) -> Seq<SessionView> {
    matches.map_values(|i: usize| sessions[i as int])
}

/// The search over conversations; `width` is how wide the results are. Every match is the
/// position of a session.
pub fn search_model(
    sessions: &Vec<Session>,
    loading: bool,
    filter: &str,
    matches: &Vec<usize>,
    state: ListState,
    width: usize,
    home: Option<&str>,
    names: &AgentNames,
) -> (r: SearchModel)
    requires
        forall|k: int| 0 <= k < matches@.len() ==> #[trigger] matches@[k] < sessions@.len(),
    ensures
        r.title@ == search_title_of(matches@.len()),
        r.head.deep_view() == seq![prompt(filter@), Seq::<PieceView>::empty()],
        r.results.deep_view() == sessions_at(sessions.deep_view(), matches@).map_values(
            |s: SessionView| result_row(s, width as nat, names.deep_view()),
        ),
        r.keys.deep_view() == seq![
            dim(
                " type to filter  ↑↓ move  Enter resume  ^f fork  ^u/^d scroll  Esc close"@,
            ),
        ],
        match chosen(sessions_at(sessions.deep_view(), matches@), state) {
            Some(s) => r.preview matches Ok(rows) && rows.deep_view() == preview(
                s,
                home.deep_view(),
                names.deep_view(),
            ),
            None => r.preview matches Err(row) && row.deep_view() == seq![
                dim(
                    if loading {
                        "loading"@
                    } else {
                        "no match"@
                    },
                ),
            ],
        },
{
    let count = decimal(matches.len() as u64);
    let title = cat3(" search conversations (", count.as_str(), ") ");
    let mut head = no_rows();
    put(&mut head, make_prompt(filter));
    put(&mut head, row0());
    assert(head.deep_view() == seq![prompt(filter@), Seq::<PieceView>::empty()]);
    let ghost view = sessions.deep_view();
    let ghost hits = sessions_at(view, matches@);
    let ghost want = hits.map_values(|s: SessionView| result_row(s, width as nat, names.deep_view()));
    let mut results = no_rows();
    for k in 0..matches.len()
        invariant
            forall|j: int| 0 <= j < matches@.len() ==> #[trigger] matches@[j] < sessions@.len(),
            view == sessions.deep_view(),
            hits == sessions_at(view, matches@),
            want == hits.map_values(|s: SessionView| result_row(s, width as nat, names.deep_view())),
            results.deep_view() == want.take(k as int),
    {
        let i = matches[k];
        assert(view[i as int] == sessions@[i as int].deep_view());
        put(&mut results, search_row(&sessions[i], width, names));
        assert(want.take(k + 1) == want.take(k as int).push(want[k as int]));
    }
    assert(want.take(matches@.len() as int) == want);
    let keys = row1(
        lit(
            " type to filter  ↑↓ move  Enter resume  ^f fork  ^u/^d scroll  Esc close",
            hue(Hue::DarkGray),
        ),
    );
    let selected = match state.selected {
        Some(p) => if p < matches.len() {
            Some(matches[p])
        } else {
            None
        },
        None => None,
    };
    let preview = match selected {
        Some(i) => {
            assert(view[i as int] == sessions@[i as int].deep_view());
            Ok(preview_lines(&sessions[i], home, names))
        },
        None => {
            let msg = if loading {
                "loading"
            } else {
                "no match"
            };
            Err(row1(lit(msg, hue(Hue::DarkGray))))
        },
    };
    SearchModel { title, head, results, keys, preview }
}

/// The color of a pull request's state.
pub open spec fn pr_hue(state: Seq<char>) -> Hue {
    if state == "OPEN"@ {
        Hue::Green
    } else if state == "DRAFT"@ {
        Hue::Yellow
    } else if state == "MERGED"@ {
        Hue::Magenta
    } else {
        Hue::Red
    }
}

/// What the row of a stack entry says of its pull request.
pub open spec fn pr_pieces(
    branch: Seq<char>,
    prs: Map<Seq<char>, PrInfoView>,
    loading: bool,
) -> Seq<PieceView> {
    if prs.contains_key(branch) {
        let pr = prs[branch];
        seq![
            tinted(
                "  PR #"@ + decimal_of(pr.number as nat) + " "@ + lowercase(pr.state),
                pr_hue(pr.state),
            ),
        ]
    } else if !loading {
        seq![dim("  no PR"@)]
    } else {
        Seq::empty()
    }
}

/// The row of a stack entry: indented by its depth, with its commits and its pull request.
pub open spec fn entry_row(
    e: StackEntryView,
    prs: Map<Seq<char>, PrInfoView>,
    loading: bool,
) -> Seq<PieceView> {
    seq![
        raw(repeated("  "@, e.depth) + "└─ "@),
        strong(e.branch, Hue::Default),
        dim("  "@ + counted(e.commits, "commit"@)),
    ] + pr_pieces(e.branch, prs, loading)
}

fn make_entry_row(e: &StackEntry, prs: &StringHashMap<PrInfo>, loading: bool) -> (r: Vec<Piece>)
    ensures
        r.deep_view() == entry_row(e.deep_view(), crate::app::prs_view(prs@), loading),
{
    let indent = repeat("  ", e.depth);
    let count = count_text(e.commits, "commit");
    let mut out = row3(
        piece(cat(indent.as_str(), "└─ "), hue(Hue::Default)),
        piece(e.branch.clone(), bold(Hue::Default)),
        piece(cat("  ", count.as_str()), hue(Hue::DarkGray)),
    );
    let ghost top = out.deep_view();
    match prs.get(e.branch.as_str()) {
        Some(pr) => {
            let state = pr.state.as_str();
            let color = if same(state, "OPEN") {
                Hue::Green
            } else if same(state, "DRAFT") {
                Hue::Yellow
            } else if same(state, "MERGED") {
                Hue::Magenta
            } else {
                Hue::Red
            };
            let number = decimal(pr.number);
            let low = to_lower(state);
            let item = piece(cat4("  PR #", number.as_str(), " ", low.as_str()), hue(color));
            out.push(item);
            assert(out.deep_view() == top + seq![item.deep_view()]);
        },
        None => {
            if !loading {
                let item = lit("  no PR", hue(Hue::DarkGray));
                out.push(item);
                assert(out.deep_view() == top + seq![item.deep_view()]);
            } else {
                assert(top + Seq::<PieceView>::empty() == top);
            }
        },
    }
    out
}

/// The title of the stack view.
pub open spec fn stack_title_of(repo: Seq<char>, loading: bool) -> Seq<char> {
    " stack: "@ + repo + (if loading {
        " (loading PRs)"@
    } else {
        Seq::empty()
    }) + " "@
}

/// What the stack view shows: the title, the default branch, the entries, the keys.
pub struct StackModel {
    pub title: String,
    pub head: Vec<Piece>,
    pub body: Body,
    pub keys: Vec<Piece>,
}

/// The entries in the stack view.
pub open spec fn stack_body(
    stack: StackView,
    prs: Map<Seq<char>, PrInfoView>,
    loading: bool,
) -> BodyView {
    if stack.entries.len() == 0 {
        BodyView::Lines {
            rows: seq![seq![dim("  no branches beyond "@ + stack.default_branch)]],
        }
    } else {
        BodyView::List {
            rows: stack.entries.map_values(|e: StackEntryView| entry_row(e, prs, loading)),
        }
    }
}

/// The stack view.
pub fn stack_model(
    repo: &str,
    stack: &Stack,
    prs: &StringHashMap<PrInfo>,
    loading: bool,
) -> (r: StackModel)
    ensures
        r.title@ == stack_title_of(repo@, loading),
        r.head.deep_view() == seq![dim("  "@ + stack.default_branch@)],
        r.body.deep_view() == stack_body(stack.deep_view(), crate::app::prs_view(prs@), loading),
        r.keys.deep_view() == seq![
            dim(" j/k move  Enter open PR (or compare page)  d diff vs parent  Esc close"@),
        ],
{
    proof {
        reveal_strlit("");
        assert(""@ == Seq::<char>::empty());
    }
    let title = cat4(
        " stack: ",
        repo,
        if loading {
            " (loading PRs)"
        } else {
            ""
        },
        " ",
    );
    let head = row1(piece(cat("  ", stack.default_branch.as_str()), hue(Hue::DarkGray)));
    let keys = row1(
        lit(
            " j/k move  Enter open PR (or compare page)  d diff vs parent  Esc close",
            hue(Hue::DarkGray),
        ),
    );
    let ghost pv = crate::app::prs_view(prs@);
    let n = stack.entries.len();
    assert(stack.entries.deep_view().len() == n);
    let mut out = no_rows();
    if n == 0 {
        let none = cat("  no branches beyond ", stack.default_branch.as_str());
        put(&mut out, row1(piece(none, hue(Hue::DarkGray))));
        assert(out.deep_view() == seq![seq![dim(none@)]]);
        return StackModel { title, head, body: Body::Lines { rows: out }, keys };
    }
    let ghost want = stack.entries.deep_view().map_values(
        |e: StackEntryView| entry_row(e, pv, loading),
    );
    for i in 0..n
        invariant
            n == stack.entries@.len(),
            pv == crate::app::prs_view(prs@),
            want == stack.entries.deep_view().map_values(
                |e: StackEntryView| entry_row(e, pv, loading),
            ),
            out.deep_view() == want.take(i as int),
    {
        assert(stack.entries.deep_view()[i as int] == stack.entries@[i as int].deep_view());
        put(&mut out, make_entry_row(&stack.entries[i], prs, loading));
        assert(want.take(i + 1) == want.take(i as int).push(want[i as int]));
    }
    assert(want.take(n as int) == want);
    StackModel { title, head, body: Body::List { rows: out }, keys }
}

/// The look of a line of a diff.
pub open spec fn diff_face(l: Seq<char>) -> Face {
    if has_prefix(l, "+++"@) || has_prefix(l, "---"@) {
        bolded(Hue::Default)
    } else if l.len() > 0 && l[0] == '+' {
        hued(Hue::Green)
    } else if l.len() > 0 && l[0] == '-' {
        hued(Hue::Red)
    } else if has_prefix(l, "@@"@) {
        hued(Hue::Cyan)
    } else if has_prefix(l, "diff --git"@) {
        bolded(Hue::Default)
    } else {
        hued(Hue::Default)
    }
}

fn face_of(l: &str) -> (r: Face)
    ensures
        r == diff_face(l@),
{
    if begins(l, "+++") || begins(l, "---") {
        bold(Hue::Default)
    } else if begins_char(l, '+') {
        hue(Hue::Green)
    } else if begins_char(l, '-') {
        hue(Hue::Red)
    } else if begins(l, "@@") {
        hue(Hue::Cyan)
    } else if begins(l, "diff --git") {
        bold(Hue::Default)
    } else {
        hue(Hue::Default)
    }
}

/// The lines of a diff, each in its look.
pub open spec fn diff_rows(all: Seq<Seq<char>>) -> Seq<Seq<PieceView>> {
    all.map_values(|l: Seq<char>| seq![PieceView { text: l, face: diff_face(l) }])
}

/// How far a diff of `lines` is scrolled in a pane of `height`: never past its end, which
/// is taken in sixteen bits.
pub open spec fn diff_top(lines: nat, height: nat, scroll: u16) -> u16 {
    let end = (if lines > height {
        (lines - height) as nat
    } else {
        0
    }) % 0x1_0000;
    if scroll < end {
        scroll
    } else {
        end as u16
    }
}

/// How far a diff is scrolled.
pub fn diff_offset(lines: usize, height: u16, scroll: u16) -> (r: u16)
    ensures
        r == diff_top(lines as nat, height as nat, scroll),
{
    let over: usize = if lines > height as usize {
        lines - height as usize
    } else {
        0
    };
    let end = (over % 0x1_0000) as u16;
    if scroll < end {
        scroll
    } else {
        end
    }
}

/// What the diff of a layer shows: the title, the lines, the keys.
pub struct DiffModel {
    pub title: String,
    pub rows: Vec<Vec<Piece>>,
    pub keys: Vec<Piece>,
}

/// The diff of a layer.
pub fn diff_model(parent: &str, branch: &str, lines: &Vec<String>, truncated: usize) -> (r:
    DiffModel)
    ensures
        r.title@ == " diff "@ + parent@ + ".."@ + branch@ + " "@,
        r.rows.deep_view() == diff_rows(lines.deep_view()),
        r.keys.deep_view() == seq![
            dim(
                " j/k scroll  ^u/^d page  Esc back to stack"@ + (if truncated > 0 {
                    "  ("@ + decimal_of(truncated as nat) + " lines truncated)"@
                } else {
                    Seq::empty()
                }),
            ),
        ],
{
    let title = cat5(" diff ", parent, "..", branch, " ");
    let ghost want = diff_rows(lines.deep_view());
    let mut out = no_rows();
    for i in 0..lines.len()
        invariant
            want == diff_rows(lines.deep_view()),
            out.deep_view() == want.take(i as int),
    {
        let l = lines[i].as_str();
        assert(lines.deep_view()[i as int] == l@);
        put(&mut out, row1(lit(l, face_of(l))));
        assert(want.take(i + 1) == want.take(i as int).push(want[i as int]));
    }
    assert(want.take(lines@.len() as int) == want);
    let more = if truncated > 0 {
        let n = decimal(truncated as u64);
        cat3("  (", n.as_str(), " lines truncated)")
    } else {
        String::new()
    };
    let keys = row1(
        piece(
            cat(" j/k scroll  ^u/^d page  Esc back to stack", more.as_str()),
            hue(Hue::DarkGray),
        ),
    );
    DiffModel { title, rows: out, keys }
}

/// The width of a confirmation.
pub const CONFIRM_WIDTH: u16 = 64;

/// How many lines of a confirmation a text takes, in sixteen bits.
pub open spec fn wrapped_lines(s: Seq<char>) -> nat {
    let n = (s.len() + 59) / 60;
    if n == 0 {
        1
    } else {
        n % 0x1_0000
    }
}

/// Whether the height of a confirmation fits the machine.
pub open spec fn can_confirm(question: Seq<char>, detail: Seq<char>) -> bool {
    wrapped_lines(question) + wrapped_lines(detail) + 4 <= u16::MAX
}

/// A confirmation, sized to its wrapped content.
pub open spec fn confirm_shown(
    title: Seq<char>,
    question: Seq<char>,
    detail: Seq<char>,
    border: Hue,
) -> PanelView {
    PanelView {
        title,
        border,
        width: CONFIRM_WIDTH,
        height: (wrapped_lines(question) + wrapped_lines(detail) + 4) as u16,
        rows: seq![
            seq![raw(question)],
            seq![dim(detail)],
            Seq::empty(),
            seq![
                strong("y"@, Hue::Yellow),
                raw(" confirm  "@),
                strong("any other key"@, Hue::Yellow),
                raw(" cancels"@),
            ],
        ],
    }
}

fn wrapped(s: &str) -> (r: u16)
    ensures
        r == wrapped_lines(s@),
{
    let count = s.unicode_len();
    let n: usize = if count % 60 == 0 {
        count / 60
    } else {
        count / 60 + 1
    };
    if n == 0 {
        1
    } else {
        (n % 0x1_0000) as u16
    }
}

/// Confirmation dialog sized to its wrapped content, so the question, the
/// consequences, and the key instruction are always all visible.
pub fn confirm_panel(title: &str, question: &str, detail: &str, border: Hue) -> (r: Panel)
    requires
        can_confirm(question@, detail@),
    ensures
        r.deep_view() == confirm_shown(title@, question@, detail@, border),
{
    let height = wrapped(question) + wrapped(detail) + 2 + 2;
    let mut out = no_rows();
    put(&mut out, row1(lit(question, hue(Hue::Default))));
    put(&mut out, row1(lit(detail, hue(Hue::DarkGray))));
    put(&mut out, row0());
    put(
        &mut out,
        row4(
            lit("y", bold(Hue::Yellow)),
            lit(" confirm  ", hue(Hue::Default)),
            lit("any other key", bold(Hue::Yellow)),
            lit(" cancels", hue(Hue::Default)),
        ),
    );
    assert(out.deep_view() == confirm_shown(title@, question@, detail@, border).rows);
    Panel { title: title.to_owned(), border, width: CONFIRM_WIDTH, height, rows: out }
}

/// What a confirmation about a worktree asks.
pub open spec fn repo_question(kind: RepoConfirm, repo: Seq<char>, branch: Seq<char>) -> (
    Seq<char>,
    Seq<char>,
    Seq<char>,
) {
    match kind {
        RepoConfirm::Remove => (
            " remove worktree "@,
            "remove `"@ + repo + "` (worktree on "@ + branch + ") from this space?"@,
            "commits stay on the branch in the canonical repo. refuses if there are uncommitted changes; untracked files are carried back."@,
        ),
        RepoConfirm::ToSymlink => (
            " back to symlink "@,
            "convert `"@ + repo + "` (worktree on "@ + branch + ") back to a symlink?"@,
            "commits stay on the branch. refuses if there are uncommitted changes; untracked files are carried back."@,
        ),
    }
}

/// What a confirmation about a worktree asks: its title, the question, the details.
pub fn repo_confirmation(kind: RepoConfirm, repo: &str, branch: &str) -> (r: (
    String,
    String,
    String,
))
    ensures
        (r.0@, r.1@, r.2@) == repo_question(kind, repo@, branch@),
{
    match kind {
        RepoConfirm::Remove => (
            " remove worktree ".to_owned(),
            cat5("remove `", repo, "` (worktree on ", branch, ") from this space?"),
            "commits stay on the branch in the canonical repo. refuses if there are uncommitted changes; untracked files are carried back.".to_owned(),
        ),
        RepoConfirm::ToSymlink => (
            " back to symlink ".to_owned(),
            cat5("convert `", repo, "` (worktree on ", branch, ") back to a symlink?"),
            "commits stay on the branch. refuses if there are uncommitted changes; untracked files are carried back.".to_owned(),
        ),
    }
}

/// What the confirmation of a deletion asks: its title, the question, the details.
pub fn delete_confirmation(name: &str) -> (r: (String, String, String))
    ensures
        r.0@ == " delete space "@,
        r.1@ == "delete space \""@ + name@ + "\"?"@,
        r.2@ == "unlinks symlinks, removes worktrees. canonical checkouts in the pool stay."@,
{
    (
        " delete space ".to_owned(),
        cat3("delete space \"", name, "\"?"),
        "unlinks symlinks, removes worktrees. canonical checkouts in the pool stay.".to_owned(),
    )
}

/// The row of a pull's outcome.
pub open spec fn pull_row(repo: Seq<char>, outcome: Result<Seq<char>, Seq<char>>) -> Seq<
    PieceView,
> {
    match outcome {
        Ok(msg) => seq![
            tinted("✓ "@, Hue::Green),
            strong(filled(repo, 24), Hue::Default),
            raw(msg),
        ],
        Err(msg) => seq![
            tinted("✗ "@, Hue::Red),
            strong(filled(repo, 24), Hue::Default),
            tinted(msg, Hue::Red),
        ],
    }
}

/// The outcomes of a pull.
pub open spec fn pull_shown(
    space: Seq<char>,
    results: Seq<(Seq<char>, Result<Seq<char>, Seq<char>>)>,
) -> PanelView {
    PanelView {
        title: " pull "@ + space + " "@,
        border: Hue::Yellow,
        width: 70,
        height: box_height(results.len(), 20),
        rows: results.map_values(
            |p: (Seq<char>, Result<Seq<char>, Seq<char>>)| pull_row(p.0, p.1),
        ).push(Seq::empty()).push(seq![dim("any key to close"@)]),
    }
}

/// The outcomes of a pull.
pub fn pull_panel(space: &str, results: &Vec<(String, Result<String, String>)>) -> (r: Panel)
    requires
        has_height(results@.len()),
    ensures
        r.deep_view() == pull_shown(space@, crate::app::results_view(results@)),
{
    let n = results.len();
    let ghost view = crate::app::results_view(results@);
    let ghost want = view.map_values(
        |p: (Seq<char>, Result<Seq<char>, Seq<char>>)| pull_row(p.0, p.1),
    );
    let height = make_height(n, 20);
    let mut out = no_rows();
    for i in 0..n
        invariant
            n == results@.len(),
            view == crate::app::results_view(results@),
            want == view.map_values(
                |p: (Seq<char>, Result<Seq<char>, Seq<char>>)| pull_row(p.0, p.1),
            ),
            out.deep_view() == want.take(i as int),
    {
        let name = fill(results[i].0.as_str(), 24);
        let row = match &results[i].1 {
            Ok(msg) => row3(
                lit("✓ ", hue(Hue::Green)),
                piece(name, bold(Hue::Default)),
                piece(msg.clone(), hue(Hue::Default)),
            ),
            Err(msg) => row3(
                lit("✗ ", hue(Hue::Red)),
                piece(name, bold(Hue::Default)),
                piece(msg.clone(), hue(Hue::Red)),
            ),
        };
        assert(view[i as int] == (results@[i as int].0@, reply_view(results@[i as int].1)));
        assert(want[i as int] == row.deep_view());
        put(&mut out, row);
        assert(want.take(i + 1) == want.take(i as int).push(want[i as int]));
    }
    assert(want.take(n as int) == want);
    put(&mut out, row0());
    put(&mut out, row1(lit("any key to close", hue(Hue::DarkGray))));
    Panel {
        title: cat3(" pull ", space, " "),
        border: Hue::Yellow,
        width: 70,
        height,
        rows: out,
    }
}

// ---- hint bar -------------------------------------------------------------------------------------------

/// Keys and what they do.
pub open spec fn hints(pairs: Seq<(Seq<char>, Seq<char>)>) -> Seq<PieceView>
    decreases pairs.len(),
{
    if pairs.len() == 0 {
        Seq::empty()
    } else {
        hints(pairs.drop_last()).push(strong(pairs.last().0, Hue::Yellow)).push(
            raw(" "@ + pairs.last().1 + "  "@),
        )
    }
}

fn hint_spans(pairs: &[(&str, &str)]) -> (r: Vec<Piece>)
    ensures
        r.deep_view() == hints(pairs.deep_view()),
{
    let ghost view = pairs.deep_view();
    let mut out = row0();
    assert(view.take(0) == Seq::<(Seq<char>, Seq<char>)>::empty());
    for i in 0..pairs.len()
        invariant
            view == pairs.deep_view(),
            out.deep_view() == hints(view.take(i as int)),
    {
        let ghost before = out.deep_view();
        let (key, label) = pairs[i];
        assert(view.take(i + 1).drop_last() == view.take(i as int));
        assert(view.take(i + 1).last() == (key@, label@));
        let a = lit(key, bold(Hue::Yellow));
        let b = piece(cat3(" ", label, "  "), hue(Hue::Default));
        out.push(a);
        out.push(b);
        assert(out.deep_view() == before.push(a.deep_view()).push(b.deep_view()));
    }
    assert(view.take(pairs@.len() as int) == view);
    out
}

/// The keys of a pane.
pub open spec fn pane_keys(pane: Pane, names: AgentNamesView) -> Seq<(Seq<char>, Seq<char>)> {
    match pane {
        Pane::Spaces => seq![
            ("j/k"@, "move"@),
            ("Tab"@, "pane"@),
            ("n"@, "new space"@),
            ("a"@, "add repo"@),
            ("p"@, "pull"@),
            ("/"@, "search"@),
            ("Enter"@, "shell"@),
            ("c"@, names.program),
            ("o"@, CODEX_PROGRAM@),
            ("D"@, "delete"@),
            ("q"@, "quit"@),
        ],
        Pane::Repos => seq![
            ("j/k"@, "move"@),
            ("Tab"@, "pane"@),
            ("a"@, "add"@),
            ("p"@, "pull"@),
            ("w"@, "worktree"@),
            ("s"@, "stack"@),
            ("u"@, "symlink"@),
            ("x"@, "remove"@),
            ("Enter"@, "shell"@),
            ("c"@, names.program),
            ("o"@, CODEX_PROGRAM@),
            ("q"@, "quit"@),
        ],
        Pane::Convos => seq![
            ("j/k"@, "move"@),
            ("Tab"@, "pane"@),
            ("Enter"@, "resume"@),
            ("f"@, "fork"@),
            ("/"@, "search all"@),
            ("q"@, "quit"@),
        ],
    }
}

fn pane_hints(pane: Pane, names: &AgentNames) -> (r: Vec<Piece>)
    ensures
        r.deep_view() == hints(pane_keys(pane, names.deep_view())),
{
    match pane {
        Pane::Spaces => {
            let pairs = [
                ("j/k", "move"),
                ("Tab", "pane"),
                ("n", "new space"),
                ("a", "add repo"),
                ("p", "pull"),
                ("/", "search"),
                ("Enter", "shell"),
                ("c", names.program.as_str()),
                ("o", CODEX_PROGRAM),
                ("D", "delete"),
                ("q", "quit"),
            ];
            assert(pairs.deep_view() == pane_keys(pane, names.deep_view()));
            let all: &[(&str, &str)] = &pairs;
            assert(all.deep_view() == pairs.deep_view());
            hint_spans(all)
        },
        Pane::Repos => {
            let pairs = [
                ("j/k", "move"),
                ("Tab", "pane"),
                ("a", "add"),
                ("p", "pull"),
                ("w", "worktree"),
                ("s", "stack"),
                ("u", "symlink"),
                ("x", "remove"),
                ("Enter", "shell"),
                ("c", names.program.as_str()),
                ("o", CODEX_PROGRAM),
                ("q", "quit"),
            ];
            assert(pairs.deep_view() == pane_keys(pane, names.deep_view()));
            let all: &[(&str, &str)] = &pairs;
            assert(all.deep_view() == pairs.deep_view());
            hint_spans(all)
        },
        Pane::Convos => {
            let pairs = [
                ("j/k", "move"),
                ("Tab", "pane"),
                ("Enter", "resume"),
                ("f", "fork"),
                ("/", "search all"),
                ("q", "quit"),
            ];
            assert(pairs.deep_view() == pane_keys(pane, names.deep_view()));
            let all: &[(&str, &str)] = &pairs;
            assert(all.deep_view() == pairs.deep_view());
            hint_spans(all)
        },
    }
}

/// The agents that cannot be run.
pub open spec fn missing(v: AppView) -> Seq<Seq<char>> {
    (if v.claude_ok {
        Seq::empty()
    } else {
        seq![v.names.program]
    }) + (if v.codex_ok {
        Seq::empty()
    } else {
        seq![CODEX_PROGRAM@]
    })
}

/// The hint bar: a message if there is one, the progress of a pull if one runs, otherwise
/// the keys of the pane and the agents that are missing.
pub open spec fn hint_shown(v: AppView) -> Seq<PieceView> {
    if v.status is Some {
        seq![strong(v.status->0, Hue::Red)]
    } else if v.pull_active {
        seq![
            strong(
                "pulling "@ + v.pull_space + " "@ + decimal_of(v.pull_results.len()) + "/"@
                    + decimal_of(v.pull_total as nat),
                Hue::Yellow,
            ),
        ]
    } else if missing(v).len() == 0 {
        hints(pane_keys(v.pane, v.names))
    } else {
        hints(pane_keys(v.pane, v.names)).push(
            tinted("   ("@ + joined(missing(v), ", "@) + " not on PATH)"@, Hue::Red),
        )
    }
}

/// The hint bar.
pub fn hint_row(app: &App) -> (r: Vec<Piece>)
    ensures
        r.deep_view() == hint_shown(app.deep_view()),
{
    match &app.status {
        Some(msg) => {
            return row1(piece(msg.clone(), bold(Hue::Red)));
        },
        None => {},
    }
    match app.pull_progress() {
        Some(progress) => {
            return row1(piece(progress, bold(Hue::Yellow)));
        },
        None => {},
    }
    let mut out = pane_hints(app.pane, &app.names);
    let mut gone: Vec<String> = Vec::new();
    assert(gone.deep_view() == Seq::<Seq<char>>::empty());
    if !app.claude_ok {
        gone.push(app.names.program.clone());
        assert(gone.deep_view() == seq![app.names.program@]);
    }
    if !app.codex_ok {
        let ghost before = gone.deep_view();
        gone.push(CODEX_PROGRAM.to_owned());
        assert(gone.deep_view() == before + seq![CODEX_PROGRAM@]);
    } else {
        assert(gone.deep_view() == gone.deep_view() + Seq::<Seq<char>>::empty());
    }
    assert(gone.deep_view() == missing(app.deep_view()));
    assert(gone.deep_view().len() == gone@.len());
    if gone.len() > 0 {
        let ghost before = out.deep_view();
        let names = join(&gone, ", ");
        let item = piece(cat3("   (", names.as_str(), " not on PATH)"), hue(Hue::Red));
        out.push(item);
        assert(out.deep_view() == before.push(item.deep_view()));
    }
    out
}

} // verus!
