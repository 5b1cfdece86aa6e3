//! What is shown of what, row by row and in which colors.

use crate::app::{convos, AppView, InputKind, Pane, PickerItemView, RepoConfirm};
use crate::data::{age_text, backend_label, Backend, MessageView, SessionView};
use crate::key_laws::row;
use crate::names::AgentNamesView;
use crate::space::RepoStateView;
use crate::stack::{PrInfoView, StackView};
use crate::text::{blanks, decimal_of, filled, has_prefix, joined, lines_of, lowercase, repeated};
use crate::ui::{
    all_message_rows, confirm_shown, convo_row, convos_shown, diff_face, diff_rows, diff_top,
    hint_shown, hints, homely, input_shown, message_rows, middle, padded, padded_left, picker_list,
    picker_shown, preview, pull_shown, repo_question, repos_shown, result_row, search_title_of,
    sessions_at, spaces_shown, stack_body, stack_title_of, Area, BodyView, Face, Hue, PieceView,
};
use vstd::prelude::*;

verus! {

/// A text in a look.
pub open spec fn styled(text: Seq<char>, hue: Hue, bold: bool, italic: bool) -> PieceView {
    PieceView { text, face: Face { hue, bold, italic } }
}

/// A text as it is.
pub open spec fn plain(text: Seq<char>) -> PieceView {
    styled(text, Hue::Default, false, false)
}

/// A text in the background.
pub open spec fn faint(text: Seq<char>) -> PieceView {
    styled(text, Hue::DarkGray, false, false)
}

/// The color of an agent.
pub open spec fn color_of(b: Backend) -> Hue {
    if b == Backend::Claude {
        Hue::Magenta
    } else {
        Hue::Cyan
    }
}

// ---- columns and boxes ----------------------------------------------------------------------

/// A path below the home directory is shown with a tilde for it, every other one as it is.
pub proof fn law_home_is_a_tilde(home: Seq<char>, rest: Seq<char>, path: Seq<char>)
    ensures
        homely(home + rest, Some(home)) == seq!['~'] + rest,
        !has_prefix(path, home) ==> homely(path, Some(home)) == path,
        homely(path, None) == path,
{
    reveal_strlit("~");
    assert("~"@ == seq!['~']);
    assert((home + rest).subrange(0, home.len() as int) == home);
    assert((home + rest).take(home.len() as int) == home);
    assert((home + rest).skip(home.len() as int) == rest);
}

/// A column on the left holds its text and blanks behind it, one on the right blanks and its
/// text behind them; a text that is too long for the first ends in an ellipsis there, and is cut
/// off in the second.
pub proof fn law_columns_hold_their_text(s: Seq<char>, width: nat)
    requires
        width > 0,
    ensures
        s.len() <= width ==> padded(s, width) == s + Seq::new(
            (width - s.len()) as nat,
            |i: int| ' ',
        ),
        s.len() > width ==> padded(s, width) == s.take(width - 1).push('…'),
        s.len() <= width ==> padded_left(s, width) == Seq::new(
            (width - s.len()) as nat,
            |i: int| ' ',
        ) + s,
        s.len() > width ==> padded_left(s, width) == s.take(width as int),
{
    reveal_strlit("…");
    assert("…"@ == seq!['…']);
    if s.len() > width {
        assert(s.take(width - 1) + seq!['…'] == s.take(width - 1).push('…'));
    } else {
        let gap = (width - s.len()) as nat;
        assert(blanks(gap) == Seq::new(gap, |i: int| ' '));
        if s.len() == width {
            assert(s.take(width as int) == s);
            assert(Seq::new(gap, |i: int| ' ') + s == s);
        }
    }
}

/// A box takes the size it is given where there is room for it and a margin, else what room
/// there is; the rest is shared by both of its sides, the odd one on the far side.
pub proof fn law_boxes_are_in_the_middle(w: u16, h: u16, r: Area)
    requires
        r.x + r.width <= u16::MAX,
        r.y + r.height <= u16::MAX,
        r.width >= 2,
        r.height >= 2,
    ensures
        ({
            let a = middle(w, h, r);
            &&& a.width == (if w < r.width - 2 {
                w as int
            } else {
                r.width - 2
            })
            &&& a.height == (if h < r.height - 2 {
                h as int
            } else {
                r.height - 2
            })
            &&& 0 <= (r.x + r.width - (a.x + a.width)) - (a.x - r.x) <= 1
            &&& 0 <= (r.y + r.height - (a.y + a.height)) - (a.y - r.y) <= 1
        }),
{
}

// ---- the panes ------------------------------------------------------------------------------

/// The list of the spaces: how many, and of each its name and how many repos it has.
pub proof fn law_spaces_are_shown(v: AppView, i: int)
    ensures
        ({
            let p = spaces_shown(v);
            &&& p.title == " spaces ("@ + decimal_of(v.spaces.len()) + ") "@
            &&& p.focused <==> v.pane == Pane::Spaces
            &&& 0 <= i < v.spaces.len() ==> (p.body matches BodyView::List { rows } && rows.len()
                == v.spaces.len() && rows[i] == seq![
                styled(v.spaces[i].name, Hue::Default, true, false),
                faint(
                    "  "@ + (decimal_of(v.spaces[i].repos.len()) + " "@ + "repo"@ + (
                    if v.spaces[i].repos.len() == 1 {
                        Seq::empty()
                    } else {
                        seq!['s']
                    })),
                ),
            ])
            &&& v.spaces.len() == 0 ==> (p.body matches BodyView::Lines { rows } && rows == seq![
                Seq::empty(),
                seq![faint("  no spaces yet"@)],
                Seq::empty(),
                seq![
                    plain("  press "@),
                    styled("n"@, Hue::Yellow, true, false),
                    plain(" to create one"@),
                ],
            ])
        }),
{
    reveal_strlit("s");
    assert("s"@ == seq!['s']);
}

/// The members of the selected space: of each its name, and whether it is a link, a worktree and
/// on which branch, or unmanaged.
pub proof fn law_members_are_shown(v: AppView, k: int, i: int)
    requires
        v.space_state == row(k),
        0 <= k < v.spaces.len() <= usize::MAX,
    ensures
        ({
            let p = repos_shown(v);
            let s = v.spaces[k];
            &&& p.title == " repos in "@ + s.name + " "@
            &&& p.focused <==> v.pane == Pane::Repos
            &&& 0 <= i < s.repos.len() ==> (p.body matches BodyView::List { rows } && rows.len()
                == s.repos.len() && rows[i] == seq![
                styled(filled(s.repos[i].name, 28), Hue::Default, true, false),
                match s.repos[i].state {
                    RepoStateView::Symlink => faint("-> repos/"@),
                    RepoStateView::Worktree { branch } => styled(
                        " "@ + branch,
                        Hue::Green,
                        false,
                        false,
                    ),
                    RepoStateView::Foreign => styled("(unmanaged)"@, Hue::Red, false, false),
                },
            ])
            &&& s.repos.len() == 0 ==> (p.body matches BodyView::Lines { rows } && rows == seq![
                Seq::empty(),
                seq![faint("  empty space"@)],
                Seq::empty(),
                seq![
                    plain("  press "@),
                    styled("a"@, Hue::Yellow, true, false),
                    plain(" to add a repo from ~/Desktop/repos"@),
                ],
            ])
        }),
{
}

/// Without a space there are no members and no conversations to show.
pub proof fn law_nothing_without_a_space(v: AppView, width: nat)
    requires
        v.spaces.len() == 0,
    ensures
        repos_shown(v).title == " repos "@,
        repos_shown(v).body is Blank,
        convos_shown(v, width).title == " conversations "@,
        convos_shown(v, width).body is Blank,
{
}

/// The conversations of the selected space, in the rows that they are resumed from: of each its
/// agent, its title and its age, in columns.
pub proof fn law_conversations_are_shown(v: AppView, k: int, p: int, width: nat)
    requires
        v.space_state == row(k),
        0 <= k < v.spaces.len() <= usize::MAX,
        width >= 28,
    ensures
        ({
            let pane = convos_shown(v, width);
            let found = convos(v);
            &&& pane.title == " conversations in "@ + v.spaces[k].name + " "@
            &&& pane.focused <==> v.pane == Pane::Convos
            &&& 0 <= p < found.len() ==> (pane.body matches BodyView::List { rows } && rows.len()
                == found.len() && ({
                let s = v.sessions[found[p] as int];
                rows[p] == seq![
                    styled(
                        padded(backend_label(s.backend, v.names), 7),
                        color_of(s.backend),
                        false,
                        false,
                    ),
                    plain(padded(s.title, (width - 18) as nat)),
                    faint(padded_left(age_text(s.last_activity as int, v.now as int), 9)),
                ]
            }))
            &&& found.len() == 0 && v.loading ==> (pane.body matches BodyView::Roomy { rows }
                && rows == seq![seq![faint("loading"@)]])
            &&& found.len() == 0 && !v.loading ==> (pane.body matches BodyView::Roomy { rows }
                && rows == seq![
                seq![
                    faint(
                        "none yet (c starts "@ + v.names.program + " here, o "@ + "codex"@
                            + ", / searches everywhere)"@,
                    ),
                ],
            ])
        }),
{
}

/// However narrow the pane, a title has at least ten columns there, and eight in the search.
pub proof fn law_titles_have_room(s: SessionView, now: i64, width: nat, names: AgentNamesView)
    ensures
        width < 28 ==> convo_row(s, now, width, names)[1] == plain(padded(s.title, 10)),
        width < 26 ==> result_row(s, width, names)[2] == plain(padded(s.title, 8)),
        width >= 26 ==> result_row(s, width, names)[2] == plain(
            padded(s.title, (width - 18) as nat),
        ),
        result_row(s, width, names).len() == 3,
        result_row(s, width, names)[0] == styled(
            padded(backend_label(s.backend, names), 7),
            color_of(s.backend),
            false,
            false,
        ),
        result_row(s, width, names)[1] == styled(padded(s.space, 10), Hue::Yellow, false, false),
{
}

// ---- the preview ----------------------------------------------------------------------------

/// A preview is headed by the title, the agent, the directory and the number of messages of the
/// conversation; behind a rule come its messages, one after the other.
pub proof fn law_preview_is_headed(
    s: SessionView,
    home: Option<Seq<char>>,
    names: AgentNamesView,
    more: Seq<MessageView>,
)
    ensures
        preview(s, home, names) == seq![
            seq![styled(s.title, Hue::Default, true, false)],
            seq![
                styled(backend_label(s.backend, names) + "  "@, color_of(s.backend), false, false),
                faint(homely(s.cwd, home)),
                faint("  "@ + decimal_of(s.msg_count as nat) + " messages"@),
            ],
            seq![faint(repeated("─"@, 60))],
        ] + all_message_rows(s.messages, s.backend),
        all_message_rows(s.messages + more, s.backend) == all_message_rows(s.messages, s.backend)
            + all_message_rows(more, s.backend),
        forall|m: MessageView| #[trigger]
            all_message_rows(seq![m], s.backend) == message_rows(m, s.backend),
{
    lemma_messages_add(s.messages, more, s.backend);
    assert forall|m: MessageView| #[trigger]
        all_message_rows(seq![m], s.backend) == message_rows(m, s.backend) by {
        assert(seq![m].drop_last() == Seq::<MessageView>::empty());
        assert(all_message_rows(Seq::<MessageView>::empty(), s.backend) == Seq::<
            Seq<PieceView>,
        >::empty());
    }
}

proof fn lemma_messages_add(a: Seq<MessageView>, b: Seq<MessageView>, agent: Backend)
    ensures
        all_message_rows(a + b, agent) == all_message_rows(a, agent) + all_message_rows(b, agent),
    decreases b.len(),
{
    if b.len() == 0 {
        assert(a + b == a);
    } else {
        assert((a + b).drop_last() == a + b.drop_last());
        lemma_messages_add(a, b.drop_last(), agent);
    }
}

/// A message is shown under who wrote it, in its color, with its first fourteen lines, how many
/// more there are, and an empty row behind it.
pub proof fn law_messages_are_shown(m: MessageView, b: Backend, i: int)
    ensures
        ({
            let rows = message_rows(m, b);
            let all = lines_of(m.text);
            let n = if all.len() > 14 {
                14
            } else {
                all.len() as int
            };
            &&& m.role == "user"@ ==> rows[0] == seq![
                styled("● "@ + "you"@, Hue::Green, true, false),
            ]
            &&& m.role == "assistant"@ ==> rows[0] == seq![
                styled("● "@ + "agent"@, color_of(b), true, false),
            ]
            &&& m.role != "user"@ && m.role != "assistant"@ ==> rows[0] == seq![
                styled("● "@ + m.role, Hue::Gray, true, false),
            ]
            &&& 0 <= i < n ==> rows[1 + i] == seq![plain("  "@ + all[i])]
            &&& all.len() > 14 ==> rows.len() == 17 && rows[15] == seq![
                faint("  + "@ + decimal_of((all.len() - 14) as nat) + " more lines"@),
            ]
            &&& all.len() <= 14 ==> rows.len() == all.len() + 2
            &&& rows[rows.len() - 1].len() == 0
        }),
{
    reveal_strlit("user");
    reveal_strlit("assistant");
    assert("user"@.len() == 4 && "assistant"@.len() == 9);
}

// ---- boxes over the lists -------------------------------------------------------------------

/// What is typed is shown with a cursor behind it, and under it what it is for.
pub proof fn law_input_is_shown(buffer: Seq<char>)
    ensures
        ({
            let (space, branch) = (
                input_shown(InputKind::NewSpace, buffer),
                input_shown(InputKind::Branch, buffer),
            );
            let typed = seq![plain(buffer), styled("█"@, Hue::Yellow, false, false)];
            &&& space.title == " new space "@ && branch.title == " new branch "@
            &&& space.border == Hue::Yellow && branch.border == Hue::Yellow
            &&& space.width == 50 && space.height == 5 && branch.width == 50 && branch.height == 5
            &&& space.rows == seq![
                typed,
                seq![faint("folder name under ~/Desktop"@ + "  Enter confirm  Esc cancel"@)],
            ]
            &&& branch.rows == seq![
                typed,
                seq![faint("branch for the worktree"@ + "  Enter confirm  Esc cancel"@)],
            ]
        }),
{
}

/// The picker shows a row for each repo that it offers, those that the space has in the
/// background and marked; and what was typed above them.
pub proof fn law_picker_is_shown(candidates: Seq<PickerItemView>, filter: Seq<char>, i: int)
    ensures
        ({
            let p = picker_shown(candidates, filter);
            &&& p.title == " add repo (from ~/Desktop/repos) "@
            &&& p.border == Hue::Yellow && p.width == 56
            &&& candidates.len() == 0 ==> p.height == 5
            &&& 0 < candidates.len() < 14 ==> p.height == candidates.len() + 4
            &&& 14 <= candidates.len() < 65536 ==> p.height == 18
            &&& p.rows == seq![
                seq![
                    styled("> "@, Hue::Yellow, false, false),
                    plain(filter),
                    styled("█"@, Hue::Yellow, false, false),
                ],
                seq![faint("type to filter  ↑↓ move  Enter add  Esc close"@)],
            ]
            &&& candidates.len() == 0 ==> (picker_list(candidates) matches BodyView::Lines { rows }
                && rows == seq![seq![faint("no match"@)]])
            &&& 0 <= i < candidates.len() ==> (picker_list(candidates) matches BodyView::List {
                rows,
            } && rows.len() == candidates.len() && rows[i] == if candidates[i].added {
                seq![
                    faint(candidates[i].name),
                    styled("  (added)"@, Hue::DarkGray, false, true),
                ]
            } else {
                seq![plain(candidates[i].name)]
            })
        }),
{
}

/// The search is headed by the number of conversations that it found, and shows the one at each
/// of their places.
pub proof fn law_search_is_shown(sessions: Seq<SessionView>, matches: Seq<usize>, p: int)
    ensures
        search_title_of(matches.len()) == " search conversations ("@ + decimal_of(matches.len())
            + ") "@,
        sessions_at(sessions, matches).len() == matches.len(),
        0 <= p < matches.len() ==> sessions_at(sessions, matches)[p] == sessions[matches[p] as int],
{
}

/// A stack shows a row for each of its branches, indented by how deep it stands, with its commits
/// and its pull request in the color of its state; while these are on their way nothing is said of
/// one that is not known yet.
pub proof fn law_stack_is_shown(
    stack: StackView,
    prs: Map<Seq<char>, PrInfoView>,
    loading: bool,
    i: int,
)
    requires
        0 <= i < stack.entries.len(),
    ensures
        ({
            let e = stack.entries[i];
            let start = seq![
                plain(repeated("  "@, e.depth) + "└─ "@),
                styled(e.branch, Hue::Default, true, false),
                faint(
                    "  "@ + (decimal_of(e.commits) + " "@ + "commit"@ + (if e.commits == 1 {
                        Seq::empty()
                    } else {
                        seq!['s']
                    })),
                ),
            ];
            &&& stack_body(stack, prs, loading) matches BodyView::List { rows } && rows.len()
                == stack.entries.len() && (prs.contains_key(e.branch) ==> rows[i] == start + seq![
                styled(
                    "  PR #"@ + decimal_of(prs[e.branch].number as nat) + " "@ + lowercase(
                        prs[e.branch].state,
                    ),
                    if prs[e.branch].state == "OPEN"@ {
                        Hue::Green
                    } else if prs[e.branch].state == "DRAFT"@ {
                        Hue::Yellow
                    } else if prs[e.branch].state == "MERGED"@ {
                        Hue::Magenta
                    } else {
                        Hue::Red
                    },
                    false,
                    false,
                ),
            ]) && (!prs.contains_key(e.branch) && !loading ==> rows[i] == start + seq![
                faint("  no PR"@),
            ]) && (!prs.contains_key(e.branch) && loading ==> rows[i] == start)
        }),
{
    reveal_strlit("s");
    assert("s"@ == seq!['s']);
    let e = stack.entries[i];
    let start = crate::ui::entry_row(e, prs, loading).take(3);
    assert(start + Seq::<PieceView>::empty() == start);
}

/// A stack without branches says so; its title names the repo, and that its pull requests are
/// still on their way.
pub proof fn law_stack_titles(
    repo: Seq<char>,
    stack: StackView,
    prs: Map<Seq<char>, PrInfoView>,
    loading: bool,
)
    ensures
        stack_title_of(repo, true) == " stack: "@ + repo + " (loading PRs)"@ + " "@,
        stack_title_of(repo, false) == " stack: "@ + repo + " "@,
        stack.entries.len() == 0 ==> (stack_body(stack, prs, loading) matches BodyView::Lines {
            rows,
        } && rows == seq![seq![faint("  no branches beyond "@ + stack.default_branch)]]),
{
    assert(" stack: "@ + repo + Seq::<char>::empty() + " "@ == " stack: "@ + repo + " "@);
}

/// A diff is shown line by line, what was added in green and what was taken away in red, the
/// places in cyan and the heads of the files in bold.
pub proof fn law_diffs_are_colored(lines: Seq<Seq<char>>, c: char, rest: Seq<char>, i: int)
    ensures
        diff_rows(lines).len() == lines.len(),
        0 <= i < lines.len() ==> diff_rows(lines)[i].len() == 1 && diff_rows(lines)[i][0].text
            == lines[i] && diff_rows(lines)[i][0].face == diff_face(lines[i]),
        diff_face("+++"@ + rest) == (Face { hue: Hue::Default, bold: true, italic: false }),
        diff_face("---"@ + rest) == (Face { hue: Hue::Default, bold: true, italic: false }),
        diff_face("@@"@ + rest) == (Face { hue: Hue::Cyan, bold: false, italic: false }),
        diff_face("diff --git"@ + rest) == (Face { hue: Hue::Default, bold: true, italic: false }),
        !has_prefix(seq!['+'] + rest, "+++"@) ==> diff_face(seq!['+'] + rest) == (Face {
            hue: Hue::Green,
            bold: false,
            italic: false,
        }),
        !has_prefix(seq!['-'] + rest, "---"@) ==> diff_face(seq!['-'] + rest) == (Face {
            hue: Hue::Red,
            bold: false,
            italic: false,
        }),
        diff_face(seq![' '] + rest) == (Face { hue: Hue::Default, bold: false, italic: false }),
        !has_prefix(seq!['@'] + rest, "@@"@) ==> diff_face(seq!['@'] + rest) == (Face {
            hue: Hue::Default,
            bold: false,
            italic: false,
        }),
        !has_prefix(seq!['d'] + rest, "diff --git"@) ==> diff_face(seq!['d'] + rest) == (Face {
            hue: Hue::Default,
            bold: false,
            italic: false,
        }),
        c != '+' && c != '-' && c != '@' && c != 'd' ==> diff_face(seq![c] + rest) == (Face {
            hue: Hue::Default,
            bold: false,
            italic: false,
        }),
        diff_face(Seq::empty()) == (Face { hue: Hue::Default, bold: false, italic: false }),
{
    reveal_strlit("+++");
    reveal_strlit("---");
    reveal_strlit("@@");
    reveal_strlit("diff --git");
    lemma_starts("+++"@, rest);
    lemma_starts("---"@, rest);
    lemma_starts("@@"@, rest);
    lemma_starts("diff --git"@, rest);
    lemma_other_start(seq!['+'] + rest, "---"@);
    lemma_other_start(seq!['-'] + rest, "+++"@);
    let at = "@@"@ + rest;
    lemma_other_start(at, "+++"@);
    lemma_other_start(at, "---"@);
    let git = "diff --git"@ + rest;
    lemma_other_start(git, "+++"@);
    lemma_other_start(git, "---"@);
    lemma_other_start(git, "@@"@);
    let near = seq!['@'] + rest;
    lemma_other_start(near, "+++"@);
    lemma_other_start(near, "---"@);
    lemma_other_start(near, "diff --git"@);
    let d = seq!['d'] + rest;
    lemma_other_start(d, "+++"@);
    lemma_other_start(d, "---"@);
    lemma_other_start(d, "@@"@);
    if c != '+' && c != '-' && c != '@' && c != 'd' {
        let other = seq![c] + rest;
        lemma_other_start(other, "+++"@);
        lemma_other_start(other, "---"@);
        lemma_other_start(other, "@@"@);
        lemma_other_start(other, "diff --git"@);
    }
    let same = seq![' '] + rest;
    lemma_other_start(same, "+++"@);
    lemma_other_start(same, "---"@);
    lemma_other_start(same, "@@"@);
    lemma_other_start(same, "diff --git"@);
}

proof fn lemma_starts(start: Seq<char>, rest: Seq<char>)
    ensures
        has_prefix(start + rest, start),
{
    assert((start + rest).subrange(0, start.len() as int) == start);
    assert((start + rest).take(start.len() as int) == start);
}

proof fn lemma_other_start(s: Seq<char>, start: Seq<char>)
    requires
        s.len() > 0,
        start.len() > 0,
        s[0] != start[0],
    ensures
        !has_prefix(s, start),
{
    if has_prefix(s, start) {
        assert(s.subrange(0, start.len() as int)[0] == s[0]);
    }
}

/// A diff is shown from where it was scrolled to, but never beyond its last page.
pub proof fn law_diff_stays_on_its_pages(lines: nat, height: nat, scroll: u16)
    requires
        lines < 65536,
    ensures
        lines <= height ==> diff_top(lines, height, scroll) == 0,
        lines > height && scroll <= lines - height ==> diff_top(lines, height, scroll) == scroll,
        lines > height && scroll > lines - height ==> diff_top(lines, height, scroll) == lines
            - height,
{
}

/// A confirmation shows what is asked, what it means, and which key gives it; it is as high as
/// that takes in lines of sixty characters.
pub proof fn law_confirmation_is_shown(
    title: Seq<char>,
    question: Seq<char>,
    detail: Seq<char>,
    border: Hue,
    n: int,
    m: int,
)
    ensures
        ({
            let p = confirm_shown(title, question, detail, border);
            &&& p.title == title && p.border == border && p.width == 64
            &&& p.rows == seq![
                seq![plain(question)],
                seq![faint(detail)],
                Seq::empty(),
                seq![
                    styled("y"@, Hue::Yellow, true, false),
                    plain(" confirm  "@),
                    styled("any other key"@, Hue::Yellow, true, false),
                    plain(" cancels"@),
                ],
            ]
            &&& 0 < n <= 1000 && 60 * (n - 1) < question.len() <= 60 * n && 0 < m <= 1000 && 60 * (
            m - 1) < detail.len() <= 60 * m ==> p.height == n + m + 4
            &&& question.len() == 0 && 0 < m <= 1000 && 60 * (m - 1) < detail.len() <= 60 * m
                ==> p.height == m + 5
        }),
{
}

/// What is asked before a worktree is removed or closed.
pub proof fn law_questions_about_worktrees(repo: Seq<char>, branch: Seq<char>)
    ensures
        repo_question(RepoConfirm::Remove, repo, branch).0 == " remove worktree "@,
        repo_question(RepoConfirm::Remove, repo, branch).1 == "remove `"@ + repo
            + "` (worktree on "@ + branch + ") from this space?"@,
        repo_question(RepoConfirm::ToSymlink, repo, branch).0 == " back to symlink "@,
        repo_question(RepoConfirm::ToSymlink, repo, branch).1 == "convert `"@ + repo
            + "` (worktree on "@ + branch + ") back to a symlink?"@,
{
}

/// The outcomes of a pull are shown one by one in their order, what went well and what did not
/// each with its mark and its report.
pub proof fn law_pull_is_shown(
    space: Seq<char>,
    results: Seq<(Seq<char>, Result<Seq<char>, Seq<char>>)>,
    i: int,
)
    ensures
        ({
            let p = pull_shown(space, results);
            let n = results.len() as int;
            &&& p.title == " pull "@ + space + " "@ && p.border == Hue::Yellow && p.width == 70
            &&& n < 16 ==> p.height == n + 4
            &&& 16 <= n < 65536 ==> p.height == 20
            &&& p.rows.len() == n + 2
            &&& p.rows[n].len() == 0
            &&& p.rows[n + 1] == seq![faint("any key to close"@)]
            &&& 0 <= i < n ==> p.rows[i] == (match results[i].1 {
                Ok(msg) => seq![
                    styled("✓ "@, Hue::Green, false, false),
                    styled(filled(results[i].0, 24), Hue::Default, true, false),
                    plain(msg),
                ],
                Err(msg) => seq![
                    styled("✗ "@, Hue::Red, false, false),
                    styled(filled(results[i].0, 24), Hue::Default, true, false),
                    styled(msg, Hue::Red, false, false),
                ],
            })
        }),
{
}

// ---- the bottom line ------------------------------------------------------------------------

/// Hints are a key and what it does, in their order.
pub proof fn law_hints(pairs: Seq<(Seq<char>, Seq<char>)>, i: int)
    ensures
        hints(pairs).len() == 2 * pairs.len(),
        0 <= i < pairs.len() ==> hints(pairs)[2 * i] == styled(
            pairs[i].0,
            Hue::Yellow,
            true,
            false,
        ) && hints(pairs)[2 * i + 1] == plain(" "@ + pairs[i].1 + "  "@),
    decreases pairs.len(),
{
    if pairs.len() > 0 {
        law_hints(pairs.drop_last(), i);
        if i < pairs.len() - 1 && 0 <= i {
            assert(pairs.drop_last()[i] == pairs[i]);
        }
    }
}

/// The bottom line shows the message if there is one, else how far a pull has come, else the keys
/// of the list in front, and behind them which agents are not there.
pub proof fn law_bottom_line(v: AppView)
    ensures
        ({
            let shown = hint_shown(v);
            let keys = match v.pane {
                Pane::Spaces => seq![
                    ("j/k"@, "move"@),
                    ("Tab"@, "pane"@),
                    ("n"@, "new space"@),
                    ("a"@, "add repo"@),
                    ("p"@, "pull"@),
                    ("/"@, "search"@),
                    ("Enter"@, "shell"@),
                    ("c"@, v.names.program),
                    ("o"@, "codex"@),
                    ("D"@, "delete"@),
                    ("q"@, "quit"@),
                ],
                Pane::Repos => seq![
                    ("j/k"@, "move"@),
                    ("Tab"@, "pane"@),
                    ("a"@, "add"@),
                    ("p"@, "pull"@),
                    ("w"@, "worktree"@),
                    ("s"@, "stack"@),
                    ("u"@, "symlink"@),
                    ("x"@, "remove"@),
                    ("Enter"@, "shell"@),
                    ("c"@, v.names.program),
                    ("o"@, "codex"@),
                    ("q"@, "quit"@),
                ],
                Pane::Convos => seq![
                    ("j/k"@, "move"@),
                    ("Tab"@, "pane"@),
                    ("Enter"@, "resume"@),
                    ("f"@, "fork"@),
                    ("/"@, "search all"@),
                    ("q"@, "quit"@),
                ],
            };
            let quiet = v.status is None && !v.pull_active;
            &&& v.status matches Some(m) ==> shown == seq![styled(m, Hue::Red, true, false)]
            &&& v.status is None && v.pull_active ==> shown == seq![
                styled(
                    "pulling "@ + v.pull_space + " "@ + decimal_of(v.pull_results.len()) + "/"@
                        + decimal_of(v.pull_total as nat),
                    Hue::Yellow,
                    true,
                    false,
                ),
            ]
            &&& quiet && v.claude_ok && v.codex_ok ==> shown == hints(keys)
            &&& quiet && !v.claude_ok && v.codex_ok ==> shown == hints(keys).push(
                styled("   ("@ + v.names.program + " not on PATH)"@, Hue::Red, false, false),
            )
            &&& quiet && v.claude_ok && !v.codex_ok ==> shown == hints(keys).push(
                styled("   ("@ + "codex"@ + " not on PATH)"@, Hue::Red, false, false),
            )
            &&& quiet && !v.claude_ok && !v.codex_ok ==> shown == hints(keys).push(
                styled(
                    "   ("@ + (v.names.program + ", "@ + "codex"@) + " not on PATH)"@,
                    Hue::Red,
                    false,
                    false,
                ),
            )
        }),
{
    let both = seq![v.names.program, "codex"@];
    assert(both.drop_last() == seq![v.names.program]);
    assert(joined(seq![v.names.program], ", "@) == v.names.program);
    assert(joined(both, ", "@) == v.names.program + ", "@ + "codex"@);
    let none = Seq::<Seq<char>>::empty();
    assert(none + seq!["codex"@] == seq!["codex"@]);
    assert(seq![v.names.program] + none == seq![v.names.program]);
    assert(seq![v.names.program] + seq!["codex"@] == both);
}

} // verus!
