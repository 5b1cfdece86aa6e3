//! What joining, leaving, making and deleting ask for, in terms of what stands on disk.

use crate::json::quoted;
use crate::path::{base_name_of, file_name_of, joined_path, parent_of, renamed_path};
use crate::policy::policy_of;
use crate::space::{
    act_note, canonical_in, copies, deleting, error_text, exclude_line, file_acts, first_foreign,
    folder_line, fresh_files, gitdir_in, has_unreadable, ignored_notes, is_linked, loose_files,
    managed, member_in, members_in, new_worktree_name, notes_in, promoting, refresh_acts, relink_at,
    removal_ask, removal_next, removing, space_in, tracked_changes, untracked_in, user_entries,
    workspace_text, worktree_name, ActView, AnswerView, Beside, DeletionView, GeneratedView, Kind,
    LayoutView, MemberFactView, PromotionView, RemovalAskView, RemovalView, RemovingView,
    RepoStateView, SpaceErrorView, SpaceRepoView, SpaceView, StageView, SurveyView,
};
use crate::text::{
    decimal_of, has_prefix, has_suffix, is_white, joined, lines_of, nonempty, pieces, trimmed,
};
use crate::text_laws::{
    all_without, ended, law_ended_names_are_read, law_splitting_undoes_joining,
};
use vstd::prelude::*;

verus! {

// ---- what git lists -------------------------------------------------------------------------

/// The uncommitted changes in a status are its lines but for those of untracked files, which
/// start with two question marks.
pub proof fn law_changes_are_counted(lines: Seq<Seq<char>>)
    ensures
        tracked_changes(lines) == lines.filter(
            |l: Seq<char>| !(l.len() >= 2 && l[0] == '?' && l[1] == '?'),
        ).len(),
    decreases lines.len(),
{
    reveal(Seq::filter);
    reveal_strlit("??");
    assert("??"@ == seq!['?', '?']);
    if lines.len() > 0 {
        law_changes_are_counted(lines.drop_last());
        let l = lines.last();
        if l.len() >= 2 && l[0] == '?' && l[1] == '?' {
            assert(l.subrange(0, 2) == seq!['?', '?']);
            assert(l.take(2) == seq!['?', '?']);
        }
        if has_prefix(l, "??"@) {
            assert(l.subrange(0, 2)[0] == l[0] && l.subrange(0, 2)[1] == l[1]);
        }
    }
}

/// Names that are listed each with a NUL behind it are read as they are; of those that are
/// ignored only the notes count, which end in `.md`.
pub proof fn law_listed_names_are_read(names: Seq<Seq<char>>)
    requires
        all_without(names, '\0'),
        forall|i: int| 0 <= i < names.len() ==> (#[trigger] names[i]).len() > 0,
    ensures
        untracked_in(ended(names, seq!['\0'])) == names,
        names.len() > 0 ==> untracked_in(joined(names, seq!['\0'])) == names,
        ignored_notes(ended(names, seq!['\0'])) == names.filter(
            |n: Seq<char>| has_suffix(n, ".md"@),
        ),
{
    law_ended_names_are_read(names, '\0');
    if names.len() > 0 {
        law_splitting_undoes_joining(names, '\0');
        lemma_all_filled(names);
    }
    let all = pieces(ended(names, seq!['\0']), '\0');
    lemma_notes(all);
    lemma_kept_twice(all);
}

proof fn lemma_all_filled(names: Seq<Seq<char>>)
    requires
        forall|i: int| 0 <= i < names.len() ==> (#[trigger] names[i]).len() > 0,
    ensures
        nonempty(names) == names,
    decreases names.len(),
{
    if names.len() > 0 {
        let front = names.drop_last();
        assert forall|i: int| 0 <= i < front.len() implies (#[trigger] front[i]).len() > 0 by {
            assert(front[i] == names[i]);
        }
        lemma_all_filled(front);
        assert(names[names.len() - 1].len() > 0);
        assert(names == front.push(names.last()));
    } else {
        assert(nonempty(names) == names);
    }
}

proof fn lemma_notes(parts: Seq<Seq<char>>)
    ensures
        notes_in(parts) == parts.filter(|n: Seq<char>| has_suffix(n, ".md"@)),
    decreases parts.len(),
{
    reveal(Seq::filter);
    if parts.len() > 0 {
        lemma_notes(parts.drop_last());
    }
}

/// Leaving out the empty ones before or behind the choice of the notes is the same.
proof fn lemma_kept_twice(parts: Seq<Seq<char>>)
    ensures
        nonempty(parts.filter(|n: Seq<char>| has_suffix(n, ".md"@))) == nonempty(parts).filter(
            |n: Seq<char>| has_suffix(n, ".md"@),
        ),
    decreases parts.len(),
{
    reveal(Seq::filter);
    let note = |n: Seq<char>| has_suffix(n, ".md"@);
    if parts.len() > 0 {
        let front = parts.drop_last();
        let last = parts.last();
        lemma_kept_twice(front);
        let a = front.filter(note);
        assert(a.push(last).drop_last() == a);
        let b = nonempty(front);
        assert(b.push(last).drop_last() == b);
    }
}

/// The files that follow into a new worktree are those that git does not track and the ignored
/// notes, each to the same place there.
pub proof fn law_loose_files_are_copied(
    from: Seq<char>,
    to: Seq<char>,
    untracked: Seq<char>,
    ignored: Seq<char>,
    i: int,
)
    ensures
        ({
            let files = untracked_in(untracked) + ignored_notes(ignored);
            let all = copies(from, to, loose_files(untracked, ignored));
            &&& all.len() == files.len()
            &&& 0 <= i < files.len() ==> all[i] == (
                joined_path(from, files[i]),
                joined_path(to, files[i]),
            )
        }),
{
}

/// A `.git` file leads to where it says, whatever white space stands around that.
pub proof fn law_git_file_leads_on(rest: Seq<char>, other: Seq<char>)
    ensures
        gitdir_in("gitdir:"@ + rest) == Some(trimmed(rest)),
        !has_prefix(other, "gitdir:"@) ==> gitdir_in(other) is None,
{
    let g = "gitdir:"@;
    assert((g + rest).subrange(0, g.len() as int) == g);
    assert((g + rest).skip(g.len() as int) == rest);
}

// ---- removing -------------------------------------------------------------------------------

/// What is asked at each stage of removing a worktree: git for its state and for its loose
/// files; whether a note is the same beside; to carry a file over; and at last git to remove it,
/// with force only where it would not otherwise.
pub proof fn law_removal_asks(
    v: RemovalView,
    survey: SurveyView,
    same: Seq<Seq<char>>,
    others: Seq<Seq<char>>,
    left: Seq<Seq<char>>,
)
    requires
        left.len() > 0,
    ensures
        ({
            let at = |stage: StageView| removal_ask(RemovalView { stage, ..v });
            let none = Seq::<char>::empty();
            &&& at(StageView::Inspect) == (RemovalAskView::Git {
                dir: v.dst,
                args: seq!["status"@, "--porcelain"@],
            })
            &&& at(StageView::Untracked { status: none }) == (RemovalAskView::List {
                dir: v.dst,
                args: seq!["ls-files"@, "--others"@, "--exclude-standard"@, "-z"@],
            })
            &&& at(StageView::Ignored { status: none, untracked: none }) == (RemovalAskView::List {
                dir: v.dst,
                args: seq!["ls-files"@, "--others"@, "--ignored"@, "--exclude-standard"@, "-z"@],
            })
            &&& at(StageView::Compare { survey, same, missing: others, left }) == (
            RemovalAskView::Compare {
                from: joined_path(v.dst, left[0]),
                to: joined_path(v.canonical, left[0]),
            })
            &&& at(StageView::Carry { survey, same, carried: others, left }) == (
            RemovalAskView::Copy {
                from: joined_path(v.dst, left[0]),
                to: joined_path(v.canonical, left[0]),
                note: "carrying "@ + left[0] + " back to the canonical repo"@,
            })
            &&& at(StageView::Plain { survey, same, carried: others }) == (RemovalAskView::Git {
                dir: v.canonical,
                args: seq!["worktree"@, "remove"@, v.dst],
            })
            &&& at(StageView::Force { survey, same, carried: others }) == (RemovalAskView::Git {
                dir: v.canonical,
                args: seq!["worktree"@, "remove"@, "--force"@, v.dst],
            })
            &&& at(StageView::Gone) is Nothing
        }),
{
}

/// A worktree is looked at first: with changes it stays; without, its loose files are listed,
/// and the notes among the ignored ones compared one by one with those beside. A note that
/// differs keeps the worktree; one that is the same is left; one that is missing is carried over,
/// and so is every file that git does not track. Only then git is asked to remove it.
pub proof fn law_removal_goes_step_by_step(
    v: RemovalView,
    status: Seq<char>,
    untracked: Seq<char>,
    ignored: Seq<char>,
    report: Seq<char>,
)
    ensures
        ({
            let next = |stage: StageView, answer: AnswerView|
                removal_next(RemovalView { stage, ..v }, answer);
            let yes = |s: Seq<char>| AnswerView::Said(Ok(s));
            let changes = tracked_changes(lines_of(status));
            let survey = SurveyView { status, untracked, ignored };
            let loose = untracked_in(untracked);
            let notes = ignored_notes(ignored);
            &&& changes > 0 ==> next(StageView::Inspect, yes(status)) == Err::<
                StageView,
                SpaceErrorView,
            >(SpaceErrorView::Dirty { repo: v.repo, changes })
            &&& changes == 0 ==> next(StageView::Inspect, yes(status)) == Ok::<
                StageView,
                SpaceErrorView,
            >(StageView::Untracked { status })
            &&& !has_unreadable(loose) ==> next(StageView::Untracked { status }, yes(untracked))
                == Ok::<StageView, SpaceErrorView>(StageView::Ignored { status, untracked })
            &&& has_unreadable(loose) ==> next(StageView::Untracked { status }, yes(untracked))
                == Err::<StageView, SpaceErrorView>(SpaceErrorView::UnreadableName { repo: v.repo })
            &&& has_unreadable(notes) ==> next(
                StageView::Ignored { status, untracked },
                yes(ignored),
            ) == Err::<StageView, SpaceErrorView>(SpaceErrorView::UnreadableName { repo: v.repo })
            &&& !has_unreadable(notes) && notes.len() > 0 ==> next(
                StageView::Ignored { status, untracked },
                yes(ignored),
            ) == Ok::<StageView, SpaceErrorView>(
                StageView::Compare {
                    survey,
                    same: Seq::empty(),
                    missing: Seq::empty(),
                    left: notes,
                },
            )
            &&& notes.len() == 0 && loose.len() > 0 ==> next(
                StageView::Ignored { status, untracked },
                yes(ignored),
            ) == Ok::<StageView, SpaceErrorView>(
                StageView::Carry {
                    survey,
                    same: Seq::empty(),
                    carried: Seq::empty(),
                    left: loose,
                },
            )
            &&& notes.len() == 0 && loose.len() == 0 ==> next(
                StageView::Ignored { status, untracked },
                yes(ignored),
            ) == Ok::<StageView, SpaceErrorView>(
                StageView::Plain { survey, same: Seq::empty(), carried: Seq::empty() },
            )
            &&& next(StageView::Inspect, AnswerView::Said(Err(report))) == Err::<
                StageView,
                SpaceErrorView,
            >(SpaceErrorView::Failed { report })
        }),
{
    let loose = untracked_in(untracked);
    assert(loose + Seq::<Seq<char>>::empty() == loose);
}

/// The notes are compared and the files carried in their order, each once, until none is left.
pub proof fn law_removal_takes_file_by_file(
    v: RemovalView,
    survey: SurveyView,
    same: Seq<Seq<char>>,
    missing: Seq<Seq<char>>,
    carried: Seq<Seq<char>>,
    left: Seq<Seq<char>>,
    said: Seq<char>,
)
    requires
        left.len() > 1,
    ensures
        ({
            let next = |stage: StageView, answer: AnswerView|
                removal_next(RemovalView { stage, ..v }, answer);
            let ok = |stage: StageView| Ok::<StageView, SpaceErrorView>(stage);
            let comparing = StageView::Compare { survey, same, missing, left };
            let carrying = StageView::Carry { survey, same, carried, left };
            let rest = left.skip(1);
            let last = left.take(1);
            &&& next(comparing, AnswerView::Held(Beside::Same)) == ok(
                StageView::Compare { survey, same: same.push(left[0]), missing, left: rest },
            )
            &&& next(comparing, AnswerView::Held(Beside::Missing)) == ok(
                StageView::Compare { survey, same, missing: missing.push(left[0]), left: rest },
            )
            &&& next(comparing, AnswerView::Held(Beside::Differs)) == Err::<
                StageView,
                SpaceErrorView,
            >(SpaceErrorView::NoteDiffers { repo: v.repo, file: left[0] })
            &&& next(carrying, AnswerView::Said(Ok(said))) == ok(
                StageView::Carry { survey, same, carried: carried.push(left[0]), left: rest },
            )
            &&& next(
                StageView::Carry { survey, same, carried, left: last },
                AnswerView::Said(Ok(said)),
            ) == ok(StageView::Plain { survey, same, carried: carried.push(left[0]) })
            &&& untracked_in(survey.untracked).len() > 0 ==> next(
                StageView::Compare { survey, same, missing, left: last },
                AnswerView::Held(Beside::Same),
            ) == ok(
                StageView::Carry {
                    survey,
                    same: same.push(left[0]),
                    carried: Seq::empty(),
                    left: untracked_in(survey.untracked) + missing,
                },
            )
            &&& next(
                StageView::Compare { survey, same, missing, left: last },
                AnswerView::Held(Beside::Missing),
            ) == ok(
                StageView::Carry {
                    survey,
                    same,
                    carried: Seq::empty(),
                    left: untracked_in(survey.untracked) + missing.push(left[0]),
                },
            )
        }),
{
    assert(left.drop_first() == left.skip(1));
    let last = left.take(1);
    assert(last[0] == left[0]);
    assert(last.drop_first() == Seq::<Seq<char>>::empty());
}

/// Where git removes the worktree, or is made to, it is gone; where it will not at first, it is
/// made to, and where it will not even so, its report is the error.
pub proof fn law_removal_ends(
    v: RemovalView,
    survey: SurveyView,
    same: Seq<Seq<char>>,
    carried: Seq<Seq<char>>,
    said: Seq<char>,
)
    ensures
        ({
            let next = |stage: StageView, answer: AnswerView|
                removal_next(RemovalView { stage, ..v }, answer);
            let plain = StageView::Plain { survey, same, carried };
            let force = StageView::Force { survey, same, carried };
            let gone = Ok::<StageView, SpaceErrorView>(StageView::Gone);
            &&& next(plain, AnswerView::Said(Ok(said))) == gone
            &&& next(plain, AnswerView::Said(Err(said))) == Ok::<StageView, SpaceErrorView>(force)
            &&& next(force, AnswerView::Said(Ok(said))) == gone
            &&& next(force, AnswerView::Said(Err(said))) == Err::<StageView, SpaceErrorView>(
                SpaceErrorView::Failed { report: said },
            )
            &&& next(StageView::Gone, AnswerView::Said(Err(said))) == gone
        }),
{
}

/// A link is taken away; a worktree goes the longer way, from beside the repo it belongs to,
/// which stands where the common directory of git has its parent; what is neither stays, and so
/// does what is not there.
pub proof fn law_members_leave(
    space: Seq<char>,
    f: MemberFactView,
    common: Seq<char>,
    report: Seq<char>,
    home: Seq<char>,
    worktree: bool,
)
    requires
        parent_of(joined_path(joined_path(space, f.name), common)) == Some(home),
    ensures
        ({
            let dst = joined_path(space, f.name);
            &&& f.kind == Kind::Link ==> removing(space, f, worktree, Ok(common)) == Ok::<
                RemovingView,
                SpaceErrorView,
            >(RemovingView::Unlink { act: ActView::RemoveFile { path: dst } })
            &&& f.kind == Kind::Missing ==> removing(space, f, worktree, Ok(common)) == Err::<
                RemovingView,
                SpaceErrorView,
            >(SpaceErrorView::NotMember { repo: f.name })
            &&& is_linked(f) ==> removing(space, f, true, Ok(common)) == Ok::<
                RemovingView,
                SpaceErrorView,
            >(
                RemovingView::Worktree {
                    removal: RemovalView {
                        canonical: home,
                        dst,
                        repo: f.name,
                        stage: StageView::Inspect,
                    },
                },
            )
            &&& is_linked(f) ==> removing(space, f, true, Err(report)) == Err::<
                RemovingView,
                SpaceErrorView,
            >(SpaceErrorView::Failed { report })
            &&& f.kind == Kind::File || (f.kind == Kind::Dir && !(is_linked(f) && worktree))
                ==> removing(space, f, worktree, Ok(common)) == Err::<RemovingView, SpaceErrorView>(
                SpaceErrorView::Unmanaged { repo: f.name },
            )
            &&& canonical_in(joined_path(space, f.name), common) == Some(home)
        }),
{
}

// ---- worktrees ------------------------------------------------------------------------------

/// A worktree is called after its repo and its branch: the name of the repo, a dash, and the
/// branch with a dash for each slash and each white space in it.
pub proof fn law_worktrees_are_named(repo: Seq<char>, branch: Seq<char>, i: int)
    ensures
        ({
            let name = worktree_name(repo, branch);
            &&& name.len() == repo.len() + 1 + branch.len()
            &&& name.take(repo.len() as int) == repo
            &&& name[repo.len() as int] == '-'
            &&& 0 <= i < branch.len() && (branch[i] == '/' || is_white(branch[i]))
                ==> name[repo.len() + 1 + i] == '-'
            &&& 0 <= i < branch.len() && branch[i] != '/' && !is_white(branch[i])
                ==> name[repo.len() + 1 + i] == branch[i]
        }),
{
    reveal_strlit("-");
    assert("-"@ == seq!['-']);
    assert(worktree_name(repo, branch).take(repo.len() as int) == repo);
}

/// A new worktree stands in the space, under the name of its repo and branch, and git is asked to
/// add it there on a new branch, or else on the branch as it is. It takes a branch, a repo, and
/// a free place.
pub proof fn law_worktrees_are_added(
    space: Seq<char>,
    repo: Seq<char>,
    branch: Seq<char>,
    canonical: Seq<char>,
    base: Seq<char>,
    at: Kind,
)
    requires
        file_name_of(canonical) == Some(base),
    ensures
        ({
            let b = trimmed(branch);
            let name = worktree_name(base, b);
            let dst = joined_path(space, name);
            &&& b.len() > 0 ==> promoting(space, repo, branch, canonical, true, Kind::Missing)
                == Ok::<PromotionView, SpaceErrorView>(
                PromotionView {
                    name,
                    dst,
                    create: seq!["worktree"@, "add"@, dst, "-b"@, b],
                    checkout: seq!["worktree"@, "add"@, dst, b],
                },
            )
            &&& b.len() == 0 ==> promoting(space, repo, branch, canonical, true, at) == Err::<
                PromotionView,
                SpaceErrorView,
            >(SpaceErrorView::EmptyBranch)
            &&& b.len() > 0 ==> promoting(space, repo, branch, canonical, false, at) == Err::<
                PromotionView,
                SpaceErrorView,
            >(SpaceErrorView::NoCanonical { repo })
            &&& b.len() > 0 && at != Kind::Missing ==> promoting(
                space,
                repo,
                branch,
                canonical,
                true,
                at,
            ) == Err::<PromotionView, SpaceErrorView>(SpaceErrorView::NameTaken { name })
            &&& new_worktree_name(repo, canonical, branch) == name
            &&& relink_at(space, name, canonical) == joined_path(space, base)
        }),
{
}

// ---- deleting -------------------------------------------------------------------------------

proof fn lemma_first_foreign(repos: Seq<SpaceRepoView>)
    ensures
        first_foreign(repos) is Some <==> exists|i: int|
            0 <= i < repos.len() && (#[trigger] repos[i]).state is Foreign,
        first_foreign(repos) matches Some(n) ==> exists|i: int|
            0 <= i < repos.len() && (#[trigger] repos[i]).state is Foreign && repos[i].name == n
                && forall|j: int| 0 <= j < i ==> !((#[trigger] repos[j]).state is Foreign),
    decreases repos.len(),
{
    if repos.len() > 0 {
        let rest = repos.drop_first();
        lemma_first_foreign(rest);
        if exists|i: int| 0 <= i < rest.len() && (#[trigger] rest[i]).state is Foreign {
            let i = choose|i: int| 0 <= i < rest.len() && (#[trigger] rest[i]).state is Foreign;
            assert(repos[i + 1] == rest[i]);
        }
        if exists|i: int| 0 <= i < repos.len() && (#[trigger] repos[i]).state is Foreign {
            let i = choose|i: int| 0 <= i < repos.len() && (#[trigger] repos[i]).state is Foreign;
            if i > 0 {
                assert(rest[i - 1] == repos[i]);
            }
        }
        match first_foreign(rest) {
            Some(n) => {
                if !(repos[0].state is Foreign) {
                    let i = choose|i: int|
                        0 <= i < rest.len() && (#[trigger] rest[i]).state is Foreign && rest[i].name
                            == n && forall|j: int|
                            0 <= j < i ==> !((#[trigger] rest[j]).state is Foreign);
                    assert(repos[i + 1] == rest[i]);
                    assert forall|j: int| 0 <= j < i + 1 implies !((
                    #[trigger] repos[j]).state is Foreign) by {
                        if j > 0 {
                            assert(rest[j - 1] == repos[j]);
                        }
                    }
                }
            },
            None => {},
        }
    }
}

/// Whether something in a space is the user's own: a plain file, or a hidden or otherwise
/// skipped entry, that is none of the files that the tool writes there.
pub open spec fn is_users_own(f: MemberFactView, name: Seq<char>, policy_file: Seq<char>) -> bool {
    let written = f.kind == Kind::File && (f.name == ".space.toml"@ || f.name == policy_file || f.name
        == "AGENTS.md"@ || f.name == name + ".code-workspace"@);
    f.kind != Kind::Missing && !written && (member_in(f, policy_file) is None || f.is_file)
}

proof fn lemma_user_entries(
    facts: Seq<MemberFactView>,
    name: Seq<char>,
    policy_file: Seq<char>,
    n: Seq<char>,
)
    ensures
        user_entries(facts, name, policy_file).contains(n) <==> exists|i: int|
            0 <= i < facts.len() && is_users_own(#[trigger] facts[i], name, policy_file)
                && facts[i].name == n,
    decreases facts.len(),
{
    if facts.len() > 0 {
        let front = facts.drop_last();
        lemma_user_entries(front, name, policy_file, n);
        let before = user_entries(front, name, policy_file);
        let f = facts[facts.len() - 1];
        let all = user_entries(facts, name, policy_file);
        if is_users_own(f, name, policy_file) {
            assert(all == before.push(f.name));
            assert(all[before.len() as int] == f.name);
            if before.contains(n) {
                let i = choose|i: int| 0 <= i < before.len() && before[i] == n;
                assert(all[i] == n);
            }
            if all.contains(n) && n != f.name {
                let i = choose|i: int| 0 <= i < all.len() && all[i] == n;
                assert(before[i] == n);
            }
        } else {
            assert(all == before);
        }
        if before.contains(n) {
            let i = choose|i: int|
                0 <= i < front.len() && is_users_own(#[trigger] front[i], name, policy_file)
                    && front[i].name == n;
            assert(facts[i] == front[i]);
        }
        if exists|i: int|
            0 <= i < facts.len() && is_users_own(#[trigger] facts[i], name, policy_file)
                && facts[i].name == n {
            let i = choose|i: int|
                0 <= i < facts.len() && is_users_own(#[trigger] facts[i], name, policy_file)
                    && facts[i].name == n;
            if i < front.len() {
                assert(front[i] == facts[i]);
            }
        }
    }
}

/// A space can be deleted where it is one, holds nothing unmanaged and nothing of the user's own;
/// else it is told what is in the way. Deleted are all of its members and just the four files
/// that the tool wrote.
pub proof fn law_deletion_plan(
    path: Seq<char>,
    marked: bool,
    facts: Seq<MemberFactView>,
    policy_file: Seq<char>,
    i: int,
)
    ensures
        ({
            let r = deleting(path, marked, facts, policy_file);
            let repos = space_in(path, facts, policy_file).repos;
            let name = base_name_of(path);
            let foreign = exists|k: int|
                0 <= k < repos.len() && (#[trigger] repos[k]).state is Foreign;
            let own = exists|k: int|
                0 <= k < facts.len() && is_users_own(#[trigger] facts[k], name, policy_file);
            &&& r is Ok <==> marked && !foreign && !own
            &&& !marked ==> r == Err::<DeletionView, SpaceErrorView>(SpaceErrorView::NotSpace)
            &&& marked && foreign ==> (r matches Err(SpaceErrorView::Foreign { name: n })
                && exists|k: int|
                0 <= k < repos.len() && (#[trigger] repos[k]).state is Foreign && repos[k].name
                    == n && forall|j: int|
                    0 <= j < k ==> !((#[trigger] repos[j]).state is Foreign))
            &&& marked && !foreign && own ==> r == Err::<DeletionView, SpaceErrorView>(
                SpaceErrorView::UserFiles {
                    names: facts.filter(
                        |f: MemberFactView| is_users_own(f, name, policy_file),
                    ).map_values(|f: MemberFactView| f.name),
                },
            )
            &&& r matches Ok(plan) ==> {
                &&& plan.members.len() == repos.len()
                &&& 0 <= i < repos.len() ==> plan.members[i] == repos[i].name
                &&& plan.files == seq![
                    joined_path(path, ".space.toml"@),
                    joined_path(path, policy_file),
                    joined_path(path, "AGENTS.md"@),
                    joined_path(path, name + ".code-workspace"@),
                ]
            }
        }),
{
    let repos = space_in(path, facts, policy_file).repos;
    let name = base_name_of(path);
    let own = user_entries(facts, name, policy_file);
    lemma_first_foreign(repos);
    lemma_user_names(facts, name, policy_file);
    if own.len() > 0 {
        lemma_user_entries(facts, name, policy_file, own[0]);
        assert(own.contains(own[0]));
    }
    if exists|k: int| 0 <= k < facts.len() && is_users_own(#[trigger] facts[k], name, policy_file) {
        let k = choose|k: int|
            0 <= k < facts.len() && is_users_own(#[trigger] facts[k], name, policy_file);
        lemma_user_entries(facts, name, policy_file, facts[k].name);
        assert(own.contains(facts[k].name));
    }
}

proof fn lemma_user_names(facts: Seq<MemberFactView>, name: Seq<char>, policy_file: Seq<char>)
    ensures
        user_entries(facts, name, policy_file) == facts.filter(
            |f: MemberFactView| is_users_own(f, name, policy_file),
        ).map_values(|f: MemberFactView| f.name),
    decreases facts.len(),
{
    reveal(Seq::filter);
    let own = |f: MemberFactView| is_users_own(f, name, policy_file);
    let called = |f: MemberFactView| f.name;
    if facts.len() > 0 {
        let front = facts.drop_last();
        lemma_user_names(front, name, policy_file);
        let kept = front.filter(own);
        assert(kept.push(facts.last()).map_values(called) == kept.map_values(called).push(
            facts.last().name,
        ));
    } else {
        assert(facts.filter(own).map_values(called) == Seq::<Seq<char>>::empty());
    }
}

// ---- generated files ------------------------------------------------------------------------

/// A new space has its marker, which names it, and the policy under both of its names.
pub proof fn law_new_space_files(
    space: Seq<char>,
    name: Seq<char>,
    policy_file: Seq<char>,
    layout: LayoutView,
)
    ensures
        ({
            let acts = file_acts(space, name, policy_file, layout);
            let policy = policy_of(name, layout);
            &&& acts.len() == 3
            &&& acts[0] == (ActView::Write {
                path: joined_path(space, ".space.toml"@),
                text: "# managed by `space`; presence marks this folder as a space\nname = \""@
                    + name + "\"\n"@,
            })
            &&& acts[1] == (ActView::Write { path: joined_path(space, policy_file), text: policy })
            &&& acts[2] == (ActView::Write { path: joined_path(space, "AGENTS.md"@), text: policy })
        }),
{
}

/// What is generated is written again where it differs from what it should be, by way of a
/// hidden file beside it, and only there: the policy under both of its names, by the name of the
/// space, and the workspace of its members.
pub proof fn law_stale_files_are_replaced(
    root: Seq<char>,
    name: Seq<char>,
    facts: Seq<MemberFactView>,
    current: GeneratedView,
    policy_file: Seq<char>,
    layout: LayoutView,
)
    requires
        base_name_of(joined_path(root, name)) == name,
    ensures
        ({
            let space = joined_path(root, name);
            let acts = refresh_acts(space, facts, current, policy_file, layout);
            let policy = policy_of(name, layout);
            let work = workspace_text(space_in(space, facts, policy_file));
            let due = |at: Seq<char>, now: Option<Seq<char>>, text: Seq<char>|
                if now == Some(text) {
                    Seq::<ActView>::empty()
                } else {
                    let path = joined_path(space, at);
                    seq![
                        ActView::Replace {
                            path,
                            tmp: renamed_path(path, "."@ + base_name_of(path) + ".tmp"@),
                            text,
                        },
                    ]
                };
            acts == due(policy_file, current.claude, policy) + due(
                "AGENTS.md"@,
                current.agents,
                policy,
            ) + due(name + ".code-workspace"@, current.workspace, work)
        }),
{
}

/// Right after a space was made only its workspace file is still to be written: the policy is
/// there as it should be.
pub proof fn law_new_space_lacks_its_workspace(
    root: Seq<char>,
    name: Seq<char>,
    policy_file: Seq<char>,
    layout: LayoutView,
)
    requires
        base_name_of(joined_path(root, name)) == name,
    ensures
        ({
            let space = joined_path(root, name);
            let acts = refresh_acts(
                space,
                Seq::empty(),
                fresh_files(name, layout),
                policy_file,
                layout,
            );
            &&& acts.len() == 1
            &&& acts[0] matches ActView::Replace { path, text, .. } && path == joined_path(
                space,
                name + ".code-workspace"@,
            ) && text == workspace_text(SpaceView { name, path: space, repos: Seq::empty() })
        }),
{
    let space = joined_path(root, name);
    let facts = Seq::<MemberFactView>::empty();
    assert(members_in(facts, policy_file) == Seq::<SpaceRepoView>::empty());
    assert(space_in(space, facts, policy_file) == (SpaceView {
        name,
        path: space,
        repos: Seq::empty(),
    }));
}

/// A name is no text where a character of it could not be read.
pub proof fn law_unreadable_names(names: Seq<Seq<char>>)
    ensures
        has_unreadable(names) <==> exists|i: int, j: int|
            0 <= i < names.len() && 0 <= j < names[i].len() && #[trigger] names[i][j] == '\u{fffd}',
{
    if has_unreadable(names) {
        let i = choose|i: int|
            0 <= i < names.len() && (#[trigger] names[i]).contains('\u{fffd}');
        let j = choose|j: int| 0 <= j < names[i].len() && names[i][j] == '\u{fffd}';
        assert(names[i][j] == '\u{fffd}');
    }
    if exists|i: int, j: int|
        0 <= i < names.len() && 0 <= j < names[i].len() && #[trigger] names[i][j] == '\u{fffd}' {
        let (i, j) = choose|i: int, j: int|
            0 <= i < names.len() && 0 <= j < names[i].len() && #[trigger] names[i][j] == '\u{fffd}';
        assert(names[i].contains('\u{fffd}'));
    }
}

proof fn lemma_managed(repos: Seq<SpaceRepoView>)
    ensures
        managed(repos) == repos.filter(|r: SpaceRepoView| !(r.state is Foreign)),
    decreases repos.len(),
{
    reveal(Seq::filter);
    if repos.len() > 0 {
        lemma_managed(repos.drop_last());
    }
}

/// The workspace file lists the space itself and each of its repos, in their order, those that
/// are worktrees under their branch too, and hides the repos from the listing of the space; what
/// is no repo is in neither list.
pub proof fn law_workspace_lists_the_repos(space: SpaceView)
    ensures
        ({
            let repos = space.repos.filter(|r: SpaceRepoView| !(r.state is Foreign));
            let folders = Seq::new(
                repos.len(),
                |i: int|
                    match repos[i].state {
                        RepoStateView::Worktree { branch } => "    { \"name\": "@ + quoted(
                            repos[i].name + " ("@ + branch + ")"@,
                        ) + ", \"path\": "@ + quoted(repos[i].name) + " }"@,
                        _ => "    { \"path\": "@ + quoted(repos[i].name) + " }"@,
                    },
            );
            let hidden = Seq::new(
                repos.len(),
                |i: int| "      "@ + quoted(repos[i].name) + ": true"@,
            );
            workspace_text(space) == "{\n  \"folders\": [\n"@ + joined(
                seq![
                    "    { \"name\": "@ + quoted(space.name + " (space)"@)
                        + ", \"path\": \".\" }"@,
                ] + folders,
                ",\n"@,
            ) + "\n  ],\n  \"settings\": {\n    \"files.exclude\": {\n"@ + joined(hidden, ",\n"@)
                + "\n    }\n  }\n}\n"@
        }),
{
    lemma_managed(space.repos);
    let repos = managed(space.repos);
    let folders = Seq::new(
        repos.len(),
        |i: int|
            match repos[i].state {
                RepoStateView::Worktree { branch } => "    { \"name\": "@ + quoted(
                    repos[i].name + " ("@ + branch + ")"@,
                ) + ", \"path\": "@ + quoted(repos[i].name) + " }"@,
                _ => "    { \"path\": "@ + quoted(repos[i].name) + " }"@,
            },
    );
    let hidden = Seq::new(repos.len(), |i: int| "      "@ + quoted(repos[i].name) + ": true"@);
    assert(repos.map_values(|r: SpaceRepoView| folder_line(r)) == folders);
    assert(repos.map_values(|r: SpaceRepoView| exclude_line(r)) == hidden);
}

/// What is told while things are done: what is created, what is replaced, and of a link what it
/// was made with; nothing of the rest.
pub proof fn law_notes_are_told(
    path: Seq<char>,
    text: Seq<char>,
    tmp: Seq<char>,
    note: Option<Seq<char>>,
)
    ensures
        act_note(ActView::MakeDir { path }) == Some("creating "@ + path),
        act_note(ActView::Replace { path, tmp, text }) == Some("replacing "@ + path),
        act_note(ActView::Link { target: text, at: path, note }) == note,
        act_note(ActView::Write { path, text }) is None,
        act_note(ActView::RemoveFile { path }) is None,
{
}

/// What each error says.
pub proof fn law_errors_say(a: Seq<char>, b: Seq<char>, all: Seq<Seq<char>>, n: nat)
    ensures
        error_text(SpaceErrorView::EmptyName) == "space name cannot be empty"@,
        error_text(SpaceErrorView::ReservedName { pool: a }) == "`"@ + a
            + "` is reserved for the canonical repo pool"@,
        error_text(SpaceErrorView::InvalidName) == "invalid space name"@,
        error_text(SpaceErrorView::NoRoot { root: a }) == "cannot locate "@ + a,
        error_text(SpaceErrorView::Exists { root: a, name: b }) == a + "/"@ + b
            + " already exists"@,
        error_text(SpaceErrorView::NoPool) == "cannot locate the repo pool"@,
        error_text(SpaceErrorView::UnknownRepo { name: a, available: all }) == "no repo `"@ + a
            + "` in the pool; available: "@ + joined(all, ", "@),
        error_text(SpaceErrorView::AmbiguousRepo { name: a, hits: all }) == "`"@ + a
            + "` is ambiguous: "@ + joined(all, ", "@),
        error_text(SpaceErrorView::NotInPool { repo: a, pool: b }) == "no repo `"@ + a + "` in "@
            + b,
        error_text(SpaceErrorView::InvalidRepo { repo: a }) == "invalid repo name `"@ + a + "`"@,
        error_text(SpaceErrorView::AlreadyMember { name: a }) == "`"@ + a
            + "` is already in this space"@,
        error_text(SpaceErrorView::NotMember { repo: a }) == "`"@ + a + "` is not in this space"@,
        error_text(SpaceErrorView::Unmanaged { repo: a }) == "`"@ + a
            + "` is not a space-managed symlink or worktree; leaving it alone"@,
        n != 1 ==> error_text(SpaceErrorView::Dirty { repo: a, changes: n }) == "`"@ + a + "` has "@
            + decimal_of(n) + " uncommitted change"@ + "s"@ + "; commit, stash, or discard first"@,
        error_text(SpaceErrorView::Dirty { repo: a, changes: 1 }) == "`"@ + a + "` has "@
            + decimal_of(1) + " uncommitted change"@ + Seq::<char>::empty()
            + "; commit, stash, or discard first"@,
        error_text(SpaceErrorView::NoteDiffers { repo: a, file: b }) == "`"@ + b + "` in `"@ + a
            + "` differs from the canonical repo's; merge the two first"@,
        error_text(SpaceErrorView::UnreadableName { repo: a }) == "`"@ + a
            + "` has a file whose name is no text; rename it first"@,
        error_text(SpaceErrorView::EmptyBranch) == "branch name cannot be empty"@,
        error_text(SpaceErrorView::NoCanonical { repo: a }) == "cannot resolve a canonical repo for `"@
            + a + "`"@,
        error_text(SpaceErrorView::NameTaken { name: a }) == "`"@ + a
            + "` already exists in this space"@,
        error_text(SpaceErrorView::NotWorktree { member: a }) == "`"@ + a + "` is not a worktree"@,
        error_text(SpaceErrorView::NotSpace) == "not a space"@,
        error_text(SpaceErrorView::Foreign { name: a }) == "`"@ + a
            + "` is not space-managed; remove it by hand first"@,
        error_text(SpaceErrorView::UserFiles { names: all }) == "space contains your files ("@
            + joined(all, ", "@) + "); move or delete them first"@,
        error_text(SpaceErrorView::NotEmpty)
            == "space not empty after removing managed content; left in place"@,
        error_text(SpaceErrorView::NoCommonDir) == "cannot resolve canonical repo for worktree"@,
        error_text(SpaceErrorView::Failed { report: a }) == a,
{
}

/// A failure of git or of a copy ends a removal with its report at every stage but the plain
/// removal; an answer that was not asked for changes nothing.
pub proof fn law_removal_stops_at_failures(
    v: RemovalView,
    survey: SurveyView,
    same: Seq<Seq<char>>,
    others: Seq<Seq<char>>,
    left: Seq<Seq<char>>,
    text: Seq<char>,
    report: Seq<char>,
    held: Beside,
)
    ensures
        ({
            let next = |stage: StageView, answer: AnswerView|
                removal_next(RemovalView { stage, ..v }, answer);
            let failed = Err::<StageView, SpaceErrorView>(SpaceErrorView::Failed { report });
            let no = AnswerView::Said(Err(report));
            let untracked = StageView::Untracked { status: text };
            let ignored = StageView::Ignored { status: text, untracked: text };
            let carry = StageView::Carry { survey, same, carried: others, left };
            let compare = StageView::Compare { survey, same, missing: others, left };
            &&& next(untracked, no) == failed
            &&& next(ignored, no) == failed
            &&& next(carry, no) == failed
            &&& next(compare, no) == failed
            &&& next(StageView::Inspect, AnswerView::Held(held)) == Ok::<StageView, SpaceErrorView>(
                StageView::Inspect,
            )
            &&& next(untracked, AnswerView::Held(held)) == Ok::<StageView, SpaceErrorView>(untracked)
            &&& next(ignored, AnswerView::Held(held)) == Ok::<StageView, SpaceErrorView>(ignored)
            &&& next(carry, AnswerView::Held(held)) == Ok::<StageView, SpaceErrorView>(carry)
            &&& next(compare, AnswerView::Said(Ok(text))) == Ok::<StageView, SpaceErrorView>(compare)
        }),
{
}

} // verus!
