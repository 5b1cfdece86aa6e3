//! What making a worktree and taking a space apart ask for, step by step.

use crate::dismantle::{
    dismantling_ask, dismantling_next, started, DismantlingAnswerView, DismantlingAskView,
    DismantlingView,
};
use crate::git::failure_text;
use crate::path::joined_path;
use crate::policy::{policy_of, COMMANDS, DETAILS, EDITING, GROUPED, INTRO, SOURCE, WORKSPACE};
use crate::space::{
    ignored_notes, removal_ask, removal_next, removing, untracked_in, ActView, AnswerView,
    DeletionView, LayoutView, MemberFactView, RemovalView, RemovingView, SpaceErrorView,
};
use crate::text::{joined, lossy_text, trimmed};
use crate::worktree::{making_ask, making_next, MakingAskView, MakingView, NewWorktreeView};
use vstd::prelude::*;

verus! {

// ---- a new worktree -------------------------------------------------------------------------

/// Git is asked, from the repo, to add the worktree on a new branch and, where it cannot, on the
/// branch that there is; next which files it does not track and which it ignores.
pub proof fn law_making_asks(v: NewWorktreeView, left: Seq<(Seq<char>, Seq<char>)>)
    requires
        left.len() > 0,
    ensures
        ({
            let at = |stage: MakingView| making_ask(NewWorktreeView { stage, ..v });
            &&& at(MakingView::Create) == (MakingAskView::Git {
                dir: v.canonical,
                args: v.promotion.create,
            })
            &&& at(MakingView::Checkout) == (MakingAskView::Git {
                dir: v.canonical,
                args: v.promotion.checkout,
            })
            &&& at(MakingView::Untracked) == (MakingAskView::List {
                dir: v.canonical,
                args: seq!["ls-files"@, "--others"@, "--exclude-standard"@, "-z"@],
            })
            &&& at(MakingView::Ignored { untracked: Seq::empty() }) == (MakingAskView::List {
                dir: v.canonical,
                args: seq!["ls-files"@, "--others"@, "--ignored"@, "--exclude-standard"@, "-z"@],
            })
            &&& at(MakingView::Copy { left }) == (MakingAskView::Copy {
                from: left[0].0,
                to: left[0].1,
            })
            &&& at(MakingView::Made) is Nothing
        }),
{
}

/// From adding on, an answer leads on to the listings and these to the copies; that no ignored
/// files could be listed is no error, every other failure is.
pub proof fn law_making_goes_on(
    v: NewWorktreeView,
    said: Seq<char>,
    untracked: Seq<char>,
    left: Seq<(Seq<char>, Seq<char>)>,
)
    requires
        left.len() > 1,
    ensures
        ({
            let next = |stage: MakingView, reply: Result<Seq<char>, Seq<char>>|
                making_next(NewWorktreeView { stage, ..v }, reply);
            let ok = |stage: MakingView| Ok::<MakingView, SpaceErrorView>(stage);
            let failed = Err::<MakingView, SpaceErrorView>(SpaceErrorView::Failed { report: said });
            &&& next(MakingView::Create, Ok(said)) == ok(MakingView::Untracked)
            &&& next(MakingView::Create, Err(said)) == ok(MakingView::Checkout)
            &&& next(MakingView::Checkout, Ok(said)) == ok(MakingView::Untracked)
            &&& next(MakingView::Checkout, Err(said)) == failed
            &&& next(MakingView::Untracked, Ok(said)) == ok(
                MakingView::Ignored { untracked: said },
            )
            &&& next(MakingView::Untracked, Err(said)) == failed
            &&& next(MakingView::Ignored { untracked }, Err(said)) == next(
                MakingView::Ignored { untracked },
                Ok(Seq::empty()),
            )
            &&& untracked_in(untracked).len() == 0 && ignored_notes(said).len() == 0 ==> next(
                MakingView::Ignored { untracked },
                Ok(said),
            ) == ok(MakingView::Made)
            &&& next(MakingView::Copy { left }, Ok(said)) == ok(
                MakingView::Copy { left: left.skip(1) },
            )
            &&& next(MakingView::Copy { left: left.take(1) }, Ok(said)) == ok(MakingView::Made)
            &&& next(MakingView::Copy { left }, Err(said)) == next(
                MakingView::Copy { left },
                Ok(said),
            )
        }),
{
    assert(left.drop_first() == left.skip(1));
    assert(left.take(1).drop_first() == Seq::<(Seq<char>, Seq<char>)>::empty());
}

/// The copies are, of each file that git does not track and of each ignored note, in that order,
/// from the repo to the same place in the worktree.
pub proof fn law_making_copies(v: NewWorktreeView, untracked: Seq<char>, ignored: Seq<char>, i: int)
    requires
        v.stage == (MakingView::Ignored { untracked }),
    ensures
        ({
            let files = untracked_in(untracked) + ignored_notes(ignored);
            0 <= i < files.len() ==> (making_next(v, Ok(ignored)) matches Ok(
                MakingView::Copy { left },
            ) && left.len() == files.len() && left[i] == (
                joined_path(v.canonical, files[i]),
                joined_path(v.promotion.dst, files[i]),
            ))
        }),
{
}

// ---- taking a space apart -------------------------------------------------------------------

/// Taking a space apart starts with all of its members and files still to go.
pub proof fn law_dismantling_starts(space: Seq<char>, plan: DeletionView)
    ensures
        ({
            let v = started(space, plan);
            &&& v.space == space && v.members == plan.members && v.files == plan.files
            &&& v.ready.len() == 0 && v.now is None && v.taken == 0 && v.dropped == 0 && !v.done
            &&& plan.members.len() > 0 ==> dismantling_ask(v) == (DismantlingAskView::Look {
                name: plan.members[0],
            })
        }),
{
}

/// What is asked next: to look at the next member, and to check it where it is a worktree; with
/// all checked, to take them away in their order; with all of them gone, to drop the files one
/// by one, and last the directory of the space.
pub proof fn law_dismantling_asks(v: DismantlingView)
    requires
        !v.done,
    ensures
        v.now matches Some(r) ==> dismantling_ask(v) == (DismantlingAskView::Step {
            ask: removal_ask(r),
        }),
        v.now is None && v.ready.len() < v.members.len() ==> dismantling_ask(v) == (
        DismantlingAskView::Look { name: v.members[v.ready.len() as int] }),
        v.now is None && v.ready.len() == v.members.len() && v.taken < v.members.len()
            ==> match v.ready[v.taken as int] {
            RemovingView::Unlink { act } => dismantling_ask(v) == (DismantlingAskView::Act { act }),
            RemovingView::Worktree { removal } => dismantling_ask(v) == (DismantlingAskView::Step {
                ask: removal_ask(removal),
            }),
        },
        v.now is None && v.ready.len() == v.members.len() && v.taken == v.members.len() && v.dropped
            < v.files.len() ==> dismantling_ask(v) == (DismantlingAskView::Drop {
            path: v.files[v.dropped as int],
        }),
        v.now is None && v.ready.len() == v.members.len() && v.taken == v.members.len() && v.dropped
            == v.files.len() ==> dismantling_ask(v) == (DismantlingAskView::RemoveDir {
            path: v.space,
        }),
        dismantling_ask(DismantlingView { done: true, ..v }) is Nothing,
{
}

/// A member that was looked at is ready where it is a link, and is checked further where it is
/// a worktree; what cannot be removed ends it all.
pub proof fn law_dismantling_looks(
    v: DismantlingView,
    fact: MemberFactView,
    worktree: bool,
    common: Result<Seq<char>, Seq<char>>,
)
    requires
        !v.done,
        v.now is None,
        v.ready.len() < v.members.len(),
        fact.name == v.members[v.ready.len() as int],
    ensures
        ({
            let next = dismantling_next(
                v,
                DismantlingAnswerView::Seen { fact, worktree, common },
            );
            match removing(v.space, fact, worktree, common) {
                Ok(RemovingView::Unlink { act }) => next == Ok::<DismantlingView, SpaceErrorView>(
                    DismantlingView { ready: v.ready.push(RemovingView::Unlink { act }), ..v },
                ),
                Ok(RemovingView::Worktree { removal }) => next == Ok::<
                    DismantlingView,
                    SpaceErrorView,
                >(DismantlingView { now: Some(removal), ..v }),
                Err(e) => next == Err::<DismantlingView, SpaceErrorView>(e),
            }
        }),
{
}

/// A worktree is checked until nothing of it would be lost, and taken away once all are ready,
/// each until it is gone.
pub proof fn law_dismantling_steps(v: DismantlingView, r: RemovalView, answer: AnswerView)
    requires
        !v.done,
    ensures
        ({
            let next = dismantling_next(v, DismantlingAnswerView::Step { answer });
            let checking = v.now == Some(r);
            let taking = v.now is None && v.ready.len() == v.members.len() && v.taken
                < v.members.len() && v.ready[v.taken as int] == (RemovingView::Worktree {
                removal: r,
            });
            &&& checking || taking ==> (removal_next(r, answer) matches Err(e) ==> next == Err::<
                DismantlingView,
                SpaceErrorView,
            >(e))
            &&& checking ==> (removal_next(r, answer) matches Ok(stage) ==> if stage is Carry
                || stage is Plain || stage is Force || stage is Gone {
                next == Ok::<DismantlingView, SpaceErrorView>(
                    DismantlingView {
                        ready: v.ready.push(
                            RemovingView::Worktree { removal: RemovalView { stage, ..r } },
                        ),
                        now: None,
                        ..v
                    },
                )
            } else {
                next == Ok::<DismantlingView, SpaceErrorView>(
                    DismantlingView { now: Some(RemovalView { stage, ..r }), ..v },
                )
            })
            &&& taking ==> (removal_next(r, answer) matches Ok(stage) ==> (next matches Ok(w)
                && w.ready == v.ready.update(
                v.taken as int,
                RemovingView::Worktree { removal: RemovalView { stage, ..r } },
            ) && (stage is Gone ==> w.taken == v.taken + 1) && (!(stage is Gone) ==> w.taken
                == v.taken) && w.now is None && w.dropped == v.dropped && !w.done))
        }),
{
}

/// A link that is taken away counts as gone; a file that is dropped counts whether it was there
/// or not; with the directory gone it is done, and where that is not empty it is left in place.
pub proof fn law_dismantling_ends(v: DismantlingView, said: Seq<char>, act: ActView)
    requires
        !v.done,
        v.now is None,
        v.ready.len() == v.members.len(),
    ensures
        ({
            let yes = dismantling_next(v, DismantlingAnswerView::Ended { outcome: Ok(said) });
            let no = dismantling_next(v, DismantlingAnswerView::Ended { outcome: Err(said) });
            let ok = |w: DismantlingView| Ok::<DismantlingView, SpaceErrorView>(w);
            &&& v.taken < v.members.len() && v.ready[v.taken as int] == (RemovingView::Unlink { act })
                ==> yes == ok(DismantlingView { taken: v.taken + 1, ..v }) && no == Err::<
                DismantlingView,
                SpaceErrorView,
            >(SpaceErrorView::Failed { report: said })
            &&& v.taken == v.members.len() && v.dropped < v.files.len() ==> yes == ok(
                DismantlingView { dropped: v.dropped + 1, ..v },
            ) && no == yes
            &&& v.taken == v.members.len() && v.dropped == v.files.len() ==> yes == ok(
                DismantlingView { done: true, ..v },
            ) && no == Err::<DismantlingView, SpaceErrorView>(SpaceErrorView::NotEmpty)
        }),
{
}

// ---- texts ----------------------------------------------------------------------------------

/// What is told of git where it fails: what it was asked, and what it wrote of that, without the
/// white space around it.
pub proof fn law_failures_are_told(args: Seq<Seq<char>>, stderr: Seq<u8>)
    ensures
        failure_text(args, stderr) == "git "@ + joined(args, seq![' ']) + " failed: "@ + trimmed(
            lossy_text(stderr),
        ),
{
    reveal_strlit(" ");
    assert(" "@ == seq![' ']);
}

/// The policy of a space is headed by the name of the space, names its workspace file twice and
/// the pool wherever it speaks of it.
pub proof fn law_policy_names_the_space(name: Seq<char>, layout: LayoutView, pool: Seq<char>)
    requires
        pool == seq!['~', '/'] + layout.root + seq!['/'] + layout.pool,
    ensures
        policy_of(name, layout) == "# Space: "@ + name + INTRO@ + pool + GROUPED@ + pool + SOURCE@
            + pool + EDITING@ + name + WORKSPACE@ + name + COMMANDS@ + pool + DETAILS@,
{
    reveal_strlit("~/");
    reveal_strlit("/");
    assert("~/"@ == seq!['~', '/']);
    assert("/"@ == seq!['/']);
}

/// An answer to something else than what was asked changes nothing, and neither does any once it
/// is done.
pub proof fn law_dismantling_passes_over(
    v: DismantlingView,
    answer: DismantlingAnswerView,
)
    ensures
        v.done ==> dismantling_next(v, answer) == Ok::<DismantlingView, SpaceErrorView>(v),
        v.now is Some && !(answer is Step) ==> dismantling_next(v, answer) == Ok::<
            DismantlingView,
            SpaceErrorView,
        >(v),
        v.now is None && v.ready.len() < v.members.len() && !(answer is Seen) ==> dismantling_next(
            v,
            answer,
        ) == Ok::<DismantlingView, SpaceErrorView>(v),
        v.now is None && v.ready.len() < v.members.len() && (answer matches
            DismantlingAnswerView::Seen { fact, .. } && fact.name
            != v.members[v.ready.len() as int]) ==> dismantling_next(v, answer) == Ok::<
            DismantlingView,
            SpaceErrorView,
        >(v),
        v.now is None && v.ready.len() == v.members.len() && answer is Seen ==> dismantling_next(
            v,
            answer,
        ) == Ok::<DismantlingView, SpaceErrorView>(v),
{
}

} // verus!
