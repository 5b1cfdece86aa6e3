//! What a pull asks of git, stage by stage, and what comes of each answer.

use crate::space::{error_text, pull_args_of, pull_step, PullStageView, PullStepView, SpaceErrorView};
use vstd::prelude::*;

verus! {

/// What git is asked at each stage: to fetch from `origin` and drop what is gone there; whether
/// `origin` has a `main`, or else a `master`; the name of the branch that is checked out; how
/// many commits `HEAD` lacks of the default branch of `origin`; what has changed in the working
/// tree; and to merge that branch, by fast-forward only.
pub proof fn law_pull_commands(default: Seq<char>, behind: Seq<char>)
    ensures
        pull_args_of(PullStageView::Fetch) == seq!["fetch"@, "origin"@, "--prune"@],
        pull_args_of(PullStageView::HasMain) == seq![
            "show-ref"@,
            "--verify"@,
            "refs/remotes/origin/main"@,
        ],
        pull_args_of(PullStageView::HasMaster) == seq![
            "show-ref"@,
            "--verify"@,
            "refs/remotes/origin/master"@,
        ],
        pull_args_of(PullStageView::Current { default }) == seq![
            "rev-parse"@,
            "--abbrev-ref"@,
            "HEAD"@,
        ],
        pull_args_of(PullStageView::Behind { default }) == seq![
            "rev-list"@,
            "--count"@,
            "HEAD..origin/"@ + default,
        ],
        pull_args_of(PullStageView::Status { default, behind }) == seq!["status"@, "--porcelain"@],
        pull_args_of(PullStageView::Merge { default, behind }) == seq![
            "merge"@,
            "--ff-only"@,
            "origin/"@ + default,
        ],
{
}

/// The default branch of `origin` is `main` where there is one, else `master`; where there is
/// neither, the pull ends with an error.
pub proof fn law_pull_finds_the_default_branch(yes: Seq<char>, no: Seq<char>)
    ensures
        pull_step(PullStageView::Fetch, Ok(yes)) == (PullStepView::Ask {
            stage: PullStageView::HasMain,
        }),
        pull_step(PullStageView::HasMain, Ok(yes)) == (PullStepView::Ask {
            stage: PullStageView::Current { default: "main"@ },
        }),
        pull_step(PullStageView::HasMain, Err(no)) == (PullStepView::Ask {
            stage: PullStageView::HasMaster,
        }),
        pull_step(PullStageView::HasMaster, Ok(yes)) == (PullStepView::Ask {
            stage: PullStageView::Current { default: "master"@ },
        }),
        pull_step(PullStageView::HasMaster, Err(no)) == (PullStepView::Done {
            outcome: Err(SpaceErrorView::NoOriginDefault),
        }),
{
}

/// From the default branch on, an answer leads one stage further, with the branch and the count
/// it was asked for; or it ends the pull: on another branch nothing is merged, with nothing
/// behind there is nothing to do, and over uncommitted changes nothing is merged either.
pub proof fn law_pull_goes_on_only_where_it_may(
    default: Seq<char>,
    behind: Seq<char>,
    reply: Seq<char>,
)
    ensures
        pull_step(PullStageView::Current { default }, Ok(default)) == (PullStepView::Ask {
            stage: PullStageView::Behind { default },
        }),
        reply != default ==> pull_step(PullStageView::Current { default }, Ok(reply)) == (
        PullStepView::Done {
            outcome: Ok("fetched origin/"@ + default + " (on "@ + reply + ", not merged)"@),
        }),
        pull_step(PullStageView::Behind { default }, Ok(seq!['0'])) == (PullStepView::Done {
            outcome: Ok("already up to date"@),
        }),
        reply != seq!['0'] ==> pull_step(PullStageView::Behind { default }, Ok(reply)) == (
        PullStepView::Ask { stage: PullStageView::Status { default, behind: reply } }),
        pull_step(PullStageView::Status { default, behind }, Ok(Seq::empty())) == (
        PullStepView::Ask { stage: PullStageView::Merge { default, behind } }),
        reply.len() > 0 ==> pull_step(PullStageView::Status { default, behind }, Ok(reply)) == (
        PullStepView::Done { outcome: Err(SpaceErrorView::DirtyPull { behind }) }),
{
    reveal_strlit("0");
    assert("0"@ == seq!['0']);
}

/// A merge that went through is told with the number of commits it brought, one that did not as
/// a divergence from the default branch.
pub proof fn law_pull_reports_the_merge(
    default: Seq<char>,
    behind: Seq<char>,
    yes: Seq<char>,
    no: Seq<char>,
)
    ensures
        pull_step(PullStageView::Merge { default, behind: seq!['1'] }, Ok(yes)) == (
        PullStepView::Done { outcome: Ok("updated "@ + seq!['1'] + " commit"@) }),
        behind != seq!['1'] ==> pull_step(PullStageView::Merge { default, behind }, Ok(yes)) == (
        PullStepView::Done { outcome: Ok("updated "@ + behind + " commit"@ + seq!['s']) }),
        pull_step(PullStageView::Merge { default, behind }, Err(no)) == (PullStepView::Done {
            outcome: Err(SpaceErrorView::Diverged { behind, default }),
        }),
        error_text(SpaceErrorView::Diverged { behind, default }) == behind
            + " commits behind, but local "@ + default + " has diverged (no fast-forward)"@,
        error_text(SpaceErrorView::DirtyPull { behind }) == behind
            + " commits behind, but working tree has uncommitted changes"@,
        error_text(SpaceErrorView::NoOriginDefault) == "origin has neither main nor master"@,
{
    reveal_strlit("1");
    reveal_strlit("s");
    assert("1"@ == seq!['1']);
    assert("s"@ == seq!['s']);
    assert("updated "@ + seq!['1'] + " commit"@ + Seq::<char>::empty() == "updated "@ + seq!['1']
        + " commit"@);
}

/// Where git fails to fetch, to name the branch, to count or to look, its report is the error.
pub proof fn law_pull_hands_on_failures(default: Seq<char>, behind: Seq<char>, no: Seq<char>)
    ensures
        ({
            let failed = PullStepView::Done { outcome: Err(SpaceErrorView::Failed { report: no }) };
            &&& pull_step(PullStageView::Fetch, Err(no)) == failed
            &&& pull_step(PullStageView::Current { default }, Err(no)) == failed
            &&& pull_step(PullStageView::Behind { default }, Err(no)) == failed
            &&& pull_step(PullStageView::Status { default, behind }, Err(no)) == failed
            &&& error_text(SpaceErrorView::Failed { report: no }) == no
        }),
{
}

} // verus!
