//! Making a worktree: git makes it, and the loose files of the canonical repo follow.

use crate::path::joined_path;
use crate::space::{
    copies, copy_loose_files, ignored_args, ignored_command, ignored_notes, loose_files,
    reply_view, untracked_args, untracked_command, untracked_in, Promotion, PromotionView,
    SpaceError, SpaceErrorView,
};
use vstd::prelude::*;

verus! {

/// How far a new worktree has come.
#[derive(Clone, Debug)]
enum Stage {
    /// Make a new branch in it.
    Create,
    /// Check out an existing branch into it.
    Checkout,
    /// Ask git for the untracked files of the canonical repo.
    Untracked,
    /// Ask git for its ignored files.
    Ignored { untracked: String },
    /// Copy files, from and to.
    Copy { left: Vec<(String, String)> },
    /// It is there.
    Made,
}

/// The stage of a new worktree over text.
#[verifier::ext_equal]
pub enum MakingView {
    Create,
    Checkout,
    Untracked,
    Ignored { untracked: Seq<char> },
    Copy { left: Seq<(Seq<char>, Seq<char>)> },
    Made,
}

/// A worktree on its way: a new branch if possible, else an existing one; and as a worktree
/// only materializes tracked files, the untracked files and the ignored notes of the canonical
/// repo are copied in.
#[derive(Clone, Debug)]
pub struct NewWorktree {
    canonical: String,
    promotion: Promotion,
    stage: Stage,
}

/// A worktree on its way, over text.
#[verifier::ext_equal]
pub struct NewWorktreeView {
    pub canonical: Seq<char>,
    pub promotion: PromotionView,
    pub stage: MakingView,
}

spec fn stage_view(s: Stage) -> MakingView {
    match s {
        Stage::Create => MakingView::Create,
        Stage::Checkout => MakingView::Checkout,
        Stage::Untracked => MakingView::Untracked,
        Stage::Ignored { untracked } => MakingView::Ignored { untracked: untracked@ },
        Stage::Copy { left } => MakingView::Copy { left: left.deep_view() },
        Stage::Made => MakingView::Made,
    }
}

impl DeepView for NewWorktree {
    type V = NewWorktreeView;

    closed spec fn deep_view(&self) -> NewWorktreeView {
        NewWorktreeView {
            canonical: self.canonical@,
            promotion: self.promotion.deep_view(),
            stage: stage_view(self.stage),
        }
    }
}

/// What a new worktree asks for next.
#[derive(Clone, Debug)]
pub enum MakingAsk {
    /// Run git in `dir`; answered by what it said.
    Git { dir: String, args: Vec<String> },
    /// Run git in `dir`; answered by the listing, all of it.
    List { dir: String, args: Vec<String> },
    /// Copy a file, making the folders it needs; answered by anything.
    Copy { from: String, to: String },
    /// Nothing: the worktree is there.
    Nothing,
}

/// What a new worktree asks for, over text.
#[verifier::ext_equal]
pub enum MakingAskView {
    Git { dir: Seq<char>, args: Seq<Seq<char>> },
    List { dir: Seq<char>, args: Seq<Seq<char>> },
    Copy { from: Seq<char>, to: Seq<char> },
    Nothing,
}

impl DeepView for MakingAsk {
    type V = MakingAskView;

    open spec fn deep_view(&self) -> MakingAskView {
        match self {
            MakingAsk::Git { dir, args } => MakingAskView::Git { dir: dir@, args: args.deep_view() },
            MakingAsk::List { dir, args } => MakingAskView::List {
                dir: dir@,
                args: args.deep_view(),
            },
            MakingAsk::Copy { from, to } => MakingAskView::Copy { from: from@, to: to@ },
            MakingAsk::Nothing => MakingAskView::Nothing,
        }
    }
}

/// Whether there is a file to copy while files are copied.
pub open spec fn is_making(stage: MakingView) -> bool {
    stage matches MakingView::Copy { left } ==> left.len() > 0
}

/// What the worktree asks for at its stage.
pub open spec fn making_ask(v: NewWorktreeView) -> MakingAskView {
    match v.stage {
        MakingView::Create => MakingAskView::Git { dir: v.canonical, args: v.promotion.create },
        MakingView::Checkout => MakingAskView::Git {
            dir: v.canonical,
            args: v.promotion.checkout,
        },
        MakingView::Untracked => MakingAskView::List {
            dir: v.canonical,
            args: untracked_command(),
        },
        MakingView::Ignored { .. } => MakingAskView::List {
            dir: v.canonical,
            args: ignored_command(),
        },
        MakingView::Copy { left } => MakingAskView::Copy { from: left[0].0, to: left[0].1 },
        MakingView::Made => MakingAskView::Nothing,
    }
}

/// The stage in which files are copied, or the last one where none is left.
pub open spec fn copying(left: Seq<(Seq<char>, Seq<char>)>) -> MakingView {
    if left.len() == 0 {
        MakingView::Made
    } else {
        MakingView::Copy { left }
    }
}

/// Where the answer takes the worktree. Existing branches are tried where no new one can be
/// made; ignored files that git cannot list are none; a file that cannot be copied stays
/// behind.
pub open spec fn making_next(v: NewWorktreeView, reply: Result<Seq<char>, Seq<char>>) -> Result<
    MakingView,
    SpaceErrorView,
> {
    match v.stage {
        MakingView::Create => Ok(
            if reply is Ok {
                MakingView::Untracked
            } else {
                MakingView::Checkout
            },
        ),
        MakingView::Checkout => match reply {
            Ok(_) => Ok(MakingView::Untracked),
            Err(report) => Err(SpaceErrorView::Failed { report }),
        },
        MakingView::Untracked => match reply {
            Ok(untracked) => Ok(MakingView::Ignored { untracked }),
            Err(report) => Err(SpaceErrorView::Failed { report }),
        },
        MakingView::Ignored { untracked } => {
            let ignored = match reply {
                Ok(listing) => listing,
                Err(_) => Seq::empty(),
            };
            Ok(copying(copies(v.canonical, v.promotion.dst, loose_files(untracked, ignored))))
        },
        MakingView::Copy { left } => Ok(copying(left.drop_first())),
        MakingView::Made => Ok(MakingView::Made),
    }
}

fn copy_on(left: Vec<(String, String)>) -> (r: Stage)
    ensures
        stage_view(r) == copying(left.deep_view()),
{
    assert(left.deep_view().len() == left@.len());
    if left.len() == 0 {
        Stage::Made
    } else {
        Stage::Copy { left }
    }
}

impl NewWorktree {
    /// The worktree that `promotion` plans for the repo at `canonical`.
    pub fn start(canonical: String, promotion: Promotion) -> (r: NewWorktree)
        ensures
            r.deep_view() == (NewWorktreeView {
                canonical: canonical@,
                promotion: promotion.deep_view(),
                stage: MakingView::Create,
            }),
    {
        NewWorktree { canonical, promotion, stage: Stage::Create }
    }

    /// What is to be done next.
    pub fn ask(&self) -> (r: MakingAsk)
        requires
            is_making(self.deep_view().stage),
        ensures
            r.deep_view() == making_ask(self.deep_view()),
    {
        let dir = self.canonical.clone();
        match &self.stage {
            Stage::Create => {
                let args = copy_args(&self.promotion.create);
                MakingAsk::Git { dir, args }
            },
            Stage::Checkout => {
                let args = copy_args(&self.promotion.checkout);
                MakingAsk::Git { dir, args }
            },
            Stage::Untracked => MakingAsk::List { dir, args: untracked_args() },
            Stage::Ignored { .. } => MakingAsk::List { dir, args: ignored_args() },
            Stage::Copy { left } => {
                assert(left.deep_view().len() == left@.len());
                assert(left.deep_view()[0] == (left@[0].0@, left@[0].1@));
                MakingAsk::Copy { from: left[0].0.clone(), to: left[0].1.clone() }
            },
            Stage::Made => MakingAsk::Nothing,
        }
    }

    /// Whether the worktree is there, with all that follows into it.
    pub fn is_made(&self) -> (r: bool)
        ensures
            r == (self.deep_view().stage is Made),
    {
        match &self.stage {
            Stage::Made => true,
            _ => false,
        }
    }

    /// The worktree after what was asked for has been answered.
    pub fn next(self, reply: Result<String, String>) -> (r: Result<NewWorktree, SpaceError>)
        requires
            is_making(self.deep_view().stage),
        ensures
            match making_next(self.deep_view(), reply_view(reply)) {
                Ok(stage) => r matches Ok(x) && is_making(stage) && x.deep_view() == (
                NewWorktreeView { stage, ..self.deep_view() }),
                Err(e) => r matches Err(x) && x.deep_view() == e,
            },
    {
        let NewWorktree { canonical, promotion, stage } = self;
        let stage = match (stage, reply) {
            (Stage::Create, Ok(_)) => Stage::Untracked,
            (Stage::Create, Err(_)) => Stage::Checkout,
            (Stage::Checkout, Ok(_)) => Stage::Untracked,
            (Stage::Checkout, Err(report)) => {
                return Err(SpaceError::Failed { report });
            },
            (Stage::Untracked, Ok(untracked)) => Stage::Ignored { untracked },
            (Stage::Untracked, Err(report)) => {
                return Err(SpaceError::Failed { report });
            },
            (Stage::Ignored { untracked }, reply) => {
                let ignored = match reply {
                    Ok(listing) => listing,
                    Err(_) => String::new(),
                };
                let left = copy_loose_files(
                    canonical.as_str(),
                    promotion.dst.as_str(),
                    untracked.as_str(),
                    ignored.as_str(),
                );
                copy_on(left)
            },
            (Stage::Copy { left }, _) => {
                let mut left = left;
                let ghost todo = left.deep_view();
                assert(todo.len() == left@.len());
                left.remove(0);
                assert(left.deep_view() == todo.drop_first());
                copy_on(left)
            },
            (Stage::Made, _) => Stage::Made,
        };
        Ok(NewWorktree { canonical, promotion, stage })
    }
}

fn copy_args(args: &Vec<String>) -> (r: Vec<String>)
    ensures
        r.deep_view() == args.deep_view(),
{
    let mut out: Vec<String> = Vec::new();
    for i in 0..args.len()
        invariant
            out.deep_view() == args.deep_view().take(i as int),
    {
        let ghost before = out.deep_view();
        let ghost all = args.deep_view();
        let arg = args[i].clone();
        out.push(arg);
        assert(all[i as int] == arg@);
        assert(out.deep_view() == before.push(arg@));
        assert(all.take(i + 1) == all.take(i as int).push(all[i as int]));
    }
    assert(args.deep_view().take(args@.len() as int) == args.deep_view());
    out
}

/// An existing branch is checked out only where no new one could be made, and nothing is
/// copied before git has made the worktree.
pub proof fn law_new_branch_first(v: NewWorktreeView, reply: Result<Seq<char>, Seq<char>>)
    ensures
        making_next(v, reply) == Ok::<MakingView, SpaceErrorView>(MakingView::Checkout) <==> v.stage
            is Create && reply is Err,
        making_next(v, reply) == Ok::<MakingView, SpaceErrorView>(MakingView::Untracked) ==> reply
            is Ok && (v.stage is Create || v.stage is Checkout),
        making_next(v, reply) matches Ok(MakingView::Ignored { .. }) ==> v.stage is Untracked,
        making_next(v, reply) matches Ok(MakingView::Copy { .. }) ==> v.stage is Ignored || v.stage
            is Copy,
{
}

/// Every untracked file and every ignored note of the canonical repo follows into the
/// worktree, under its own name, whatever that is: once git has listed them, the copies to
/// make name each, and each step makes the first of them and leaves the others to do.
pub proof fn law_loose_files_follow(
    v: NewWorktreeView,
    untracked: Seq<char>,
    ignored: Seq<char>,
    f: Seq<char>,
)
    requires
        v.stage == (MakingView::Ignored { untracked }),
        untracked_in(untracked).contains(f) || ignored_notes(ignored).contains(f),
    ensures
        making_next(v, Ok(ignored)) matches Ok(MakingView::Copy { left }) && left.contains(
            (joined_path(v.canonical, f), joined_path(v.promotion.dst, f)),
        ),
        forall|left: Seq<(Seq<char>, Seq<char>)>, reply: Result<Seq<char>, Seq<char>>|
            left.len() > 0 ==> #[trigger] making_next(
                NewWorktreeView { stage: MakingView::Copy { left }, ..v },
                reply,
            ) == Ok::<MakingView, SpaceErrorView>(copying(left.drop_first())),
{
    let a = untracked_in(untracked);
    let b = ignored_notes(ignored);
    let files = loose_files(untracked, ignored);
    let i = if a.contains(f) {
        choose|i: int| 0 <= i < a.len() && a[i] == f
    } else {
        a.len() + choose|i: int| 0 <= i < b.len() && b[i] == f
    };
    assert(files[i] == f);
    let left = copies(v.canonical, v.promotion.dst, files);
    assert(left[i] == (joined_path(v.canonical, f), joined_path(v.promotion.dst, f)));
}

} // verus!
