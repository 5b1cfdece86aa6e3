//! Dismantling a space: every member is looked at before the first one goes.

use crate::path::joined_path;
use crate::space::{
    is_checked_stage, law_checked_stays_checked, law_checking_touches_nothing,
    law_removal_never_discards_work, removal_ask, removal_next, removal_safe, removal_touches,
    remove_repo, removing, reply_view, Act, ActView, Answer, AnswerView, Deletion, DeletionView,
    MemberFact, MemberFactView, Removal, RemovalAsk, RemovalAskView, RemovalView, Removing,
    RemovingView, SpaceError, SpaceErrorView,
};
use crate::text::same;
use vstd::prelude::*;

verus! {

/// The dismantling of a space. First all members are looked at, one by one: `ready` holds how
/// the first of them leave, `now` the worktree that is being checked. After that they leave,
/// the first `taken` have; the generated files follow, the first `dropped` have; and the
/// folder goes last.
#[derive(Clone, Debug)]
pub struct Dismantling {
    space: String,
    members: Vec<String>,
    files: Vec<String>,
    ready: Vec<Removing>,
    now: Option<Removal>,
    taken: usize,
    dropped: usize,
    done: bool,
}

/// The dismantling of a space over text.
#[verifier::ext_equal]
pub struct DismantlingView {
    pub space: Seq<char>,
    pub members: Seq<Seq<char>>,
    pub files: Seq<Seq<char>>,
    pub ready: Seq<RemovingView>,
    pub now: Option<RemovalView>,
    pub taken: nat,
    pub dropped: nat,
    pub done: bool,
}

impl DeepView for Dismantling {
    type V = DismantlingView;

    closed spec fn deep_view(&self) -> DismantlingView {
        DismantlingView {
            space: self.space@,
            members: self.members.deep_view(),
            files: self.files.deep_view(),
            ready: self.ready.deep_view(),
            now: match self.now {
                Some(r) => Some(r.deep_view()),
                None => None,
            },
            taken: self.taken as nat,
            dropped: self.dropped as nat,
            done: self.done,
        }
    }
}

/// What a dismantling asks for next.
#[derive(Clone, Debug)]
pub enum DismantlingAsk {
    /// Look what the member is; answered by what is there and what git says of it.
    Look { name: String },
    /// Take the removal of a worktree one step on; answered as the removal asks.
    Step { ask: RemovalAsk },
    /// Take a step on disk; answered by how it ended.
    Act { act: Act },
    /// Remove a file, where there is one; answered by how it ended.
    Drop { path: String },
    /// Remove an empty folder; answered by how it ended.
    RemoveDir { path: String },
    /// Nothing: the space is gone.
    Nothing,
}

/// What a dismantling asks for, over text.
#[verifier::ext_equal]
pub enum DismantlingAskView {
    Look { name: Seq<char> },
    Step { ask: RemovalAskView },
    Act { act: ActView },
    Drop { path: Seq<char> },
    RemoveDir { path: Seq<char> },
    Nothing,
}

impl DeepView for DismantlingAsk {
    type V = DismantlingAskView;

    open spec fn deep_view(&self) -> DismantlingAskView {
        match self {
            DismantlingAsk::Look { name } => DismantlingAskView::Look { name: name@ },
            DismantlingAsk::Step { ask } => DismantlingAskView::Step { ask: ask.deep_view() },
            DismantlingAsk::Act { act } => DismantlingAskView::Act { act: act.deep_view() },
            DismantlingAsk::Drop { path } => DismantlingAskView::Drop { path: path@ },
            DismantlingAsk::RemoveDir { path } => DismantlingAskView::RemoveDir { path: path@ },
            DismantlingAsk::Nothing => DismantlingAskView::Nothing,
        }
    }
}

/// The answer to what a dismantling asked for.
pub enum DismantlingAnswer {
    /// What a member is, whether git takes it for a work tree, and git's answer on the shared
    /// `.git`.
    Seen { fact: MemberFact, worktree: bool, common: Result<String, String> },
    /// What the removal of a worktree asked for.
    Step { answer: Answer },
    /// How a step ended.
    Ended { outcome: Result<String, String> },
}

/// An answer over text.
#[verifier::ext_equal]
pub enum DismantlingAnswerView {
    Seen { fact: MemberFactView, worktree: bool, common: Result<Seq<char>, Seq<char>> },
    Step { answer: AnswerView },
    Ended { outcome: Result<Seq<char>, Seq<char>> },
}

impl DeepView for DismantlingAnswer {
    type V = DismantlingAnswerView;

    open spec fn deep_view(&self) -> DismantlingAnswerView {
        match self {
            DismantlingAnswer::Seen { fact, worktree, common } => DismantlingAnswerView::Seen {
                fact: fact.deep_view(),
                worktree: *worktree,
                common: reply_view(*common),
            },
            DismantlingAnswer::Step { answer } => DismantlingAnswerView::Step {
                answer: answer.deep_view(),
            },
            DismantlingAnswer::Ended { outcome } => DismantlingAnswerView::Ended {
                outcome: reply_view(*outcome),
            },
        }
    }
}

/// Whether a member of the space has been looked at, and can leave it this way.
pub open spec fn is_ready(space: Seq<char>, member: Seq<char>, way: RemovingView) -> bool {
    match way {
        RemovingView::Unlink { act } => act == (ActView::RemoveFile {
            path: joined_path(space, member),
        }),
        RemovingView::Worktree { removal } => {
            &&& removal.repo == member
            &&& removal.dst == joined_path(space, member)
            &&& removal_safe(removal.stage)
            &&& is_checked_stage(removal.stage)
        },
    }
}

/// Whether all members have been looked at.
pub open spec fn all_ready(v: DismantlingView) -> bool {
    &&& v.now is None
    &&& v.ready.len() == v.members.len()
    &&& forall|i: int|
        0 <= i < v.members.len() ==> is_ready(v.space, #[trigger] v.members[i], v.ready[i])
}

/// What holds of every dismantling on its way.
pub open spec fn dismantling_safe(v: DismantlingView) -> bool {
    &&& v.ready.len() <= v.members.len()
    &&& forall|i: int|
        0 <= i < v.ready.len() ==> is_ready(v.space, v.members[i], #[trigger] v.ready[i])
    &&& v.now matches Some(r) ==> {
        &&& v.ready.len() < v.members.len()
        &&& r.repo == v.members[v.ready.len() as int]
        &&& r.dst == joined_path(v.space, r.repo)
        &&& removal_safe(r.stage)
        &&& !is_checked_stage(r.stage)
    }
    &&& v.taken <= v.members.len()
    &&& v.taken > 0 ==> v.now is None && v.ready.len() == v.members.len()
    &&& forall|i: int|
        0 <= i < v.taken ==> (#[trigger] v.ready[i] matches RemovingView::Worktree { removal }
            ==> removal.stage is Gone)
    &&& v.dropped <= v.files.len()
    &&& v.dropped > 0 || v.done ==> v.now is None && v.ready.len() == v.members.len() && v.taken
        == v.members.len()
    &&& v.done ==> v.dropped == v.files.len()
}

/// What the dismantling asks for.
pub open spec fn dismantling_ask(v: DismantlingView) -> DismantlingAskView {
    if v.done {
        DismantlingAskView::Nothing
    } else if v.now is Some {
        DismantlingAskView::Step { ask: removal_ask(v.now->0) }
    } else if v.ready.len() < v.members.len() {
        DismantlingAskView::Look { name: v.members[v.ready.len() as int] }
    } else if v.taken < v.members.len() {
        match v.ready[v.taken as int] {
            RemovingView::Unlink { act } => DismantlingAskView::Act { act },
            RemovingView::Worktree { removal } => DismantlingAskView::Step {
                ask: removal_ask(removal),
            },
        }
    } else if v.dropped < v.files.len() {
        DismantlingAskView::Drop { path: v.files[v.dropped as int] }
    } else {
        DismantlingAskView::RemoveDir { path: v.space }
    }
}

/// Where a look at the next member takes the dismantling.
pub open spec fn looked(
    v: DismantlingView,
    fact: MemberFactView,
    worktree: bool,
    common: Result<Seq<char>, Seq<char>>,
) -> Result<DismantlingView, SpaceErrorView> {
    match removing(v.space, fact, worktree, common) {
        Ok(RemovingView::Worktree { removal }) => Ok(
            DismantlingView { now: Some(removal), ..v },
        ),
        Ok(way) => Ok(DismantlingView { ready: v.ready.push(way), ..v }),
        Err(e) => Err(e),
    }
}

/// Where an answer to the worktree being checked takes the dismantling.
pub open spec fn checked(v: DismantlingView, r: RemovalView, answer: AnswerView) -> Result<
    DismantlingView,
    SpaceErrorView,
> {
    match removal_next(r, answer) {
        Ok(stage) => {
            let removal = RemovalView { stage, ..r };
            if is_checked_stage(stage) {
                Ok(
                    DismantlingView {
                        ready: v.ready.push(RemovingView::Worktree { removal }),
                        now: None,
                        ..v
                    },
                )
            } else {
                Ok(DismantlingView { now: Some(removal), ..v })
            }
        },
        Err(e) => Err(e),
    }
}

/// Where an answer to the worktree being removed takes the dismantling.
pub open spec fn removed(v: DismantlingView, r: RemovalView, answer: AnswerView) -> Result<
    DismantlingView,
    SpaceErrorView,
> {
    match removal_next(r, answer) {
        Ok(stage) => {
            let removal = RemovalView { stage, ..r };
            let ready = v.ready.update(v.taken as int, RemovingView::Worktree { removal });
            let more: nat = if stage is Gone {
                1
            } else {
                0
            };
            Ok(DismantlingView { ready, taken: v.taken + more, ..v })
        },
        Err(e) => Err(e),
    }
}

/// Where the answer takes the dismantling. An answer to another question leaves it where it
/// is; a generated file that cannot be removed stays, and so does a folder that is not empty.
pub open spec fn dismantling_next(v: DismantlingView, answer: DismantlingAnswerView) -> Result<
    DismantlingView,
    SpaceErrorView,
> {
    if v.done {
        Ok(v)
    } else if v.now is Some {
        match answer {
            DismantlingAnswerView::Step { answer } => checked(v, v.now->0, answer),
            _ => Ok(v),
        }
    } else if v.ready.len() < v.members.len() {
        match answer {
            DismantlingAnswerView::Seen { fact, worktree, common } => if fact.name
                == v.members[v.ready.len() as int] {
                looked(v, fact, worktree, common)
            } else {
                Ok(v)
            },
            _ => Ok(v),
        }
    } else if v.taken < v.members.len() {
        match (v.ready[v.taken as int], answer) {
            (RemovingView::Unlink { .. }, DismantlingAnswerView::Ended { outcome }) => {
                match outcome {
                    Ok(_) => Ok(DismantlingView { taken: v.taken + 1, ..v }),
                    Err(report) => Err(SpaceErrorView::Failed { report }),
                }
            },
            (RemovingView::Worktree { removal }, DismantlingAnswerView::Step { answer }) => {
                removed(v, removal, answer)
            },
            _ => Ok(v),
        }
    } else if v.dropped < v.files.len() {
        match answer {
            DismantlingAnswerView::Ended { .. } => Ok(
                DismantlingView { dropped: v.dropped + 1, ..v },
            ),
            _ => Ok(v),
        }
    } else {
        match answer {
            DismantlingAnswerView::Ended { outcome: Ok(_) } => Ok(
                DismantlingView { done: true, ..v },
            ),
            DismantlingAnswerView::Ended { outcome: Err(_) } => Err(SpaceErrorView::NotEmpty),
            _ => Ok(v),
        }
    }
}

/// A step of a safe dismantling leaves it safe.
proof fn lemma_dismantling_stays_safe(v: DismantlingView, answer: DismantlingAnswerView)
    requires
        dismantling_safe(v),
    ensures
        dismantling_next(v, answer) matches Ok(w) ==> dismantling_safe(w),
{
    if let Some(r) = v.now {
        if let DismantlingAnswerView::Step { answer: a } = answer {
            law_removal_never_discards_work(r, a);
        }
    } else if v.ready.len() == v.members.len() && v.taken < v.members.len() {
        let way = v.ready[v.taken as int];
        assert(is_ready(v.space, v.members[v.taken as int], way));
        if let RemovingView::Worktree { removal } = way {
            if let DismantlingAnswerView::Step { answer: a } = answer {
                law_removal_never_discards_work(removal, a);
                law_checked_stays_checked(removal, a);
            }
        }
    }
}

impl Dismantling {
    /// The dismantling of the space at `space` by the plan `plan`.
    pub fn start(space: String, plan: Deletion) -> (r: Dismantling)
        ensures
            r.deep_view() == started(space@, plan.deep_view()),
            dismantling_safe(r.deep_view()),
    {
        let Deletion { members, files } = plan;
        let r = Dismantling {
            space,
            members,
            files,
            ready: Vec::new(),
            now: None,
            taken: 0,
            dropped: 0,
            done: false,
        };
        assert(r.deep_view().ready == Seq::<RemovingView>::empty());
        r
    }

    /// What is to be done next.
    pub fn ask(&self) -> (r: DismantlingAsk)
        requires
            dismantling_safe(self.deep_view()),
        ensures
            r.deep_view() == dismantling_ask(self.deep_view()),
    {
        assert(self.deep_view().members.len() == self.members@.len());
        assert(self.deep_view().files.len() == self.files@.len());
        assert(self.deep_view().ready.len() == self.ready@.len());
        if self.done {
            return DismantlingAsk::Nothing;
        }
        match &self.now {
            Some(removal) => {
                return DismantlingAsk::Step { ask: removal.ask() };
            },
            None => {},
        }
        if self.ready.len() < self.members.len() {
            let i: usize = self.ready.len();
            assert(self.deep_view().members[i as int] == self.members@[i as int]@);
            DismantlingAsk::Look { name: self.members[i].clone() }
        } else if self.taken < self.members.len() {
            let ghost way = self.ready@[self.taken as int];
            assert(self.deep_view().ready[self.taken as int] == way.deep_view());
            match &self.ready[self.taken] {
                Removing::Unlink { act } => DismantlingAsk::Act { act: copy_act(act) },
                Removing::Worktree { removal } => DismantlingAsk::Step { ask: removal.ask() },
            }
        } else if self.dropped < self.files.len() {
            let ghost file = self.files@[self.dropped as int];
            assert(self.deep_view().files[self.dropped as int] == file@);
            DismantlingAsk::Drop { path: self.files[self.dropped].clone() }
        } else {
            DismantlingAsk::RemoveDir { path: self.space.clone() }
        }
    }

    /// Whether the space is gone.
    pub fn is_done(&self) -> (r: bool)
        ensures
            r == self.deep_view().done,
    {
        self.done
    }

    /// The dismantling after what was asked for has been answered.
    pub fn next(self, answer: DismantlingAnswer) -> (r: Result<Dismantling, SpaceError>)
        requires
            dismantling_safe(self.deep_view()),
        ensures
            match dismantling_next(self.deep_view(), answer.deep_view()) {
                Ok(v) => r matches Ok(x) && x.deep_view() == v && dismantling_safe(v),
                Err(e) => r matches Err(x) && x.deep_view() == e,
            },
    {
        let ghost v = self.deep_view();
        proof {
            lemma_dismantling_stays_safe(v, answer.deep_view());
            assert(v.members.len() == self.members@.len());
            assert(v.files.len() == self.files@.len());
            assert(v.ready.len() == self.ready@.len());
        }
        let mut d = self;
        if d.done {
            return Ok(d);
        }
        if d.now.is_some() {
            match answer {
                DismantlingAnswer::Step { answer } => {
                    return d.check(answer);
                },
                _ => {
                    return Ok(d);
                },
            }
        }
        if d.ready.len() < d.members.len() {
            let i: usize = d.ready.len();
            assert(v.members[i as int] == d.members@[i as int]@);
            match answer {
                DismantlingAnswer::Seen { fact, worktree, common } => {
                    if same(fact.name.as_str(), d.members[i].as_str()) {
                        return d.look(&fact, worktree, &common);
                    }
                    return Ok(d);
                },
                _ => {
                    return Ok(d);
                },
            }
        }
        if d.taken < d.members.len() {
            assert(v.ready[d.taken as int] == d.ready@[d.taken as int].deep_view());
            let unlinks = match &d.ready[d.taken] {
                Removing::Unlink { .. } => true,
                Removing::Worktree { .. } => false,
            };
            match answer {
                DismantlingAnswer::Ended { outcome } => {
                    if unlinks {
                        match outcome {
                            Ok(_) => {
                                d.taken = d.taken + 1;
                            },
                            Err(report) => {
                                return Err(SpaceError::Failed { report });
                            },
                        }
                    }
                    return Ok(d);
                },
                DismantlingAnswer::Step { answer } => {
                    if !unlinks {
                        return d.remove(answer);
                    }
                    return Ok(d);
                },
                _ => {
                    return Ok(d);
                },
            }
        }
        match answer {
            DismantlingAnswer::Ended { outcome } => {
                if d.dropped < d.files.len() {
                    d.dropped = d.dropped + 1;
                } else if outcome.is_ok() {
                    d.done = true;
                } else {
                    return Err(SpaceError::NotEmpty);
                }
                Ok(d)
            },
            _ => Ok(d),
        }
    }

    fn look(self, fact: &MemberFact, worktree: bool, common: &Result<String, String>) -> (r: Result<
        Dismantling,
        SpaceError,
    >)
        ensures
            match looked(self.deep_view(), fact.deep_view(), worktree, reply_view(*common)) {
                Ok(v) => r matches Ok(x) && x.deep_view() == v,
                Err(e) => r matches Err(x) && x.deep_view() == e,
            },
    {
        let mut d = self;
        match remove_repo(d.space.as_str(), fact, worktree, common) {
            Ok(Removing::Worktree { removal }) => {
                d.now = Some(removal);
                Ok(d)
            },
            Ok(way) => {
                let ghost before = d.ready.deep_view();
                d.ready.push(way);
                assert(d.ready.deep_view() == before.push(way.deep_view()));
                Ok(d)
            },
            Err(e) => Err(e),
        }
    }

    fn check(self, answer: Answer) -> (r: Result<Dismantling, SpaceError>)
        requires
            self.deep_view().now matches Some(m) && removal_safe(m.stage),
        ensures
            match checked(self.deep_view(), self.deep_view().now->0, answer.deep_view()) {
                Ok(v) => r matches Ok(x) && x.deep_view() == v,
                Err(e) => r matches Err(x) && x.deep_view() == e,
            },
    {
        let mut d = self;
        match d.now {
            Some(removal) => match removal.next(answer) {
                Ok(removal) => {
                    if removal.is_checked() {
                        let ghost before = d.ready.deep_view();
                        let way = Removing::Worktree { removal };
                        d.ready.push(way);
                        assert(d.ready.deep_view() == before.push(way.deep_view()));
                        d.now = None;
                    } else {
                        d.now = Some(removal);
                    }
                    Ok(d)
                },
                Err(e) => Err(e),
            },
            None => Ok(d),
        }
    }

    fn remove(self, answer: Answer) -> (r: Result<Dismantling, SpaceError>)
        requires
            self.deep_view().taken < self.deep_view().ready.len(),
            self.deep_view().ready[self.deep_view().taken as int] matches RemovingView::Worktree {
                removal,
            } && removal_safe(removal.stage),
        ensures
            match removed(
                self.deep_view(),
                self.deep_view().ready[self.deep_view().taken as int]->removal,
                answer.deep_view(),
            ) {
                Ok(v) => r matches Ok(x) && x.deep_view() == v,
                Err(e) => r matches Err(x) && x.deep_view() == e,
            },
    {
        let mut d = self;
        let ghost ways = d.ready.deep_view();
        let i: usize = d.taken;
        let n: usize = d.ready.len();
        assert(ways.len() == n);
        assert(ways[i as int] == d.ready@[i as int].deep_view());
        match d.ready.remove(i) {
            Removing::Worktree { removal } => match removal.next(answer) {
                Ok(removal) => {
                    let gone = removal.is_gone();
                    let way = Removing::Worktree { removal };
                    d.ready.insert(i, way);
                    assert(d.ready.deep_view() == ways.update(i as int, way.deep_view()));
                    if gone {
                        d.taken = i + 1;
                    }
                    Ok(d)
                },
                Err(e) => Err(e),
            },
            Removing::Unlink { act } => {
                d.ready.insert(i, Removing::Unlink { act });
                Ok(d)
            },
        }
    }
}

/// A dismantling at its start.
pub open spec fn started(space: Seq<char>, plan: DeletionView) -> DismantlingView {
    DismantlingView {
        space,
        members: plan.members,
        files: plan.files,
        ready: Seq::empty(),
        now: None,
        taken: 0,
        dropped: 0,
        done: false,
    }
}

fn copy_act(act: &Act) -> (r: Act)
    ensures
        r.deep_view() == act.deep_view(),
{
    match act {
        Act::MakeDir { path } => Act::MakeDir { path: path.clone() },
        Act::Write { path, text } => Act::Write { path: path.clone(), text: text.clone() },
        Act::Replace { path, tmp, text } => Act::Replace {
            path: path.clone(),
            tmp: tmp.clone(),
            text: text.clone(),
        },
        Act::Link { target, at, note } => Act::Link {
            target: target.clone(),
            at: at.clone(),
            note: match note {
                Some(n) => Some(n.clone()),
                None => None,
            },
        },
        Act::RemoveFile { path } => Act::RemoveFile { path: path.clone() },
    }
}

/// Whether what a dismantling asks for changes anything on disk.
pub open spec fn dismantling_touches(ask: DismantlingAskView) -> bool {
    match ask {
        DismantlingAskView::Look { .. } => false,
        DismantlingAskView::Step { ask } => removal_touches(ask),
        DismantlingAskView::Act { .. } => true,
        DismantlingAskView::Drop { .. } => true,
        DismantlingAskView::RemoveDir { .. } => true,
        DismantlingAskView::Nothing => false,
    }
}

/// A rejected dismantling never leaves a half-dismantled space. Every step keeps it safe, and
/// nothing that changes anything is asked for before every member has been looked at and each
/// worktree among them checked to the end; what a look or a check refuses ends it before
/// that. The generated files and the folder go only once every member has gone.
pub proof fn law_members_are_checked_first(v: DismantlingView, answer: DismantlingAnswerView)
    requires
        dismantling_safe(v),
    ensures
        dismantling_next(v, answer) matches Ok(w) ==> dismantling_safe(w),
        dismantling_touches(dismantling_ask(v)) ==> all_ready(v),
        dismantling_ask(v) is Drop || dismantling_ask(v) is RemoveDir ==> v.taken
            == v.members.len(),
        dismantling_next(v, answer) matches Ok(w) ==> w.space == v.space && w.members == v.members
            && w.files == v.files,
{
    lemma_dismantling_stays_safe(v, answer);
    if let Some(r) = v.now {
        law_checking_touches_nothing(r);
    }
    if v.ready.len() == v.members.len() {
        assert forall|i: int| 0 <= i < v.members.len() implies is_ready(
            v.space,
            #[trigger] v.members[i],
            v.ready[i],
        ) by {
            assert(is_ready(v.space, v.members[i], v.ready[i]));
        }
    }
}

} // verus!
