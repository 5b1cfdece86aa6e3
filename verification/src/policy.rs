//! The policy that every space carries for the agents that work in it.

use crate::space::{pool_display, pool_shown, Layout, LayoutView};
use vstd::prelude::*;

verus! {

pub const TITLE: &'static str = "# Space: ";

pub const INTRO: &'static str = "

This folder is a **space** managed by the `space` tool: a working set of repositories.
Each subdirectory here is a **symlink** to a canonical checkout in `";

pub const GROUPED: &'static str = "/`
(possibly grouped, e.g. `";

pub const SOURCE: &'static str = "/<group>/<repo>`), or a git worktree of one once a
branch has been made.

## Rules for agents

- The source of truth for every repo is its checkout under `";

pub const EDITING: &'static str = "/`. Edits made
  through the symlinks in this space modify those canonical checkouts directly, and other
  spaces may reference the same checkout.
- **Repo-specific documentation goes inside that repo's own directory** so it can be
  committed. Cross-repo scratch (research notes, task lists, drafts) may live at the space
  root, but it is not version-controlled and only visible on this machine.
- **Before creating a git branch, add a worktree for it** (`space wt`, below) so the branch
  is isolated to this space and does not flip the shared checkout out from under other
  spaces. Never run `git checkout -b` / `git switch -c` in a symlinked repo. Each worktree
  lives at `<repo>-<branch>` next to the repo's symlink; repeat `space wt` with another
  branch for parallel worktrees of the same repo.
- Do not `rm`, move, or re-point the symlinks by hand; use the `space` commands to manage
  membership.
- Normal git workflows (status, diff, add, commit, push) work as usual inside each repo.
- `";

pub const WORKSPACE: &'static str = ".code-workspace` here is generated: it opens every repo in this space as a VS Code
  multi-root workspace (`code ";

pub const COMMANDS: &'static str = ".code-workspace`). It regenerates when membership
  changes, so do not edit it by hand.

## Commands (run from anywhere inside this space)

```sh
space pull               # update every repo in this space from origin
space pull <repo>        # update just one repo
space add <repo>         # add a pool repo to this space (bare name or us/<repo>)
space ls                 # list this space's repos and the available pool
space wt <repo> <branch> # REQUIRED before branching: adds a <repo>-<branch> worktree
```

- `space pull` is the safe way to get latest: it fetches origin, then fast-forwards only
  when the repo is on main/master with a clean tree. On a feature-branch worktree it only
  fetches and reports, never merges. It refuses (with the reason) on dirty or diverged
  repos instead of guessing.
- `space add` resolves a bare repo name against the pool (`";

pub const DETAILS: &'static str = "/**`) and errors
  if the name is ambiguous or unknown; it links the repo into this space as a symlink.
- `space wt` creates the branch in an isolated worktree named `<repo>-<branch>` (the repo's
  symlink stays as the canonical view) and carries untracked files plus gitignored `*.md`
  notes across so nothing is lost. Work inside that worktree directory; commits land on the
  new branch. One branch can be checked out in only one worktree at a time.

Typical session: `space pull`, work, commit, push. If the work needs a branch, run
`space wt <repo> <branch>` first, then proceed as usual.
";

/// The policy of the space `name`.
pub open spec fn policy_of(name: Seq<char>, layout: LayoutView) -> Seq<char> {
    TITLE@
        + name
        + INTRO@
        + pool_shown(layout)
        + GROUPED@
        + pool_shown(layout)
        + SOURCE@
        + pool_shown(layout)
        + EDITING@
        + name
        + WORKSPACE@
        + name
        + COMMANDS@
        + pool_shown(layout)
        + DETAILS@
}

/// The policy of the space `name`, as both policy files hold it.
pub fn policy_markdown(name: &str, layout: &Layout) -> (r: String)
    ensures
        r@ == policy_of(name@, layout.deep_view()),
{
    let pool = pool_display(layout);
    let mut out = String::new();
    out.append(TITLE);
    out.append(name);
    out.append(INTRO);
    out.append(pool.as_str());
    out.append(GROUPED);
    out.append(pool.as_str());
    out.append(SOURCE);
    out.append(pool.as_str());
    out.append(EDITING);
    out.append(name);
    out.append(WORKSPACE);
    out.append(name);
    out.append(COMMANDS);
    out.append(pool.as_str());
    out.append(DETAILS);
    assert(Seq::<char>::empty() + TITLE@ == TITLE@);
    out
}

} // verus!
