//! What holds of every step that is taken on a space: where it writes, and what it spares.

use crate::names::CODEX_POLICY;
use crate::path::{
    bare, base_name_of, file_name_of, is_top, joined_path, last_component, law_names_are_filled,
    lemma_last_at, parent_of,
};
use crate::space::{
    adding, at_most_one, file_acts, fresh_files, is_own, is_skipped, is_user_entry,
    law_worktree_name_is_flat, member_in, name_error, new_worktree_name, promoting, refresh_acts,
    relink_at, space_in, tmp_beside, update_act, wanted, workspace_name, workspace_text,
    worktree_name, ActView, GeneratedView, Kind, LayoutView, MemberFactView, MARKER,
};
use crate::text::{last_at, trimmed};
use vstd::prelude::*;

verus! {

/// Whether a path names something directly in the folder `dir`.
pub open spec fn lies_in(path: Seq<char>, dir: Seq<char>) -> bool {
    parent_of(path) == Some(bare(dir))
}

/// Whether a step changes nothing but what lies directly in the folder `dir`.
pub open spec fn stays_in(act: ActView, dir: Seq<char>) -> bool {
    match act {
        ActView::MakeDir { path } => lies_in(path, dir),
        ActView::Write { path, .. } => lies_in(path, dir),
        ActView::Replace { path, tmp, .. } => lies_in(path, dir) && lies_in(tmp, dir),
        ActView::Link { at, .. } => lies_in(at, dir),
        ActView::RemoveFile { path } => lies_in(path, dir),
    }
}

/// Whether a text can be the name of a file: one component, neither `.` nor `..`.
pub open spec fn is_plain_name(name: Seq<char>) -> bool {
    &&& name.len() > 0
    &&& !name.contains('/')
    &&& name != seq!['.']
    &&& name != seq!['.', '.']
}

proof fn lemma_bare_twice(p: Seq<char>)
    ensures
        bare(bare(p)) == bare(p),
    decreases p.len(),
{
    if p.len() > 1 && (p.last() == '/' || (p.last() == '.' && p[p.len() - 2] == '/')) {
        lemma_bare_twice(p.drop_last());
    }
}

/// A plain name under a folder lies in it, and is the name at the end.
#[verifier::spinoff_prover]
proof fn lemma_joined(dir: Seq<char>, name: Seq<char>)
    requires
        is_plain_name(name),
    ensures
        lies_in(joined_path(dir, name), dir),
        file_name_of(joined_path(dir, name)) == Some(name),
{
    reveal_strlit("/");
    let p = joined_path(dir, name);
    let n = p.len() - name.len();
    assert(forall|j: int| 0 <= j < name.len() ==> name.contains(#[trigger] name[j]));
    assert(name[0] != '/');
    assert(p.skip(n) == name);
    assert(forall|j: int| n <= j < p.len() ==> #[trigger] p[j] == name[j - n]);
    assert(p.last() == name.last());
    assert(name.contains(name.last()));
    if p.len() > 1 && p.last() == '.' && p[p.len() - 2] == '/' {
        if name.len() > 1 {
            assert(p[p.len() - 2] == name[name.len() - 2]);
            assert(false);
        }
        assert(name == seq!['.']);
    }
    assert(bare(p) == p);
    lemma_last_at(p, '/');
    if n > 0 {
        assert(p[n - 1] == '/');
        assert(last_at(p, '/') == Some(n - 1)) by {
            let k = last_at(p, '/')->0;
            if k > n - 1 {
                assert(p[k] == name[k - n]);
            }
        }
        assert(last_component(p) == name);
        if dir.last() == '/' && dir.len() > 0 {
            assert(p.take(n - 1) == dir.drop_last());
            if n == 1 {
                assert(p.take(1) == dir);
            }
        } else {
            assert(p.take(n - 1) == dir);
        }
    } else {
        assert(dir.len() == 0);
        assert(last_at(p, '/') is None) by {
            if last_at(p, '/') is Some {
                let k = last_at(p, '/')->0;
                assert(p[k] == name[k - n]);
            }
        }
        assert(bare(dir) == Seq::<char>::empty());
    }
    if is_top(p) {
        assert(p[0] == '/');
        assert(p[p.len() - 1] == name[p.len() - 1 - n]);
    }
}

proof fn lemma_tmp(dir: Seq<char>, name: Seq<char>)
    requires
        is_plain_name(name),
    ensures
        lies_in(tmp_beside(joined_path(dir, name)), dir),
{
    reveal_strlit(".");
    reveal_strlit(".tmp");
    lemma_joined(dir, name);
    let hidden = "."@ + name + ".tmp"@;
    assert forall|j: int| 0 <= j < hidden.len() implies hidden[j] != '/' by {
        if 0 < j <= name.len() {
            assert(hidden[j] == name[j - 1]);
            assert(name.contains(name[j - 1]));
        } else if j > name.len() {
            assert(hidden[j] == ".tmp"@[j - 1 - name.len()]);
        }
    }
    assert(hidden.len() > 2);
    lemma_joined(bare(dir), hidden);
    lemma_bare_twice(dir);
}

proof fn lemma_last_component_is_flat(p: Seq<char>)
    ensures
        !last_component(p).contains('/'),
{
    lemma_last_at(p, '/');
    match last_at(p, '/') {
        Some(k) => {
            let end = p.skip(k + 1);
            assert forall|j: int| 0 <= j < end.len() implies #[trigger] end[j] != '/' by {
                assert(end[j] == p[k + 1 + j]);
            }
        },
        None => {},
    }
}

proof fn lemma_file_name_is_plain(p: Seq<char>)
    ensures
        file_name_of(p) matches Some(name) ==> is_plain_name(name),
{
    law_names_are_filled(p);
    lemma_last_component_is_flat(bare(p));
}

proof fn lemma_workspace_is_plain(space: Seq<char>)
    ensures
        is_plain_name(workspace_name(base_name_of(space))),
{
    reveal_strlit(".code-workspace");
    lemma_file_name_is_plain(space);
    let base = base_name_of(space);
    let ws = workspace_name(base);
    assert forall|j: int| 0 <= j < ws.len() implies ws[j] != '/' by {
        if j < base.len() {
            assert(ws[j] == base[j]);
            assert(base.contains(base[j]));
        } else {
            assert(ws[j] == ".code-workspace"@[j - base.len()]);
        }
    }
}

/// The marker, both policy files and the workspace are written in the space and nowhere
/// else, and so is what stands in for them while they are replaced.
pub proof fn law_generated_files_stay_in_the_space(
    space: Seq<char>,
    name: Seq<char>,
    facts: Seq<MemberFactView>,
    current: GeneratedView,
    policy_file: Seq<char>,
    layout: LayoutView,
)
    requires
        is_plain_name(policy_file),
    ensures
        forall|i: int|
            0 <= i < file_acts(space, name, policy_file, layout).len() ==> stays_in(
                #[trigger] file_acts(space, name, policy_file, layout)[i],
                space,
            ),
        forall|i: int|
            0 <= i < refresh_acts(space, facts, current, policy_file, layout).len() ==> stays_in(
                #[trigger] refresh_acts(space, facts, current, policy_file, layout)[i],
                space,
            ),
{
    reveal_strlit(".space.toml");
    reveal_strlit("AGENTS.md");
    let ws = workspace_name(base_name_of(space));
    lemma_joined(space, MARKER@);
    lemma_joined(space, policy_file);
    lemma_tmp(space, policy_file);
    lemma_joined(space, CODEX_POLICY@);
    lemma_tmp(space, CODEX_POLICY@);
    lemma_workspace_is_plain(space);
    lemma_joined(space, ws);
    lemma_tmp(space, ws);
    let want = wanted(space, facts, policy_file, layout);
    let a = at_most_one(
        update_act(joined_path(space, policy_file), want.claude->0, current.claude),
    );
    let b = at_most_one(
        update_act(joined_path(space, CODEX_POLICY@), want.agents->0, current.agents),
    );
    let c = at_most_one(
        update_act(joined_path(space, ws), want.workspace->0, current.workspace),
    );
    let all = refresh_acts(space, facts, current, policy_file, layout);
    assert(all == a + b + c);
    assert forall|i: int| 0 <= i < all.len() implies stays_in(#[trigger] all[i], space) by {
        if i < a.len() {
            assert(all[i] == a[i]);
        } else if i < a.len() + b.len() {
            assert(all[i] == b[i - a.len()]);
        } else {
            assert(all[i] == c[i - a.len() - b.len()]);
        }
    }
}

/// A repo joins a space, a worktree is made and a symlink comes back directly in the space,
/// whatever the repo is called in the pool; only where the canonical repo has no name does
/// that rest on the member's own.
pub proof fn law_members_stay_in_the_space(
    space: Seq<char>,
    repo: Seq<char>,
    branch: Seq<char>,
    canonical: Seq<char>,
    src: Kind,
    has_git: bool,
    at: Kind,
    layout: LayoutView,
)
    ensures
        adding(space, repo, src, at, layout) matches Ok(act) ==> stays_in(act, space),
        file_name_of(canonical) is Some || is_plain_name(repo) ==> lies_in(
            relink_at(space, repo, canonical),
            space,
        ),
        file_name_of(canonical) is Some || is_plain_name(repo) ==> (promoting(
            space,
            repo,
            branch,
            canonical,
            has_git,
            at,
        ) matches Ok(p) ==> lies_in(p.dst, space)),
{
    lemma_file_name_is_plain(repo);
    lemma_file_name_is_plain(canonical);
    if file_name_of(repo) is Some {
        lemma_joined(space, file_name_of(repo)->0);
    }
    if file_name_of(canonical) is Some || is_plain_name(repo) {
        let base = match file_name_of(canonical) {
            Some(n) => n,
            None => repo,
        };
        lemma_joined(space, base);
        law_worktree_name_is_flat(base, trimmed(branch));
        reveal_strlit("-");
        let name = worktree_name(base, trimmed(branch));
        assert(name == new_worktree_name(repo, canonical, branch));
        assert(name[base.len() as int] == '-');
        lemma_joined(space, name);
    }
}

/// A new space is made directly in the root, and gets its workspace along with the marker and
/// the policy files.
pub proof fn law_new_spaces_lie_in_the_root(
    root: Seq<char>,
    name: Seq<char>,
    policy_file: Seq<char>,
    layout: LayoutView,
)
    requires
        name_error(name, layout) is None,
    ensures
        lies_in(joined_path(root, name), root),
        ({
            let path = joined_path(root, name);
            let file = joined_path(path, workspace_name(name));
            refresh_acts(path, Seq::empty(), fresh_files(name, layout), policy_file, layout)
                == seq![
                ActView::Replace {
                    path: file,
                    tmp: tmp_beside(file),
                    text: workspace_text(space_in(path, Seq::empty(), policy_file)),
                },
            ]
        }),
{
    lemma_joined(root, name);
}

/// What the tool itself writes into a space is neither a member of it nor the user's: it
/// never shows as unmanaged and never blocks a deletion.
pub proof fn law_generated_files_are_the_tools_own(
    f: MemberFactView,
    space: Seq<char>,
    policy_file: Seq<char>,
)
    requires
        f.kind == Kind::File,
        f.name == MARKER@ || f.name == policy_file || f.name == CODEX_POLICY@ || f.name
            == workspace_name(space),
    ensures
        is_own(f, space, policy_file),
        is_skipped(f.name, policy_file),
        member_in(f, policy_file) is None,
        !is_user_entry(f, space, policy_file),
{
    reveal_strlit(".space.toml");
    let ws = workspace_name(space);
    assert(ws.skip(ws.len() - ".code-workspace"@.len()) == ".code-workspace"@);
}

} // verus!
