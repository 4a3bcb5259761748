//! The small decisions of the work on repositories: which arguments a
//! worktree is added with, which directories belong to a repository, and
//! how the search for a bare repository goes on at a directory.

use vstd::prelude::*;
use crate::config::{Config, ConfigView};
use crate::paths::{join, join_path};
use crate::text::{chars_of, str_eq, views};
use crate::workspace::{RepoIdentifier, RepoIdentifierView};

verus! {

/// The arguments with which `git` adds a worktree at `workspace` for the
/// branch `branch` of the bare repository `bare_repo`: a branch that
/// exists is taken as it is, one that does not is made.
pub open spec fn worktree_args(
    bare_repo: Seq<char>,
    workspace: Seq<char>,
    branch: Seq<char>,
    branch_exists: bool,
) -> Seq<Seq<char>> {
    let head = seq!["--git-dir"@, bare_repo, "worktree"@, "add"@];
    if branch_exists {
        head + seq![workspace, branch]
    } else {
        head + seq!["-b"@, branch, workspace]
    }
}

/// The arguments with which `git` adds a worktree.
pub fn worktree_add_args(bare_repo: &str, workspace: &str, branch: &str, branch_exists: bool) -> (r:
    Vec<String>)
    ensures
        views(r@) == worktree_args(bare_repo@, workspace@, branch@, branch_exists),
{
    let mut args: Vec<String> = Vec::new();
    args.push("--git-dir".to_owned());
    args.push(bare_repo.to_owned());
    args.push("worktree".to_owned());
    args.push("add".to_owned());
    if branch_exists {
        args.push(workspace.to_owned());
        args.push(branch.to_owned());
    } else {
        args.push("-b".to_owned());
        args.push(branch.to_owned());
        args.push(workspace.to_owned());
    }
    proof {
        assert(views(args@) =~= worktree_args(bare_repo@, workspace@, branch@, branch_exists));
    }
    args
}

/// What a `RepoDir` holds, as plain sequences.
pub struct RepoDirView {
    pub label: Seq<char>,
    pub path: Seq<char>,
}

/// A directory that belongs to a repository, with what it is called
/// when it is shown.
#[derive(Debug, Clone, PartialEq, Eq)]
pub struct RepoDir {
    pub label: String,
    pub path: String,
}

impl View for RepoDir {
    type V = RepoDirView;

    open spec fn view(&self) -> RepoDirView {
        RepoDirView { label: self.label@, path: self.path@ }
    }
}

/// The directories that belong to a repository: its bare git repository,
/// its jj repository, and the directories of its git worktrees and of its
/// jj workspaces.
pub open spec fn repo_dirs(c: ConfigView, id: RepoIdentifierView) -> Seq<RepoDirView> {
    seq![
        RepoDirView { label: "Git bare repo"@, path: join_path(c.git_dir, id.relative_path) },
        RepoDirView { label: "JJ workspace"@, path: join_path(c.jj_dir, id.relative_path) },
        RepoDirView {
            label: "Git worktrees"@,
            path: join_path(join_path(c.workspace_dir, "git"@), id.relative_path),
        },
        RepoDirView {
            label: "JJ workspaces"@,
            path: join_path(join_path(c.workspace_dir, "jj"@), id.relative_path),
        },
    ]
}

/// The directories that belong to the repository `repo_id`, which are all
/// that removing the repository removes.
pub fn directories_of(config: &Config, repo_id: &RepoIdentifier) -> (r: Vec<RepoDir>)
    ensures
        views(r@) == repo_dirs(config@, repo_id@),
{
    let rel = repo_id.relative_path.as_str();
    let git_base = join(config.workspace_dir.as_str(), "git");
    let jj_base = join(config.workspace_dir.as_str(), "jj");
    let mut dirs: Vec<RepoDir> = Vec::new();
    dirs.push(
        RepoDir { label: "Git bare repo".to_owned(), path: join(config.git_dir.as_str(), rel) },
    );
    dirs.push(
        RepoDir { label: "JJ workspace".to_owned(), path: join(config.jj_dir.as_str(), rel) },
    );
    dirs.push(RepoDir { label: "Git worktrees".to_owned(), path: join(git_base.as_str(), rel) });
    dirs.push(RepoDir { label: "JJ workspaces".to_owned(), path: join(jj_base.as_str(), rel) });
    proof {
        assert(views(dirs@) =~= repo_dirs(config@, repo_id@));
    }
    dirs
}

/// How the search for a bare repository goes on at a directory.
#[derive(Debug, Clone, Copy, PartialEq, Eq, Structural)]
pub enum Visit {
    /// The directory is a repository of the name sought.
    Take,
    /// The directory is a repository of another name: nothing in it is
    /// looked at.
    Pass,
    /// The directory is no repository: the search goes on inside it.
    Descend,
}

/// What the search does at a directory named `dir_name`, if it has a
/// name, that does or does not look like a bare repository.
pub open spec fn visit_spec(is_repo: bool, dir_name: Option<Seq<char>>, search_name: Seq<char>) -> Visit {
    if !is_repo {
        Visit::Descend
    } else if dir_name == Some(search_name) {
        Visit::Take
    } else {
        Visit::Pass
    }
}

/// What the search for the bare repository `search_name` does at a
/// directory.
pub fn visit_dir(is_repo: bool, dir_name: Option<&str>, search_name: &str) -> (r: Visit)
    ensures
        r == visit_spec(is_repo, crate::text::opt_view(dir_name), search_name@),
{
    if !is_repo {
        return Visit::Descend;
    }
    match dir_name {
        Some(name) => if str_eq(name, search_name) {
            Visit::Take
        } else {
            Visit::Pass
        },
        None => Visit::Pass,
    }
}

/// Whether `needle` stands somewhere in `text`.
pub open spec fn holds_text(text: Seq<char>, needle: Seq<char>) -> bool {
    exists|i: int|
        0 <= i <= text.len() - needle.len() && #[trigger] text.subrange(i, i + needle.len())
            == needle
}

/// Whether `needle` stands at index `at` of `text`.
fn stands_at(text: &[char], needle: &[char], at: usize) -> (r: bool)
    requires
        at + needle@.len() <= text@.len(),
    ensures
        r == (text@.subrange(at as int, at + needle@.len()) == needle@),
{
    let total: usize = text.len();
    let mut j: usize = 0;
    while j < needle.len()
        invariant
            j <= needle@.len(),
            total == text@.len(),
            at + needle@.len() <= total,
            forall|k: int| 0 <= k < j ==> text@[at + k] == needle@[k],
        decreases needle.len() - j,
    {
        if text[at + j] != needle[j] {
            proof {
                assert(text@.subrange(at as int, at + needle@.len())[j as int] == text@[at + j]);
            }
            return false;
        }
        j += 1;
    }
    proof {
        assert(text@.subrange(at as int, at + needle@.len()) =~= needle@);
    }
    true
}

/// Whether `needle` stands somewhere in `text`.
pub fn contains_text(text: &str, needle: &str) -> (r: bool)
    ensures
        r == holds_text(text@, needle@),
{
    let hay = chars_of(text);
    let pin = chars_of(needle);
    if pin.len() > hay.len() {
        return false;
    }
    let last: usize = hay.len() - pin.len();
    let mut i: usize = 0;
    loop
        invariant
            i <= last,
            last == hay@.len() - pin@.len(),
            hay@ == text@,
            pin@ == needle@,
            forall|k: int| 0 <= k < i ==> #[trigger] text@.subrange(k, k + needle@.len()) != needle@,
        decreases last - i,
    {
        if stands_at(hay.as_slice(), pin.as_slice(), i) {
            return true;
        }
        if i == last {
            return false;
        }
        i += 1;
    }
}

/// The lines that make a bare repository shared with the user's group.
pub open spec fn shared_setting() -> Seq<char> {
    "[core]\n\tsharedRepository = group\n"@
}

/// What is to be appended to a repository's config file whose text is
/// `existing`, so that the repository is shared with the group: the
/// setting, unless the file names it already.
pub open spec fn shared_setting_for(existing: Seq<char>) -> Option<Seq<char>> {
    if holds_text(existing, "sharedRepository"@) {
        None
    } else {
        Some(shared_setting())
    }
}

/// What is to be appended to a repository's config file so that the
/// repository is shared with the group.
pub fn shared_repository_lines(existing: &str) -> (r: Option<String>)
    ensures
        crate::text::opt_view(r) == shared_setting_for(existing@),
{
    if contains_text(existing, "sharedRepository") {
        None
    } else {
        Some("[core]\n\tsharedRepository = group\n".to_owned())
    }
}

} // verus!
