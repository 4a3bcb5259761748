//! Where repositories and working copies lie: every location is the
//! repository's path relative to one of the configured directories.

use vstd::prelude::*;
use crate::config::{Config, ConfigView};
use crate::paths::{join, join_path, relative_to, strip_base};
use crate::text::{char_len, concat, concat3, last_pos, lemma_last_pos, opt_view};
use crate::text::{rfind_char, skip_chars, str_eq, take_chars, views};

verus! {

/// The kind of a working copy.
#[derive(Debug, Clone, Copy, PartialEq, Eq, PartialOrd, Ord, Structural)]
pub enum WorkspaceType {
    Git,
    Jj,
}

/// What is known of one git worktree.
#[derive(Debug, Clone, PartialEq, Eq)]
pub struct GitWorktreeInfo {
    pub path: String,
    /// The worktree's name; the main worktree has none.
    pub id: Option<String>,
    pub is_main: bool,
    pub is_locked: bool,
}

/// What a `RepoIdentifier` holds, as a plain sequence.
pub struct RepoIdentifierView {
    pub relative_path: Seq<char>,
}

/// A repository, named by its path relative to any of the configured
/// directories, such as `myproject` or `work/project`.
#[derive(Debug, Clone, PartialEq, Eq, PartialOrd, Ord)]
pub struct RepoIdentifier {
    pub relative_path: String,
}

impl View for RepoIdentifier {
    type V = RepoIdentifierView;

    open spec fn view(&self) -> RepoIdentifierView {
        RepoIdentifierView { relative_path: self.relative_path@ }
    }
}

/// What a `Workspace` holds, as plain values.
pub struct WorkspaceView {
    pub repo_id: RepoIdentifierView,
    pub workspace_type: WorkspaceType,
    pub session: Seq<char>,
}

/// A working copy: the repository it belongs to, its kind, and the name
/// of its session.
#[derive(Debug, Clone, PartialEq, Eq, PartialOrd, Ord)]
pub struct Workspace {
    pub repo_id: RepoIdentifier,
    pub workspace_type: WorkspaceType,
    pub session: String,
}

impl View for Workspace {
    type V = WorkspaceView;

    open spec fn view(&self) -> WorkspaceView {
        WorkspaceView {
            repo_id: self.repo_id@,
            workspace_type: self.workspace_type,
            session: self.session@,
        }
    }
}

/// A path that was expected below a base directory and is not.
#[derive(Debug, Clone, PartialEq, Eq)]
pub struct NotUnderBase {
    pub path: String,
    pub base: String,
}

/// What a `NotUnderBase` holds, as plain sequences.
pub struct NotUnderBaseView {
    pub path: Seq<char>,
    pub base: Seq<char>,
}

impl View for NotUnderBase {
    type V = NotUnderBaseView;

    open spec fn view(&self) -> NotUnderBaseView {
        NotUnderBaseView { path: self.path@, base: self.base@ }
    }
}

impl NotUnderBase {
    /// The sentence that reports this error.
    pub fn message(&self) -> (r: String)
        ensures
            r@ == "Path "@ + self@.path + " is not under base directory "@ + self@.base,
    {
        let head = concat3("Path ", self.path.as_str(), " is not under base directory ");
        concat(head.as_str(), self.base.as_str())
    }
}

/// The view of a result that holds a path or the error of not lying
/// under the base.
pub open spec fn relative_result_view(r: Result<String, NotUnderBase>) -> Result<
    Seq<char>,
    NotUnderBaseView,
> {
    match r {
        Ok(p) => Ok(p@),
        Err(e) => Err(e@),
    }
}

/// What is left of `full_path` below `base_dir`, or the error that names both.
pub open spec fn relative_path_spec(base_dir: Seq<char>, full_path: Seq<char>) -> Result<
    Seq<char>,
    NotUnderBaseView,
> {
    match relative_to(base_dir, full_path) {
        Some(rest) => Ok(rest),
        None => Err(NotUnderBaseView { path: full_path, base: base_dir }),
    }
}

/// The path of `full_path` relative to `base_dir`. Fails if and only if
/// `full_path` is neither `base_dir` nor a path below it.
pub fn calculate_relative_path(base_dir: &str, full_path: &str) -> (r: Result<String, NotUnderBase>)
    ensures
        relative_result_view(r) == relative_path_spec(base_dir@, full_path@),
{
    match strip_base(base_dir, full_path) {
        Some(rest) => Ok(rest),
        None => Err(NotUnderBase { path: full_path.to_owned(), base: base_dir.to_owned() }),
    }
}

/// The directory of the working copies of one kind.
pub open spec fn kind_dir(kind: WorkspaceType) -> Seq<char> {
    match kind {
        WorkspaceType::Git => "git"@,
        WorkspaceType::Jj => "jj"@,
    }
}

/// Where the working copy of session `session` lies: below the workspace
/// directory, in the directory of its kind, under the repository's path.
pub open spec fn workspace_location(
    c: ConfigView,
    kind: WorkspaceType,
    relative_path: Seq<char>,
    session: Seq<char>,
) -> Seq<char> {
    join_path(join_path(join_path(c.workspace_dir, kind_dir(kind)), relative_path), session)
}

/// Whether the repository path `relative_path` answers to the search
/// text `search`: it is `search`, or ends with `search` as whole components.
pub open spec fn answers_to(relative_path: Seq<char>, search: Seq<char>) -> bool {
    relative_path == search || (relative_path.len() > search.len() && relative_path.skip(
        relative_path.len() - search.len() - 1,
    ) == "/"@ + search)
}

/// Index of the first path of `candidates` that answers to `search`;
/// `candidates.len()` where none does.
pub open spec fn first_answer(candidates: Seq<Seq<char>>, search: Seq<char>) -> int
    decreases candidates.len(),
{
    if candidates.len() == 0 {
        0
    } else if answers_to(candidates[0], search) {
        0
    } else {
        1 + first_answer(candidates.drop_first(), search)
    }
}

/// An index whose path answers to `search`, with none before it that
/// does, is `first_answer`.
pub proof fn lemma_first_answer_is(candidates: Seq<Seq<char>>, search: Seq<char>, i: int)
    requires
        0 <= i <= candidates.len(),
        forall|j: int| 0 <= j < i ==> !answers_to(candidates[j], search),
        i < candidates.len() ==> answers_to(candidates[i], search),
    ensures
        first_answer(candidates, search) == i,
    decreases candidates.len(),
{
    if candidates.len() == 0 || i == 0 {
    } else {
        let rest = candidates.drop_first();
        assert(!answers_to(candidates[0], search));
        assert forall|j: int| 0 <= j < i - 1 implies !answers_to(rest[j], search) by {
            assert(rest[j] == candidates[j + 1]);
        }
        lemma_first_answer_is(rest, search, i - 1);
    }
}

/// The session and repository that a working copy at `relative`, a path
/// below the directory of its kind, belongs to: the last component is the
/// session, what stands before it the repository. `None` where either
/// would be empty.
pub open spec fn workspace_at(relative: Seq<char>, kind: WorkspaceType) -> Option<WorkspaceView> {
    let cut = last_pos(relative, '/');
    if cut <= 0 || cut + 1 >= relative.len() {
        None
    } else {
        Some(
            WorkspaceView {
                repo_id: RepoIdentifierView { relative_path: relative.take(cut) },
                workspace_type: kind,
                session: relative.skip(cut + 1),
            },
        )
    }
}

impl Workspace {
    /// The working copy that lies at `relative` below the directory of
    /// its kind, if that path names both a repository and a session.
    pub fn from_relative(relative: &str, workspace_type: WorkspaceType) -> (r: Option<Workspace>)
        ensures
            opt_view(r) == workspace_at(relative@, workspace_type),
    {
        proof {
            lemma_last_pos(relative@, '/');
        }
        let n: usize = char_len(relative);
        match rfind_char(relative, '/') {
            None => None,
            Some(cut) => {
                if cut == 0 || cut + 1 >= n {
                    None
                } else {
                    Some(
                        Workspace {
                            repo_id: RepoIdentifier { relative_path: take_chars(relative, cut) },
                            workspace_type,
                            session: skip_chars(relative, cut + 1),
                        },
                    )
                }
            },
        }
    }
}

/// The view of a result that holds a repository or the error of not
/// lying under the base.
pub open spec fn repo_result_view(r: Result<RepoIdentifier, NotUnderBase>) -> Result<
    Seq<char>,
    NotUnderBaseView,
> {
    match r {
        Ok(id) => Ok(id@.relative_path),
        Err(e) => Err(e@),
    }
}

impl RepoIdentifier {
    /// The repository whose checkout is `full_path`, a path below the
    /// directory of source repositories. Fails if and only if `full_path`
    /// does not lie under that directory.
    pub fn from_repo_path(config: &Config, full_path: &str) -> (r: Result<
        RepoIdentifier,
        NotUnderBase,
    >)
        ensures
            repo_result_view(r) == relative_path_spec(config@.base_repo_dir, full_path@),
    {
        match calculate_relative_path(config.base_repo_dir.as_str(), full_path) {
            Ok(relative_path) => Ok(RepoIdentifier { relative_path }),
            Err(e) => Err(e),
        }
    }

    /// Where the checkout of this repository lies.
    pub fn source_path(&self, config: &Config) -> (r: String)
        ensures
            r@ == join_path(config@.base_repo_dir, self@.relative_path),
    {
        join(config.base_repo_dir.as_str(), self.relative_path.as_str())
    }

    /// Where the bare git repository lies.
    pub fn git_path(&self, config: &Config) -> (r: String)
        ensures
            r@ == join_path(config@.git_dir, self@.relative_path),
    {
        join(config.git_dir.as_str(), self.relative_path.as_str())
    }

    /// Where the jj repository lies.
    pub fn jj_path(&self, config: &Config) -> (r: String)
        ensures
            r@ == join_path(config@.jj_dir, self@.relative_path),
    {
        join(config.jj_dir.as_str(), self.relative_path.as_str())
    }

    /// Where the git worktree of session `session` lies.
    pub fn git_workspace_path(&self, config: &Config, session: &str) -> (r: String)
        ensures
            r@ == workspace_location(config@, WorkspaceType::Git, self@.relative_path, session@),
    {
        self.workspace_path(config, WorkspaceType::Git, session)
    }

    /// Where the jj workspace of session `session` lies.
    pub fn jj_workspace_path(&self, config: &Config, session: &str) -> (r: String)
        ensures
            r@ == workspace_location(config@, WorkspaceType::Jj, self@.relative_path, session@),
    {
        self.workspace_path(config, WorkspaceType::Jj, session)
    }

    /// Where the working copy of kind `wtype` and session `session` lies.
    pub fn workspace_path(&self, config: &Config, wtype: WorkspaceType, session: &str) -> (r: String)
        ensures
            r@ == workspace_location(config@, wtype, self@.relative_path, session@),
    {
        let kind = match wtype {
            WorkspaceType::Git => "git",
            WorkspaceType::Jj => "jj",
        };
        let base = join(config.workspace_dir.as_str(), kind);
        let repo = join(base.as_str(), self.relative_path.as_str());
        join(repo.as_str(), session)
    }

    /// The path that names this repository.
    pub fn relative_path(&self) -> (r: &str)
        ensures
            r@ == self@.relative_path,
    {
        self.relative_path.as_str()
    }

    /// Whether this repository answers to the search text `search`, such
    /// as `project` or `work/project` for the repository `work/project`.
    pub fn matches(&self, search: &str) -> (r: bool)
        ensures
            r == answers_to(self@.relative_path, search@),
    {
        let path = self.relative_path.as_str();
        if str_eq(path, search) {
            return true;
        }
        let n: usize = char_len(path);
        let m: usize = char_len(search);
        if n <= m {
            return false;
        }
        let tail = skip_chars(path, n - m - 1);
        let wanted = concat("/", search);
        str_eq(tail.as_str(), wanted.as_str())
    }

    /// The first of the repositories `candidates`, given by their paths,
    /// that answers to `search`.
    pub fn locate(candidates: &[String], search: &str) -> (r: Option<RepoIdentifier>)
        ensures
            match r {
                Some(id) => first_answer(views(candidates@), search@) < candidates@.len()
                    && id@.relative_path == views(candidates@)[first_answer(
                    views(candidates@),
                    search@,
                )],
                None => first_answer(views(candidates@), search@) == candidates@.len(),
            },
    {
        let mut i: usize = 0;
        while i < candidates.len()
            invariant
                i <= candidates.len(),
                forall|j: int| 0 <= j < i ==> !answers_to(views(candidates@)[j], search@),
            decreases candidates.len() - i,
        {
            let id = RepoIdentifier { relative_path: candidates[i].clone() };
            if id.matches(search) {
                proof {
                    lemma_first_answer_is(views(candidates@), search@, i as int);
                }
                return Some(id);
            }
            i += 1;
        }
        proof {
            lemma_first_answer_is(views(candidates@), search@, i as int);
        }
        None
    }
}

} // verus!
