//! Decisions about workspaces on disk, taken from what was observed there:
//! where repositories may be cloned, what a new or extended workspace
//! starts from, what an inspection reports, which workspaces may go to the
//! Trash and under which name, and how workspaces are listed.

use vstd::prelude::*;
use vstd::string::*;

use crate::metadata::{
    option_view, MetadataModel, StoredRepositoryModel, WorkspaceMetadata, METADATA_FILE,
    METADATA_SCHEMA_VERSION,
};
use crate::paths::{join_path, join_path_str};
use crate::repository::{repository_models, Repository, RepositoryModel};
use crate::text::{chars_of, decimal, lex_le, lex_le_chars, pad_right, push_decimal, push_padded, string_views};
use crate::theme::{painted, Theme, BLUE, PINK, YELLOW};

verus! {

/// The error for a workspace that is not there.
pub open spec fn missing_workspace_message(workspace: Seq<char>) -> Seq<char> {
    "workspace `"@ + workspace + "` does not exist."@
}

/// The error for a new workspace whose name is taken.
pub open spec fn existing_workspace_message(project: Seq<char>) -> Seq<char> {
    "workspace `"@ + project + "` already exists."@
}

/// The error for a checkout directory requested twice.
pub open spec fn duplicate_destination_message(directory: Seq<char>) -> Seq<char> {
    "repository directory `"@ + directory + "` was requested more than once."@
}

/// The error for a checkout directory already present in the workspace.
pub open spec fn existing_destination_message(directory: Seq<char>, workspace: Seq<char>) -> Seq<char> {
    "repository directory `"@ + directory + "` already exists in `"@ + workspace + "`."@
}

/// The error for a workspace named twice for the Trash.
pub open spec fn duplicate_trash_message(project: Seq<char>) -> Seq<char> {
    "workspace `"@ + project + "` was requested more than once."@
}

/// `"workspace `x` does not exist."`
pub fn missing_workspace(workspace: &str) -> (res: String)
    ensures
        res@ == missing_workspace_message(workspace@),
{
    let mut e = "workspace `".to_owned();
    e.append(workspace);
    e.append("` does not exist.");
    e
}

/// The checkout directories of some repositories.
pub open spec fn directories_of(rs: Seq<RepositoryModel>) -> Seq<Seq<char>> {
    rs.map_values(|r: RepositoryModel| r.directory)
}

/// The error of the first checkout directory, in order, that was already
/// requested or is already present (`exists`) in the workspace `workspace`.
pub open spec fn destinations_error(workspace: Seq<char>, directories: Seq<Seq<char>>, exists: Seq<bool>) -> Option<Seq<char>>
    decreases directories.len(),
{
    if directories.len() == 0 {
        None
    } else {
        match destinations_error(workspace, directories.drop_last(), exists.drop_last()) {
            Some(e) => Some(e),
            None => {
                let d = directories.last();
                if directories.drop_last().contains(d) {
                    Some(duplicate_destination_message(d))
                } else if exists[directories.len() - 1] {
                    Some(existing_destination_message(d, workspace))
                } else {
                    None
                }
            },
        }
    }
}

/// The checkouts can proceed exactly when no directory is requested twice
/// and none is present yet.
pub proof fn lemma_destinations_error_iff(workspace: Seq<char>, directories: Seq<Seq<char>>, exists: Seq<bool>)
    requires
        exists.len() == directories.len(),
    ensures
        destinations_error(workspace, directories, exists) is None <==> (directories.no_duplicates()
            && forall|i: int| 0 <= i < exists.len() ==> !#[trigger] exists[i]),
    decreases directories.len(),
{
    if directories.len() > 0 {
        let p = directories.drop_last();
        let q = exists.drop_last();
        lemma_destinations_error_iff(workspace, p, q);
        let d = directories.last();
        let n = directories.len();
        if destinations_error(workspace, directories, exists) is None {
            assert forall|i: int, j: int| 0 <= i < n && 0 <= j < n && i != j implies directories[i]
                != directories[j] by {
                if i == n - 1 {
                    assert(p[j] == directories[j]);
                    assert(!p.contains(d));
                } else if j == n - 1 {
                    assert(p[i] == directories[i]);
                    assert(!p.contains(d));
                } else {
                    assert(p[i] == directories[i] && p[j] == directories[j]);
                }
            }
            assert forall|i: int| 0 <= i < n implies !#[trigger] exists[i] by {
                if i < n - 1 {
                    assert(q[i] == exists[i]);
                }
            }
        }
        if directories.no_duplicates() && forall|i: int| 0 <= i < exists.len() ==> !#[trigger] exists[i] {
            assert forall|i: int, j: int| 0 <= i < p.len() && 0 <= j < p.len() && i != j implies p[i]
                != p[j] by {
                assert(p[i] == directories[i] && p[j] == directories[j]);
            }
            assert forall|i: int| 0 <= i < q.len() implies !#[trigger] q[i] by {
                assert(q[i] == exists[i]);
            }
            if p.contains(d) {
                let k = choose|k: int| 0 <= k < p.len() && p[k] == d;
                assert(directories[k] == directories[n - 1]);
            }
            assert(!exists[n - 1]);
        }
    }
}

proof fn lemma_destinations_error_prefix(workspace: Seq<char>, directories: Seq<Seq<char>>, exists: Seq<bool>, k: int)
    requires
        0 <= k <= directories.len(),
        exists.len() == directories.len(),
        destinations_error(workspace, directories.take(k), exists.take(k)) is Some,
    ensures
        destinations_error(workspace, directories, exists) == destinations_error(
            workspace,
            directories.take(k),
            exists.take(k),
        ),
    decreases directories.len() - k,
{
    if k < directories.len() {
        assert(directories.take(k + 1).drop_last() == directories.take(k));
        assert(exists.take(k + 1).drop_last() == exists.take(k));
        lemma_destinations_error_prefix(workspace, directories, exists, k + 1);
    } else {
        assert(directories.take(k) == directories);
        assert(exists.take(k) == exists);
    }
}

/// Refuses to clone two repositories into one checkout directory, or into
/// a directory that is already present in the workspace (`exists[i]` tells
/// whether the directory of `repositories[i]` is present).
#[verifier::loop_isolation(false)]
pub fn ensure_unique_destinations(project_path: &str, repositories: &[Repository], exists: &[bool]) -> (res: Result<(), String>)
    requires
        exists@.len() == repositories@.len(),
    ensures
        match destinations_error(project_path@, directories_of(repository_models(repositories@)), exists@) {
            None => res is Ok,
            Some(e) => res matches Err(m) && m@ == e,
        },
        res is Ok <==> (directories_of(repository_models(repositories@)).no_duplicates() && forall|i: int|
            0 <= i < exists@.len() ==> !#[trigger] exists@[i]),
{
    let ghost ds = directories_of(repository_models(repositories@));
    proof {
        lemma_destinations_error_iff(project_path@, ds, exists@);
    }
    let n = repositories.len();
    assert(ds.take(0) == Seq::<Seq<char>>::empty());
    for k in 0..n
        invariant
            n == repositories@.len(),
            n == exists@.len(),
            ds == directories_of(repository_models(repositories@)),
            destinations_error(project_path@, ds.take(k as int), exists@.take(k as int)) is None,
            destinations_error(project_path@, ds, exists@) is None <==> (ds.no_duplicates() && forall|i: int|
                0 <= i < exists@.len() ==> !#[trigger] exists@[i]),
    {
        let r = &repositories[k];
        assert(ds[k as int] == r.directory@);
        assert(ds.take(k + 1).drop_last() == ds.take(k as int));
        assert(exists@.take(k + 1).drop_last() == exists@.take(k as int));
        assert(ds.take(k + 1).last() == r.directory@);
        let mut j: usize = 0;
        while j < k
            invariant
                j <= k < n,
                n == repositories@.len(),
                ds == directories_of(repository_models(repositories@)),
                r == repositories@[k as int],
                forall|t: int| 0 <= t < j ==> ds[t] != r.directory@,
            decreases k - j,
        {
            assert(ds[j as int] == repositories@[j as int].directory@);
            if repositories[j].directory == r.directory {
                let mut e = "repository directory `".to_owned();
                e.append(r.directory.as_str());
                e.append("` was requested more than once.");
                proof {
                    assert(ds.take(k as int)[j as int] == ds[j as int]);
                    assert(ds.take(k + 1).drop_last().contains(r.directory@));
                    lemma_destinations_error_prefix(project_path@, ds, exists@, k + 1);
                }
                return Err(e);
            }
            j += 1;
        }
        proof {
            if ds.take(k as int).contains(r.directory@) {
                let t = choose|t: int| 0 <= t < k && ds.take(k as int)[t] == r.directory@;
                assert(ds.take(k as int)[t] == ds[t]);
            }
        }
        if exists[k] {
            let mut e = "repository directory `".to_owned();
            e.append(r.directory.as_str());
            e.append("` already exists in `");
            e.append(project_path);
            e.append("`.");
            proof {
                assert(exists@.take(k + 1)[k as int] == exists@[k as int]);
                lemma_destinations_error_prefix(project_path@, ds, exists@, k + 1);
            }
            return Err(e);
        }
    }
    assert(ds.take(n as int) == ds);
    assert(exists@.take(n as int) == exists@);
    Ok(())
}

/// What [`create_project`] gives: refused when the workspace is already
/// there or a checkout directory is taken, else the metadata of the new,
/// empty workspace.
pub open spec fn spec_create_project(
    project: Seq<char>,
    project_exists: bool,
    project_path: Seq<char>,
    repositories: Seq<RepositoryModel>,
    exists: Seq<bool>,
) -> Result<MetadataModel, Seq<char>> {
    if project_exists {
        Err(existing_workspace_message(project))
    } else {
        match destinations_error(project_path, directories_of(repositories), exists) {
            Some(e) => Err(e),
            None => Ok(
                MetadataModel {
                    schema_version: METADATA_SCHEMA_VERSION,
                    name: project,
                    repositories: Seq::empty(),
                },
            ),
        }
    }
}

/// How repositories are cloned into a workspace: the metadata that each
/// clone is recorded in, and the branch that each fresh clone gets (the
/// workspace's name for a new workspace, none when a workspace is
/// extended).
#[derive(Debug)]
pub struct ClonePlan {
    pub metadata: WorkspaceMetadata,
    pub branch: Option<String>,
}

/// Decides whether a new workspace `project` at `project_path` can be
/// created and filled with `repositories`, given whether the workspace is
/// already there and whether each checkout directory is (`exists`); the
/// plan starts from empty metadata and gives each clone a branch named
/// after the workspace.
pub fn create_project(
    project: &str,
    project_exists: bool,
    project_path: &str,
    repositories: &[Repository],
    exists: &[bool],
) -> (res: Result<ClonePlan, String>)
    requires
        exists@.len() == repositories@.len(),
    ensures
        match spec_create_project(project@, project_exists, project_path@, repository_models(repositories@), exists@) {
            Ok(m) => res matches Ok(plan) && plan.metadata@ == m && option_view(plan.branch) == Some(project@),
            Err(e) => res matches Err(x) && x@ == e,
        },
{
    if project_exists {
        let mut e = "workspace `".to_owned();
        e.append(project);
        e.append("` already exists.");
        return Err(e);
    }
    match ensure_unique_destinations(project_path, repositories, exists) {
        Err(e) => Err(e),
        Ok(()) => Ok(ClonePlan { metadata: WorkspaceMetadata::empty(project), branch: Some(project.to_owned()) }),
    }
}

/// Decides whether `repositories` can be added to the workspace at
/// `project_path`, given whether it is a directory, its metadata (stored or
/// inferred, or the error met loading it) and whether each checkout
/// directory is present (`exists`); the plan extends that metadata and
/// creates no branch.
pub fn add_repositories(
    project_is_dir: bool,
    project_path: &str,
    loaded: Result<(WorkspaceMetadata, bool), String>,
    repositories: &[Repository],
    exists: &[bool],
) -> (res: Result<ClonePlan, String>)
    requires
        exists@.len() == repositories@.len(),
    ensures
        !project_is_dir ==> (res matches Err(m) && m@ == missing_workspace_message(project_path@)),
        project_is_dir ==> match loaded {
            Err(e) => res matches Err(m) && m@ == e@,
            Ok((md, _)) => match destinations_error(
                project_path@,
                directories_of(repository_models(repositories@)),
                exists@,
            ) {
                Some(e) => res matches Err(m) && m@ == e,
                None => res matches Ok(plan) && plan.metadata@ == md@ && plan.branch is None,
            },
        },
{
    if !project_is_dir {
        return Err(missing_workspace(project_path));
    }
    let metadata = match loaded {
        Ok((metadata, _)) => metadata,
        Err(e) => return Err(e),
    };
    match ensure_unique_destinations(project_path, repositories, exists) {
        Err(e) => Err(e),
        Ok(()) => Ok(ClonePlan { metadata, branch: None }),
    }
}

/// Where the creation of the workspace branch in a fresh clone stands:
/// `git switch -c` is tried first, and `git checkout --orphan` when that
/// fails (an empty remote has no commit to branch from).
#[derive(Debug, Clone, Copy, PartialEq, Eq, Structural)]
pub enum BranchStep {
    Switch,
    Orphan,
    Created,
    Failed,
}

/// The step after `step`, given whether its Git command succeeded.
pub open spec fn spec_next_branch_step(step: BranchStep, succeeded: bool) -> BranchStep {
    match step {
        BranchStep::Switch => if succeeded {
            BranchStep::Created
        } else {
            BranchStep::Orphan
        },
        BranchStep::Orphan => if succeeded {
            BranchStep::Created
        } else {
            BranchStep::Failed
        },
        other => other,
    }
}

/// The step after `step`, given whether its Git command succeeded.
pub fn next_branch_step(step: BranchStep, succeeded: bool) -> (res: BranchStep)
    ensures
        res == spec_next_branch_step(step, succeeded),
{
    match step {
        BranchStep::Switch => if succeeded {
            BranchStep::Created
        } else {
            BranchStep::Orphan
        },
        BranchStep::Orphan => if succeeded {
            BranchStep::Created
        } else {
            BranchStep::Failed
        },
        other => other,
    }
}

/// The error when neither Git command created the branch.
pub open spec fn branch_failure_message() -> Seq<char> {
    "git could not create the requested branch."@
}

/// `"git could not create the requested branch."`
pub fn branch_failure() -> (res: String)
    ensures
        res@ == branch_failure_message(),
{
    "git could not create the requested branch.".to_owned()
}

/// The next thing to do while repositories are cloned into a workspace.
#[derive(Debug, Clone, PartialEq, Eq)]
pub enum CloneAction {
    /// Clone repository `i` into its checkout directory.
    Clone(usize),
    /// Create the plan's branch in the fresh clone of repository `i`.
    CreateBranch(usize),
    /// Record repository `i` in the metadata and write the metadata.
    Record(usize),
    /// Every repository is cloned and recorded.
    Done,
    /// Stop, with this error.
    Fail(String),
}

/// The model of a [`CloneAction`].
pub enum CloneActionModel {
    Clone(usize),
    CreateBranch(usize),
    Record(usize),
    Done,
    Fail(Seq<char>),
}

impl View for CloneAction {
    type V = CloneActionModel;

    open spec fn view(&self) -> CloneActionModel {
        match self {
            CloneAction::Clone(i) => CloneActionModel::Clone(*i),
            CloneAction::CreateBranch(i) => CloneActionModel::CreateBranch(*i),
            CloneAction::Record(i) => CloneActionModel::Record(*i),
            CloneAction::Done => CloneActionModel::Done,
            CloneAction::Fail(e) => CloneActionModel::Fail(e@),
        }
    }
}

/// The first action: clone the first repository, or nothing to do.
pub fn first_clone_action(repositories: &[Repository]) -> (res: CloneAction)
    ensures
        res@ == (if repositories@.len() > 0 {
            CloneActionModel::Clone(0)
        } else {
            CloneActionModel::Done
        }),
{
    if repositories.len() > 0 {
        CloneAction::Clone(0)
    } else {
        CloneAction::Done
    }
}

/// The error when `git clone` could not be run.
pub open spec fn clone_run_message(error: Seq<char>) -> Seq<char> {
    "could not execute `git clone`: "@ + error
}

/// The error when a clone failed; the workspace stays as it is.
pub open spec fn clone_failed_message(source: Seq<char>, project_path: Seq<char>) -> Seq<char> {
    "clone failed for `"@ + source + "`; workspace remains at `"@ + project_path + "`."@
}

/// The error when the branch of a fresh clone could not be created.
pub open spec fn branch_failed_message(source: Seq<char>, branch: Seq<char>, error: Seq<char>) -> Seq<char> {
    "cloned `"@ + source + "` but could not create branch `"@ + branch + "`: "@ + error
}

/// The error when the metadata could not be updated after a clone.
pub open spec fn record_failed_message(source: Seq<char>, error: Seq<char>) -> Seq<char> {
    "cloned `"@ + source + "` but could not update workspace metadata: "@ + error
}

/// The action after `last`, given its outcome: `Ok(succeeded)` when it ran
/// (for a clone, whether `git clone` succeeded), or the error met running
/// it. A run stops at the first failure; a fresh clone gets the branch
/// when there is one before it is recorded; each repository is recorded
/// before the next is cloned.
pub open spec fn spec_next_clone_action(
    repositories: Seq<RepositoryModel>,
    project_path: Seq<char>,
    branch: Option<Seq<char>>,
    last: CloneActionModel,
    outcome: Result<bool, Seq<char>>,
) -> CloneActionModel {
    match last {
        CloneActionModel::Clone(i) => match outcome {
            Err(e) => CloneActionModel::Fail(clone_run_message(e)),
            Ok(succeeded) => if !succeeded {
                CloneActionModel::Fail(clone_failed_message(repositories[i as int].source, project_path))
            } else if branch is Some {
                CloneActionModel::CreateBranch(i)
            } else {
                CloneActionModel::Record(i)
            },
        },
        CloneActionModel::CreateBranch(i) => match outcome {
            Err(e) => CloneActionModel::Fail(
                branch_failed_message(
                    repositories[i as int].source,
                    match branch {
                        Some(b) => b,
                        None => Seq::empty(),
                    },
                    e,
                ),
            ),
            Ok(_) => CloneActionModel::Record(i),
        },
        CloneActionModel::Record(i) => match outcome {
            Err(e) => CloneActionModel::Fail(record_failed_message(repositories[i as int].source, e)),
            Ok(_) => if i + 1 < repositories.len() {
                CloneActionModel::Clone((i + 1) as usize)
            } else {
                CloneActionModel::Done
            },
        },
        CloneActionModel::Done => CloneActionModel::Done,
        CloneActionModel::Fail(e) => CloneActionModel::Fail(e),
    }
}

/// When every step succeeds, each repository in turn is cloned, then put
/// on the plan's branch when the plan has one (the same branch for every
/// repository), then recorded; after the last one is recorded the run is
/// done. A plan without a branch never creates one.
pub proof fn lemma_clone_steps_on_success(
    repositories: Seq<RepositoryModel>,
    project_path: Seq<char>,
    branch: Option<Seq<char>>,
    i: usize,
)
    requires
        i < repositories.len(),
    ensures
        spec_next_clone_action(repositories, project_path, branch, CloneActionModel::Clone(i), Ok(true))
            == (if branch is Some {
            CloneActionModel::CreateBranch(i)
        } else {
            CloneActionModel::Record(i)
        }),
        forall|done: bool|
            spec_next_clone_action(repositories, project_path, branch, CloneActionModel::CreateBranch(i), Ok(done))
                == CloneActionModel::Record(i),
        forall|done: bool|
            spec_next_clone_action(repositories, project_path, branch, CloneActionModel::Record(i), Ok(done))
                == (if i + 1 < repositories.len() {
                CloneActionModel::Clone((i + 1) as usize)
            } else {
                CloneActionModel::Done
            }),
        branch is None ==> forall|last: CloneActionModel, outcome: Result<bool, Seq<char>>|
            !(spec_next_clone_action(repositories, project_path, branch, last, outcome) is CreateBranch)
                || last is CreateBranch,
{
}

/// A run stops at the first failure: a clone that fails, or any step that
/// could not run, ends it with an error that names the repository where
/// there is one, and nothing follows an error or the end.
pub proof fn lemma_clone_steps_stop_at_failure(
    repositories: Seq<RepositoryModel>,
    project_path: Seq<char>,
    branch: Option<Seq<char>>,
    i: usize,
    error: Seq<char>,
)
    requires
        i < repositories.len(),
    ensures
        spec_next_clone_action(repositories, project_path, branch, CloneActionModel::Clone(i), Ok(false))
            == CloneActionModel::Fail(clone_failed_message(repositories[i as int].source, project_path)),
        spec_next_clone_action(repositories, project_path, branch, CloneActionModel::Clone(i), Err(error))
            is Fail,
        spec_next_clone_action(repositories, project_path, branch, CloneActionModel::CreateBranch(i), Err(error))
            is Fail,
        branch matches Some(b) ==> spec_next_clone_action(
            repositories,
            project_path,
            branch,
            CloneActionModel::CreateBranch(i),
            Err(error),
        ) == CloneActionModel::Fail(branch_failed_message(repositories[i as int].source, b, error)),
        spec_next_clone_action(repositories, project_path, branch, CloneActionModel::Record(i), Err(error))
            == CloneActionModel::Fail(record_failed_message(repositories[i as int].source, error)),
        forall|outcome: Result<bool, Seq<char>>|
            spec_next_clone_action(repositories, project_path, branch, CloneActionModel::Fail(error), outcome)
                == CloneActionModel::Fail(error),
        forall|outcome: Result<bool, Seq<char>>|
            spec_next_clone_action(repositories, project_path, branch, CloneActionModel::Done, outcome)
                == CloneActionModel::Done,
{
}

/// The index an action is about, if any.
pub open spec fn action_index(a: CloneActionModel) -> Option<usize> {
    match a {
        CloneActionModel::Clone(i) => Some(i),
        CloneActionModel::CreateBranch(i) => Some(i),
        CloneActionModel::Record(i) => Some(i),
        _ => None,
    }
}

/// The action after `last`, given its outcome (see
/// [`spec_next_clone_action`]), for cloning `repositories` into the
/// workspace at `project_path` with the plan's `branch`.
pub fn next_clone_action(
    repositories: &[Repository],
    project_path: &str,
    branch: &Option<String>,
    last: &CloneAction,
    outcome: Result<bool, String>,
) -> (res: CloneAction)
    requires
        action_index(last@) matches Some(i) ==> i < repositories@.len(),
    ensures
        res@ == spec_next_clone_action(
            repository_models(repositories@),
            project_path@,
            option_view(*branch),
            last@,
            match outcome {
                Ok(b) => Ok(b),
                Err(e) => Err(e@),
            },
        ),
        action_index(res@) matches Some(j) ==> j < repositories@.len(),
{
    match last {
        CloneAction::Clone(i) => {
            let i = *i;
            assert(repository_models(repositories@)[i as int] == repositories@[i as int]@);
            match outcome {
                Err(e) => {
                    let mut m = "could not execute `git clone`: ".to_owned();
                    m.append(e.as_str());
                    CloneAction::Fail(m)
                },
                Ok(succeeded) => if !succeeded {
                    let mut m = "clone failed for `".to_owned();
                    m.append(repositories[i].source.as_str());
                    m.append("`; workspace remains at `");
                    m.append(project_path);
                    m.append("`.");
                    CloneAction::Fail(m)
                } else if branch.is_some() {
                    CloneAction::CreateBranch(i)
                } else {
                    CloneAction::Record(i)
                },
            }
        },
        CloneAction::CreateBranch(i) => {
            let i = *i;
            assert(repository_models(repositories@)[i as int] == repositories@[i as int]@);
            match outcome {
                Err(e) => {
                    let mut m = "cloned `".to_owned();
                    m.append(repositories[i].source.as_str());
                    m.append("` but could not create branch `");
                    match branch {
                        Some(b) => m.append(b.as_str()),
                        None => {},
                    }
                    m.append("`: ");
                    m.append(e.as_str());
                    CloneAction::Fail(m)
                },
                Ok(_) => CloneAction::Record(i),
            }
        },
        CloneAction::Record(i) => {
            let i = *i;
            assert(repository_models(repositories@)[i as int] == repositories@[i as int]@);
            match outcome {
                Err(e) => {
                    let mut m = "cloned `".to_owned();
                    m.append(repositories[i].source.as_str());
                    m.append("` but could not update workspace metadata: ");
                    m.append(e.as_str());
                    CloneAction::Fail(m)
                },
                Ok(_) => if i < repositories.len() - 1 {
                    CloneAction::Clone(i + 1)
                } else {
                    CloneAction::Done
                },
            }
        },
        CloneAction::Done => CloneAction::Done,
        CloneAction::Fail(e) => CloneAction::Fail(e.clone()),
    }
}

/// The error when a Git command for the branch could not be run.
pub open spec fn branch_run_message(step: BranchStep, error: Seq<char>) -> Seq<char> {
    match step {
        BranchStep::Switch => "could not execute `git switch -c`: "@ + error,
        BranchStep::Orphan => "could not execute `git checkout --orphan`: "@ + error,
        _ => error,
    }
}

/// The error when the Git command of `step` could not be run.
pub fn branch_run_error(step: BranchStep, error: &str) -> (res: String)
    ensures
        res@ == branch_run_message(step, error@),
{
    match step {
        BranchStep::Switch => {
            let mut m = "could not execute `git switch -c`: ".to_owned();
            m.append(error);
            m
        },
        BranchStep::Orphan => {
            let mut m = "could not execute `git checkout --orphan`: ".to_owned();
            m.append(error);
            m
        },
        _ => error.to_owned(),
    }
}

// ---------------------------------------------------------------------------
// Locations
// ---------------------------------------------------------------------------

/// Where a directory of `casa` lies: at the path an environment variable
/// gives, or at a path relative to the home directory.
#[derive(Debug, Clone, PartialEq, Eq)]
pub enum Location {
    Configured,
    UnderHome(String),
}

/// The model of a [`Location`].
pub enum LocationModel {
    Configured,
    UnderHome(Seq<char>),
}

impl View for Location {
    type V = LocationModel;

    open spec fn view(&self) -> LocationModel {
        match self {
            Location::Configured => LocationModel::Configured,
            Location::UnderHome(p) => LocationModel::UnderHome(p@),
        }
    }
}

/// The error when no home directory is known.
pub open spec fn missing_home_message() -> Seq<char> {
    "could not find the home directory; set `HOME` or `AICASA_ROOT`."@
}

fn missing_home() -> (res: String)
    ensures
        res@ == missing_home_message(),
{
    "could not find the home directory; set `HOME` or `AICASA_ROOT`.".to_owned()
}

/// Where the workspaces lie, given whether `AICASA_ROOT` and `HOME` are set
/// and non-empty: at `AICASA_ROOT`, else at `~/.aicasa`.
pub fn workspace_root(root_configured: bool, home_set: bool) -> (res: Result<Location, String>)
    ensures
        root_configured ==> (res matches Ok(l) && l@ == LocationModel::Configured),
        !root_configured && home_set ==> (res matches Ok(l) && l@ == LocationModel::UnderHome(".aicasa"@)),
        !root_configured && !home_set ==> (res matches Err(m) && m@ == missing_home_message()),
{
    if root_configured {
        Ok(Location::Configured)
    } else if home_set {
        Ok(Location::UnderHome(".aicasa".to_owned()))
    } else {
        Err(missing_home())
    }
}

/// Where the Trash lies, given whether `AICASA_TRASH_DIR` and `HOME` are
/// set and non-empty and whether the system is macOS: at
/// `AICASA_TRASH_DIR`, else at `~/.Trash` on macOS and at
/// `~/.local/share/Trash/files` elsewhere.
pub fn trash_directory(trash_configured: bool, home_set: bool, macos: bool) -> (res: Result<Location, String>)
    ensures
        trash_configured ==> (res matches Ok(l) && l@ == LocationModel::Configured),
        !trash_configured && home_set ==> (res matches Ok(l) && l@ == LocationModel::UnderHome(
            if macos {
                ".Trash"@
            } else {
                ".local/share/Trash/files"@
            },
        )),
        !trash_configured && !home_set ==> (res matches Err(m) && m@ == missing_home_message()),
{
    if trash_configured {
        Ok(Location::Configured)
    } else if !home_set {
        Err(missing_home())
    } else if macos {
        Ok(Location::UnderHome(".Trash".to_owned()))
    } else {
        Ok(Location::UnderHome(".local/share/Trash/files".to_owned()))
    }
}

// ---------------------------------------------------------------------------
// Inspection
// ---------------------------------------------------------------------------

/// One repository of an inspection.
#[derive(Debug, Clone, PartialEq, Eq)]
pub struct InspectedRepository {
    pub directory: String,
    pub source: Option<String>,
    pub path: String,
    pub exists: bool,
}

/// What `casa inspect` reports of a workspace.
#[derive(Debug, Clone, PartialEq, Eq)]
pub struct WorkspaceInspection {
    pub schema_version: u32,
    pub name: String,
    pub path: String,
    pub metadata_path: String,
    pub metadata_present: bool,
    pub repositories: Vec<InspectedRepository>,
}

/// `inspection` reports the workspace at `path` with metadata `m`
/// (`present` where it was stored), whose checkout directories are present
/// as `exists` tells.
pub open spec fn inspection_of(
    inspection: WorkspaceInspection,
    path: Seq<char>,
    m: MetadataModel,
    present: bool,
    exists: Seq<bool>,
) -> bool {
    let rs = inspection.repositories@;
    &&& inspection.schema_version == METADATA_SCHEMA_VERSION
    &&& inspection.name@ == m.name
    &&& inspection.path@ == path
    &&& inspection.metadata_path@ == join_path(path, METADATA_FILE@)
    &&& inspection.metadata_present == present
    &&& rs.len() == m.repositories.len()
    &&& forall|i: int|
        #![trigger rs[i]]
        0 <= i < rs.len() ==> {
            &&& rs[i].directory@ == m.repositories[i].directory
            &&& option_view(rs[i].source) == m.repositories[i].source
            &&& rs[i].path@ == join_path(path, m.repositories[i].directory)
            &&& rs[i].exists == exists[i]
        }
}

fn clone_option(o: &Option<String>) -> (res: Option<String>)
    ensures
        option_view(res) == option_view(*o),
{
    match o {
        Some(s) => Some(s.clone()),
        None => None,
    }
}

/// The inspection of the workspace at `project_path`, given whether it is
/// a directory, its metadata (or the error met loading it), its canonical
/// path, and whether each recorded checkout directory is present there
/// (`exists`).
pub fn inspect_workspace(
    project_is_dir: bool,
    project_path: &str,
    loaded: Result<(WorkspaceMetadata, bool), String>,
    canonical_path: &str,
    exists: &[bool],
) -> (res: Result<WorkspaceInspection, String>)
    requires
        loaded matches Ok((md, _)) ==> exists@.len() == md.repositories@.len(),
    ensures
        !project_is_dir ==> (res matches Err(m) && m@ == missing_workspace_message(project_path@)),
        project_is_dir ==> match loaded {
            Err(e) => res matches Err(m) && m@ == e@,
            Ok((md, present)) => res matches Ok(i) && inspection_of(i, canonical_path@, md@, present, exists@),
        },
{
    if !project_is_dir {
        return Err(missing_workspace(project_path));
    }
    let (metadata, metadata_present) = match loaded {
        Ok(pair) => pair,
        Err(e) => return Err(e),
    };
    let ghost m = metadata@;
    let mut repositories: Vec<InspectedRepository> = Vec::new();
    let n = metadata.repositories.len();
    for i in 0..n
        invariant
            n == metadata.repositories@.len(),
            n == exists@.len(),
            m == metadata@,
            repositories@.len() == i,
            forall|k: int|
                #![trigger repositories@[k]]
                0 <= k < i ==> {
                    &&& repositories@[k].directory@ == m.repositories[k].directory
                    &&& option_view(repositories@[k].source) == m.repositories[k].source
                    &&& repositories@[k].path@ == join_path(canonical_path@, m.repositories[k].directory)
                    &&& repositories@[k].exists == exists@[k]
                },
    {
        let stored = &metadata.repositories[i];
        assert(m.repositories[i as int] == stored@);
        let path = join_path_str(canonical_path, stored.directory.as_str());
        repositories.push(
            InspectedRepository {
                directory: stored.directory.clone(),
                source: clone_option(&stored.source),
                path,
                exists: exists[i],
            },
        );
    }
    Ok(
        WorkspaceInspection {
            schema_version: METADATA_SCHEMA_VERSION,
            name: metadata.name.clone(),
            path: canonical_path.to_owned(),
            metadata_path: join_path_str(canonical_path, METADATA_FILE),
            metadata_present,
            repositories,
        },
    )
}

// ---------------------------------------------------------------------------
// The Trash
// ---------------------------------------------------------------------------

/// The error of the first workspace, in order, that was already named or
/// is not a directory (`is_dir`).
pub open spec fn trash_request_error(projects: Seq<Seq<char>>, is_dir: Seq<bool>) -> Option<Seq<char>>
    decreases projects.len(),
{
    if projects.len() == 0 {
        None
    } else {
        match trash_request_error(projects.drop_last(), is_dir.drop_last()) {
            Some(e) => Some(e),
            None => {
                let p = projects.last();
                if projects.drop_last().contains(p) {
                    Some(duplicate_trash_message(p))
                } else if !is_dir[projects.len() - 1] {
                    Some(missing_workspace_message(p))
                } else {
                    None
                }
            },
        }
    }
}

/// A request to move workspaces to the Trash is granted exactly when no
/// workspace is named twice and each is a directory.
pub proof fn lemma_trash_request_error_iff(projects: Seq<Seq<char>>, is_dir: Seq<bool>)
    requires
        is_dir.len() == projects.len(),
    ensures
        trash_request_error(projects, is_dir) is None <==> (projects.no_duplicates() && forall|i: int|
            0 <= i < is_dir.len() ==> #[trigger] is_dir[i]),
    decreases projects.len(),
{
    if projects.len() > 0 {
        let p = projects.drop_last();
        let q = is_dir.drop_last();
        lemma_trash_request_error_iff(p, q);
        let d = projects.last();
        let n = projects.len();
        if trash_request_error(projects, is_dir) is None {
            assert forall|i: int, j: int| 0 <= i < n && 0 <= j < n && i != j implies projects[i]
                != projects[j] by {
                if i == n - 1 {
                    assert(p[j] == projects[j]);
                    assert(!p.contains(d));
                } else if j == n - 1 {
                    assert(p[i] == projects[i]);
                    assert(!p.contains(d));
                } else {
                    assert(p[i] == projects[i] && p[j] == projects[j]);
                }
            }
            assert forall|i: int| 0 <= i < n implies #[trigger] is_dir[i] by {
                if i < n - 1 {
                    assert(q[i] == is_dir[i]);
                }
            }
        }
        if projects.no_duplicates() && forall|i: int| 0 <= i < is_dir.len() ==> #[trigger] is_dir[i] {
            assert forall|i: int, j: int| 0 <= i < p.len() && 0 <= j < p.len() && i != j implies p[i]
                != p[j] by {
                assert(p[i] == projects[i] && p[j] == projects[j]);
            }
            assert forall|i: int| 0 <= i < q.len() implies #[trigger] q[i] by {
                assert(q[i] == is_dir[i]);
            }
            if p.contains(d) {
                let k = choose|k: int| 0 <= k < p.len() && p[k] == d;
                assert(projects[k] == projects[n - 1]);
            }
            assert(is_dir[n - 1]);
        }
    }
}

proof fn lemma_trash_request_error_prefix(projects: Seq<Seq<char>>, is_dir: Seq<bool>, k: int)
    requires
        0 <= k <= projects.len(),
        is_dir.len() == projects.len(),
        trash_request_error(projects.take(k), is_dir.take(k)) is Some,
    ensures
        trash_request_error(projects, is_dir) == trash_request_error(projects.take(k), is_dir.take(k)),
    decreases projects.len() - k,
{
    if k < projects.len() {
        assert(projects.take(k + 1).drop_last() == projects.take(k));
        assert(is_dir.take(k + 1).drop_last() == is_dir.take(k));
        lemma_trash_request_error_prefix(projects, is_dir, k + 1);
    } else {
        assert(projects.take(k) == projects);
        assert(is_dir.take(k) == is_dir);
    }
}

/// Decides whether the workspaces `projects` may be moved to the Trash,
/// given whether each is a directory (`is_dir`): none may be named twice,
/// and each must be there.
#[verifier::loop_isolation(false)]
pub fn check_trash_request(projects: &[String], is_dir: &[bool]) -> (res: Result<(), String>)
    requires
        is_dir@.len() == projects@.len(),
    ensures
        match trash_request_error(string_views(projects@), is_dir@) {
            None => res is Ok,
            Some(e) => res matches Err(m) && m@ == e,
        },
        res is Ok <==> (string_views(projects@).no_duplicates() && forall|i: int|
            0 <= i < is_dir@.len() ==> #[trigger] is_dir@[i]),
{
    let ghost ps = string_views(projects@);
    proof {
        lemma_trash_request_error_iff(ps, is_dir@);
    }
    let n = projects.len();
    assert(ps.take(0) == Seq::<Seq<char>>::empty());
    for k in 0..n
        invariant
            n == projects@.len(),
            n == is_dir@.len(),
            ps == string_views(projects@),
            trash_request_error(ps.take(k as int), is_dir@.take(k as int)) is None,
    {
        let project = &projects[k];
        assert(ps[k as int] == project@);
        assert(ps.take(k + 1).drop_last() == ps.take(k as int));
        assert(is_dir@.take(k + 1).drop_last() == is_dir@.take(k as int));
        assert(ps.take(k + 1).last() == project@);
        let mut j: usize = 0;
        while j < k
            invariant
                j <= k < n,
                forall|t: int| 0 <= t < j ==> ps[t] != project@,
            decreases k - j,
        {
            assert(ps[j as int] == projects@[j as int]@);
            if projects[j] == *project {
                let mut e = "workspace `".to_owned();
                e.append(project.as_str());
                e.append("` was requested more than once.");
                proof {
                    assert(ps.take(k as int)[j as int] == ps[j as int]);
                    assert(ps.take(k + 1).drop_last().contains(project@));
                    lemma_trash_request_error_prefix(ps, is_dir@, k + 1);
                }
                return Err(e);
            }
            j += 1;
        }
        proof {
            if ps.take(k as int).contains(project@) {
                let t = choose|t: int| 0 <= t < k && ps.take(k as int)[t] == project@;
                assert(ps.take(k as int)[t] == ps[t]);
            }
        }
        if !is_dir[k] {
            proof {
                assert(is_dir@.take(k + 1)[k as int] == is_dir@[k as int]);
                lemma_trash_request_error_prefix(ps, is_dir@, k + 1);
            }
            return Err(missing_workspace(project.as_str()));
        }
    }
    assert(ps.take(n as int) == ps);
    assert(is_dir@.take(n as int) == is_dir@);
    Ok(())
}

/// The name of the `attempt`-th place tried in the Trash for workspace
/// `project`: first its own name, then the name with the timestamp, then
/// the name with the timestamp and a counter from 1.
pub open spec fn trash_candidate_name(project: Seq<char>, timestamp: u64, attempt: nat) -> Seq<char> {
    if attempt == 0 {
        project
    } else if attempt == 1 {
        project + "-"@ + decimal(timestamp as nat)
    } else {
        project + "-"@ + decimal(timestamp as nat) + "-"@ + decimal((attempt - 1) as nat)
    }
}

/// The path of the `attempt`-th place tried in the Trash at `trash`.
pub fn trash_candidate_path(trash: &str, project: &str, timestamp: u64, attempt: u64) -> (res: String)
    ensures
        res@ == join_path(trash@, trash_candidate_name(project@, timestamp, attempt as nat)),
{
    let mut name = project.to_owned();
    if attempt >= 1 {
        name.append("-");
        push_decimal(&mut name, timestamp);
        if attempt >= 2 {
            name.append("-");
            push_decimal(&mut name, attempt - 1);
        }
    }
    join_path_str(trash, name.as_str())
}

/// The first place in the Trash that is free, given which of the places
/// tried so far are taken (`taken[k]` for the `k`-th, see
/// [`trash_candidate_name`]); `None` while every place tried is taken.
pub fn unused_trash_path(trash: &str, project: &str, timestamp: u64, taken: &[bool]) -> (res: Option<String>)
    ensures
        match res {
            Some(path) => exists|k: int|
                0 <= k < taken@.len() && !taken@[k] && (forall|t: int| 0 <= t < k ==> #[trigger] taken@[t])
                    && path@ == join_path(trash@, trash_candidate_name(project@, timestamp, k as nat)),
            None => forall|k: int| 0 <= k < taken@.len() ==> #[trigger] taken@[k],
        },
{
    let n = taken.len();
    for k in 0..n
        invariant
            n == taken@.len(),
            forall|t: int| 0 <= t < k ==> #[trigger] taken@[t],
    {
        if !taken[k] {
            let path = trash_candidate_path(trash, project, timestamp, k as u64);
            return Some(path);
        }
    }
    None
}

// ---------------------------------------------------------------------------
// Listing
// ---------------------------------------------------------------------------

/// A workspace as `casa ls` lists it.
#[derive(Debug, Clone, PartialEq, Eq)]
pub struct ProjectEntry {
    pub name: String,
    pub path: String,
    pub repositories: usize,
}

/// The model of a [`ProjectEntry`].
pub struct ProjectEntryModel {
    pub name: Seq<char>,
    pub path: Seq<char>,
    pub repositories: usize,
}

impl View for ProjectEntry {
    type V = ProjectEntryModel;

    open spec fn view(&self) -> ProjectEntryModel {
        ProjectEntryModel { name: self.name@, path: self.path@, repositories: self.repositories }
    }
}

/// The models of a sequence of entries.
pub open spec fn entry_models(v: Seq<ProjectEntry>) -> Seq<ProjectEntryModel> {
    v.map_values(|e: ProjectEntry| e@)
}

/// Entries in order of their names.
pub open spec fn sorted_by_name(v: Seq<ProjectEntryModel>) -> bool {
    forall|i: int, j: int| 0 <= i < j < v.len() ==> lex_le(#[trigger] v[i].name, #[trigger] v[j].name)
}

/// `sorted` holds the entries of `given`, each once, through the
/// positions `from` (`sorted[k]` is `given[from[k]]`), in code point
/// order of their names, with entries of equal name in the order in which
/// `given` holds them: the stable sort of `given` by name.
pub open spec fn is_stable_sort_by_name(
    given: Seq<ProjectEntryModel>,
    sorted: Seq<ProjectEntryModel>,
    from: Seq<int>,
) -> bool {
    &&& sorted.len() == given.len()
    &&& from.len() == sorted.len()
    &&& forall|k: int| 0 <= k < from.len() ==> 0 <= #[trigger] from[k] < given.len() && sorted[k] == given[from[k]]
    &&& forall|a: int, b: int| 0 <= a < b < from.len() ==> #[trigger] from[a] != #[trigger] from[b]
    &&& sorted_by_name(sorted)
    &&& forall|a: int, b: int|
        0 <= a < b < sorted.len() && (#[trigger] sorted[a]).name == (#[trigger] sorted[b]).name ==> from[a] < from[b]
}

/// `entries` sorted by name, stably (as `sort_by` on the names does).
pub fn sort_project_entries(entries: Vec<ProjectEntry>) -> (res: Vec<ProjectEntry>)
    ensures
        exists|from: Seq<int>| is_stable_sort_by_name(entry_models(entries@), entry_models(res@), from),
{
    let ghost given = entry_models(entries@);
    let n = entries.len();
    let mut rest = entries;
    let mut sorted: Vec<ProjectEntry> = Vec::new();
    let ghost mut from: Seq<int> = Seq::empty();
    let mut t: usize = 0;
    assert(given.skip(0) == given);
    while rest.len() > 0
        invariant
            t <= n,
            n == given.len(),
            entry_models(rest@) == given.skip(t as int),
            sorted@.len() == t,
            from.len() == t,
            forall|k: int| 0 <= k < from.len() ==> 0 <= #[trigger] from[k] < t && entry_models(sorted@)[k] == given[from[k]],
            forall|a: int, b: int| 0 <= a < b < from.len() ==> #[trigger] from[a] != #[trigger] from[b],
            sorted_by_name(entry_models(sorted@)),
            forall|a: int, b: int|
                0 <= a < b < sorted@.len() && (#[trigger] entry_models(sorted@)[a]).name == (#[trigger] entry_models(sorted@)[b]).name
                    ==> from[a] < from[b],
        decreases rest.len(),
    {
        let ghost before_sorted = entry_models(sorted@);
        let ghost before_rest = entry_models(rest@);
        let ghost old_vec = rest@;
        assert(before_rest.len() == old_vec.len());
        assert(t < n);
        let e = rest.remove(0);
        assert(before_rest[0] == e@);
        assert(given.skip(t as int)[0] == given[t as int]);
        assert(e@ == given[t as int]);
        assert forall|k: int| 0 <= k < rest@.len() implies #[trigger] entry_models(rest@)[k] == given.skip(t + 1)[k] by {
            assert(rest@[k] == old_vec[k + 1]);
            assert(before_rest[k + 1] == old_vec[k + 1]@);
            assert(given.skip(t as int)[k + 1] == given[t + 1 + k]);
        }
        assert(entry_models(rest@) =~= given.skip(t + 1));
        let m = sorted.len();
        let mut j: usize = 0;
        let key = chars_of(e.name.as_str());
        while j < m && lex_le_chars(chars_of(sorted[j].name.as_str()).as_slice(), key.as_slice())
            invariant
                j <= m,
                m == sorted@.len(),
                key@ == e.name@,
                before_sorted == entry_models(sorted@),
                forall|k: int| 0 <= k < j ==> lex_le(#[trigger] before_sorted[k].name, e.name@),
            decreases m - j,
        {
            assert(before_sorted[j as int] == sorted@[j as int]@);
            j += 1;
        }
        proof {
            if j < m {
                assert(before_sorted[j as int] == sorted@[j as int]@);
                crate::text::lemma_lex_le_total(before_sorted[j as int].name, e.name@);
            }
        }
        sorted.insert(j, e);
        proof {
            let after = entry_models(sorted@);
            let old_from = from;
            from = from.insert(j as int, t as int);
            assert(after =~= before_sorted.insert(j as int, e@));
            assert forall|k: int| 0 <= k < from.len() implies 0 <= #[trigger] from[k] < t + 1 && after[k] == given[from[k]] by {
                if k < j {
                    assert(from[k] == old_from[k]);
                } else if k > j {
                    assert(from[k] == old_from[k - 1]);
                }
            }
            assert forall|a: int, b: int| 0 <= a < b < from.len() implies #[trigger] from[a] != #[trigger] from[b] by {
                if a < j && b < j {
                    assert(from[a] == old_from[a] && from[b] == old_from[b]);
                } else if a < j && b == j {
                    assert(from[a] == old_from[a]);
                } else if a < j {
                    assert(from[a] == old_from[a] && from[b] == old_from[b - 1]);
                } else if a == j {
                    assert(from[b] == old_from[b - 1]);
                } else {
                    assert(from[a] == old_from[a - 1] && from[b] == old_from[b - 1]);
                }
            }
            assert forall|a: int, b: int| 0 <= a < b < after.len() implies lex_le(
                #[trigger] after[a].name,
                #[trigger] after[b].name,
            ) by {
                if b < j {
                    assert(after[a] == before_sorted[a] && after[b] == before_sorted[b]);
                } else if a < j && b == j {
                    assert(after[a] == before_sorted[a]);
                } else if a < j {
                    assert(after[a] == before_sorted[a] && after[b] == before_sorted[b - 1]);
                    assert(lex_le(before_sorted[a].name, before_sorted[b - 1].name));
                } else if a == j {
                    assert(after[b] == before_sorted[b - 1]);
                    assert(lex_le(e.name@, before_sorted[j as int].name));
                    if b - 1 > j {
                        assert(lex_le(before_sorted[j as int].name, before_sorted[b - 1].name));
                        crate::text::lemma_lex_le_transitive(
                            e.name@,
                            before_sorted[j as int].name,
                            before_sorted[b - 1].name,
                        );
                    }
                } else {
                    assert(after[a] == before_sorted[a - 1] && after[b] == before_sorted[b - 1]);
                    assert(lex_le(before_sorted[a - 1].name, before_sorted[b - 1].name));
                }
            }
            assert forall|a: int, b: int|
                0 <= a < b < after.len() && (#[trigger] after[a]).name == (#[trigger] after[b]).name implies from[a] < from[b] by {
                if a < j && b < j {
                    assert(after[a] == before_sorted[a] && after[b] == before_sorted[b]);
                    assert(from[a] == old_from[a] && from[b] == old_from[b]);
                } else if a < j && b == j {
                    assert(from[a] == old_from[a]);
                } else if a < j {
                    assert(after[a] == before_sorted[a] && after[b] == before_sorted[b - 1]);
                    assert(from[a] == old_from[a] && from[b] == old_from[b - 1]);
                } else if a == j {
                    assert(after[b] == before_sorted[b - 1]);
                    assert(!lex_le(before_sorted[j as int].name, e.name@));
                    if b - 1 > j {
                        crate::text::lemma_lex_le_transitive(
                            before_sorted[j as int].name,
                            before_sorted[b - 1].name,
                            e.name@,
                        );
                    }
                    assert(!lex_le(before_sorted[b - 1].name, e.name@));
                    crate::text::lemma_lex_le_reflexive(e.name@);
                } else {
                    assert(after[a] == before_sorted[a - 1] && after[b] == before_sorted[b - 1]);
                    assert(from[a] == old_from[a - 1] && from[b] == old_from[b - 1]);
                }
            }
        }
        t += 1;
    }
    assert(entry_models(sorted@).len() == n);
    assert(is_stable_sort_by_name(given, entry_models(sorted@), from));
    sorted
}

/// The label of a repository count: `1 repo`, else `N repos`.
pub open spec fn repository_label(count: nat) -> Seq<char> {
    if count == 1 {
        "1 repo"@
    } else {
        decimal(count) + " repos"@
    }
}

/// The label of a repository count states the count in decimal, then
/// `repo`, in the plural for every count but one.
pub proof fn lemma_repository_label_states_count(count: nat)
    ensures
        repository_label(count) == decimal(count) + (if count == 1 {
            " repo"@
        } else {
            " repos"@
        }),
{
    if count == 1 {
        reveal_strlit("1 repo");
        reveal_strlit(" repo");
        assert(decimal(1) == seq!['1']);
        assert("1 repo"@ =~= seq!['1'] + " repo"@);
    }
}

/// One line of `casa ls`: the name padded to 24 characters in blue, the
/// repository count padded to 12 in yellow, and the path.
pub open spec fn listing_line(enabled: bool, e: ProjectEntryModel) -> Seq<char> {
    "  "@ + painted(enabled, BLUE@, pad_right(e.name, 24)) + " "@ + painted(
        enabled,
        YELLOW@,
        pad_right(repository_label(e.repositories as nat), 12),
    ) + " "@ + e.path
}

/// The lines `casa ls` prints for `entries`.
pub open spec fn listing_lines(enabled: bool, entries: Seq<ProjectEntryModel>) -> Seq<Seq<char>> {
    if entries.len() == 0 {
        seq![
            painted(
                enabled,
                YELLOW@,
                "No workspaces found. Create one with `casa new <project> <owner/repo>`."@,
            ),
        ]
    } else {
        seq![painted(enabled, PINK@, "Workspaces"@)] + entries.map_values(
            |e: ProjectEntryModel| listing_line(enabled, e),
        )
    }
}

fn render_listing_line(theme: &Theme, entry: &ProjectEntry) -> (res: String)
    ensures
        res@ == listing_line(theme.enabled, entry@),
{
    let mut label = String::new();
    if entry.repositories == 1 {
        label.append("1 repo");
    } else {
        push_decimal(&mut label, entry.repositories as u64);
        label.append(" repos");
    }
    assert(label@ == repository_label(entry.repositories as nat));
    let mut padded_name = String::new();
    push_padded(&mut padded_name, chars_of(entry.name.as_str()).as_slice(), 24);
    let mut padded_label = String::new();
    push_padded(&mut padded_label, chars_of(label.as_str()).as_slice(), 12);
    let mut out = "  ".to_owned();
    out.append(theme.blue(padded_name.as_str()).as_str());
    out.append(" ");
    out.append(theme.yellow(padded_label.as_str()).as_str());
    out.append(" ");
    out.append(entry.path.as_str());
    out
}

/// The lines that `casa ls` prints: a hint when there is no workspace, else
/// a heading and one line per workspace.
pub fn render_listing(theme: &Theme, entries: &[ProjectEntry]) -> (res: Vec<String>)
    ensures
        string_views(res@) == listing_lines(theme.enabled, entry_models(entries@)),
{
    let mut lines: Vec<String> = Vec::new();
    if entries.len() == 0 {
        lines.push(theme.yellow("No workspaces found. Create one with `casa new <project> <owner/repo>`."));
        assert(string_views(lines@) =~= listing_lines(theme.enabled, entry_models(entries@)));
        return lines;
    }
    lines.push(theme.pink("Workspaces"));
    let ghost heading = string_views(lines@);
    let n = entries.len();
    for i in 0..n
        invariant
            n == entries@.len(),
            heading == seq![painted(theme.enabled, PINK@, "Workspaces"@)],
            string_views(lines@) == heading + entry_models(entries@).take(i as int).map_values(
                |e: ProjectEntryModel| listing_line(theme.enabled, e),
            ),
    {
        let line = render_listing_line(theme, &entries[i]);
        let ghost before = string_views(lines@);
        lines.push(line);
        assert(string_views(lines@) =~= before.push(line@));
        assert(entry_models(entries@).take(i + 1) =~= entry_models(entries@).take(i as int).push(entries@[i as int]@));
        assert(string_views(lines@) =~= heading + entry_models(entries@).take(i + 1).map_values(
            |e: ProjectEntryModel| listing_line(theme.enabled, e),
        ));
    }
    assert(entry_models(entries@).take(n as int) == entry_models(entries@));
    lines
}

} // verus!
