//! Workspace metadata: the repositories a workspace manages, the rules a
//! stored record must keep, and how a record is inferred, updated and
//! inspected.

use vstd::prelude::*;
use vstd::string::*;

use crate::paths::{file_name, join_path, join_path_str, spec_workspace_name, workspace_name};
use crate::repository::{
    checkout_directory_message, is_invalid_checkout_directory, validate_repository_directory,
    Repository, RepositoryModel,
};
use crate::text::{chars_of, decimal, push_decimal, sort_lex, sorted_lex, string_of, string_views, views};

verus! {

/// The metadata schema this version reads and writes.
pub const METADATA_SCHEMA_VERSION: u32 = 1;

/// The name of the metadata file inside a workspace.
pub const METADATA_FILE: &'static str = ".aicasa.json";

/// One repository as the metadata records it; `source` is `None` for a
/// directory found in a workspace that had no metadata.
#[derive(Debug, Clone, PartialEq, Eq)]
pub struct StoredRepository {
    pub source: Option<String>,
    pub directory: String,
}

/// The model of a [`StoredRepository`].
pub struct StoredRepositoryModel {
    pub source: Option<Seq<char>>,
    pub directory: Seq<char>,
}

/// The view of an optional string.
pub open spec fn option_view(o: Option<String>) -> Option<Seq<char>> {
    match o {
        Some(s) => Some(s@),
        None => None,
    }
}

impl View for StoredRepository {
    type V = StoredRepositoryModel;

    open spec fn view(&self) -> StoredRepositoryModel {
        StoredRepositoryModel { source: option_view(self.source), directory: self.directory@ }
    }
}

/// The models of a sequence of stored repositories.
pub open spec fn stored_models(v: Seq<StoredRepository>) -> Seq<StoredRepositoryModel> {
    v.map_values(|r: StoredRepository| r@)
}

/// The record of a repository that was cloned from its source.
pub open spec fn stored_from(r: RepositoryModel) -> StoredRepositoryModel {
    StoredRepositoryModel { source: Some(r.source), directory: r.directory }
}

impl<'a> From<&'a Repository> for StoredRepository {
    fn from(repository: &'a Repository) -> (res: StoredRepository) {
        StoredRepository {
            source: Some(repository.source.clone()),
            directory: repository.directory.clone(),
        }
    }
}

impl<'a> vstd::std_specs::convert::FromSpecImpl<&'a Repository> for StoredRepository {
    open spec fn obeys_from_spec() -> bool {
        true
    }

    open spec fn from_spec(v: &'a Repository) -> StoredRepository {
        StoredRepository { source: Some(v.source), directory: v.directory }
    }
}

/// The metadata file of a workspace.
#[derive(Debug, Clone, PartialEq, Eq)]
pub struct WorkspaceMetadata {
    pub schema_version: u32,
    pub name: String,
    pub repositories: Vec<StoredRepository>,
}

/// The model of [`WorkspaceMetadata`].
pub struct MetadataModel {
    pub schema_version: u32,
    pub name: Seq<char>,
    pub repositories: Seq<StoredRepositoryModel>,
}

impl View for WorkspaceMetadata {
    type V = MetadataModel;

    open spec fn view(&self) -> MetadataModel {
        MetadataModel {
            schema_version: self.schema_version,
            name: self.name@,
            repositories: stored_models(self.repositories@),
        }
    }
}

// ---------------------------------------------------------------------------
// Rules a stored record keeps
// ---------------------------------------------------------------------------

/// The error for a schema version this version does not read.
pub open spec fn unsupported_version_message(version: u32, metadata_path: Seq<char>) -> Seq<char> {
    "unsupported metadata schema version `"@ + decimal(version as nat) + "` in `"@ + metadata_path
        + "`."@
}

/// The error for metadata that names another workspace.
pub open spec fn name_mismatch_message(name: Seq<char>, expected: Seq<char>) -> Seq<char> {
    "metadata workspace name `"@ + name + "` does not match directory `"@ + expected + "`."@
}

/// The error for a recorded source that is empty.
pub open spec fn empty_source_message(directory: Seq<char>) -> Seq<char> {
    "repository `"@ + directory + "` has an empty metadata source."@
}

/// The error for a directory recorded twice.
pub open spec fn duplicate_metadata_message(directory: Seq<char>) -> Seq<char> {
    "repository directory `"@ + directory + "` appears more than once in metadata."@
}

/// Whether some record in `rs` has checkout directory `d`.
pub open spec fn has_directory(rs: Seq<StoredRepositoryModel>, d: Seq<char>) -> bool {
    exists|j: int| 0 <= j < rs.len() && (#[trigger] rs[j]).directory == d
}

/// The records are valid: every checkout directory is a plain name, no
/// source is empty, and no directory is recorded twice.
pub open spec fn repositories_valid(rs: Seq<StoredRepositoryModel>) -> bool {
    &&& forall|i: int| 0 <= i < rs.len() ==> !is_invalid_checkout_directory(#[trigger] rs[i].directory)
    &&& forall|i: int| 0 <= i < rs.len() ==> (#[trigger] rs[i]).source != Some(Seq::<char>::empty())
    &&& forall|i: int, j: int| 0 <= i < j < rs.len() ==> (#[trigger] rs[i]).directory != (#[trigger] rs[j]).directory
}

/// The error of the first record that breaks a rule, in order.
pub open spec fn repositories_error(rs: Seq<StoredRepositoryModel>) -> Option<Seq<char>>
    decreases rs.len(),
{
    if rs.len() == 0 {
        None
    } else {
        match repositories_error(rs.drop_last()) {
            Some(e) => Some(e),
            None => {
                let r = rs.last();
                if is_invalid_checkout_directory(r.directory) {
                    Some(checkout_directory_message(r.directory))
                } else if r.source == Some(Seq::<char>::empty()) {
                    Some(empty_source_message(r.directory))
                } else if has_directory(rs.drop_last(), r.directory) {
                    Some(duplicate_metadata_message(r.directory))
                } else {
                    None
                }
            },
        }
    }
}

/// What [`validate_workspace_metadata`] gives.
pub open spec fn spec_validate_metadata(path: Seq<char>, m: MetadataModel) -> Result<(), Seq<char>> {
    if m.schema_version != METADATA_SCHEMA_VERSION {
        Err(unsupported_version_message(m.schema_version, join_path(path, METADATA_FILE@)))
    } else {
        match spec_workspace_name(path) {
            Err(e) => Err(e),
            Ok(expected) => if m.name != expected {
                Err(name_mismatch_message(m.name, expected))
            } else {
                match repositories_error(m.repositories) {
                    Some(e) => Err(e),
                    None => Ok(()),
                }
            },
        }
    }
}

/// A record set has no error exactly when it is valid.
pub proof fn lemma_repositories_error_iff_invalid(rs: Seq<StoredRepositoryModel>)
    ensures
        repositories_error(rs) is None <==> repositories_valid(rs),
    decreases rs.len(),
{
    if rs.len() > 0 {
        let p = rs.drop_last();
        lemma_repositories_error_iff_invalid(p);
        let r = rs.last();
        if repositories_error(rs) is None {
            assert forall|i: int, j: int| 0 <= i < j < rs.len() implies (#[trigger] rs[i]).directory
                != (#[trigger] rs[j]).directory by {
                if j == rs.len() - 1 {
                    if rs[i].directory == rs[j].directory {
                        assert(p[i] == rs[i]);
                    }
                } else {
                    assert(p[i] == rs[i] && p[j] == rs[j]);
                }
            }
            assert forall|i: int| 0 <= i < rs.len() implies !is_invalid_checkout_directory(
                #[trigger] rs[i].directory,
            ) by {
                if i < rs.len() - 1 {
                    assert(p[i] == rs[i]);
                }
            }
            assert forall|i: int| 0 <= i < rs.len() implies (#[trigger] rs[i]).source != Some(
                Seq::<char>::empty(),
            ) by {
                if i < rs.len() - 1 {
                    assert(p[i] == rs[i]);
                }
            }
        }
        if repositories_valid(rs) {
            assert forall|i: int, j: int| 0 <= i < j < p.len() implies (#[trigger] p[i]).directory
                != (#[trigger] p[j]).directory by {
                assert(p[i] == rs[i] && p[j] == rs[j]);
            }
            assert forall|i: int| 0 <= i < p.len() implies !is_invalid_checkout_directory(
                #[trigger] p[i].directory,
            ) by {
                assert(p[i] == rs[i]);
            }
            assert forall|i: int| 0 <= i < p.len() implies (#[trigger] p[i]).source != Some(
                Seq::<char>::empty(),
            ) by {
                assert(p[i] == rs[i]);
            }
            assert(rs[rs.len() - 1] == r);
            if has_directory(p, r.directory) {
                let j = choose|j: int| 0 <= j < p.len() && (#[trigger] p[j]).directory == r.directory;
                assert(rs[j] == p[j]);
            }
        }
    }
}

proof fn lemma_repositories_error_prefix(rs: Seq<StoredRepositoryModel>, k: int)
    requires
        0 <= k <= rs.len(),
        repositories_error(rs.take(k)) is Some,
    ensures
        repositories_error(rs) == repositories_error(rs.take(k)),
    decreases rs.len() - k,
{
    if k < rs.len() {
        assert(rs.take(k + 1).drop_last() == rs.take(k));
        lemma_repositories_error_prefix(rs, k + 1);
    } else {
        assert(rs.take(k) == rs);
    }
}

/// Refuses metadata of another schema version, metadata that names another
/// workspace than the directory at `project_path`, and records that break
/// a rule (see [`repositories_valid`]).
#[verifier::loop_isolation(false)]
pub fn validate_workspace_metadata(project_path: &str, metadata: &WorkspaceMetadata) -> (res: Result<(), String>)
    ensures
        match spec_validate_metadata(project_path@, metadata@) {
            Ok(_) => res is Ok,
            Err(e) => res matches Err(m) && m@ == e,
        },
        res is Ok <==> (metadata.schema_version == METADATA_SCHEMA_VERSION && spec_workspace_name(
            project_path@,
        ) == Ok::<Seq<char>, Seq<char>>(metadata.name@) && repositories_valid(
            metadata@.repositories,
        )),
{
    proof {
        lemma_repositories_error_iff_invalid(metadata@.repositories);
    }
    if metadata.schema_version != METADATA_SCHEMA_VERSION {
        let mut e = "unsupported metadata schema version `".to_owned();
        push_decimal(&mut e, metadata.schema_version as u64);
        e.append("` in `");
        let metadata_path = join_path_str(project_path, METADATA_FILE);
        e.append(metadata_path.as_str());
        e.append("`.");
        return Err(e);
    }
    let expected = match workspace_name(project_path) {
        Ok(name) => name,
        Err(e) => return Err(e),
    };
    if metadata.name != expected {
        let mut e = "metadata workspace name `".to_owned();
        e.append(metadata.name.as_str());
        e.append("` does not match directory `");
        e.append(expected.as_str());
        e.append("`.");
        return Err(e);
    }
    let repositories = &metadata.repositories;
    let ghost rs = stored_models(repositories@);
    let n = repositories.len();
    assert(rs.take(0) == Seq::<StoredRepositoryModel>::empty());
    for k in 0..n
        invariant
            n == repositories@.len(),
            rs == stored_models(repositories@),
            repositories_error(rs.take(k as int)) is None,
    {
        let r = &repositories[k];
        assert(rs[k as int] == r@);
        assert(rs.take(k + 1).drop_last() == rs.take(k as int));
        assert(rs.take(k + 1).last() == r@);
        match validate_repository_directory(r.directory.as_str(), r.directory.as_str()) {
            Err(e) => {
                proof {
                    lemma_repositories_error_prefix(rs, k + 1);
                }
                return Err(e);
            },
            Ok(()) => {},
        }
        let empty_source = match &r.source {
            Some(s) => s.as_str().is_empty(),
            None => false,
        };
        proof {
            if r.source is Some {
                if r.source->0@.len() == 0 {
                    assert(r.source->0@ == Seq::<char>::empty());
                }
            }
        }
        if empty_source {
            let mut e = "repository `".to_owned();
            e.append(r.directory.as_str());
            e.append("` has an empty metadata source.");
            proof {
                lemma_repositories_error_prefix(rs, k + 1);
            }
            return Err(e);
        }
        let mut j: usize = 0;
        while j < k
            invariant
                j <= k < n,
                n == repositories@.len(),
                rs == stored_models(repositories@),
                r == repositories@[k as int],
                forall|t: int| 0 <= t < j ==> (#[trigger] rs[t]).directory != r.directory@,
            decreases k - j,
        {
            assert(rs[j as int] == repositories@[j as int]@);
            if repositories[j].directory == r.directory {
                let mut e = "repository directory `".to_owned();
                e.append(r.directory.as_str());
                e.append("` appears more than once in metadata.");
                proof {
                    assert(rs.take(k as int)[j as int] == rs[j as int]);
                    assert(has_directory(rs.take(k as int), r.directory@));
                    lemma_repositories_error_prefix(rs, k + 1);
                }
                return Err(e);
            }
            j += 1;
        }
        proof {
            if has_directory(rs.take(k as int), r.directory@) {
                let t = choose|t: int| 0 <= t < k && (#[trigger] rs.take(k as int)[t]).directory
                    == r.directory@;
                assert(rs.take(k as int)[t] == rs[t]);
            }
        }
    }
    assert(rs.take(n as int) == rs);
    Ok(())
}

// ---------------------------------------------------------------------------
// Building and updating a record
// ---------------------------------------------------------------------------

impl WorkspaceMetadata {
    /// The metadata of a new workspace named `name`, with no repositories.
    pub fn empty(name: &str) -> (res: Self)
        ensures
            res@.schema_version == METADATA_SCHEMA_VERSION,
            res@.name == name@,
            res@.repositories == Seq::<StoredRepositoryModel>::empty(),
    {
        let res = WorkspaceMetadata {
            schema_version: METADATA_SCHEMA_VERSION,
            name: name.to_owned(),
            repositories: Vec::new(),
        };
        assert(res@.repositories =~= Seq::<StoredRepositoryModel>::empty());
        res
    }
}

/// The index of the first record with checkout directory `d`.
pub open spec fn first_with_directory(rs: Seq<StoredRepositoryModel>, d: Seq<char>) -> Option<int>
    decreases rs.len(),
{
    if rs.len() == 0 {
        None
    } else if rs[0].directory == d {
        Some(0)
    } else {
        match first_with_directory(rs.drop_first(), d) {
            Some(i) => Some(i + 1),
            None => None,
        }
    }
}

/// The records after `r` was cloned: the first record with its checkout
/// directory is replaced, or the record is appended when there is none.
pub open spec fn spec_record(rs: Seq<StoredRepositoryModel>, r: RepositoryModel) -> Seq<StoredRepositoryModel> {
    match first_with_directory(rs, r.directory) {
        Some(i) => rs.update(i, stored_from(r)),
        None => rs.push(stored_from(r)),
    }
}

/// What [`first_with_directory`] finds.
pub proof fn lemma_first_with_directory(rs: Seq<StoredRepositoryModel>, d: Seq<char>)
    ensures
        first_with_directory(rs, d) matches Some(i) ==> 0 <= i < rs.len() && rs[i].directory == d
            && forall|k: int| 0 <= k < i ==> (#[trigger] rs[k]).directory != d,
        first_with_directory(rs, d) is None ==> forall|k: int|
            0 <= k < rs.len() ==> (#[trigger] rs[k]).directory != d,
    decreases rs.len(),
{
    if rs.len() > 0 {
        lemma_first_with_directory(rs.drop_first(), d);
        let t = rs.drop_first();
        assert forall|k: int| 1 <= k < rs.len() implies rs[k] == #[trigger] t[k - 1] by {}
        if rs[0].directory != d {
            if first_with_directory(rs, d) is None {
                assert forall|k: int| 0 <= k < rs.len() implies (#[trigger] rs[k]).directory != d by {
                    if k > 0 {
                        assert(rs[k] == t[k - 1]);
                    }
                }
            } else {
                let i = first_with_directory(rs, d)->0;
                assert forall|k: int| 0 <= k < i implies (#[trigger] rs[k]).directory != d by {
                    if k > 0 {
                        assert(rs[k] == t[k - 1]);
                    }
                }
            }
        }
    }
}

/// After a repository is recorded, the first record of its checkout
/// directory holds it; every record of another directory keeps its place
/// and value; and the records grow by one exactly when the directory was
/// not recorded before.
pub proof fn lemma_record_holds_repository(rs: Seq<StoredRepositoryModel>, r: RepositoryModel)
    ensures
        ({
            let out = spec_record(rs, r);
            &&& first_with_directory(out, r.directory) matches Some(i) && out[i] == stored_from(r)
            &&& forall|j: int|
                0 <= j < rs.len() && (#[trigger] rs[j]).directory != r.directory ==> out[j] == rs[j]
            &&& out.len() == if has_directory(rs, r.directory) {
                rs.len()
            } else {
                rs.len() + 1
            }
        }),
{
    let d = r.directory;
    let out = spec_record(rs, r);
    lemma_first_with_directory(rs, d);
    lemma_first_with_directory(out, d);
    let target: int = match first_with_directory(rs, d) {
        Some(i) => i,
        None => rs.len() as int,
    };
    assert(out[target] == stored_from(r));
    assert forall|k: int| 0 <= k < target implies (#[trigger] out[k]).directory != d by {
        assert(out[k] == rs[k]);
    }
    if first_with_directory(out, d) is None {
        assert(out[target].directory == d);
    } else {
        let f = first_with_directory(out, d)->0;
        if f < target {
            assert(out[f].directory != d);
        }
        if f > target {
            assert(out[target].directory == d);
        }
    }
    if first_with_directory(rs, d) is Some {
        let i = first_with_directory(rs, d)->0;
        assert(has_directory(rs, d)) by {
            assert(rs[i].directory == d);
        }
    } else {
        assert(!has_directory(rs, d));
    }
}

/// Recording a repository a second time changes nothing.
pub proof fn lemma_record_idempotent(rs: Seq<StoredRepositoryModel>, r: RepositoryModel)
    ensures
        spec_record(spec_record(rs, r), r) == spec_record(rs, r),
{
    let out = spec_record(rs, r);
    lemma_record_holds_repository(rs, r);
    lemma_first_with_directory(out, r.directory);
    let i = first_with_directory(out, r.directory)->0;
    assert(out.update(i, stored_from(r)) =~= out);
}

/// Recording a repository with a valid checkout directory and a non-empty
/// source keeps valid records valid.
pub proof fn lemma_record_keeps_records_valid(rs: Seq<StoredRepositoryModel>, r: RepositoryModel)
    requires
        repositories_valid(rs),
        !is_invalid_checkout_directory(r.directory),
        r.source.len() > 0,
    ensures
        repositories_valid(spec_record(rs, r)),
{
    let d = r.directory;
    let out = spec_record(rs, r);
    lemma_first_with_directory(rs, d);
    assert(stored_from(r).source != Some(Seq::<char>::empty())) by {
        if stored_from(r).source == Some(Seq::<char>::empty()) {
            assert(r.source.len() == 0);
        }
    }
    match first_with_directory(rs, d) {
        Some(i) => {
            assert forall|k: int| 0 <= k < out.len() implies (#[trigger] out[k]).directory
                == rs[k].directory by {}
        },
        None => {
            assert forall|a: int, b: int| 0 <= a < b < out.len() implies (#[trigger] out[a]).directory
                != (#[trigger] out[b]).directory by {
                if b == rs.len() {
                    assert(out[a] == rs[a]);
                } else {
                    assert(out[a] == rs[a] && out[b] == rs[b]);
                }
            }
            assert forall|k: int| 0 <= k < out.len() implies !is_invalid_checkout_directory(
                #[trigger] out[k].directory,
            ) by {
                if k < rs.len() {
                    assert(out[k] == rs[k]);
                }
            }
            assert forall|k: int| 0 <= k < out.len() implies (#[trigger] out[k]).source != Some(
                Seq::<char>::empty(),
            ) by {
                if k < rs.len() {
                    assert(out[k] == rs[k]);
                }
            }
        },
    }
}

/// The metadata of a new workspace passes validation for the workspace it
/// was made for.
pub proof fn lemma_new_metadata_valid(path: Seq<char>)
    requires
        spec_workspace_name(path) is Ok,
    ensures
        spec_validate_metadata(
            path,
            MetadataModel {
                schema_version: METADATA_SCHEMA_VERSION,
                name: spec_workspace_name(path)->Ok_0,
                repositories: Seq::empty(),
            },
        ) is Ok,
{
}

/// The metadata of a new workspace named by an accepted project name
/// without `/` passes validation for that name joined onto any root.
pub proof fn lemma_new_metadata_valid_under_root(root: Seq<char>, name: Seq<char>)
    requires
        crate::paths::spec_validate_project_name(name) is Ok,
        !name.contains('/'),
    ensures
        spec_validate_metadata(
            join_path(root, name),
            MetadataModel { schema_version: METADATA_SCHEMA_VERSION, name, repositories: Seq::empty() },
        ) is Ok,
{
    crate::paths::lemma_workspace_name_of_joined(root, name);
    lemma_new_metadata_valid(join_path(root, name));
}

/// Metadata inferred from distinct child directory names that are each a
/// valid checkout directory passes validation for its workspace.
pub proof fn lemma_inferred_metadata_valid(path: Seq<char>, directories: Seq<Seq<char>>)
    requires
        spec_workspace_name(path) is Ok,
        directories.no_duplicates(),
        forall|i: int| 0 <= i < directories.len() ==> !is_invalid_checkout_directory(#[trigger] directories[i]),
    ensures
        spec_validate_metadata(path, inferred_metadata(spec_workspace_name(path)->Ok_0, directories)) is Ok,
{
    broadcast use vstd::seq_lib::group_to_multiset_ensures;
    broadcast use vstd::multiset::group_multiset_axioms;

    let sorted = sorted_lex(directories);
    crate::text::lemma_lex_order_total();
    directories.lemma_sort_by_ensures(crate::text::lex_order());
    directories.lemma_multiset_has_no_duplicates();
    assert(sorted.to_multiset() == directories.to_multiset());
    sorted.lemma_multiset_has_no_duplicates_conv();
    let m = inferred_metadata(spec_workspace_name(path)->Ok_0, directories);
    let rs = m.repositories;
    assert forall|i: int| 0 <= i < rs.len() implies !is_invalid_checkout_directory(
        #[trigger] rs[i].directory,
    ) by {
        assert(rs[i].directory == sorted[i]);
        assert(sorted.contains(sorted[i]));
        assert(directories.to_multiset().count(sorted[i]) > 0);
        assert(directories.contains(sorted[i]));
    }
    assert forall|a: int, b: int| 0 <= a < b < rs.len() implies (#[trigger] rs[a]).directory
        != (#[trigger] rs[b]).directory by {
        assert(rs[a].directory == sorted[a]);
        assert(rs[b].directory == sorted[b]);
    }
    lemma_repositories_error_iff_invalid(rs);
}

/// The first index holding directory `d` is what [`first_with_directory`]
/// finds.
pub proof fn lemma_first_with_directory_at(rs: Seq<StoredRepositoryModel>, d: Seq<char>, i: int)
    requires
        0 <= i < rs.len(),
        rs[i].directory == d,
        forall|k: int| 0 <= k < i ==> (#[trigger] rs[k]).directory != d,
    ensures
        first_with_directory(rs, d) == Some(i),
{
    lemma_first_with_directory(rs, d);
    if first_with_directory(rs, d) is Some {
        let f = first_with_directory(rs, d)->0;
        if f < i {
            assert(rs[f].directory != d);
        }
        if f > i {
            assert(rs[i].directory != d);
        }
    }
}

/// The records after the repositories `repos` were cloned and recorded one
/// after another.
pub open spec fn record_all(rs: Seq<StoredRepositoryModel>, repos: Seq<RepositoryModel>) -> Seq<StoredRepositoryModel>
    decreases repos.len(),
{
    if repos.len() == 0 {
        rs
    } else {
        spec_record(record_all(rs, repos.drop_last()), repos.last())
    }
}

/// Cloning repositories with valid checkout directories and non-empty
/// sources one after another keeps valid records valid.
pub proof fn lemma_record_all_keeps_records_valid(rs: Seq<StoredRepositoryModel>, repos: Seq<RepositoryModel>)
    requires
        repositories_valid(rs),
        forall|j: int| 0 <= j < repos.len() ==> !is_invalid_checkout_directory(#[trigger] repos[j].directory),
        forall|j: int| 0 <= j < repos.len() ==> (#[trigger] repos[j]).source.len() > 0,
    ensures
        repositories_valid(record_all(rs, repos)),
    decreases repos.len(),
{
    if repos.len() > 0 {
        let d = repos.drop_last();
        assert forall|j: int| 0 <= j < d.len() implies !is_invalid_checkout_directory(#[trigger] d[j].directory) by {
            assert(d[j] == repos[j]);
        }
        assert forall|j: int| 0 <= j < d.len() implies (#[trigger] d[j]).source.len() > 0 by {
            assert(d[j] == repos[j]);
        }
        lemma_record_all_keeps_records_valid(rs, d);
        assert(repos.last() == repos[repos.len() - 1]);
        lemma_record_keeps_records_valid(record_all(rs, d), repos.last());
    }
}

/// After repositories with distinct checkout directories are cloned and
/// recorded one after another, the metadata records each of them, with its
/// source, as the first record of its directory.
pub proof fn lemma_record_all_records_each(rs: Seq<StoredRepositoryModel>, repos: Seq<RepositoryModel>)
    requires
        forall|a: int, b: int| 0 <= a < b < repos.len() ==> (#[trigger] repos[a]).directory != (#[trigger] repos[b]).directory,
    ensures
        forall|j: int|
            #![trigger repos[j]]
            0 <= j < repos.len() ==> (first_with_directory(record_all(rs, repos), repos[j].directory) matches Some(i)
                && record_all(rs, repos)[i] == stored_from(repos[j])),
    decreases repos.len(),
{
    if repos.len() > 0 {
        let d = repos.drop_last();
        let last = repos.last();
        assert forall|a: int, b: int| 0 <= a < b < d.len() implies (#[trigger] d[a]).directory != (#[trigger] d[b]).directory by {
            assert(d[a] == repos[a] && d[b] == repos[b]);
        }
        lemma_record_all_records_each(rs, d);
        let before = record_all(rs, d);
        let after = record_all(rs, repos);
        lemma_record_holds_repository(before, last);
        lemma_first_with_directory(before, last.directory);
        assert forall|j: int| #![trigger repos[j]] 0 <= j < repos.len() implies (first_with_directory(after, repos[j].directory) matches Some(i)
            && after[i] == stored_from(repos[j])) by {
            if j == repos.len() - 1 {
                assert(repos[j] == last);
            } else {
                assert(d[j] == repos[j]);
                let dj = repos[j].directory;
                assert(dj != last.directory);
                let i = first_with_directory(before, dj)->0;
                lemma_first_with_directory(before, dj);
                assert(before[i] == stored_from(repos[j]));
                assert(after[i] == before[i]);
                assert forall|k: int| 0 <= k < i implies (#[trigger] after[k]).directory != dj by {
                    assert(before[k].directory != dj);
                    if before[k].directory != last.directory {
                        assert(after[k] == before[k]);
                    } else {
                        assert(after[k].directory == last.directory || after[k] == before[k]);
                        if first_with_directory(before, last.directory) is Some {
                            let f = first_with_directory(before, last.directory)->0;
                            if k == f {
                                assert(after[k] == stored_from(last));
                            } else {
                                assert(after[k] == before[k]);
                            }
                        }
                    }
                }
                lemma_first_with_directory_at(after, dj, i);
            }
        }
    }
}

/// Records that `repository` was cloned into the workspace: the record of
/// its checkout directory now holds its source, and every other record
/// stays as it was.
pub fn record_cloned_repository(metadata: &mut WorkspaceMetadata, repository: &Repository)
    ensures
        final(metadata)@.schema_version == old(metadata)@.schema_version,
        final(metadata)@.name == old(metadata)@.name,
        final(metadata)@.repositories == spec_record(old(metadata)@.repositories, repository@),
{
    let ghost rs = old(metadata)@.repositories;
    proof {
        lemma_first_with_directory(rs, repository.directory@);
    }
    let stored = StoredRepository::from(repository);
    assert(stored@ == stored_from(repository@));
    let n = metadata.repositories.len();
    let mut i: usize = 0;
    while i < n && metadata.repositories[i].directory != repository.directory
        invariant
            i <= n,
            n == metadata.repositories@.len(),
            stored_models(metadata.repositories@) == rs,
            forall|k: int| 0 <= k < i ==> (#[trigger] rs[k]).directory != repository.directory@,
        decreases n - i,
    {
        assert(rs[i as int] == metadata.repositories@[i as int]@);
        i += 1;
    }
    if i < n {
        proof {
            assert(rs[i as int] == metadata.repositories@[i as int]@);
            let f = first_with_directory(rs, repository.directory@);
            assert(rs[i as int].directory == repository.directory@);
            if f is None {
                assert(rs[i as int].directory != repository.directory@);
            } else {
                let fi = f->0;
                if fi < i {
                    assert(rs[fi].directory != repository.directory@);
                }
                if fi > i {
                    assert(rs[i as int].directory != repository.directory@);
                }
            }
            assert(f == Some(i as int));
        }
        metadata.repositories.set(i, stored);
        assert(stored_models(metadata.repositories@) =~= rs.update(i as int, stored_from(repository@)));
    } else {
        proof {
            if first_with_directory(rs, repository.directory@) is Some {
                let fi = first_with_directory(rs, repository.directory@)->0;
                assert(rs[fi].directory != repository.directory@);
            }
        }
        metadata.repositories.push(stored);
        assert(stored_models(metadata.repositories@) =~= rs.push(stored_from(repository@)));
    }
}

/// The metadata inferred for a workspace named `name` whose child
/// directories are `directories`: each directory becomes a record without a
/// source, in code point order.
pub open spec fn inferred_metadata(name: Seq<char>, directories: Seq<Seq<char>>) -> MetadataModel {
    MetadataModel {
        schema_version: METADATA_SCHEMA_VERSION,
        name,
        repositories: sorted_lex(directories).map_values(
            |d: Seq<char>| StoredRepositoryModel { source: None, directory: d },
        ),
    }
}

/// The view of a directory listing, or of the error met while listing.
pub open spec fn listing_view(listing: Result<Vec<String>, String>) -> Result<Seq<Seq<char>>, Seq<char>> {
    match listing {
        Ok(ds) => Ok(string_views(ds@)),
        Err(e) => Err(e@),
    }
}

/// What [`infer_workspace_metadata`] gives.
pub open spec fn spec_infer(path: Seq<char>, listing: Result<Seq<Seq<char>>, Seq<char>>) -> Result<MetadataModel, Seq<char>> {
    match spec_workspace_name(path) {
        Err(e) => Err(e),
        Ok(name) => match listing {
            Err(e) => Err(e),
            Ok(ds) => Ok(inferred_metadata(name, ds)),
        },
    }
}

/// Infers the metadata of a workspace that has none, from the names of its
/// child directories (`directories`, or the error met while listing
/// them). The workspace's name is determined first.
pub fn infer_workspace_metadata(project_path: &str, directories: Result<Vec<String>, String>) -> (res: Result<WorkspaceMetadata, String>)
    ensures
        match spec_infer(project_path@, listing_view(directories)) {
            Ok(m) => res matches Ok(md) && md@ == m,
            Err(e) => res matches Err(x) && x@ == e,
        },
{
    let name = match workspace_name(project_path) {
        Ok(name) => name,
        Err(e) => return Err(e),
    };
    let ds = match directories {
        Ok(ds) => ds,
        Err(e) => return Err(e),
    };
    let mut chars: Vec<Vec<char>> = Vec::new();
    let n = ds.len();
    for i in 0..n
        invariant
            n == ds@.len(),
            views(chars@) == string_views(ds@).take(i as int),
    {
        let c = chars_of(ds[i].as_str());
        let ghost before = views(chars@);
        chars.push(c);
        assert(views(chars@) == before.push(c@));
        assert(string_views(ds@).take(i + 1) == string_views(ds@).take(i as int).push(ds@[i as int]@));
    }
    assert(string_views(ds@).take(n as int) == string_views(ds@));
    let sorted = sort_lex(chars);
    let ghost sv = views(sorted@);
    let mut repositories: Vec<StoredRepository> = Vec::new();
    let m = sorted.len();
    for i in 0..m
        invariant
            m == sorted@.len(),
            sv == views(sorted@),
            stored_models(repositories@) == sv.take(i as int).map_values(
                |d: Seq<char>| StoredRepositoryModel { source: None, directory: d },
            ),
    {
        let directory = string_of(sorted[i].as_slice());
        let ghost before = stored_models(repositories@);
        let ghost added = StoredRepositoryModel { source: None, directory: directory@ };
        repositories.push(StoredRepository { source: None, directory });
        assert(sv[i as int] == sorted@[i as int]@);
        assert(stored_models(repositories@) =~= before.push(added));
        assert(sv.take(i + 1) =~= sv.take(i as int).push(sv[i as int]));
        assert(stored_models(repositories@) =~= sv.take(i + 1).map_values(
            |d: Seq<char>| StoredRepositoryModel { source: None, directory: d },
        ));
    }
    assert(sv.take(m as int) == sv);
    let res = WorkspaceMetadata { schema_version: METADATA_SCHEMA_VERSION, name, repositories };
    Ok(res)
}

/// The metadata that a workspace's metadata file holds, given what was
/// read and parsed from it (`None` where there is no file); stored metadata
/// is validated against the workspace.
pub fn read_workspace_metadata(project_path: &str, parsed: Result<Option<WorkspaceMetadata>, String>) -> (res: Result<Option<WorkspaceMetadata>, String>)
    ensures
        match parsed {
            Err(e) => res matches Err(m) && m@ == e@,
            Ok(None) => res matches Ok(None),
            Ok(Some(md)) => match spec_validate_metadata(project_path@, md@) {
                Ok(_) => res matches Ok(Some(r)) && r@ == md@,
                Err(e) => res matches Err(m) && m@ == e,
            },
        },
{
    match parsed {
        Err(e) => Err(e),
        Ok(None) => Ok(None),
        Ok(Some(md)) => match validate_workspace_metadata(project_path, &md) {
            Ok(()) => Ok(Some(md)),
            Err(e) => Err(e),
        },
    }
}

/// The metadata of a workspace and whether it was stored: stored metadata
/// when the workspace has a metadata file, else metadata inferred from its
/// child directories.
pub fn load_or_infer_metadata(
    project_path: &str,
    parsed: Result<Option<WorkspaceMetadata>, String>,
    directories: Result<Vec<String>, String>,
) -> (res: Result<(WorkspaceMetadata, bool), String>)
    ensures
        match parsed {
            Err(e) => res matches Err(m) && m@ == e@,
            Ok(Some(md)) => match spec_validate_metadata(project_path@, md@) {
                Ok(_) => res matches Ok((r, present)) && r@ == md@ && present,
                Err(e) => res matches Err(m) && m@ == e,
            },
            Ok(None) => match spec_infer(project_path@, listing_view(directories)) {
                Ok(m) => res matches Ok((r, present)) && r@ == m && !present,
                Err(e) => res matches Err(x) && x@ == e,
            },
        },
{
    match read_workspace_metadata(project_path, parsed) {
        Err(e) => Err(e),
        Ok(Some(md)) => Ok((md, true)),
        Ok(None) => match infer_workspace_metadata(project_path, directories) {
            Ok(md) => Ok((md, false)),
            Err(e) => Err(e),
        },
    }
}

/// Where metadata is written: the metadata file, and the temporary file it
/// is first written to.
pub struct MetadataWrite {
    pub path: String,
    pub temporary_path: String,
}

/// The name of the temporary metadata file of process `process_id`.
pub open spec fn temporary_metadata_name(process_id: u32) -> Seq<char> {
    METADATA_FILE@ + ".tmp-"@ + decimal(process_id as nat)
}

/// Validates metadata before it is written to the workspace at
/// `project_path`, and gives the paths it is written through.
pub fn prepare_metadata_write(project_path: &str, metadata: &WorkspaceMetadata, process_id: u32) -> (res: Result<MetadataWrite, String>)
    ensures
        match spec_validate_metadata(project_path@, metadata@) {
            Err(e) => res matches Err(m) && m@ == e,
            Ok(_) => res matches Ok(w) && w.path@ == join_path(project_path@, METADATA_FILE@)
                && w.temporary_path@ == join_path(project_path@, temporary_metadata_name(process_id)),
        },
{
    match validate_workspace_metadata(project_path, metadata) {
        Err(e) => Err(e),
        Ok(()) => {
            let path = join_path_str(project_path, METADATA_FILE);
            let mut name = METADATA_FILE.to_owned();
            name.append(".tmp-");
            push_decimal(&mut name, process_id as u64);
            let temporary_path = join_path_str(project_path, name.as_str());
            Ok(MetadataWrite { path, temporary_path })
        },
    }
}

/// The bytes of a metadata file: the serialized metadata and a final
/// newline.
pub fn metadata_file_bytes(serialized: Vec<u8>) -> (res: Vec<u8>)
    ensures
        res@ == serialized@.push(10u8),
{
    let mut bytes = serialized;
    bytes.push(10u8);
    bytes
}

} // verus!
