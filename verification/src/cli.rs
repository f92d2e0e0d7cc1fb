//! The command line: which command runs, and what each command asks for,
//! decided from the arguments and from what was observed of the
//! workspaces.

use vstd::prelude::*;
use vstd::string::*;

use crate::metadata::option_view;
use crate::paths::{spec_validate_project_name, validate_project_name};
use crate::repository::{parse_repositories, repository_models, spec_parse_repositories, Repository, RepositoryModel};
use crate::text::{first_index_of, lemma_first_index_of, lemma_first_index_of_at, str_equals, string_views, strings_from};
use crate::workspace::{missing_workspace, missing_workspace_message};

verus! {

/// A command of `casa`.
#[derive(Debug, Clone, Copy, PartialEq, Eq, Structural)]
pub enum Command {
    Help,
    Version,
    New,
    Add,
    Remove,
    List,
    Inspect,
}

/// The error for an unknown command.
pub open spec fn unknown_command_message(command: Seq<char>) -> Seq<char> {
    "unknown command `"@ + command + "`. Run `casa --help` for usage."@
}

/// What [`parse_command`] gives: help when there is no argument, else the
/// command the first argument names.
pub open spec fn spec_command(args: Seq<Seq<char>>) -> Result<Command, Seq<char>> {
    if args.len() == 0 {
        Ok(Command::Help)
    } else {
        let c = args[0];
        if c == "new"@ {
            Ok(Command::New)
        } else if c == "add"@ {
            Ok(Command::Add)
        } else if c == "rm"@ {
            Ok(Command::Remove)
        } else if c == "ls"@ {
            Ok(Command::List)
        } else if c == "inspect"@ {
            Ok(Command::Inspect)
        } else if c == "help"@ || c == "--help"@ || c == "-h"@ {
            Ok(Command::Help)
        } else if c == "--version"@ || c == "-V"@ {
            Ok(Command::Version)
        } else {
            Err(unknown_command_message(c))
        }
    }
}

/// The command that the arguments name; the arguments after the first
/// are that command's own.
pub fn parse_command(args: &[String]) -> (res: Result<Command, String>)
    ensures
        match spec_command(string_views(args@)) {
            Ok(c) => res == Ok::<Command, String>(c),
            Err(e) => res matches Err(m) && m@ == e,
        },
{
    if args.len() == 0 {
        return Ok(Command::Help);
    }
    let c = args[0].as_str();
    assert(string_views(args@)[0] == c@);
    if str_equals(c, "new") {
        Ok(Command::New)
    } else if str_equals(c, "add") {
        Ok(Command::Add)
    } else if str_equals(c, "rm") {
        Ok(Command::Remove)
    } else if str_equals(c, "ls") {
        Ok(Command::List)
    } else if str_equals(c, "inspect") {
        Ok(Command::Inspect)
    } else if str_equals(c, "help") || str_equals(c, "--help") || str_equals(c, "-h") {
        Ok(Command::Help)
    } else if str_equals(c, "--version") || str_equals(c, "-V") {
        Ok(Command::Version)
    } else {
        let mut e = "unknown command `".to_owned();
        e.append(c);
        e.append("`. Run `casa --help` for usage.");
        Err(e)
    }
}

/// The arguments without the first occurrence of `flag`, and whether it
/// occurred.
pub open spec fn without_flag(args: Seq<Seq<char>>, flag: Seq<char>) -> (Seq<Seq<char>>, bool) {
    match first_index_of(args, flag) {
        Some(i) => (args.remove(i), true),
        None => (args, false),
    }
}

/// Removes the first occurrence of `flag` from the arguments and tells
/// whether there was one.
pub fn take_flag(args: &mut Vec<String>, flag: &str) -> (res: bool)
    ensures
        match first_index_of(string_views(old(args)@), flag@) {
            Some(i) => res && final(args)@ == old(args)@.remove(i),
            None => !res && final(args)@ == old(args)@,
        },
        (string_views(final(args)@), res) == without_flag(string_views(old(args)@), flag@),
{
    let ghost sv = string_views(args@);
    proof {
        lemma_first_index_of(sv, flag@);
    }
    let n = args.len();
    let mut i: usize = 0;
    while i < n && !str_equals(args[i].as_str(), flag)
        invariant
            i <= n,
            n == args@.len(),
            sv == string_views(args@),
            forall|k: int| 0 <= k < i ==> #[trigger] sv[k] != flag@,
        decreases n - i,
    {
        assert(sv[i as int] == args@[i as int]@);
        i += 1;
    }
    if i < n {
        proof {
            assert(sv[i as int] == args@[i as int]@);
            lemma_first_index_of_at(sv, flag@, i as int);
        }
        let ghost before = args@;
        args.remove(i);
        assert(string_views(args@) =~= sv.remove(i as int));
        true
    } else {
        proof {
            if first_index_of(sv, flag@) is Some {
                let f = first_index_of(sv, flag@)->0;
                assert(sv[f] != flag@);
            }
        }
        false
    }
}

/// What `casa new` asks for: a workspace name, the repositories to clone
/// into it, and whether to print only the workspace's path.
#[derive(Debug)]
pub struct NewRequest {
    pub project: String,
    pub repositories: Vec<Repository>,
    pub print_path: bool,
}

/// The usage of `casa new`.
pub open spec fn new_usage_message() -> Seq<char> {
    "usage: casa new <project> <owner/repo[,owner/repo...] | git-url...>"@
}

/// What [`command_new`] gives.
pub open spec fn spec_command_new(args: Seq<Seq<char>>) -> Result<(Seq<char>, Seq<RepositoryModel>, bool), Seq<char>> {
    let (rest, print_path) = without_flag(args, "--print-path"@);
    if rest.len() < 2 {
        Err(new_usage_message())
    } else {
        match spec_validate_project_name(rest[0]) {
            Err(e) => Err(e),
            Ok(_) => match spec_parse_repositories(rest.skip(1)) {
                Err(e) => Err(e),
                Ok(rs) => Ok((rest[0], rs, print_path)),
            },
        }
    }
}

/// Reads the arguments of `casa new`: `--print-path` anywhere, then the
/// workspace name and at least one repository argument.
pub fn command_new(args: &[String]) -> (res: Result<NewRequest, String>)
    ensures
        match spec_command_new(string_views(args@)) {
            Ok((project, rs, print_path)) => res matches Ok(r) && r.project@ == project
                && repository_models(r.repositories@) == rs && r.print_path == print_path,
            Err(e) => res matches Err(m) && m@ == e,
        },
{
    let mut rest = strings_from(args, 0);
    assert(string_views(args@).skip(0) == string_views(args@));
    let print_path = take_flag(&mut rest, "--print-path");
    if rest.len() < 2 {
        return Err("usage: casa new <project> <owner/repo[,owner/repo...] | git-url...>".to_owned());
    }
    assert(string_views(rest@)[0] == rest@[0]@);
    match validate_project_name(rest[0].as_str()) {
        Err(e) => return Err(e),
        Ok(()) => {},
    }
    let tail = strings_from(&rest, 1);
    match parse_repositories(&tail) {
        Err(e) => Err(e),
        Ok(repositories) => Ok(NewRequest { project: rest[0].clone(), repositories, print_path }),
    }
}

/// What was observed of the workspaces for `casa add` and `casa inspect`:
/// whether the workspace named by the first argument is a directory, and
/// the workspace the current directory lies in.
#[derive(Debug)]
pub struct WorkspaceObservations {
    pub named_is_dir: bool,
    pub current_workspace: Option<String>,
}

/// The workspace a command acts on: one named on the command line, or the
/// one the current directory lies in (by its path).
#[derive(Debug, Clone, PartialEq, Eq)]
pub enum WorkspaceTarget {
    Named(String),
    Current(String),
}

/// The model of a [`WorkspaceTarget`].
pub enum TargetModel {
    Named(Seq<char>),
    Current(Seq<char>),
}

impl View for WorkspaceTarget {
    type V = TargetModel;

    open spec fn view(&self) -> TargetModel {
        match self {
            WorkspaceTarget::Named(p) => TargetModel::Named(p@),
            WorkspaceTarget::Current(p) => TargetModel::Current(p@),
        }
    }
}

/// The error outside a workspace when `casa add` names none.
pub open spec fn outside_add_message() -> Seq<char> {
    "outside an casa workspace, specify the target: `casa add <project> <owner/repo>`."@
}

/// The error outside a workspace when `casa inspect` names none.
pub open spec fn outside_inspect_message() -> Seq<char> {
    "outside an casa workspace, specify the target: `casa inspect <project>`."@
}

/// What [`find_add_target`] gives: the target and where the repository
/// arguments start.
pub open spec fn spec_find_add_target(args: Seq<Seq<char>>, named_is_dir: bool, current: Option<Seq<char>>) -> Result<(TargetModel, int), Seq<char>> {
    if args.len() >= 2 && spec_validate_project_name(args[0]) is Ok {
        if !named_is_dir {
            Err(missing_workspace_message(args[0]))
        } else {
            Ok((TargetModel::Named(args[0]), 1))
        }
    } else {
        match current {
            Some(path) => Ok((TargetModel::Current(path), 0)),
            None => Err(outside_add_message()),
        }
    }
}

/// The workspace `casa add` extends: the one the first argument names when
/// there are at least two arguments and the first is a valid workspace
/// name, else the current one.
pub fn find_add_target(args: &[String], named_is_dir: bool, current_workspace: Option<String>) -> (res: Result<(WorkspaceTarget, usize), String>)
    ensures
        match spec_find_add_target(string_views(args@), named_is_dir, option_view(current_workspace)) {
            Ok((t, start)) => res matches Ok((target, s)) && target@ == t && s == start,
            Err(e) => res matches Err(m) && m@ == e,
        },
{
    if args.len() >= 2 {
        assert(string_views(args@)[0] == args@[0]@);
        if validate_project_name(args[0].as_str()).is_ok() {
            if !named_is_dir {
                return Err(missing_workspace(args[0].as_str()));
            }
            return Ok((WorkspaceTarget::Named(args[0].clone()), 1));
        }
    }
    match current_workspace {
        Some(path) => Ok((WorkspaceTarget::Current(path), 0)),
        None => Err("outside an casa workspace, specify the target: `casa add <project> <owner/repo>`.".to_owned()),
    }
}

/// A workspace named by a valid first argument, with at least one more
/// argument, is the target wherever `casa add` runs: the current
/// workspace plays no part, and the repositories start at the second
/// argument.
pub proof fn lemma_add_named_target_ignores_current(
    args: Seq<Seq<char>>,
    named_is_dir: bool,
    current: Option<Seq<char>>,
    other: Option<Seq<char>>,
)
    requires
        args.len() >= 2,
        spec_validate_project_name(args[0]) is Ok,
    ensures
        spec_find_add_target(args, named_is_dir, current) == spec_find_add_target(args, named_is_dir, other),
        named_is_dir ==> spec_find_add_target(args, named_is_dir, current) == Ok::<(TargetModel, int), Seq<char>>(
            (TargetModel::Named(args[0]), 1),
        ),
        named_is_dir ==> spec_command_add(args, Ok((named_is_dir, current))) == match spec_parse_repositories(
            args.skip(1),
        ) {
            Ok(rs) => Ok((TargetModel::Named(args[0]), rs)),
            Err(e) => Err(e),
        },
{
}

/// What `casa add` asks for: the workspace and the repositories to clone
/// into it.
#[derive(Debug)]
pub struct AddRequest {
    pub target: WorkspaceTarget,
    pub repositories: Vec<Repository>,
}

/// The usage of `casa add`.
pub open spec fn add_usage_message() -> Seq<char> {
    "usage: casa add [<project>] <owner/repo[,owner/repo...] | git-url...>"@
}

/// The view of the observations, or of the error met observing.
pub open spec fn observations_view(o: Result<WorkspaceObservations, String>) -> Result<(bool, Option<Seq<char>>), Seq<char>> {
    match o {
        Ok(w) => Ok((w.named_is_dir, option_view(w.current_workspace))),
        Err(e) => Err(e@),
    }
}

/// What [`command_add`] gives.
pub open spec fn spec_command_add(args: Seq<Seq<char>>, observed: Result<(bool, Option<Seq<char>>), Seq<char>>) -> Result<(TargetModel, Seq<RepositoryModel>), Seq<char>> {
    if args.len() == 0 {
        Err(add_usage_message())
    } else {
        match observed {
            Err(e) => Err(e),
            Ok((named_is_dir, current)) => match spec_find_add_target(args, named_is_dir, current) {
                Err(e) => Err(e),
                Ok((t, start)) => match spec_parse_repositories(args.skip(start)) {
                    Err(e) => Err(e),
                    Ok(rs) => Ok((t, rs)),
                },
            },
        }
    }
}

/// Reads the arguments of `casa add`, given what was observed of the
/// workspaces (or the error met finding them).
pub fn command_add(args: &[String], observed: Result<WorkspaceObservations, String>) -> (res: Result<AddRequest, String>)
    ensures
        match spec_command_add(string_views(args@), observations_view(observed)) {
            Ok((t, rs)) => res matches Ok(r) && r.target@ == t && repository_models(r.repositories@) == rs,
            Err(e) => res matches Err(m) && m@ == e,
        },
{
    if args.len() == 0 {
        return Err("usage: casa add [<project>] <owner/repo[,owner/repo...] | git-url...>".to_owned());
    }
    let observations = match observed {
        Ok(o) => o,
        Err(e) => return Err(e),
    };
    let (target, start) = match find_add_target(args, observations.named_is_dir, observations.current_workspace) {
        Ok(found) => found,
        Err(e) => return Err(e),
    };
    let tail = strings_from(args, start);
    match parse_repositories(&tail) {
        Err(e) => Err(e),
        Ok(repositories) => Ok(AddRequest { target, repositories }),
    }
}

/// The error of the first argument, in order, that is not a valid
/// workspace name.
pub open spec fn names_error(args: Seq<Seq<char>>) -> Option<Seq<char>>
    decreases args.len(),
{
    if args.len() == 0 {
        None
    } else {
        match names_error(args.drop_last()) {
            Some(e) => Some(e),
            None => match spec_validate_project_name(args.last()) {
                Err(e) => Some(e),
                Ok(_) => None,
            },
        }
    }
}

proof fn lemma_names_error_prefix(args: Seq<Seq<char>>, k: int)
    requires
        0 <= k <= args.len(),
        names_error(args.take(k)) is Some,
    ensures
        names_error(args) == names_error(args.take(k)),
    decreases args.len() - k,
{
    if k < args.len() {
        assert(args.take(k + 1).drop_last() == args.take(k));
        lemma_names_error_prefix(args, k + 1);
    } else {
        assert(args.take(k) == args);
    }
}

/// The usage of `casa rm`.
pub open spec fn rm_usage_message() -> Seq<char> {
    "usage: casa rm <project> [project...]"@
}

/// Reads the arguments of `casa rm`: at least one workspace name, each of
/// them valid.
pub fn command_rm(args: &[String]) -> (res: Result<(), String>)
    ensures
        args@.len() == 0 ==> (res matches Err(m) && m@ == rm_usage_message()),
        args@.len() > 0 ==> match names_error(string_views(args@)) {
            None => res is Ok,
            Some(e) => res matches Err(m) && m@ == e,
        },
{
    if args.len() == 0 {
        return Err("usage: casa rm <project> [project...]".to_owned());
    }
    let ghost sv = string_views(args@);
    let n = args.len();
    assert(sv.take(0) == Seq::<Seq<char>>::empty());
    for k in 0..n
        invariant
            n == args@.len(),
            sv == string_views(args@),
            names_error(sv.take(k as int)) is None,
    {
        assert(sv[k as int] == args@[k as int]@);
        assert(sv.take(k + 1).drop_last() == sv.take(k as int));
        assert(sv.take(k + 1).last() == args@[k as int]@);
        match validate_project_name(args[k].as_str()) {
            Err(e) => {
                proof {
                    lemma_names_error_prefix(sv, k + 1);
                }
                return Err(e);
            },
            Ok(()) => {},
        }
    }
    assert(sv.take(n as int) == sv);
    Ok(())
}

/// Reads the arguments of `casa ls`, which takes none.
pub fn command_ls(args: &[String]) -> (res: Result<(), String>)
    ensures
        args@.len() == 0 ==> res is Ok,
        args@.len() > 0 ==> (res matches Err(m) && m@ == "usage: casa ls"@),
{
    if args.len() == 0 {
        Ok(())
    } else {
        Err("usage: casa ls".to_owned())
    }
}

/// The usage of `casa inspect`.
pub open spec fn inspect_usage_message() -> Seq<char> {
    "usage: casa inspect [<project>]"@
}

/// What [`command_inspect`] gives.
pub open spec fn spec_command_inspect(args: Seq<Seq<char>>, observed: Result<(bool, Option<Seq<char>>), Seq<char>>) -> Result<TargetModel, Seq<char>> {
    match observed {
        Err(e) => Err(e),
        Ok((named_is_dir, current)) => if args.len() == 0 {
            match current {
                Some(path) => Ok(TargetModel::Current(path)),
                None => Err(outside_inspect_message()),
            }
        } else if args.len() == 1 {
            match spec_validate_project_name(args[0]) {
                Err(e) => Err(e),
                Ok(_) => if named_is_dir {
                    Ok(TargetModel::Named(args[0]))
                } else {
                    Err(missing_workspace_message(args[0]))
                },
            }
        } else {
            Err(inspect_usage_message())
        },
    }
}

/// `casa inspect` with a workspace's name inspects that workspace wherever
/// it runs: the current workspace plays no part.
pub proof fn lemma_inspect_named_target_ignores_current(
    args: Seq<Seq<char>>,
    named_is_dir: bool,
    current: Option<Seq<char>>,
    other: Option<Seq<char>>,
)
    requires
        args.len() == 1,
    ensures
        spec_command_inspect(args, Ok((named_is_dir, current))) == spec_command_inspect(
            args,
            Ok((named_is_dir, other)),
        ),
        named_is_dir && spec_validate_project_name(args[0]) is Ok ==> spec_command_inspect(
            args,
            Ok((named_is_dir, current)),
        ) == Ok::<TargetModel, Seq<char>>(TargetModel::Named(args[0])),
{
}

/// Reads the arguments of `casa inspect`: the workspace named, or the
/// current one when none is named; given what was observed of the
/// workspaces (or the error met finding them).
pub fn command_inspect(args: &[String], observed: Result<WorkspaceObservations, String>) -> (res: Result<WorkspaceTarget, String>)
    ensures
        match spec_command_inspect(string_views(args@), observations_view(observed)) {
            Ok(t) => res matches Ok(target) && target@ == t,
            Err(e) => res matches Err(m) && m@ == e,
        },
{
    let observations = match observed {
        Ok(o) => o,
        Err(e) => return Err(e),
    };
    if args.len() == 0 {
        return match observations.current_workspace {
            Some(path) => Ok(WorkspaceTarget::Current(path)),
            None => Err("outside an casa workspace, specify the target: `casa inspect <project>`.".to_owned()),
        };
    }
    if args.len() == 1 {
        assert(string_views(args@)[0] == args@[0]@);
        match validate_project_name(args[0].as_str()) {
            Err(e) => return Err(e),
            Ok(()) => {},
        }
        if !observations.named_is_dir {
            return Err(missing_workspace(args[0].as_str()));
        }
        return Ok(WorkspaceTarget::Named(args[0].clone()));
    }
    Err("usage: casa inspect [<project>]".to_owned())
}

} // verus!
