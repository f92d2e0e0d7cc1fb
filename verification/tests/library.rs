use aicasa::cli::{
    command_add, command_inspect, command_ls, command_new, command_rm, find_add_target,
    parse_command, take_flag, Command, WorkspaceObservations, WorkspaceTarget,
};
use aicasa::metadata::{
    infer_workspace_metadata, load_or_infer_metadata, metadata_file_bytes, prepare_metadata_write,
    read_workspace_metadata, record_cloned_repository, validate_workspace_metadata,
    StoredRepository, WorkspaceMetadata, METADATA_SCHEMA_VERSION,
};
use aicasa::paths::{current_workspace, join_path_str, validate_project_name, workspace_name};
use aicasa::repository::{
    parse_repositories, repository_from_specification, validate_repository_directory, Repository,
};
use aicasa::report::{
    created_workspace_line, error_line, moved_to_trash_line, new_workspace_report,
    render_cloning_line, status_stream, updated_workspace_line, Stream,
};
use aicasa::theme::{render_help, render_help_line, shell_quote, Theme};
use aicasa::workspace::{
    add_repositories, branch_failure, branch_run_error, first_clone_action, next_branch_step,
    next_clone_action, trash_directory, workspace_root, BranchStep, CloneAction, Location, check_trash_request, create_project, ensure_unique_destinations,
    inspect_workspace, render_listing, sort_project_entries, trash_candidate_path,
    unused_trash_path, ProjectEntry,
};

fn strings(values: &[&str]) -> Vec<String> {
    values.iter().map(|value| value.to_string()).collect()
}

fn repository(source: &str, directory: &str) -> Repository {
    Repository { source: source.into(), directory: directory.into() }
}

fn stored(source: Option<&str>, directory: &str) -> StoredRepository {
    StoredRepository { source: source.map(str::to_string), directory: directory.into() }
}

fn metadata(name: &str, repositories: Vec<StoredRepository>) -> WorkspaceMetadata {
    WorkspaceMetadata { schema_version: METADATA_SCHEMA_VERSION, name: name.into(), repositories }
}

// Repository specifications.

#[test]
fn shorthand_with_git_suffix_keeps_a_single_suffix() {
    let r = repository_from_specification("owner/repo.git").unwrap();
    assert_eq!(r, repository("https://github.com/owner/repo.git", "repo"));
}

#[test]
fn clone_urls_are_kept_and_name_their_directory() {
    let r = repository_from_specification("https://example.com/team/tool.git").unwrap();
    assert_eq!(r, repository("https://example.com/team/tool.git", "tool"));
    let r = repository_from_specification("git@github.com:owner/widget.git").unwrap();
    assert_eq!(r, repository("git@github.com:owner/widget.git", "widget"));
    let r = repository_from_specification("https://example.com/team/tool/").unwrap();
    assert_eq!(r, repository("https://example.com/team/tool/", "tool"));
    let r = repository_from_specification("host:project").unwrap();
    assert_eq!(r, repository("host:project", "project"));
}

#[test]
fn hidden_and_nested_paths_are_not_shorthand() {
    let r = repository_from_specification("./local/repo").unwrap();
    assert_eq!(r, repository("./local/repo", "repo"));
    let r = repository_from_specification("a/b/c").unwrap();
    assert_eq!(r, repository("a/b/c", "c"));
    let r = repository_from_specification(".hidden/repo").unwrap();
    assert_eq!(r, repository(".hidden/repo", "repo"));
}

#[test]
fn specifications_without_a_directory_are_refused() {
    assert_eq!(
        repository_from_specification(".").unwrap_err(),
        "cannot determine a checkout directory from repository `.`."
    );
    assert_eq!(
        repository_from_specification("https://example.com/..").unwrap_err(),
        "cannot determine a checkout directory from repository `https://example.com/..`."
    );
    assert!(repository_from_specification("owner/.git").is_err());
    assert!(repository_from_specification("back\\slash").is_err());
}

#[test]
fn checkout_directories_are_plain_names() {
    for bad in ["", ".", "..", "a/b", "a\\b"] {
        assert_eq!(
            validate_repository_directory(bad, "spec").unwrap_err(),
            "cannot determine a checkout directory from repository `spec`."
        );
    }
    assert!(validate_repository_directory("toast", "spec").is_ok());
    assert!(validate_repository_directory(".config", "spec").is_ok());
}

#[test]
fn repository_arguments_are_trimmed_and_empty_pieces_dropped() {
    let rs = parse_repositories(&strings(&[" a/b , ,c/d,", "\u{3000}e/f\t"])).unwrap();
    assert_eq!(
        rs,
        vec![
            repository("https://github.com/a/b.git", "b"),
            repository("https://github.com/c/d.git", "d"),
            repository("https://github.com/e/f.git", "f"),
        ]
    );
}

#[test]
fn at_least_one_repository_is_required() {
    assert_eq!(
        parse_repositories(&strings(&[" , ", ""])).unwrap_err(),
        "at least one repository is required."
    );
    assert_eq!(parse_repositories(&[]).unwrap_err(), "at least one repository is required.");
}

#[test]
fn the_first_refused_specification_is_reported() {
    assert_eq!(
        parse_repositories(&strings(&["a/b,..", "."])).unwrap_err(),
        "cannot determine a checkout directory from repository `..`."
    );
}

// Project names and paths.

#[test]
fn project_names_are_single_directory_names() {
    assert_eq!(validate_project_name("").unwrap_err(), "project name cannot be empty.");
    assert_eq!(
        validate_project_name("/abs").unwrap_err(),
        "invalid project name `/abs`; use a single directory name."
    );
    for bad in [".", "..", "./demo", "demo/..", "a//b", "a\\b", "demo/x"] {
        assert!(validate_project_name(bad).is_err(), "{bad}");
    }
    for good in ["demo", "demo/", "demo/.", "demo//", ".hidden", "new-project"] {
        assert!(validate_project_name(good).is_ok(), "{good}");
    }
}

#[test]
fn workspace_names_are_the_final_name_of_a_path() {
    assert_eq!(workspace_name("/w/demo").unwrap(), "demo");
    assert_eq!(workspace_name("/w/demo/").unwrap(), "demo");
    assert_eq!(workspace_name("/w/demo/.").unwrap(), "demo");
    assert_eq!(workspace_name("demo").unwrap(), "demo");
    assert_eq!(
        workspace_name("/w/..").unwrap_err(),
        "could not determine workspace name from `/w/..`."
    );
    assert!(workspace_name("/").is_err());
    assert!(workspace_name("").is_err());
    assert!(workspace_name(".").is_err());
}

#[test]
fn joining_paths_adds_one_separator() {
    assert_eq!(join_path_str("/a", "b"), "/a/b");
    assert_eq!(join_path_str("/a/", "b"), "/a/b");
    assert_eq!(join_path_str("", "b"), "b");
    assert_eq!(join_path_str("/a", "/b"), "/b");
}

#[test]
fn the_current_workspace_is_the_first_name_below_the_root() {
    assert_eq!(current_workspace("/r", "/r/demo/sub/dir"), Some("/r/demo".to_string()));
    assert_eq!(current_workspace("/r", "/r/demo"), Some("/r/demo".to_string()));
    assert_eq!(current_workspace("/r/", "/r//demo"), Some("/r/demo".to_string()));
    assert_eq!(current_workspace("/r", "/r"), None);
    assert_eq!(current_workspace("/r", "/other/demo"), None);
    assert_eq!(current_workspace("/r", "/rr/demo"), None);
}

// Metadata.

#[test]
fn new_metadata_is_empty_and_valid() {
    let m = WorkspaceMetadata::empty("demo");
    assert_eq!(m, metadata("demo", vec![]));
    assert!(validate_workspace_metadata("/w/demo", &m).is_ok());
}

#[test]
fn metadata_errors_name_the_problem() {
    let mut m = metadata("demo", vec![]);
    m.schema_version = 2;
    assert_eq!(
        validate_workspace_metadata("/w/demo", &m).unwrap_err(),
        "unsupported metadata schema version `2` in `/w/demo/.aicasa.json`."
    );
    let m = metadata("other", vec![]);
    assert_eq!(
        validate_workspace_metadata("/w/demo", &m).unwrap_err(),
        "metadata workspace name `other` does not match directory `demo`."
    );
    let m = metadata("demo", vec![stored(Some(""), "toast")]);
    assert_eq!(
        validate_workspace_metadata("/w/demo", &m).unwrap_err(),
        "repository `toast` has an empty metadata source."
    );
    let m = metadata("demo", vec![stored(None, "toast"), stored(Some("x"), "toast")]);
    assert_eq!(
        validate_workspace_metadata("/w/demo", &m).unwrap_err(),
        "repository directory `toast` appears more than once in metadata."
    );
    let m = metadata("demo", vec![stored(None, "../up")]);
    assert_eq!(
        validate_workspace_metadata("/w/demo", &m).unwrap_err(),
        "cannot determine a checkout directory from repository `../up`."
    );
    let m = metadata("demo", vec![stored(None, "a"), stored(Some("s"), "b")]);
    assert!(validate_workspace_metadata("/w/demo", &m).is_ok());
    assert_eq!(
        validate_workspace_metadata("/", &m).unwrap_err(),
        "could not determine workspace name from `/`."
    );
}

#[test]
fn recording_a_clone_replaces_or_appends_its_record() {
    let mut m = metadata("demo", vec![stored(None, "existing-repo"), stored(Some("old"), "toast")]);
    record_cloned_repository(&mut m, &repository("new", "toast"));
    assert_eq!(m.repositories, vec![stored(None, "existing-repo"), stored(Some("new"), "toast")]);
    record_cloned_repository(&mut m, &repository("src", "kaleidoscope"));
    assert_eq!(
        m.repositories,
        vec![stored(None, "existing-repo"), stored(Some("new"), "toast"), stored(Some("src"), "kaleidoscope")]
    );
    let before = m.clone();
    record_cloned_repository(&mut m, &repository("src", "kaleidoscope"));
    assert_eq!(m, before);
    assert!(validate_workspace_metadata("/w/demo", &m).is_ok());
}

#[test]
fn stored_records_come_from_repositories() {
    let r = repository("https://github.com/a/b.git", "b");
    assert_eq!(StoredRepository::from(&r), stored(Some("https://github.com/a/b.git"), "b"));
}

#[test]
fn inferred_metadata_lists_directories_in_code_point_order() {
    let m = infer_workspace_metadata("/w/legacy", Ok(strings(&["b", "a", "C", "é", "a0"]))).unwrap();
    assert_eq!(
        m,
        metadata(
            "legacy",
            vec![
                stored(None, "C"),
                stored(None, "a"),
                stored(None, "a0"),
                stored(None, "b"),
                stored(None, "é"),
            ]
        )
    );
    assert!(validate_workspace_metadata("/w/legacy", &m).is_ok());
    assert_eq!(
        infer_workspace_metadata("/w/legacy", Err("could not read".into())).unwrap_err(),
        "could not read"
    );
    assert_eq!(
        infer_workspace_metadata("/", Err("could not read".into())).unwrap_err(),
        "could not determine workspace name from `/`."
    );
}

#[test]
fn stored_metadata_is_validated_when_read() {
    let good = metadata("demo", vec![stored(Some("s"), "toast")]);
    assert_eq!(read_workspace_metadata("/w/demo", Ok(Some(good.clone()))).unwrap(), Some(good));
    assert_eq!(read_workspace_metadata("/w/demo", Ok(None)).unwrap(), None);
    assert_eq!(read_workspace_metadata("/w/demo", Err("bad json".into())).unwrap_err(), "bad json");
    assert!(read_workspace_metadata("/w/demo", Ok(Some(metadata("x", vec![])))).is_err());
}

#[test]
fn inspects_legacy_metadata_without_sources() {
    let (m, present) =
        load_or_infer_metadata("/w/legacy", Ok(None), Ok(strings(&["existing-repo"]))).unwrap();
    assert!(!present);
    assert_eq!(m.repositories, vec![stored(None, "existing-repo")]);
    let inspection = inspect_workspace(true, "/w/legacy", Ok((m, present)), "/w/legacy", &[true]).unwrap();
    assert!(!inspection.metadata_present);
    assert_eq!(inspection.schema_version, 1);
    assert_eq!(inspection.name, "legacy");
    assert_eq!(inspection.metadata_path, "/w/legacy/.aicasa.json");
    assert_eq!(inspection.repositories.len(), 1);
    assert_eq!(inspection.repositories[0].directory, "existing-repo");
    assert_eq!(inspection.repositories[0].source, None);
    assert_eq!(inspection.repositories[0].path, "/w/legacy/existing-repo");
    assert!(inspection.repositories[0].exists);
}

#[test]
fn stored_metadata_is_preferred_to_inference() {
    let good = metadata("demo", vec![stored(Some("s"), "toast")]);
    let (m, present) =
        load_or_infer_metadata("/w/demo", Ok(Some(good.clone())), Err("unused".into())).unwrap();
    assert!(present);
    assert_eq!(m, good);
    assert!(load_or_infer_metadata("/w/demo", Err("broken".into()), Ok(vec![])).is_err());
}

#[test]
fn inspection_of_a_missing_workspace_is_refused() {
    assert_eq!(
        inspect_workspace(false, "/w/none", Err("x".into()), "/w/none", &[]).unwrap_err(),
        "workspace `/w/none` does not exist."
    );
}

#[test]
fn metadata_is_written_through_a_temporary_file() {
    let m = metadata("demo", vec![]);
    let write = prepare_metadata_write("/w/demo", &m, 42).unwrap();
    assert_eq!(write.path, "/w/demo/.aicasa.json");
    assert_eq!(write.temporary_path, "/w/demo/.aicasa.json.tmp-42");
    assert!(prepare_metadata_write("/w/other", &m, 42).is_err());
    assert_eq!(metadata_file_bytes(b"{}".to_vec()), b"{}\n".to_vec());
}

// Workspaces on disk.

#[test]
fn checkout_directories_must_be_unique_and_free() {
    let rs = vec![repository("a", "toast"), repository("b", "toast")];
    assert_eq!(
        ensure_unique_destinations("/w/demo", &rs, &[false, false]).unwrap_err(),
        "repository directory `toast` was requested more than once."
    );
    let rs = vec![repository("a", "toast"), repository("b", "kaleidoscope")];
    assert_eq!(
        ensure_unique_destinations("/w/demo", &rs, &[false, true]).unwrap_err(),
        "repository directory `kaleidoscope` already exists in `/w/demo`."
    );
    assert!(ensure_unique_destinations("/w/demo", &rs, &[false, false]).is_ok());
}

#[test]
fn new_workspaces_must_not_exist_yet() {
    let rs = vec![repository("a", "toast")];
    assert_eq!(
        create_project("demo", true, "/w/demo", &rs, &[false]).unwrap_err(),
        "workspace `demo` already exists."
    );
    let plan = create_project("demo", false, "/w/demo", &rs, &[false]).unwrap();
    assert_eq!(plan.metadata, metadata("demo", vec![]));
    assert_eq!(plan.branch, Some("demo".to_string()));
}

#[test]
fn repositories_are_added_to_existing_workspaces_only() {
    let rs = vec![repository("a", "toast")];
    assert_eq!(
        add_repositories(false, "/w/demo", Err("x".into()), &rs, &[false]).unwrap_err(),
        "workspace `/w/demo` does not exist."
    );
    let m = metadata("demo", vec![stored(None, "existing")]);
    let plan = add_repositories(true, "/w/demo", Ok((m.clone(), false)), &rs, &[false]).unwrap();
    assert_eq!(plan.metadata, m);
    assert_eq!(plan.branch, None);
    assert!(add_repositories(true, "/w/demo", Ok((m, false)), &rs, &[true]).is_err());
}

#[test]
fn refuses_a_workspace_named_twice_for_the_trash() {
    assert_eq!(
        check_trash_request(&strings(&["demo", "demo"]), &[true, true]).unwrap_err(),
        "workspace `demo` was requested more than once."
    );
    assert_eq!(
        check_trash_request(&strings(&["demo", "other"]), &[true, false]).unwrap_err(),
        "workspace `other` does not exist."
    );
    assert!(check_trash_request(&strings(&["demo", "other"]), &[true, true]).is_ok());
}

#[test]
fn trash_names_get_a_timestamp_then_a_counter() {
    assert_eq!(trash_candidate_path("/t", "demo", 1700, 0), "/t/demo");
    assert_eq!(trash_candidate_path("/t", "demo", 1700, 1), "/t/demo-1700");
    assert_eq!(trash_candidate_path("/t", "demo", 1700, 3), "/t/demo-1700-2");
    assert_eq!(unused_trash_path("/t", "demo", 1700, &[]), None);
    assert_eq!(unused_trash_path("/t", "demo", 1700, &[true]), None);
    assert_eq!(unused_trash_path("/t", "demo", 1700, &[false]), Some("/t/demo".into()));
    assert_eq!(unused_trash_path("/t", "demo", 1700, &[true, false]), Some("/t/demo-1700".into()));
    assert_eq!(
        unused_trash_path("/t", "demo", 0, &[true, true, false]),
        Some("/t/demo-0-1".into())
    );
}

#[test]
fn listings_are_sorted_and_padded() {
    let entries = sort_project_entries(vec![
        ProjectEntry { name: "zeta".into(), path: "/w/zeta".into(), repositories: 1 },
        ProjectEntry { name: "alpha".into(), path: "/w/alpha".into(), repositories: 12 },
    ]);
    assert_eq!(entries[0].name, "alpha");
    assert_eq!(entries[1].name, "zeta");
    let lines = render_listing(&Theme { enabled: false }, &entries);
    assert_eq!(
        lines,
        vec![
            "Workspaces".to_string(),
            format!("  {:<24} {:<12} /w/alpha", "alpha", "12 repos"),
            format!("  {:<24} {:<12} /w/zeta", "zeta", "1 repo"),
        ]
    );
    assert_eq!(
        render_listing(&Theme { enabled: false }, &[]),
        vec!["No workspaces found. Create one with `casa new <project> <owner/repo>`.".to_string()]
    );
}

// The palette and the help.

#[test]
fn painting_wraps_text_in_a_colour_and_a_reset() {
    let on = Theme { enabled: true };
    let off = Theme { enabled: false };
    assert_eq!(on.blue("x"), "\u{1b}[38;2;141;211;247mx\u{1b}[0m");
    assert_eq!(on.pink("x"), "\u{1b}[38;2;245;194;231mx\u{1b}[0m");
    assert_eq!(on.yellow("x"), "\u{1b}[38;2;249;226;175mx\u{1b}[0m");
    assert_eq!(on.paint("1;2;3", "v"), "\u{1b}[38;2;1;2;3mv\u{1b}[0m");
    assert_eq!(on.banner_letter("v", "1;2;3"), "\u{1b}[38;2;1;2;3mv\u{1b}[0m");
    assert_eq!(off.blue("x"), "x");
}

#[test]
fn paths_are_quoted_for_the_shell() {
    assert_eq!(shell_quote("/w/demo"), "'/w/demo'");
    assert_eq!(shell_quote("it's"), "'it'\\''s'");
    assert_eq!(shell_quote(""), "''");
}

#[test]
fn help_lines_pad_the_invocation() {
    let off = Theme { enabled: false };
    assert_eq!(
        render_help_line(&off, "casa ls", "List"),
        format!("  {:<34} List", "casa ls")
    );
    let help = render_help(&off);
    assert_eq!(help.len(), 13);
    assert_eq!(help[0], "casa - AI-assisted project workspaces");
    assert_eq!(help[6], format!("  {:<34} List workspaces in ~/.aicasa", "casa ls"));
}

// The command line.

#[test]
fn commands_are_named_by_the_first_argument() {
    assert_eq!(parse_command(&[]).unwrap(), Command::Help);
    assert_eq!(parse_command(&strings(&["new", "x"])).unwrap(), Command::New);
    assert_eq!(parse_command(&strings(&["add"])).unwrap(), Command::Add);
    assert_eq!(parse_command(&strings(&["rm"])).unwrap(), Command::Remove);
    assert_eq!(parse_command(&strings(&["ls"])).unwrap(), Command::List);
    assert_eq!(parse_command(&strings(&["inspect"])).unwrap(), Command::Inspect);
    for help in ["help", "--help", "-h"] {
        assert_eq!(parse_command(&strings(&[help])).unwrap(), Command::Help);
    }
    for version in ["--version", "-V"] {
        assert_eq!(parse_command(&strings(&[version])).unwrap(), Command::Version);
    }
    assert_eq!(
        parse_command(&strings(&["frobnicate"])).unwrap_err(),
        "unknown command `frobnicate`. Run `casa --help` for usage."
    );
}

#[test]
fn flags_are_taken_once() {
    let mut args = strings(&["a", "--print-path", "b", "--print-path"]);
    assert!(take_flag(&mut args, "--print-path"));
    assert_eq!(args, strings(&["a", "b", "--print-path"]));
    let mut args = strings(&["a"]);
    assert!(!take_flag(&mut args, "--print-path"));
    assert_eq!(args, strings(&["a"]));
}

#[test]
fn new_needs_a_name_and_repositories() {
    assert_eq!(
        command_new(&strings(&["demo"])).unwrap_err(),
        "usage: casa new <project> <owner/repo[,owner/repo...] | git-url...>"
    );
    assert_eq!(
        command_new(&strings(&["demo", "--print-path"])).unwrap_err(),
        "usage: casa new <project> <owner/repo[,owner/repo...] | git-url...>"
    );
    assert!(command_new(&strings(&["../x", "a/b"])).is_err());
    let request = command_new(&strings(&["--print-path", "demo", "a/b,c/d"])).unwrap();
    assert_eq!(request.project, "demo");
    assert!(request.print_path);
    assert_eq!(request.repositories.len(), 2);
    let request = command_new(&strings(&["demo", "a/b"])).unwrap();
    assert!(!request.print_path);
}

fn observed(named_is_dir: bool, current: Option<&str>) -> Result<WorkspaceObservations, String> {
    Ok(WorkspaceObservations { named_is_dir, current_workspace: current.map(str::to_string) })
}

#[test]
fn add_targets_a_named_or_the_current_workspace() {
    assert_eq!(
        command_add(&[], observed(true, None)).unwrap_err(),
        "usage: casa add [<project>] <owner/repo[,owner/repo...] | git-url...>"
    );
    let request = command_add(&strings(&["demo", "a/b"]), observed(true, None)).unwrap();
    assert_eq!(request.target, WorkspaceTarget::Named("demo".into()));
    assert_eq!(request.repositories, vec![repository("https://github.com/a/b.git", "b")]);
    let request = command_add(&strings(&["a/b"]), observed(false, Some("/w/demo"))).unwrap();
    assert_eq!(request.target, WorkspaceTarget::Current("/w/demo".into()));
    assert_eq!(
        command_add(&strings(&["demo", "a/b"]), observed(false, Some("/w/x"))).unwrap_err(),
        "workspace `demo` does not exist."
    );
    assert_eq!(
        command_add(&strings(&["a/b"]), observed(false, None)).unwrap_err(),
        "outside an casa workspace, specify the target: `casa add <project> <owner/repo>`."
    );
    assert_eq!(command_add(&strings(&["a/b"]), Err("no home".into())).unwrap_err(), "no home");
    let (target, start) = find_add_target(&strings(&["a/b", "c/d"]), false, Some("/w/x".into())).unwrap();
    assert_eq!(target, WorkspaceTarget::Current("/w/x".into()));
    assert_eq!(start, 0);
}

#[test]
fn rm_ls_and_inspect_check_their_arguments() {
    assert_eq!(command_rm(&[]).unwrap_err(), "usage: casa rm <project> [project...]");
    assert!(command_rm(&strings(&["demo", "../x"])).is_err());
    assert!(command_rm(&strings(&["demo", "other"])).is_ok());
    assert!(command_ls(&[]).is_ok());
    assert_eq!(command_ls(&strings(&["x"])).unwrap_err(), "usage: casa ls");
    assert_eq!(
        command_inspect(&[], observed(false, Some("/w/demo"))).unwrap(),
        WorkspaceTarget::Current("/w/demo".into())
    );
    assert_eq!(
        command_inspect(&[], observed(false, None)).unwrap_err(),
        "outside an casa workspace, specify the target: `casa inspect <project>`."
    );
    assert_eq!(
        command_inspect(&strings(&["demo"]), observed(true, None)).unwrap(),
        WorkspaceTarget::Named("demo".into())
    );
    assert_eq!(
        command_inspect(&strings(&["demo"]), observed(false, None)).unwrap_err(),
        "workspace `demo` does not exist."
    );
    assert_eq!(
        command_inspect(&strings(&["a", "b"]), observed(true, None)).unwrap_err(),
        "usage: casa inspect [<project>]"
    );
}

#[test]
fn branches_fall_back_to_an_orphan_checkout() {
    assert_eq!(next_branch_step(BranchStep::Switch, true), BranchStep::Created);
    assert_eq!(next_branch_step(BranchStep::Switch, false), BranchStep::Orphan);
    assert_eq!(next_branch_step(BranchStep::Orphan, true), BranchStep::Created);
    assert_eq!(next_branch_step(BranchStep::Orphan, false), BranchStep::Failed);
    assert_eq!(next_branch_step(BranchStep::Failed, true), BranchStep::Failed);
    assert_eq!(branch_failure(), "git could not create the requested branch.");
}

#[test]
fn equal_names_keep_their_order_in_listings() {
    let entries = sort_project_entries(vec![
        ProjectEntry { name: "b".into(), path: "/1".into(), repositories: 0 },
        ProjectEntry { name: "a".into(), path: "/2".into(), repositories: 0 },
        ProjectEntry { name: "b".into(), path: "/3".into(), repositories: 0 },
        ProjectEntry { name: "a".into(), path: "/4".into(), repositories: 0 },
    ]);
    let paths: Vec<&str> = entries.iter().map(|entry| entry.path.as_str()).collect();
    assert_eq!(paths, vec!["/2", "/4", "/1", "/3"]);
}

#[test]
fn new_reports_the_workspace_and_how_to_enter_it() {
    let off = Theme { enabled: false };
    let report = new_workspace_report(&off, "/w/it's", false);
    assert_eq!(
        report.stdout,
        vec![
            "Workspace ready: /w/it's".to_string(),
            "Enter it with: cd '/w/it'\\''s'".to_string(),
        ]
    );
    assert!(report.stderr.is_empty());
    let report = new_workspace_report(&off, "/w/demo", true);
    assert_eq!(report.stdout, vec!["/w/demo".to_string()]);
    assert!(report.stderr.is_empty());
    assert_eq!(status_stream(true), Stream::Stderr);
    assert_eq!(status_stream(false), Stream::Stdout);
    let on = Theme { enabled: true };
    let report = new_workspace_report(&on, "/w", false);
    assert_eq!(
        report.stdout[1],
        "Enter it with: \u{1b}[38;2;141;211;247mcd '/w'\u{1b}[0m"
    );
}

#[test]
fn status_lines_name_what_happens() {
    let off = Theme { enabled: false };
    assert_eq!(created_workspace_line(&off, "/w/demo"), "Created workspace /w/demo");
    assert_eq!(updated_workspace_line(&off, "/w/demo"), "Updated workspace: /w/demo");
    assert_eq!(moved_to_trash_line(&off, "/t/demo"), "Moved to Trash: /t/demo");
    assert_eq!(
        render_cloning_line(&off, "https://x/a.git", "/w/demo", "a"),
        "Cloning https://x/a.git into /w/demo/a"
    );
    assert_eq!(error_line(&off, "boom"), "error: boom");
    let on = Theme { enabled: true };
    assert_eq!(error_line(&on, "boom"), "\u{1b}[38;2;245;194;231merror: boom\u{1b}[0m");
}

#[test]
fn clones_stop_at_the_first_failure() {
    let rs = vec![repository("s1", "a"), repository("s2", "b")];
    let branch = Some("demo".to_string());
    assert_eq!(first_clone_action(&rs), CloneAction::Clone(0));
    assert_eq!(first_clone_action(&[]), CloneAction::Done);
    let step = |last: CloneAction, branch: &Option<String>, outcome: Result<bool, String>| {
        next_clone_action(&rs, "/w/demo", branch, &last, outcome)
    };
    assert_eq!(step(CloneAction::Clone(0), &branch, Ok(true)), CloneAction::CreateBranch(0));
    assert_eq!(step(CloneAction::Clone(0), &None, Ok(true)), CloneAction::Record(0));
    assert_eq!(step(CloneAction::CreateBranch(0), &branch, Ok(true)), CloneAction::Record(0));
    assert_eq!(step(CloneAction::Record(0), &branch, Ok(true)), CloneAction::Clone(1));
    assert_eq!(step(CloneAction::Record(1), &branch, Ok(true)), CloneAction::Done);
    assert_eq!(
        step(CloneAction::Clone(1), &branch, Ok(false)),
        CloneAction::Fail("clone failed for `s2`; workspace remains at `/w/demo`.".into())
    );
    assert_eq!(
        step(CloneAction::Clone(0), &branch, Err("no git".into())),
        CloneAction::Fail("could not execute `git clone`: no git".into())
    );
    assert_eq!(
        step(CloneAction::CreateBranch(0), &branch, Err("bad".into())),
        CloneAction::Fail("cloned `s1` but could not create branch `demo`: bad".into())
    );
    assert_eq!(
        step(CloneAction::Record(1), &branch, Err("disk".into())),
        CloneAction::Fail("cloned `s2` but could not update workspace metadata: disk".into())
    );
    assert_eq!(step(CloneAction::Done, &branch, Ok(false)), CloneAction::Done);
    assert_eq!(
        branch_run_error(BranchStep::Switch, "x"),
        "could not execute `git switch -c`: x"
    );
    assert_eq!(
        branch_run_error(BranchStep::Orphan, "x"),
        "could not execute `git checkout --orphan`: x"
    );
}

#[test]
fn locations_fall_back_to_the_home_directory() {
    assert_eq!(workspace_root(true, false).unwrap(), Location::Configured);
    assert_eq!(workspace_root(false, true).unwrap(), Location::UnderHome(".aicasa".into()));
    assert_eq!(
        workspace_root(false, false).unwrap_err(),
        "could not find the home directory; set `HOME` or `AICASA_ROOT`."
    );
    assert_eq!(trash_directory(true, false, false).unwrap(), Location::Configured);
    assert_eq!(trash_directory(false, true, true).unwrap(), Location::UnderHome(".Trash".into()));
    assert_eq!(
        trash_directory(false, true, false).unwrap(),
        Location::UnderHome(".local/share/Trash/files".into())
    );
    assert!(trash_directory(false, false, true).is_err());
}

#[test]
fn joined_arguments_parse_like_separate_ones() {
    let separate = parse_repositories(&strings(&["a/b", " c/d ,e/f"])).unwrap();
    let joined = parse_repositories(&strings(&["a/b, c/d ,e/f"])).unwrap();
    assert_eq!(separate, joined);
}

#[test]
fn new_metadata_validates_under_any_root() {
    for root in ["", "/", "/w", "/w/", "rel/dir"] {
        let path = join_path_str(root, "demo");
        assert!(validate_workspace_metadata(&path, &WorkspaceMetadata::empty("demo")).is_ok(), "{root}");
    }
}
