//! What `casa` reports while it works: the stream its status lines go to,
//! the status lines themselves, and the closing report of `casa new`.

use vstd::prelude::*;
use vstd::string::*;

use crate::paths::{join_path, join_path_str};
use crate::theme::{painted, shell_quote, shell_quoted, Theme, BLUE, PINK, YELLOW};

verus! {

/// An output stream.
#[derive(Debug, Clone, Copy, PartialEq, Eq, Structural)]
pub enum Stream {
    Stdout,
    Stderr,
}

/// Where status lines go: to standard error when `casa new --print-path`
/// keeps standard output for the workspace's path alone, else to
/// standard output.
pub fn status_stream(print_path: bool) -> (res: Stream)
    ensures
        res == (if print_path {
            Stream::Stderr
        } else {
            Stream::Stdout
        }),
{
    if print_path {
        Stream::Stderr
    } else {
        Stream::Stdout
    }
}

/// A status line: a coloured label, then a value in blue.
pub open spec fn labelled(enabled: bool, color: Seq<char>, label: Seq<char>, value: Seq<char>) -> Seq<char> {
    painted(enabled, color, label) + " "@ + painted(enabled, BLUE@, value)
}

fn labelled_line(theme: &Theme, color: &str, label: &str, value: &str) -> (res: String)
    ensures
        res@ == labelled(theme.enabled, color@, label@, value@),
{
    let mut out = theme.paint(color, label);
    out.append(" ");
    out.append(theme.blue(value).as_str());
    out
}

/// `Created workspace <path>`.
pub fn created_workspace_line(theme: &Theme, path: &str) -> (res: String)
    ensures
        res@ == labelled(theme.enabled, PINK@, "Created workspace"@, path@),
{
    labelled_line(theme, PINK, "Created workspace", path)
}

/// `Updated workspace: <path>`.
pub fn updated_workspace_line(theme: &Theme, path: &str) -> (res: String)
    ensures
        res@ == labelled(theme.enabled, YELLOW@, "Updated workspace:"@, path@),
{
    labelled_line(theme, YELLOW, "Updated workspace:", path)
}

/// `Moved to Trash: <path>`.
pub fn moved_to_trash_line(theme: &Theme, path: &str) -> (res: String)
    ensures
        res@ == labelled(theme.enabled, PINK@, "Moved to Trash:"@, path@),
{
    labelled_line(theme, PINK, "Moved to Trash:", path)
}

/// `Cloning <source> into <destination>`, where the destination is the
/// checkout directory joined onto the workspace's path.
pub open spec fn cloning_line(enabled: bool, source: Seq<char>, project_path: Seq<char>, directory: Seq<char>) -> Seq<char> {
    painted(enabled, PINK@, "Cloning"@) + " "@ + painted(enabled, BLUE@, source) + " "@ + painted(
        enabled,
        YELLOW@,
        "into"@,
    ) + " "@ + join_path(project_path, directory)
}

/// The status line before a repository is cloned.
pub fn render_cloning_line(theme: &Theme, source: &str, project_path: &str, directory: &str) -> (res: String)
    ensures
        res@ == cloning_line(theme.enabled, source@, project_path@, directory@),
{
    let mut out = theme.pink("Cloning");
    out.append(" ");
    out.append(theme.blue(source).as_str());
    out.append(" ");
    out.append(theme.yellow("into").as_str());
    out.append(" ");
    out.append(join_path_str(project_path, directory).as_str());
    out
}

/// The line an error is reported by: `error: <message>` in pink.
pub fn error_line(theme: &Theme, message: &str) -> (res: String)
    ensures
        res@ == painted(theme.enabled, PINK@, "error: "@ + message@),
{
    let mut text = "error: ".to_owned();
    text.append(message);
    theme.pink(text.as_str())
}

/// What `casa new` prints once the workspace is ready, line by line, to
/// standard output and to standard error.
#[derive(Debug)]
pub struct NewWorkspaceReport {
    pub stdout: Vec<String>,
    pub stderr: Vec<String>,
}

/// The closing lines of `casa new` when the workspace's path is not asked
/// for: where it is, and the `cd` command that enters it.
pub open spec fn ready_lines(enabled: bool, path: Seq<char>) -> Seq<Seq<char>> {
    seq![
        labelled(enabled, YELLOW@, "Workspace ready:"@, path),
        "Enter it with: "@ + painted(enabled, BLUE@, "cd "@ + shell_quoted(path)),
    ]
}

/// The closing report of `casa new` for the workspace at `path`: with
/// `--print-path`, standard output holds the path alone (the status lines
/// written while the workspace was made went to standard error, see
/// [`status_stream`]); otherwise standard output holds where the
/// workspace is and the `cd` command that enters it.
pub fn new_workspace_report(theme: &Theme, path: &str, print_path: bool) -> (res: NewWorkspaceReport)
    ensures
        print_path ==> crate::text::string_views(res.stdout@) == seq![path@] && res.stderr@.len() == 0,
        !print_path ==> crate::text::string_views(res.stdout@) == ready_lines(theme.enabled, path@)
            && res.stderr@.len() == 0,
{
    let mut stdout: Vec<String> = Vec::new();
    let stderr: Vec<String> = Vec::new();
    if print_path {
        stdout.push(path.to_owned());
    } else {
        stdout.push(labelled_line(theme, YELLOW, "Workspace ready:", path));
        let mut command = "cd ".to_owned();
        command.append(shell_quote(path).as_str());
        let mut hint = "Enter it with: ".to_owned();
        hint.append(theme.blue(command.as_str()).as_str());
        stdout.push(hint);
    }
    assert(crate::text::string_views(stdout@) =~= (if print_path {
        seq![path@]
    } else {
        ready_lines(theme.enabled, path@)
    }));
    NewWorkspaceReport { stdout, stderr }
}

} // verus!
