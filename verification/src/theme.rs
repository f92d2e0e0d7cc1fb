//! The terminal palette: painting text in pastel colours, the banner,
//! quoting a path for the shell, and the lines of help and listings.

use vstd::prelude::*;
use vstd::string::*;

use crate::text::{
    chars_of, decimal, pad_right, push_decimal, push_padded, push_replacing, replace_char,
};

verus! {

/// Pastel blue, as a 24-bit SGR colour.
pub const BLUE: &'static str = "141;211;247";

/// Pastel pink, as a 24-bit SGR colour.
pub const PINK: &'static str = "245;194;231";

/// Pastel yellow, as a 24-bit SGR colour.
pub const YELLOW: &'static str = "249;226;175";

/// The program's name, as its messages call it.
pub const PROGRAM_NAME: &'static str = "casa";

/// Whether output is painted.
#[derive(Clone, Copy)]
pub struct Theme {
    pub enabled: bool,
}

/// `value` painted in `color` when painting is enabled, else `value`.
pub open spec fn painted(enabled: bool, color: Seq<char>, value: Seq<char>) -> Seq<char> {
    if enabled {
        "\u{1b}[38;2;"@ + color + "m"@ + value + "\u{1b}[0m"@
    } else {
        value
    }
}

impl Theme {
    /// `value` painted in `color`: wrapped in a 24-bit foreground colour
    /// and a reset when the theme is enabled, else unchanged.
    pub fn paint(&self, color: &str, value: &str) -> (res: String)
        ensures
            res@ == painted(self.enabled, color@, value@),
    {
        if self.enabled {
            let mut out = "\u{1b}[38;2;".to_owned();
            out.append(color);
            out.append("m");
            out.append(value);
            out.append("\u{1b}[0m");
            out
        } else {
            value.to_owned()
        }
    }

    /// `value` in pastel blue.
    pub fn blue(&self, value: &str) -> (res: String)
        ensures
            res@ == painted(self.enabled, BLUE@, value@),
    {
        self.paint(BLUE, value)
    }

    /// `value` in pastel pink.
    pub fn pink(&self, value: &str) -> (res: String)
        ensures
            res@ == painted(self.enabled, PINK@, value@),
    {
        self.paint(PINK, value)
    }

    /// `value` in pastel yellow.
    pub fn yellow(&self, value: &str) -> (res: String)
        ensures
            res@ == painted(self.enabled, YELLOW@, value@),
    {
        self.paint(YELLOW, value)
    }

    /// One glyph of the banner, painted in `color`.
    pub fn banner_letter(&self, value: &str, color: &str) -> (res: String)
        ensures
            res@ == painted(self.enabled, color@, value@),
    {
        self.paint(color, value)
    }
}

/// The colour of banner letter `letter`: blue, pink and yellow in turn.
pub open spec fn banner_color(letter: int) -> Seq<char> {
    if letter % 3 == 0 {
        BLUE@
    } else if letter % 3 == 1 {
        PINK@
    } else {
        YELLOW@
    }
}

fn banner_color_str(letter: usize) -> (res: &'static str)
    ensures
        res@ == banner_color(letter as int),
{
    if letter % 3 == 0 {
        BLUE
    } else if letter % 3 == 1 {
        PINK
    } else {
        YELLOW
    }
}

/// The glyph of banner letter `letter` in row `row`.
pub open spec fn banner_glyph(letter: int, row: int) -> Seq<char> {
    if letter == 0 && row == 0 {
        " █████╗ "@
    } else if letter == 0 && row == 1 {
        "██╔══██╗"@
    } else if letter == 0 && row == 2 {
        "███████║"@
    } else if letter == 0 && row == 3 {
        "██╔══██║"@
    } else if letter == 0 && row == 4 {
        "██║  ██║"@
    } else if letter == 0 && row == 5 {
        "╚═╝  ╚═╝"@
    } else if letter == 1 && row == 0 {
        "██╗"@
    } else if letter == 1 && row == 1 {
        "██║"@
    } else if letter == 1 && row == 2 {
        "██║"@
    } else if letter == 1 && row == 3 {
        "██║"@
    } else if letter == 1 && row == 4 {
        "██║"@
    } else if letter == 1 && row == 5 {
        "╚═╝"@
    } else if letter == 2 && row == 0 {
        " ██████╗"@
    } else if letter == 2 && row == 1 {
        "██╔════╝"@
    } else if letter == 2 && row == 2 {
        "██║     "@
    } else if letter == 2 && row == 3 {
        "██║     "@
    } else if letter == 2 && row == 4 {
        "╚██████╗"@
    } else if letter == 2 && row == 5 {
        " ╚═════╝"@
    } else if letter == 3 && row == 0 {
        " █████╗ "@
    } else if letter == 3 && row == 1 {
        "██╔══██╗"@
    } else if letter == 3 && row == 2 {
        "███████║"@
    } else if letter == 3 && row == 3 {
        "██╔══██║"@
    } else if letter == 3 && row == 4 {
        "██║  ██║"@
    } else if letter == 3 && row == 5 {
        "╚═╝  ╚═╝"@
    } else if letter == 4 && row == 0 {
        "███████╗"@
    } else if letter == 4 && row == 1 {
        "██╔════╝"@
    } else if letter == 4 && row == 2 {
        "███████╗"@
    } else if letter == 4 && row == 3 {
        "╚════██║"@
    } else if letter == 4 && row == 4 {
        "███████║"@
    } else if letter == 4 && row == 5 {
        "╚══════╝"@
    } else if letter == 5 && row == 0 {
        " █████╗ "@
    } else if letter == 5 && row == 1 {
        "██╔══██╗"@
    } else if letter == 5 && row == 2 {
        "███████║"@
    } else if letter == 5 && row == 3 {
        "██╔══██║"@
    } else if letter == 5 && row == 4 {
        "██║  ██║"@
    } else if letter == 5 && row == 5 {
        "╚═╝  ╚═╝"@
    } else if letter == 6 && row == 0 {
        " █████╗ "@
    } else if letter == 6 && row == 1 {
        "██╔══██╗"@
    } else if letter == 6 && row == 2 {
        "██║  ╚═╝"@
    } else if letter == 6 && row == 3 {
        "██║  ██╗"@
    } else if letter == 6 && row == 4 {
        "╚█████╔╝"@
    } else if letter == 6 && row == 5 {
        " ╚════╝ "@
    } else {
        Seq::empty()
    }
}

/// The glyph of banner letter `letter` in row `row`.
fn banner_glyph_str(letter: usize, row: usize) -> (res: &'static str)
    requires
        letter < 7,
        row < 6,
    ensures
        res@ == banner_glyph(letter as int, row as int),
{
    if letter == 0 && row == 0 {
        " █████╗ "
    } else if letter == 0 && row == 1 {
        "██╔══██╗"
    } else if letter == 0 && row == 2 {
        "███████║"
    } else if letter == 0 && row == 3 {
        "██╔══██║"
    } else if letter == 0 && row == 4 {
        "██║  ██║"
    } else if letter == 0 && row == 5 {
        "╚═╝  ╚═╝"
    } else if letter == 1 && row == 0 {
        "██╗"
    } else if letter == 1 && row == 1 {
        "██║"
    } else if letter == 1 && row == 2 {
        "██║"
    } else if letter == 1 && row == 3 {
        "██║"
    } else if letter == 1 && row == 4 {
        "██║"
    } else if letter == 1 && row == 5 {
        "╚═╝"
    } else if letter == 2 && row == 0 {
        " ██████╗"
    } else if letter == 2 && row == 1 {
        "██╔════╝"
    } else if letter == 2 && row == 2 {
        "██║     "
    } else if letter == 2 && row == 3 {
        "██║     "
    } else if letter == 2 && row == 4 {
        "╚██████╗"
    } else if letter == 2 && row == 5 {
        " ╚═════╝"
    } else if letter == 3 && row == 0 {
        " █████╗ "
    } else if letter == 3 && row == 1 {
        "██╔══██╗"
    } else if letter == 3 && row == 2 {
        "███████║"
    } else if letter == 3 && row == 3 {
        "██╔══██║"
    } else if letter == 3 && row == 4 {
        "██║  ██║"
    } else if letter == 3 && row == 5 {
        "╚═╝  ╚═╝"
    } else if letter == 4 && row == 0 {
        "███████╗"
    } else if letter == 4 && row == 1 {
        "██╔════╝"
    } else if letter == 4 && row == 2 {
        "███████╗"
    } else if letter == 4 && row == 3 {
        "╚════██║"
    } else if letter == 4 && row == 4 {
        "███████║"
    } else if letter == 4 && row == 5 {
        "╚══════╝"
    } else if letter == 5 && row == 0 {
        " █████╗ "
    } else if letter == 5 && row == 1 {
        "██╔══██╗"
    } else if letter == 5 && row == 2 {
        "███████║"
    } else if letter == 5 && row == 3 {
        "██╔══██║"
    } else if letter == 5 && row == 4 {
        "██║  ██║"
    } else if letter == 5 && row == 5 {
        "╚═╝  ╚═╝"
    } else if letter == 6 && row == 0 {
        " █████╗ "
    } else if letter == 6 && row == 1 {
        "██╔══██╗"
    } else if letter == 6 && row == 2 {
        "██║  ╚═╝"
    } else if letter == 6 && row == 3 {
        "██║  ██╗"
    } else if letter == 6 && row == 4 {
        "╚█████╔╝"
    } else if letter == 6 && row == 5 {
        " ╚════╝ "
    } else {
        " ╚════╝ "
    }
}

/// The first `count` letters of banner row `row`, each painted.
pub open spec fn banner_row(enabled: bool, row: int, count: int) -> Seq<char>
    decreases count,
{
    if count <= 0 {
        Seq::empty()
    } else {
        banner_row(enabled, row, count - 1) + painted(enabled, banner_color(count - 1), banner_glyph(count - 1, row))
    }
}

/// The first `rows` rows of the banner, each ended by a newline.
pub open spec fn banner(enabled: bool, rows: int) -> Seq<char>
    decreases rows,
{
    if rows <= 0 {
        Seq::empty()
    } else {
        banner(enabled, rows - 1) + banner_row(enabled, rows - 1, 7) + "\n"@
    }
}

/// The `aicasa` banner: six rows of seven block letters, each letter
/// painted blue, pink or yellow in turn.
pub fn render_banner(theme: &Theme) -> (res: String)
    ensures
        res@ == banner(theme.enabled, 6),
{
    let mut out = String::new();
    for row in 0..6usize
        invariant
            out@ == banner(theme.enabled, row as int),
    {
        for letter in 0..7usize
            invariant
                row < 6,
                out@ == banner(theme.enabled, row as int) + banner_row(theme.enabled, row as int, letter as int),
        {
            let painted_letter = theme.banner_letter(banner_glyph_str(letter, row), banner_color_str(letter));
            let ghost before = out@;
            out.append(painted_letter.as_str());
            assert(out@ == banner(theme.enabled, row as int) + banner_row(theme.enabled, row as int, letter + 1));
        }
        out.append("\n");
    }
    out
}

/// `path` in single quotes for a POSIX shell, each quote inside written as
/// `'\''`.
pub open spec fn shell_quoted(path: Seq<char>) -> Seq<char> {
    "'"@ + replace_char(path, '\'', "'\\''"@) + "'"@
}

/// How a POSIX shell reads a word made of single-quoted parts, characters
/// escaped by a backslash and plain characters (`quoted` while inside
/// single quotes); `None` where a quote or an escape is left open.
pub open spec fn shell_read(s: Seq<char>, quoted: bool) -> Option<Seq<char>>
    decreases s.len(),
{
    if s.len() == 0 {
        if quoted {
            None
        } else {
            Some(Seq::empty())
        }
    } else if quoted {
        if s[0] == '\'' {
            shell_read(s.drop_first(), false)
        } else {
            match shell_read(s.drop_first(), true) {
                Some(r) => Some(seq![s[0]] + r),
                None => None,
            }
        }
    } else if s[0] == '\'' {
        shell_read(s.drop_first(), true)
    } else if s[0] == '\\' {
        if s.len() < 2 {
            None
        } else {
            match shell_read(s.skip(2), false) {
                Some(r) => Some(seq![s[1]] + r),
                None => None,
            }
        }
    } else {
        match shell_read(s.drop_first(), false) {
            Some(r) => Some(seq![s[0]] + r),
            None => None,
        }
    }
}

proof fn lemma_replace_char_prepend(c: char, x: Seq<char>, q: char, r: Seq<char>)
    ensures
        replace_char(seq![c] + x, q, r) == replace_char(seq![c], q, r) + replace_char(x, q, r),
    decreases x.len(),
{
    if x.len() == 0 {
        assert(seq![c] + x == seq![c]);
        assert(replace_char(x, q, r) == Seq::<char>::empty());
        assert(replace_char(seq![c], q, r) + Seq::<char>::empty() == replace_char(seq![c], q, r));
    } else {
        lemma_replace_char_prepend(c, x.drop_last(), q, r);
        assert((seq![c] + x).drop_last() == seq![c] + x.drop_last());
        assert((seq![c] + x).last() == x.last());
        let tail = if x.last() == q {
            r
        } else {
            seq![x.last()]
        };
        assert(replace_char(seq![c], q, r) + replace_char(x.drop_last(), q, r) + tail
            == replace_char(seq![c], q, r) + (replace_char(x.drop_last(), q, r) + tail));
    }
}

proof fn lemma_shell_read_quoted_body(x: Seq<char>, rest: Seq<char>)
    ensures
        shell_read(replace_char(x, '\'', "'\\''"@) + rest, true) == match shell_read(rest, true) {
            Some(r) => Some(x + r),
            None => None::<Seq<char>>,
        },
    decreases x.len(),
{
    reveal_strlit("'\\''");
    if x.len() == 0 {
        assert(replace_char(x, '\'', "'\\''"@) == Seq::<char>::empty());
        assert(Seq::<char>::empty() + rest == rest);
        if let Some(r) = shell_read(rest, true) {
            assert(x + r == r);
        }
    } else {
        let c = x[0];
        let t = x.drop_first();
        assert(x == seq![c] + t);
        lemma_replace_char_prepend(c, t, '\'', "'\\''"@);
        lemma_shell_read_quoted_body(t, rest);
        assert(seq![c].drop_last() =~= Seq::<char>::empty());
        assert(replace_char(seq![c].drop_last(), '\'', "'\\''"@) =~= Seq::<char>::empty());
        assert(seq![c].last() == c);
        let head = replace_char(seq![c], '\'', "'\\''"@);
        let body = replace_char(t, '\'', "'\\''"@) + rest;
        assert(replace_char(x, '\'', "'\\''"@) + rest == head + body);
        let s0 = head + body;
        if c == '\'' {
            assert(head =~= Seq::<char>::empty() + "'\\''"@);
            assert(head == "'\\''"@);
            let s1 = s0.drop_first();
            assert(s0[0] == '\'');
            assert(shell_read(s0, true) == shell_read(s1, false));
            assert(s1 == seq!['\\', '\'', '\''] + body);
            assert(s1[0] == '\\' && s1[1] == '\'');
            let s2 = s1.skip(2);
            assert(s2 == seq!['\''] + body);
            assert(shell_read(s1, false) == match shell_read(s2, false) {
                Some(r) => Some(seq!['\''] + r),
                None => None::<Seq<char>>,
            });
            assert(s2[0] == '\'');
            assert(s2.drop_first() == body);
            assert(shell_read(s2, false) == shell_read(body, true));
        } else {
            assert(head =~= Seq::<char>::empty() + seq![c]);
            assert(head == seq![c]);
            assert(s0[0] == c);
            assert(s0.drop_first() == body);
            assert(shell_read(s0, true) == match shell_read(body, true) {
                Some(r) => Some(seq![c] + r),
                None => None::<Seq<char>>,
            });
        }
        if let Some(r) = shell_read(rest, true) {
            assert(seq![c] + (t + r) == x + r);
        }
    }
}

/// A POSIX shell reads a quoted path back as the path itself.
pub proof fn lemma_shell_quote_reads_back(path: Seq<char>)
    ensures
        shell_read(shell_quoted(path), false) == Some(path),
{
    reveal_strlit("'");
    let body = replace_char(path, '\'', "'\\''"@);
    lemma_shell_read_quoted_body(path, "'"@);
    assert(shell_quoted(path) == seq!['\''] + (body + "'"@));
    assert((seq!['\''] + (body + "'"@)).drop_first() == body + "'"@);
    assert(("'"@).drop_first() =~= Seq::<char>::empty());
    assert(("'"@)[0] == '\'');
    assert(shell_read(Seq::<char>::empty(), false) == Some(Seq::<char>::empty()));
    assert(shell_read("'"@, true) == Some(Seq::<char>::empty()));
    assert(path + Seq::<char>::empty() == path);
}

/// `path` quoted for a POSIX shell.
pub fn shell_quote(path: &str) -> (res: String)
    ensures
        res@ == shell_quoted(path@),
{
    let p = chars_of(path);
    let mut out = "'".to_owned();
    push_replacing(&mut out, &p, '\'', "'\\''");
    out.append("'");
    out
}

/// One line of the help: an invocation padded to 34 characters in blue,
/// then its description.
pub open spec fn help_line(enabled: bool, invocation: Seq<char>, description: Seq<char>) -> Seq<char> {
    "  "@ + painted(enabled, BLUE@, pad_right(invocation, 34)) + " "@ + description
}

/// One line of the help.
pub fn render_help_line(theme: &Theme, invocation: &str, description: &str) -> (res: String)
    ensures
        res@ == help_line(theme.enabled, invocation@, description@),
{
    let mut padded = String::new();
    let inv = chars_of(invocation);
    push_padded(&mut padded, &inv, 34);
    assert(padded@ == pad_right(invocation@, 34));
    let mut out = "  ".to_owned();
    let blue = theme.blue(padded.as_str());
    out.append(blue.as_str());
    out.append(" ");
    out.append(description);
    out
}

/// The lines of the help, after the banner.
pub open spec fn help_lines(enabled: bool) -> Seq<Seq<char>> {
    seq![
        painted(enabled, PINK@, "casa - AI-assisted project workspaces"@),
        Seq::empty(),
        painted(enabled, YELLOW@, "Usage"@),
        help_line(enabled, "casa new <project> <repos>"@, "Create a workspace and clone repositories"@),
        help_line(enabled, "casa add [project] <repos>"@, "Clone more repositories into a workspace"@),
        help_line(enabled, "casa rm <project> [project...]"@, "Move workspaces to the Trash"@),
        help_line(enabled, "casa ls"@, "List workspaces in ~/.aicasa"@),
        help_line(enabled, "casa inspect [project]"@, "Print machine-readable workspace metadata"@),
        Seq::empty(),
        painted(enabled, YELLOW@, "Examples"@),
        "  casa new new-project paradise-runner/toast,paradise-runner/kaleidoscope"@,
        "  casa add new-project paradise-runner/another-repo"@,
        "  casa inspect new-project"@,
    ]
}

/// The lines of the help that follow the banner.
pub fn render_help(theme: &Theme) -> (res: Vec<String>)
    ensures
        crate::text::string_views(res@) == help_lines(theme.enabled),
{
    let mut lines: Vec<String> = Vec::new();
    lines.push(theme.pink("casa - AI-assisted project workspaces"));
    lines.push(String::new());
    lines.push(theme.yellow("Usage"));
    lines.push(render_help_line(theme, "casa new <project> <repos>", "Create a workspace and clone repositories"));
    lines.push(render_help_line(theme, "casa add [project] <repos>", "Clone more repositories into a workspace"));
    lines.push(render_help_line(theme, "casa rm <project> [project...]", "Move workspaces to the Trash"));
    lines.push(render_help_line(theme, "casa ls", "List workspaces in ~/.aicasa"));
    lines.push(render_help_line(theme, "casa inspect [project]", "Print machine-readable workspace metadata"));
    lines.push(String::new());
    lines.push(theme.yellow("Examples"));
    lines.push("  casa new new-project paradise-runner/toast,paradise-runner/kaleidoscope".to_owned());
    lines.push("  casa add new-project paradise-runner/another-repo".to_owned());
    lines.push("  casa inspect new-project".to_owned());
    assert(crate::text::string_views(lines@) =~= help_lines(theme.enabled));
    lines
}

} // verus!
