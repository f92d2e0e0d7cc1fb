# aicasa

`casa` creates named project workspaces and fills them with Git
repositories. This crate is its core, written in Verus: the rules for
names, repository arguments, paths and workspace metadata, the steps of
cloning, where the workspaces and the Trash live, and the text lines the
tool prints are functions with contracts that Verus proves. What stays outside the
proofs is the work those functions decide on: running Git, reading and
changing the file system, reading the environment, telling whether standard
output is a terminal, and turning the metadata into JSON and back with
serde.

- `src/text.rs`: character-level operations (trim, split, suffixes,
  decimal notation, code point order, sorting) and their models.
- `src/repository.rs`: `owner/repo` shorthand and clone URLs, checkout
  directories, parsing repository arguments.
- `src/paths.rs`: workspace names as single path components, the final name
  of a path, joining paths, the workspace around the current directory.
- `src/metadata.rs`: the `.aicasa.json` record, its rules, inference for
  workspaces without one, and how cloning updates it.
- `src/workspace.rs`: decisions taken from what is on disk: new and
  extended workspaces, the steps of cloning and branching, where the
  workspaces and the Trash live, inspection, the Trash, listings.
- `src/theme.rs`: the pastel palette, the banner, help lines, shell quoting.
- `src/cli.rs`: commands and their arguments.
- `src/report.rs`: status lines, the stream they go to, and the closing
  lines of `casa new`.
- `app/main.rs`: the program: environment, terminal, file system, Git and
  JSON around the library.
