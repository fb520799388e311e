# git_lineage

A terminal interface for exploring the history of the files of a Git
repository line by line: a file navigator with fuzzy search, the commits that
changed the selected file, and the file's text at the selected commit, with the
cursor kept on the same line of code when the commit changes.

## Layout

- `src/` is the library, verified with Verus. Its contracts state what each
  operation does over mathematical models of the state (sequences of nodes,
  views of the panels, the file tree as a sequence of node values).
  - `tree`, `building`, `listing`, `search`, `navigator`: the file tree, how it
    is built from the repository's entries, and the navigator's browsing and
    search modes.
  - `line_mapping`, `positioning`: mapping lines between two versions of a
    file and placing the cursor after a commit switch.
  - `app`, `events`, `tasks`: the application state, the keys, and the results
    of the background worker, each a step from state to state and an effect
    for the event loop to carry out.
  - `history`: the decisions taken while the history of a file is read.
  - `display`: the text of the panels and the screen read back as text.
  - `command`, `executor`, `test_config`, `test_runner`, `screenshot`: the
    command language, configurations and scripted tests.
  - `text`, `config`, `cli`: character helpers, settings, the command line.
- `tests/` runs the library on concrete values.
- `app/` is the program: the terminal, the repository access with gix, the
  background worker on tokio, drawing with ratatui, and the JSON form of
  configurations.
