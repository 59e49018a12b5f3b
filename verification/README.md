# editor

The rules of the Revy scene editor as a library verified with Verus.

- `src/` is the library, verified by Verus: the project manager's
  recent-project list, its window state and dialogs, the project
  settings window and the line-preserving update of `project.toml`,
  scene selection and workspaces, pointer ownership in the viewport,
  the scene document and its undo history, and the scan of a
  project's Rust sources for components, systems and entity scripts.
  Calls into `toml_edit`, `syn` and parts of `std` go through small
  trusted items whose contracts are written next to them. Path rules
  (joining, absolute paths, components, equality) are std's, for the
  platform the library is built for; folders are compared by the
  Windows rules where its path separator is `\`. Where an
  answer comes from the disk or the clock (whether a folder exists, the
  current time), the paths handed to the disk are made by verified
  functions with exact contracts, the function states what holds
  whatever the answer is, and a verified function that takes that
  answer as an argument states the exact result.
- `app/` holds what the library leaves to its caller: reading and writing
  files, folder pickers and the file manager, starting the editor on a
  project, and the floating-point 2D snapping of the viewport.
- `tests/` runs the library on concrete values.

Laws that span several functions are public proof functions named
`lemma_*`, each with a doc comment stating the law.
