# omado

A todo manager: a GTK window, a status-bar module, a tray icon and a few
command-line modes over one plain-text todo file.

- `src/` is the verified library (Verus): the todo file format
  (`todo.rs`), the window state with its filters, search and project list
  (`state.rs`), the status-bar and tray texts (`status.rs`), small window
  decisions (`ui.rs`), the command line (`cli.rs`) and the string helpers
  they share (`text.rs`). The main laws are in `todo.rs`: saving todos and
  reading the file back gives the same todos, for todos that a line can
  hold (no line break in the task, no `\r` at its end, a project made of
  letters, digits, `_` and `-`, and no project-like prefix in a task
  without a project).
- `app/` is the program around it: GTK/libadwaita widgets, the ksni tray
  service, the file and the environment.
- `tests/` runs the library on concrete values.
