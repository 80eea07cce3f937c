# pacrid

Leftover-file reaper for Arch Linux: after pacman removes a package, find
what it left behind in the users' homes and the system directories, rate how
sure we are that each path is a leftover, let the user review, and move the
confirmed paths to the trash or a quarantine, journalled so they can be
restored.

`src/` is the library, verified with Verus:

- `confidence` — scoring a finding from its reasons, path and size.
- `scanners` — findings; `name_heuristic` (paths a package's name
  suggests), `xdg_db` (locations known for an application), `orphan_deps`.
- `review` — collapsing fully orphaned directories (`review::collapse`),
  review order, grouping by package, default selection, list labels.
- `executor` — which paths may be deleted, the steps of a deletion run (the
  journal listing a path is written before the path is moved), quarantine
  destinations, undo steps.
- `journal`, `config`, `hook`, `user_homes`, `pacman` (owned paths and
  `pacman -Q` output), `ui`, `util`, `path`, `text`.

`app/` is the `pacrid` program around it: command line, configuration and
journal files, the filesystem, pacman, the terminal and the prompts.

`tests/` runs the library on concrete values.

There is no `sweep` command: it runs a scanner for orphaned packages whose
source is not part of this project, so it was left out rather than guessed
at. The application database that the XDG scanner consults is a small table
in `app/xdg_table.rs`; the scanner itself takes its entries as plain values.
