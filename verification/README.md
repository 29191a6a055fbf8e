# unrot_core

`unrot` finds symbolic links whose target no longer exists, looks through a
directory tree for files that may be the lost target (by fuzzy matching of
the file name), and lets the user relink, skip or remove each link.

This crate is the verified library behind it; `app/` is the command line
program.

- `src/fuzzy.rs`: Levenshtein distance (proved equal to the recursive
  definition, with its metric facts), the rule that decides which walked
  entries are offered as candidates, and the whole-number parts of each
  candidate's rank.
- `src/path.rs`: Unix paths held as strings, read component by component the
  way `std::path::Path` reads them (file name, parent directories, equality,
  depth below a root).
- `src/scanner.rs`: broken links and the lines of the scan's output.
- `src/resolver/`: the repair prompt's answers, confirmation, the tally of
  actions, and the step-by-step plan of filesystem operations for an action.
- `app/main.rs`: argument parsing, the `find` scan, the directory walk, the
  floating-point ranking, the terminal, and the filesystem operations the
  library plans.
