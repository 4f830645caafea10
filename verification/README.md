# desx

Lists installed desktop applications as `name,icon,exec` lines, for a
menu such as drmenu.

- `src/` is the verified library:
  - `text.rs`: the character-level model (Unicode whitespace, trim,
    split, words, join) and the executable helpers proved against it;
  - `field_code_regex.rs`: the field-code regex, compiled and applied by
    the regex crate, kept beside the pattern it was compiled from;
  - `exec_cleanup.rs`: field-code stripping of `Exec=` lines (split on
    the `%%` escape, field codes removed from each piece) and the
    "basename args" label;
  - `desktop_entry.rs`: the `DesktopApp` record and its scope;
  - `dedupe.rs`: merging entries that launch the same thing (User scope
    wins, ties keep the first seen, first-seen order) and name
    disambiguation, with the laws of the merge;
  - `category_filter.rs`: parsing and applying `--category` filters;
  - `args.rs`: command-line parsing;
  - `xdg.rs`: turning the fields of parsed `.desktop` entries into apps.
- `app/main.rs` walks the XDG directories with
  `freedesktop-desktop-entry`, reads the fields of each entry, resolves
  its icon with `freedesktop-icons`, classifies its directory, and prints
  the result.
- `tests/` runs the library on concrete values, `.desktop` fixtures
  included.
