# Shapeshifter

A desktop-environment switcher and profile manager, written as a Verus
library with a thin command-line front end.

- `src/` — the verified library: the desktop-environment table and its
  rules (`desktops`), paths (`paths`), the stored records (`records`), the
  profile list (`profiles`), the store and profile grid (`display`), session
  files and restore choices (`sessions`), package jobs (`packages`), saving
  and restoring (`saving`), and the character-level text operations they rest
  on (`text`).
- `app/` — the front end: file, process and environment work, JSON storage of
  the records, tar/gzip archives, and a command line in place of the window.
- `tests/` — tests of the library.
