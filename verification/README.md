# rustty

A terminal for Windows with tabs. The library under `src/` holds its rules and
data structures, each with a contract that Verus proves:

- `app`: profiles and shells, the tab strip and the workspace;
- `font`: the glyph atlas, caches, collections and grids, shaping and its memory;
- `ghostty`, `ghostty_vt`: cells, styles, events and input of the two terminal
  cores;
- `pty`: command lines, environments and the worker of the pseudo-console;
- `text`, `emoji`, `rapid`: text and hashing.

`app/` is the program around it: the window, the pseudo-console's system calls,
DirectWrite, and whatever is computed in floating point. `tests/` runs the
library.
