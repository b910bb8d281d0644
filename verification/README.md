# redit

A terminal markdown editor. The editing core is a library verified with
Verus; a thin terminal program drives it.

## Layout

- `src/` — the verified library:
  - `text`, `textfmt`: characters, strings, clipping and padding, trimming,
    escape-sequence stripping, HTML headings;
  - `document`: the buffer of lines, its edits, reading and saving text;
  - `history`: the undo / redo history;
  - `selection`: selections and the text they cover;
  - `markdown`: the style of each character of a line, list continuation;
  - `menu`: the top bar, its menus and dropdowns;
  - `editor`: the editor state and its editing operations;
  - `commands`: keys, mouse events, menus, popups, find and replace, save
    requests;
  - `search`: finding and replacing text;
  - `layout`, `screen`, `rows`, `preview`, `ansi`: what the screen shows;
  - `code`: code files, highlighted by syntect, and plain files.
- `app/` — the terminal program: input, files, the `glow` previewer,
  drawing with ratatui.
- `tests/` — tests of the library.

Each operation of the editor states its effect on an abstract view of the
state (`EditorView`); the public `law_*` proof functions state properties
that relate several operations, such as undo restoring the state before an
edit.
