# branchdiff

A terminal viewer for the diff between a working tree and a git branch: a collapsible tree of the
changed files on the left, the selected file's diff on the right, unified or side by side.

`src/` is the library, written and proved in Verus. `app/` is the program around it: the command
line, `git`, the terminal, the filesystem watcher and the embedded `vim`.

| Module | What it holds |
|--------|---------------|
| `text` | strings as sequences of characters: splitting, searching, numbers, order |
| `git` | what `git` is asked, and what its answers mean |
| `diff` | unified diffs as hunks of numbered lines, and as side-by-side rows |
| `tree` | the file tree, its rows and its folders |
| `editor_model`, `editor` | the built-in modal editor, as a state machine and as code |
| `highlight`, `theme` | syntax colours, with syntect |
| `style`, `render`, `ui` | what the panels show, as styled text |
| `layout` | rectangles and the division of the screen, with ratatui |
| `key`, `pty` | input events, and keys as the bytes a terminal sends |
| `app_model`, `app` | the application, as a state machine and as code |
| `watch` | when the view is refreshed and redrawn |

The `*_laws` modules state what holds across functions: that undo takes an edit back, that every
file shows exactly once, that the selection survives a refresh, and so on.
