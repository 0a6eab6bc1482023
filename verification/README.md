# UPXTO

UPXTO compares a fresh project folder with a production folder and deploys only the files that are
new or changed. It has a command line and two panels in the terminal.

What it decides is a library whose behaviour is stated in contracts and proved with
[Verus](https://github.com/verus-lang/verus). What it reads, writes and shows is a thin program
around the library.

## Layout

`src/` is the verified library:

| Module | What it holds |
| --- | --- |
| `text` | Text as sequences of characters |
| `order` | Stable sorting by text keys |
| `path` | Paths as text: components, joining, parents, relative paths |
| `hash` | The content hash of a file |
| `error` | The reasons for which a request is refused |
| `index` | The files of a folder by relative path |
| `state` | A project: its folders and its indexes |
| `store` | The records that keep a project |
| `compare` | Which files are new, updated or missing |
| `deploy` | What to report, copy and remove |
| `walk` | Walking through a folder |
| `diff` | Side-by-side comparison of two files |
| `panel` | The two folder panels |
| `screen`, `pages` | What the screens show |
| `session` | What keys do |
| `workflow` | Indexing, backing up, copying and deploying |
| `args` | The command line |

`app/` is the program: the terminal, the file system and the SQLite database. `tests/` runs the
library on concrete values.

## Keys

| Key | Action |
| --- | --- |
| `L` | List saved projects at startup |
| `Tab` | Switch active panel |
| `Up` / `Down`, `PageUp` / `PageDown`, `Home` / `End` | Move the cursor |
| `Enter` / `Backspace` | Open the selected folder / move to the parent folder |
| `Ctrl+A` / `Ctrl+S` | Index the left folder as fresh / the right folder as production |
| `F1` / `F7` | Help / about |
| `F3` | Compare the selected file side by side |
| `F5` | Copy the selected `NEW` file to production |
| `F6` (also `F10`) | Deploy all `NEW` and `UPDATE` files |
| `F8` | Back up production |
| `F9` | Create a folder in the active panel |
| `q` / `Esc` | Quit or return |
