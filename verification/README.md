# winfu

A command-line manager for PowerShell functions and variables on Windows. Functions are
kept in a module file (`mods.psm1`), variables in the PowerShell profile.

| Command | What it does |
| :--- | :--- |
| `sv NAME BODY` | save a function |
| `rm NAME` | remove a function |
| `ls` | list the functions |
| `cp` | import a function or variable from the clipboard |
| `svp NAME VALUE` | save a variable |
| `rmp NAME` | remove a variable |
| `lsp` | list the variables |

Layout:

- `src/` is the library, verified with Verus: parsing the command line (`cli`), saving and
  removing functions in the module text (`functions`, over the line splitting in `lines`),
  the profile's required lines, module import and saved variables (`profile`), clipboard
  imports (`clipboard`), and removing and listing variables with regular expressions
  (`variables`, through the `regex` crate in `pattern`).
- `app/main.rs` is the program: it reads the environment, the files and the clipboard,
  calls the library, writes the files and prints with colours.
- `tests/` runs the library on concrete inputs.
