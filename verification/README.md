# j3treetext

The core of j3TreeText, a tree-structured plain-text editor that keeps its documents in
SQLite, with its behaviour stated as contracts and proved with Verus.

- `src/domain` — the document tree and its validity rules, sibling ordering, open
  editor tabs, literal find and replace, and the persisted UI settings.
- `src/infra` — text import and export (UTF-8, UTF-16, EUC-KR and Windows-1252 through
  `encoding_rs`), the plan of a whole-tree export, the desktop entry text, and the
  decisions the SQLite repository takes between its queries.
- `src/cli` — command-line arguments, the options of each command and what is printed.
- `src/launch.rs` — what the program is asked to do when it starts.
- `app/` — the program: started as `j3TreeTextCli` it is the command-line tool, otherwise
  the launcher; it converts arguments and does the file system and database work.
