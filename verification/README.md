# tiptab

A tab-naming plugin for the Zellij terminal multiplexer. Each tab is labelled
`<position + 1>: <name>`, where the name is, by precedence, the foreground
binary that the shell hook reports (`*nvim`), the git workspace of the
reported folder (`repo/../sub`), the folder's name (`~` for home), or the
program a pane of the tab was started with. Names are cut to 12 characters
per part, labels to 60.

Layout:

- `src/` — the library, verified with Verus: text and path handling
  (`text`, `path`), the label formats (`formatter`, `validation`), the
  per-tab records (`bin_parser`), the git workspace cache (`parent_seek`),
  the labelling and renaming rules (`resolver`), the JSON messages between
  the plugin and its worker (`messages`, `worker`), and the plugin's answer
  to each host event (`plugin`).
- `app/` — the plugin binary: it converts the host's events into library
  calls and performs the commands and messages the library returns.
- `tests/` — tests of the library on concrete values.
