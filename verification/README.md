# zeddy

The verified core of Chartr, a desktop workspace that multiplexes terminal
sessions and plugin panes across folder-backed spaces.

- `src/` is the library, verified with Verus: chrome modes and tab shapes,
  live list sorting, space ordering and start-up restoration, the persisted
  state's row planning and save revisions, backend supervision, error
  notices, the keymap store, keystroke naming, terminal colours, the command
  palette, the browser pane's address bar, plugin-installation rules, bulk
  closing and terminal link candidates.
- `tests/` exercises the library on concrete values.
- `app/` is the start-up binary around it: the SQLite store, the keymap
  file, plugin file operations and the address bar's IP check.
