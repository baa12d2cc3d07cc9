# tty7_ui

What a terminal's window decides, verified: which tabs stand in which group of
the rail, how titles and paths are shortened, what an SSH connection is made
of, which question a server's prompt puts and what an answer sends, how the
file browser moves through a remote machine, and what every page of the
settings shows.

- `src/` is the library. Every function states what it returns, and Verus
  proves it. The laws of the library are public proof functions beside the
  functions they speak of.
- `tests/` runs it.
- `app/` is the window around it: measuring, drawing with gpui, remote work,
  and waiting.

| module | holds |
| --- | --- |
| `text`, `order`, `paths` | texts as sequences of characters; a stable order by keys; paths by their components |
| `groups`, `workspace`, `sections` | the keys, names and order of the rail's groups |
| `sidebar`, `group_edits`, `sidebar_view`, `drag` | the tabs in them, what is done to them, what is drawn, and what a drag previews |
| `titles`, `elide`, `tab_strip`, `chrome` | short titles, cut texts, the strip, the title bar |
| `ssh_profile`, `ssh_connect`, `alias_search`, `connections` | saved hosts, the SSH configuration, and the connections made of them |
| `ssh_prompt`, `keychain` | the sheet of questions, and what is remembered |
| `remote_files`, `sftp`, `sftp_view` | listings, the browser's state, what it shows |
| `preferences`, `settings`, `settings_search`, `settings_pages`, `settings_results` | the settings page |
| `theme_picker`, `hosts`, `agents`, `shortcuts` | its larger parts |
