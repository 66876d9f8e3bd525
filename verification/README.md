# fut

A terminal multiplexer whose sessions follow projects. A daemon keeps sessions,
workspaces, tabs and panes; clients attach to it over a socket, watch the screens
of the terminals in a tab, and give commands.

## Layout

- `src/` is the library: the rules that the daemon and its clients go by. Each
  function states in its contract what it answers and what it changes, and Verus
  proves it.
  - `domain`, `protocol`, `paths`, `text`, `digests`, `maps`: identifiers, screens,
    messages, and the small vocabulary that the rest is stated in.
  - `resources`, `splits`: the tree of sessions, workspaces, tabs and panes, and the
    layout of panes within a tab.
  - `daemon`: connections, attachments, leases, presence, the queue of what goes to
    a client, creating and closing resources, recipes, the socket.
  - `project`, `project_definition`: where a directory belongs, and the recipes that
    projects bring along.
  - `extensions`, `extension_store`: manifests, hooks, and installed packages.
- `tests/` runs the library on examples.
- `app/` is the program around the library: files, processes, sockets, Git, the
  written form of messages, and which resource is meant by what a client calls it.

A public proof function whose name starts with `law_` states something that holds
of several functions together; its documentation says what.

## Terminals

The program starts a process for each terminal and passes on what is typed. It
contains no terminal emulator: a terminal's screen is blank, so that there is nothing
to copy from it or to point at.
