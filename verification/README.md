# dsh_desktop

A desktop shell around `dsh web`: it finds Node.js, installs or upgrades
`@deepseek-ai/dsh` with npm, starts the web server, shows it in a webview, and
kills the whole process tree when the window closes.

The decisions are a verified Verus library under `src/`:

- `lifecycle` – the background controller as a state machine (`Controller::step`
  from phase and event to next phase, status and effect), the shortening of npm
  output (`tail`), and the laws of the controller.
- `process` – reading the URL dsh prints (`parse_url`, `ReadyWatcher`), the
  start-up retry plan, the wait decisions, and what is killed at shutdown.
- `runtime` – install layout, npm arguments and invocation, reading versions.
- `node` – `PATH` splitting, candidate locations of node and npm, version order.
- `paths` – path joining and the per-user data directory.
- `ui` – the status script for the init screen, IPC message reading, colors.
- `chrome` – hit testing and insets of the borderless window.
- `text` – character-level string helpers with their specifications.

`app/` holds the program: the window and webview (tao, wry), Win32 and libc
calls, processes, pipes, threads and the file system. It performs the effects
the library asks for and hands the outcomes back as plain values.
