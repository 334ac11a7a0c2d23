# ws

A remote workspace server for coding agents: file reads and exact edits,
shell commands and background sessions, language-server diagnostics and
requests, and nix-managed developer tools, over HTTP, MCP (stdio) and a
command-line client.

- `src/` is the verified library (Verus): the tools' decisions, the LSP
  message framing, session and diagnostics state, the MCP and HTTP request
  handling, the package plans and workspace files, the file watcher's
  change detection, and the command-line client's requests.
- `app/` runs it: processes, files, sockets and the command line.
- `tests/` exercises the library on concrete values.
