# maya_mcp

An MCP server over stdio that lets an assistant work in an open Maya: it runs Python and MEL, asks
about the scene and watches the connection.

- `src/` is the logic, verified with Verus: the protocol of the Maya listener, what the tools ask
  and show, the status report with its history, and the log file's lines and rotation.
- `app/` is the program around it: TCP, stdio, the clock, the environment and the log file itself.
- `tests/` runs the library, with `serde_json` linked in.

What is taken on trust is the behaviour of `serde_json`; each such item in `src/json.rs` says what
it claims.

| Environment variable | Default | Meaning |
|---|---|---|
| `MAYA_MCP_HOST` | `127.0.0.1` | the listener's address |
| `MAYA_MCP_PORT` | `5055` | the listener's port |
| `MAYA_MCP_TIMEOUT_SECS` | `120` | seconds that a script has |
| `MAYA_MCP_PROBE_SECS` | `30` | seconds between two probes |
| `MAYA_MCP_PROBE_TIMEOUT_SECS` | `5` | seconds that a probe has |
| `MAYA_MCP_LOG_FILE` | `%LOCALAPPDATA%\maya_mcp\maya_mcp.log` | the log file, rotated at 5 MB |
