# supercollider_mcp

An MCP server for SuperCollider, with its logic verified in Verus.

- `src/` is the verified library: recognising scsynth/sclang processes by
  name, the presence report (`sc_process`), the per-server statistics report
  with its stable ordering by pid (`server_stats`), the ping reply
  (`server`), the normalisation of Streamable HTTP `Accept` headers
  (`streamable_http`), the startup messages (`startup`), the node-tree model
  (`supercollider_model`) and the text helpers they share (`text`).
- `app/` is the program around it: command line, the MCP transports (stdio
  and Streamable HTTP), the process table read through sysinfo, the
  floating-point figures, and the serde/schema copies of the library types.
- `tests/` runs the library on concrete values.
