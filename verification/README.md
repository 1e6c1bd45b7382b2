# lazymcp

Building blocks for Model Context Protocol servers, verified with Verus.

- `src/server.rs`: the registry a server serves from (tools by name, shared
  state by type, name, version, instructions, capabilities) and its laws.
- `src/error.rs`: the errors a server answers with and their JSON-RPC codes.
- `src/result.rs`: what a tool's return value becomes (`IntoToolResult`),
  text results and results a tool built itself.
- `src/state.rs`: `State<T>`, shared state handed to tools.
- `src/toolgen.rs`, `src/text.rs`: the plan behind the `tool` attribute (tool
  name and description from doc comments, injected state, argument fields).
- `app/`: the rmcp server, stdio transport, conversions into rmcp types and
  the token generator for `tool`.
