# semantic_code

An MCP server that keeps source code, git history and Ansible projects as RDF
in an Oxigraph triplestore, answers SPARQL, indexes the graph for retrieval,
and routes agent queries to SPARQL, retrieval or generation tools with
citations.

## Layout

- `src/` — the verified library (Verus). It turns inputs into RDF quads:
  Ansible inventories (INI and YAML), playbooks and roles; Python and Rust
  sources and TypeScript syntax trees with their project files; git commits
  and their changes. The YAML, TOML, JSON, Python and Rust parsers are called
  from here, behind small trusted wrappers whose results are named. It also holds the canonicalization of triples into text chunks, the
  context compression of retrieval hits, the prompt contract (assembly,
  citation extraction and merging), the agent router and its tools, and the
  messages and summaries the server answers with. Each public function states
  its result in `ensures`; the laws that span several functions are public
  proof functions named `law_*`.
- `tests/` — tests of the library on concrete values.
- `app/` — the server around it: file, network and store I/O, the
  TypeScript parser whose trees the library reads, the embedding providers
  and the vector store, and the MCP tool handlers.
