# CyberWeaver core

The investigation core of CyberWeaver, a digital-forensics workbench, written
in Verus: every function of the library carries a contract that Verus proves.

- `src/` — the verified library: the domain model of an investigation graph,
  the in-memory graph engine and its traversals (breadth-first paths,
  shortest undirected paths, connected components), the STIX 2.1, Attack Flow
  and JSON Canvas exchange formats, the HTML report, the bundled investigation
  tools and the merging of their findings, the read and write sides of the
  assistant's tool server, and the requests to and answers from the language
  model.
- `tests/` — tests of the library on concrete values.
- `app/` — the service around the library: the WebSocket broadcast server,
  the HTTP client of the language model, the plugin loader and the JSON
  shapes exchanged with plugins and the model.

Floating-point confidences and canvas positions are kept by the caller:
the library gives confidences in hundredths and positions as grid cells.
