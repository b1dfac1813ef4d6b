# vera

Routed, hybrid search over a corpus of documents. A query is embedded, routed to a
few clusters, searched by three arms, fused and ranked; the answer is evidence with
its sources, for an agent to write from and a person to verify.

`src/` is the library. Every decision on the way from a query to an answer stands
there, verified by Verus:

- `contract`: what goes over the wire: chunks, options, algorithms, responses.
- `embed`, `space`: the vector space that a query and its corpus have to share, the
  dials of an engine, and the profile of a corpus.
- `engine`: what metadata contributes to a ranking, and routing.
- `retrieval`: identifiers, collecting the best of a stream, rank fusion, and a
  search step by step.
- `server`: settings, startup checks, requests and replies, and the search of a
  server step by step.
- `store`: rows, literals and the recipe of a corpus.
- `bench`: what a command is asked to do, latency, recall, and synthetic text.
- `text`, `textmap`, `order`, `numbers`, `score`, `sample`, `json`, `patterns`,
  `phrases`, `quote`: what the rest is written with.

A score is held as the bit pattern of a single-precision number. The library compares
and orders scores; whatever is computed with them is computed by the caller and handed
in, as is everything that is read from outside.

The library trusts the `regex` crate and a few functions of the standard library. Each
stands behind a function or a declaration that says what is believed of it: see
`patterns.rs`, `quote.rs` and the beginning of `text.rs`.

`app/` is the program around the library: the database, the embedding endpoint, the
two transports, files, floating point, and the bench. `tests/` runs the library.
