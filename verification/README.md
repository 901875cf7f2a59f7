# zeroclaw_memory

The core of a conversational memory system, written in Verus: what is remembered of a
conversation, how it is compressed, how it is found again.

- `src/context_compressor` keeps a history inside the model's context window. A compression is a
  state machine: it asks for summaries, records them, and replaces spans of messages.
- `src/knowledge_graph` holds nodes, edges and events, the changes to them and the queries over
  them.
- `src/consolidation` decides what is kept of a turn, records entities in the graph, and runs the
  dream cycle that synthesizes stale ones.
- `src/retrieval` caches recalls and fuses the answers of several sources by reciprocal rank.
- `src/lcm_grep` is the tool that searches the message log.
- `text`, `render`, `letters`, `lists`, `ordering` and `scores` are the primitives under them, with
  `naturals` and `fractions` for the exact sums that fused scores are ranked by;
  `clock` and `patterns` call the random source, the clock and regular expressions.

Contracts speak of ghost views (`deep_view`) of the types. What holds of the library as a whole is
stated by the proof functions named `law_*`.

`app/` is ordinary Rust around the library: the SQLite database of the graph, the calls of models
and backends, and the serialised forms of the types.
