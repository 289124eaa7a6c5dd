# that_tools

Token-budgeted output for agent tools, the channel factory registry, and
git safety checkpoints, written in Verus: each function carries a contract
that the verifier proves.

- `src/` is the verified library.
  - `text`: character-level helpers (lines, joining, trimming, decimals).
  - `budget`: token counting (tiktoken's cl100k_base) and the budget on
    plain text (head/tail, head-only and rule-based compaction).
  - `json`: JSON values with their compact and pretty text.
  - `emit`: JSON under a hard token budget (structural reduction,
    skeletons) and the output envelope.
  - `compact`, `raw`, `markdown`: the compact, plain-text and Markdown
    renderings of tool results.
  - `channels`: the adapter factory registry and the plan for building a
    channel router from configuration.
  - `git`: the decisions of creating and restoring a checkpoint.
- `app/` holds what touches the outside world: serde conversions, the
  channel builder that carries out a plan, and the git commands.
- `tests/` exercises the library on concrete values.
