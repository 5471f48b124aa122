# karmx

The decision-making core of the karmx terminal agent, written in Verus and
proved against its contracts.

- `src/` is the verified library. Each module states what its functions
  return over spec functions and views, and the laws of the library (what
  holds across calls or for every input) stand there as public proof
  functions named `law_*`.
  - `text`: the string toolkit the rest is built on (search, split, join,
    trim, decimal, UTF-8 lengths).
  - `stop_reason`, `thresholds`, `undo`, `tool_meta`: provider stop reasons,
    compaction thresholds, undo steps of tool results.
  - `actions`, `control`: computer-control actions, their validation and
    lowering to browser commands, and the state of one run.
  - `csp`, `proto`, `preview`: the browser preview's policy rewriting and
    bridge injection, its wire decoding, and what the proxy reports.
  - `budget`, `enhance`, `rerank`, `workspace`, `context_tools`: the context
    engine's budgets, prompt enhancement, reranking, and local index.
  - `presentation`, `slash_menu`, `model_picker`, `model_config`,
    `local_fusion`, `update`, `tools`: the terminal session and configuration.
- `app/` is ordinary Rust around the library: JSON and YAML forms of its
  types, the CDP client, the preview server, the workspace walk, the
  terminal loops and self-update.
- `tests/` runs the library on concrete values.

Verify with Verus on `src/lib.rs`; the tests build against the compiled
library.
