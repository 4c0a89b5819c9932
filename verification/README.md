# adaptive

Adaptive scheduling hints for LLM requests: a runtime learns from completed agent runs how critical
a call is, how long its output will be and how a priority paid off, and adds what it learned to the
next requests.

The library under `src/` is written in Verus, and its functions are verified against their
contracts. The exception is the calls into `serde_json`, `chrono`, `uuid` and two functions of the
standard library: each stands behind a small function (in `json`, `time`, `ids`, `records`) or a
specification (in `text`) whose contract is trusted, and whose doc comment says what is claimed of
the call. `app/` is the runtime around the library: locks, channels, storage and JSON.

| Module | What it holds |
| --- | --- |
| `dag::graph`, `dag::topology`, `dag::cpm` | the dependency graph of a completed run and the critical-path method over it |
| `dag::critical_path` | what the critical-path method promises, in exact arithmetic |
| `dag::state` | learned criticality per workflow node |
| `priority_residual` | bandit correction of priorities by observed queue waits |
| `osl_empirical` | empirical output lengths |
| `scheduling`, `request_features` | priority policy and request features |
| `context_helpers`, `scope`, `scope_metadata` | what open scopes say |
| `adaptive_hints_intercept`, `cache` | selecting hints and writing them into a request |
| `drain`, `subscriber`, `records`, `request` | events into runs |
| `feedback` | feedback that travels with a request, in JSON form |
| `scalar`, `order`, `fixed`, `time`, `ids`, `text`, `table`, `json`, `model` | numbers, instants, texts, tables and documents |

Measurements are generic over `scalar::Scalar`. `fixed::Fixed` is an exact implementation; the
runtime uses machine floating point (`app/number.rs`).
