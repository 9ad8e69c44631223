# pliego_core

The rules of a document engine that captures web pages as paged documents, verified with Verus.

The library decides; it does no input or output of its own. Floating-point numbers come in as their
bits, and what only floating point can compute is handed in by the caller.

| Module | What it decides |
| --- | --- |
| `pages` | where blocks, lines, table rows and cells break between pages |
| `table` | the slots of a table, and which collapsed borders show |
| `generation_capture`, `controlled_capture` | when a document is settled enough to be captured, and which frame is captured |
| `document_time`, `clock`, `timers`, `microtask`, `task_queue`, `routed_promise` | the event loop under controlled time |
| `retained_canvas`, `largest_contentful_paint`, `layout_api` | what is kept of canvases, paints and animated images |
| `dyadic`, `canonical`, `au`, `fx`, `ids` | exact arithmetic on numbers given as bits, canonical order, lengths, maps, identities |

Every public function states in its `ensures` what it returns or changes. The proof functions whose
names start with `law_` state what holds across several of them. Functions marked
`#[verifier::external_body]` call other crates; the comment above each says what is relied upon.

`tests/` runs the library on concrete values. `app/` is ordinary Rust around it: floating point,
process-wide state, channels and serialized records.
