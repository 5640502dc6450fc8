# howy_daemon

The decision core of a local face-authentication daemon, and of the experiment
that compares the half- and single-precision runs of its models.

- `src/` is the library. Every function in it states what it returns and is
  verified with Verus. Floating-point values appear as their bits; what only
  floating-point arithmetic can compute is handed in as a function.
- `app/` is the program: it opens, reads, waits, spawns and prints, and asks the
  library what to do next. It holds the floating-point arithmetic, the ONNX
  Runtime sessions and the V4L2 calls. Started as `howy-fp16-harness` it runs
  the experiment, otherwise the daemon. Configuration, record storage and the
  socket service are supplied through the `Services` trait, and how two
  embeddings are compared through `FaceRoutines`.
- `tests/` runs the library.

## Modules

| Part | Modules |
| --- | --- |
| Who may ask for what | `authorization` |
| Starting and ending a run | `options`, `startup`, `readiness`, `diagnostics` |
| The storage key | `mode1_key` |
| The FFmpeg child | `child_spawn` |
| Frames | `capture`, `frame`, `raw`, `mjpeg` |
| Models and inference | `inference`, `engine`, `detection`, `scrfd` |
| The experiment | `fp16_args`, `fp16_layout`, `fp16_environment`, `fp16_corpus`, `fp16_model`, `fp16_cache`, `fp16_tree`, `fp16_provenance`, `fp16_profile`, `fp16_placement`, `fp16_protocol`, `fp16_worker`, `fp16_run`, `fp16_records`, `fp16_comparison`, `fp16_assignment`, `fp16_metrics`, `fp16_report`, `fp16_wire` |
| Shared | `text`, `paths`, `names`, `order`, `wire`, `digest`, `float_bits`, `wiping` |

Calls into other crates stand behind functions marked
`#[verifier::external_body]`; the comment above each says what is taken on trust.
