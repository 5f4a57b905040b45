# polez-vst

Verified core of a real-time audio effect that bypasses, detects watermarks in, or cleans a host's
audio stream. The stream logic is proved with Verus; the arithmetic on samples, the threads and the
plugin shell are ordinary Rust around it.

| Mode | Behavior |
|------|----------|
| **Bypass** | Passes audio through, bit for bit |
| **Detect** | Passes audio through and keeps a watermark confidence meter |
| **Clean** | Overlap-add sanitization in windows of 8192 samples, with a latency of exactly 8192 samples; only host blocks longer than that can find too few cleaned samples |

## Layout

| Path | Purpose |
|------|---------|
| `src/rt/ring.rs` | Mono history that detection looks at |
| `src/rt/queue.rs` | One-place queues (`crossbeam_queue::ArrayQueue`), trusted |
| `src/rt/detect_worker.rs` | Hand-off to the analysis worker, as a state machine |
| `src/rt/window.rs` | The window being cleaned (`ndarray::Array2`), trusted access |
| `src/rt/ops.rs` | The sample arithmetic that callers hand in |
| `src/rt/overlap.rs` | Overlap-add |
| `src/rt/processor.rs` | The real-time processor |
| `src/rt/laws.rs` | What holds of the stream as a whole |
| `src/rt/alignment.rs` | The cleaned stream is the input, exactly one window late |
| `src/plugin.rs` | The effect as a host drives it |
| `app/` | The truce plugin, the worker thread and the polez engine |

Samples are held as the bit patterns of single-precision values. Nothing is assumed of what the
sample arithmetic returns: contracts relate results to whatever it gave back.
