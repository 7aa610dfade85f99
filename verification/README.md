# autoaim

Review-only screen capture, person detection and dataset tooling. The software
shows suggestions, logs datasets and computes metrics; it never moves the cursor,
clicks or controls another program.

## Layout

- `src/` is the library, written in Verus and verified. Every function carries a
  contract over a mathematical model of its inputs and result:
  - `capture`: frame size scaling, live preview size, capture backends and errors,
    base64 text of captured pixels;
  - `duplication`: decisions of a desktop duplication capture session;
  - `pixels`: BGRA to RGBA conversion and nearest-neighbour resampling;
  - `image`: PNG and JPEG header dimensions;
  - `visual`, `components`: the integer side of the model-free person detector
    (edge-dense cells and their connected groups);
  - `infer`: providers, model selection, YOLOv8 output layout, status and error texts;
  - `ipc`: message kinds, providers and pipe names of the review-only protocol;
  - `jsonl`, `validate`: dataset line framing and hygiene diagnostics;
  - `live`, `telemetry`, `update`: overlay refresh generations, dataset quota,
    log lines, CPU and GPU telemetry, the updater report;
  - `text`: string building and the string functions the others use.
- `tests/` runs the library on concrete values.
- `app/` is the command-line program around the library: file and process I/O,
  threads, serde and clap, and the floating-point parts (target scoring, model
  tensors, box geometry) that the verifier does not take.
