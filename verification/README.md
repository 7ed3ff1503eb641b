# yu-hailo-infer

An HTTP inference sidecar for the Hailo-10H NPU (CLIP, WD-Tagger, LLM, VLM,
YOLO, speech-to-text), with its decision logic verified by Verus.

## Layout

- `src/` — the verified library, checked by Verus. Its functions carry
  `requires` / `ensures` contracts, except the four "is the model on disk?"
  checks, whose answers come from the filesystem; they are built from
  verified helpers that fix the files probed and how the answers combine:
  - `requests` — request validation, bearer-token check, scan-root
    containment, scan-roots change ordering, default model paths;
  - `profile`, `tags`, `json` — WD profile validation and the tag vocabulary
    read from CSV tables and JSON dictionaries;
  - `engine` — image size limits, the built-in WD recipe, and turning model
    scores into the rating and the ranked tags;
  - `yolo`, `order` — YOLO output checks, greedy and per-class NMS over
    precomputed overlap tables, stable descending orders;
  - `media` — base64 frame budgets and WAV header/length checks;
  - `device`, `stream` — model residency on the single device, and the token
    stream's read loop;
  - `hailort`, `startup`, `model_dir`, `text`, `error` — status codes, the
    startup contract, model directory resolution, and string helpers.
- `app/` — the service around the library: the HTTP server, the HailoRT C
  shim bindings, ONNX Runtime sessions, image and audio sample arithmetic.
- `tests/` — tests of the library's public functions.
