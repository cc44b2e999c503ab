# diarization

The verified core of an on-device speaker diarization engine (NVIDIA
Nemotron-3 / Sortformer v3 over ONNX Runtime) and of the per-application
audio capture that feeds it.

`src/` is the verified library:

- `frames` — majority smoothing of frame-level speaker decisions, grouping of
  frames into maximal speaker runs, speaker counting, chunk-size arithmetic.
- `streaming` — the FIFO of recent frame embeddings and the bounded speaker
  cache that its overflow feeds.
- `turns` — word labelling at segment midpoints, blip smoothing and grouping
  of words into speaker turns.
- `text`, `order` — white-space trimming, joining, code-point order.
- `engine` — model status and information, and the decisions of loading,
  downloading and diarization requests.
- `settings` — preset names and speaker limits of a settings request.
- `apps` — listing recordable applications and choosing the process to
  capture.
- `loopback` — process-loopback activation parameters.

`app/` holds the unverified rest: Tauri commands, model downloads, ONNX
sessions, floating-point post-processing and Windows audio capture.
`tests/` exercises the library.
