# asr_rs

Speech recognition on streams of 16 kHz audio with whisper.

- `src/` is the verified library. It holds the configuration and the model catalogue,
  the decision which model files to fetch, and the state machine of a stream
  transcriber: what counts as silence, when the audio buffer is flushed, which segments
  are finalized and how much audio is dropped, how the transcript grows and how its lines
  are ordered. Times are counted in samples; probabilities are carried as the bits of
  their `f32` values.
- `app/` runs around it: the float audio, the whisper models, model downloads, the
  asynchronous worker, the microphone and the terminal interface, and the views of the
  transcript in seconds.
- `tests/` exercises the library on concrete streams and configurations.
