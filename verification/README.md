# obs_pipeline

A small screen-capture pipeline (capture → compositor → preview window,
with optional MP4 recording) whose logic is a Verus-verified library.

- `src/` — the verified library:
  - `types.rs`: pixel formats, timestamps, video frames, audio counts.
  - `scene.rs`: scenes whose items stay stably sorted by z-order.
  - `compositor.rs`: destination sizing (stretch / fit / fill), nearest-neighbour
    blitting with alpha blending, and compositing a scene back to front.
  - `raster.rs`: byte layout of 4-byte-per-pixel images.
  - `source.rs`: the video-source trait and conversion of captured frames to BGRA.
  - `test_pattern.rs`: the synthetic colour-bar picture.
  - `preview.rs`: what the preview window draws and how it reacts to events.
  - `pipeline.rs`: configuration, frame timing and the compositor thread's decisions.
  - `encoder.rs`: encoded packets and the recorder's encoder settings.
  - `fibonacci.rs`: two Fibonacci routines.
- `app/` — the program around it: threads, channels, the winit/softbuffer window,
  scap screen capture, the FFmpeg recorder, and floating-point code.
- `tests/` — tests of the library on concrete values.
