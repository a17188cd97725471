# rve

A terminal video trimmer: play a video in the terminal, place split markers
on the timeline, include or exclude the segments between them, and export
the included segments (one file each, or concatenated into one).

The editing, playback and drawing logic is a library verified with Verus
(`src/`); a thin terminal program (`app/`) runs ffprobe/ffmpeg, the audio
device and the key loop around it.

## Layout

- `src/model.rs` — editor state (`Model`, its view `ModelView` and invariant
  `wf`), video metadata, and exact time arithmetic.
- `src/update.rs` — every key and resize event as a state transition plus a
  list of `Effect`s (seek, pause audio, resize decoder, read a frame) that the
  caller performs; playback stepping and frame-timing drift.
- `src/view.rs`, `src/screen.rs`, `src/kitty.rs` — render sizing, the
  differential half-block renderer, the Kitty image protocol and the whole
  screen, all as lists of `DrawCmd`s.
- `src/probe.rs` — parsing ffprobe's compact output into `VideoMetadata`.
- `src/export.rs` — which segments an export writes, and when it would only
  reproduce the input.
- `src/frames.rs` — decoder bookkeeping and turning raw RGB bytes into frames.
- `src/base64.rs`, `src/text.rs`, `src/audio.rs` — base64, text building,
  volume levels.
- `src/laws.rs` — properties that span several operations (marker toggling
  round trip, segment toggling, playback never landing in an excluded
  segment, frame timing losing no time, render sizes fitting the terminal,
  the renderer's cache, export short-cuts).

## Units

Time is exact: a frame rate is the rational `fps_num / fps_den` that ffprobe
reports, durations are whole microseconds, markers are frame indices,
volumes are percent (0–200), and playback speed is one of seven presets in
quarters of normal speed.
