# ass-renderer

A renderer core for ASS (Advanced SubStation Alpha) subtitles, with its
integer logic verified by Verus.

## Layout

- `src/` — the verified library (`ass_renderer`):
  - `event_selector`, `time_index`: which events are shown at a time, what
    changed since the last frame, dirty-region bookkeeping;
  - `segment`, `tag_split`, `tag_apply`, `tags`, `style`, `strings`, `text`:
    splitting event text into runs and override blocks, applying the
    integer, flag and text overrides to each run, and parsing colours,
    alpha, fades and alignment;
  - `frame`, `compositing`, `blur`, `atlas`, `regions`: pixel buffers,
    alpha blending, box blur, texture-atlas packing, dirty rectangles;
  - `glyph_cache`, `font_choice`: the bounded glyph cache and the choice of
    a fallback font by coverage;
  - `error`, `validation`, `backend`, `metrics`, `pipeline`: errors and their
    messages, parameter checks, backend probing and shared data types.
- `app/` — ordinary Rust around the library: everything that computes on
  `f32` (geometry, animation curves, Gaussian blur, shaping with
  `rustybuzz`, font lookup in `fontdb`, outlines with `ttf-parser` and
  `tiny-skia`), plugins and pixel-effect trait objects.
- `tests/` — tests of the library.
