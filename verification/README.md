# wayscriber-images

The image side of a screen annotation tool, verified with Verus: decoding GIF
animations, deciding which frame is on screen and when the next one is due,
caching decoded pictures, smoothing hand-drawn strokes, accepting pasted images
and rounding their corners.

- `src/` is the library. Every function states what it returns or changes, and
  Verus proves it. The files `gif_reader.rs` and `still_reader.rs` under
  `src/image_decode/` hold the calls into the `gif`, `png` and `jpeg-decoder`
  crates, and say what is taken on trust about them.
- `tests/` runs the library with those crates linked.
- `app/` joins the library to the system clock and to cairo, which paints.

Times are whole nanoseconds, path coordinates are sixths of a pixel and corner
radii are 65536ths of a pixel; only `app/` uses floating point.
