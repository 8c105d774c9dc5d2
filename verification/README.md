# rascii_art (verified core)

The animation logic of an image-to-ASCII terminal renderer, proved with Verus.

- `src/effect.rs` – the effect names and their parser.
- `src/positions.rs`, `src/runs.rs` – row-major and spiral cell orders, with the
  proofs that each visits every cell exactly once.
- `src/orders.rs` – the random dissolve order and the key-sorted whirl order.
- `src/script.rs`, `src/play.rs` – each effect as a list of terminal steps
  (draw a cell, flush, wait until a frame is due, ...).
- `src/gif.rs` – GIF decoding (through `image`), frame delays, and the steps
  that start the player and show one frame.
- `src/trim.rs` – where to cut blank borders off an image.
- `src/laws.rs` – properties that span several functions.
- `app/lib.rs` – the driver: floating-point measurements, terminal output,
  image trimming, and the GIF player loop.
