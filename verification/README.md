# xiao-epaper

Logic for the Seeed Studio XIAO 7.5" ePaper panel (800x480, UC8179
controller, ESP32-C3), with its behaviour stated in contracts and proved.

- `src/framebuffer.rs` — the 1-bit framebuffer: pixel writes, reads, clearing.
- `src/uc8179.rs` — the panel protocol as lists of bus operations (command and
  data framing, reset, init sequence, refresh) and the busy-line wait.
- `src/canvas.rs` — 8-bit grayscale images (held in `image::GrayImage`),
  Lanczos3 resampling and filled rectangles.
- `src/pet.rs` — the pet sprites, their drawing, and the choice of mood.
- `src/dashboard.rs` — weather descriptions, the pet's walk, the month view's
  layout and today's shading, the moon glyph, sunrise/sunset times, circle
  outlines.
- `src/calendar.rs` — month lengths, weekdays, the month name, date line and
  clock text (with `chrono`).
- `src/raster.rs` — fitting and centering a picture on the panel, and 1-bit
  packing.
- `src/demo.rs` — the demo picture.

`app/` is the HTTP server (dashboard and picture endpoints), the dithering,
font rendering and weather fetching, and the driver's pin and bus handling
over `embedded-hal`. The dashboard reads its font from `assets/font.ttf`
(or the file named by `DASHBOARD_FONT`).
