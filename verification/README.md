# daedal

The logic of a fractal viewer, verified with Verus.

- `src/text.rs` — splitting text at a separator and reading unsigned decimal integers.
- `src/options.rs` — colours (`<r>,<g>,<b>`), image sizes (`<width>x<height>`), the colour
  palette, and the parameters that take effect under a subcommand.
- `src/raster.rs` — the RGB image buffers of the `image` crate, seen through trusted functions.
- `src/events.rs` — pasting rendered sections into the picture, choosing the pixels to draw,
  and the viewer's answer to each input event.
- `src/julia.rs` — the Julia renderer's image size.
- `app/` — the program: command-line parsing, the SDL window, floating-point view
  parameters, and saving images.
