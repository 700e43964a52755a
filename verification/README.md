# pi_dashboard

A status dashboard for a Raspberry Pi with a 480×320 RGB565 SPI panel and a
resistive touch screen: a monitor page (host, time, Tailscale, temperature,
memory, disk, network, CPU cores, Docker containers, power dialog), five
detail pages, and a Unix-socket control interface.

## Layout

- `src/` — the verified library (Verus):
  - `fb` framebuffer shadow, dirty-region tracking and merging;
  - `render` colour conversion, blending, rectangles, lines;
  - `label`, `text` text fields that erase only what changed, bars, glyph
    placement;
  - `touch` raw input decoding and the gesture state machine;
  - `metrics`, `config`, `textutil` parsers of `/proc`, `df`, `docker`,
    `ip` and `tailscale` output, colour bands, text helpers;
  - `pages` page manager (registration, switching, idle return), the monitor
    page controller (touch routing, power dialog, scrolling, temperature
    trend, frame plan, NET card and Tailscale chip state) and the detail-page
    helpers;
  - `screenshot`, `ipc` PNG/base64 screenshot encoding and request routing.
- `app/` — the program around it: device and socket I/O, the font engine,
  anti-aliased shapes and charts (floating point), samplers, the tokio main
  loop.
- `tests/` — tests of the library.
