# ternreader

The core of the TernReader e-reader firmware (an ESP32-C3 e-ink device with
a 480x800 portrait screen), written in Verus. The functions in `src/` carry
contracts that Verus proves, except three small wrappers around std string
functions (`String::push`, `str::from_utf8`, `String::from_utf8_lossy`),
whose contracts are taken on trust from std's documentation.

Converting EPUB books to `.trbk` (done on the desktop with an EPUB parsing
crate) is not part of this library; the device only reads `.trbk` files.

## Layout

- `src/` — the verified library.
  - `input`, `framebuffer`, `bitmap`, `display`, `ui`: button edges, the
    double-buffered 1-bit frame and its rotations, rectangles and list screens.
  - `render`, `reader_view`, `glyph_bitmap`: drawing images (1-bit, 8-bit,
    2-bit grayscale planes), book pages and glyphs into the frame.
  - `trbk`, `trbk_file`, `book_build`: the `.trbk` book format — laying out
    text into pages, writing the file, and reading it back.
  - `sd`, `storage_cleanup`, `text`: names and contents of the files the
    device keeps on the card (recents, positions, thumbnails, resume).
  - `usb`, `usb_mode`: the framed USB serial protocol (CRC-checked frames,
    chunked replies) and the file-transfer mode that answers it.
  - `app/`: the screens — start menu, file browser, image viewer, book
    reader, table of contents, sleep screen — and `application`, the state
    machine that ties them together: `update` takes a button poll,
    `draw` hands out the panel steps of the next redraw.
- `tests/` — tests of the library on concrete values.
- `app/` — what runs around the library on a host: a file-backed storage,
  the panel driver that carries out the drawing steps with
  `embedded-graphics`, and the USB link loop.

## Verification

The library is verified with Verus; the tests run with the outside crates
(`embedded-graphics`, `embedded-io`, `embedded-io-async`) linked.
