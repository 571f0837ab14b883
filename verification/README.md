# txxxt

ASCII webcam viewer and video call in the terminal. The decisions of the
program live in a library verified with Verus; a thin binary around it holds
the camera, the audio devices, the sockets, the settings file and the
terminal.

## Layout

- `src/` — the verified library
  - `text.rs` — character-level string helpers (trimming, decimal digits, search)
  - `charsets.rs` — the character ramps and their names
  - `render.rs` — render settings, brightness-to-character mapping, the 3x3
    blur, the Sobel edge test and the per-cell decision
  - `background.rs` — growing a foreground mask
  - `camera.rs` — the animated test pattern shown without a camera
  - `orient.rs` — turning and flipping a picture before conversion (the
    pixel work is the `image` crate's)
  - `audio.rs` — folding interleaved channels into mono
  - `net/protocol.rs` — the ASCII frame wire format, frame/grid conversion and
    nearest-neighbour rescaling
  - `net/relay.rs`, `net/presence.rs` — what the relay server's replies mean to
    the client
  - `net/server.rs`, `net/accounts.rs` — the server side: reading command
    lines, checking registrations, room codes and reply lines
  - `net/rooms.rs` — the server's tables of waiting rooms and online users
  - `net/stream.rs` — reassembling the peer's frames from the bytes of a call
  - `export.rs` — plain text, ANSI and HTML export, picture-in-picture
    compositing, calendar dates and time stamps
  - `tui.rs` — visual styles, PIP corners, settings items and rows, menu
    geometry
  - `folders.rs` — which folders the save-folder input offers, in which order
  - `replies.rs` — string fields of the release and license services' replies
  - `config.rs` — persisted settings, license and account state, the free-call
    allowance, form encoding
  - `viewer.rs` — the interface state and what every key press does to it,
    as a state machine whose outside work is returned as effects
- `tests/` — tests run against the compiled library
- `app/` — the `txxxt` program: command line, devices, network, files,
  floating-point image work and drawing, and the relay server
  (`txxxt relay-server`, with its database in PostgreSQL)

Every public function of the library states its result in its contract; the
laws (round trips of the wire format, of the settings and of the relay
replies, the call allowance, the well-formedness kept by key presses, and
others) are proof functions next to the code they speak of.
