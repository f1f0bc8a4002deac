# OtisCorp Remote

A light remote desktop client: one device shares its screen and takes input, another shows
the screen and sends input. Its logic is a library that is verified with Verus; around it
stands a program in ordinary Rust.

## The library, `src/`

- `text`: trimming, searching, splitting, reading and writing numbers
- `wire`: messages on a session's connection
- `json`: JSON objects with plain fields
- `video`: quality profiles, reducing frames, JPEG images and base64, frames in messages
- `grid`: rows and columns of a position in a frame
- `nv12`: the canvas of the video encoder and its dirty regions
- `h264enc`: key frames, and the course of setting up, feeding and draining an encoder
- `framebuffer`: the packed frame that dirty regions are gathered in
- `capture`: statistics, the capture engine and its loop, the fallback by GDI
- `input`: input events and what is injected for them on each platform
- `transport`: what host and viewer say to each other, and the course of a session
- `discovery`: finding a device on the local network
- `relay`: the handshake with the relay and the pump behind it
- `netscan`: the devices on the local network
- `sysprofile`: what kind of device this is
- `identity`: the device's ID and the session's password

Each function states in its contract what it returns or changes. What holds of several
functions together is stated by the functions whose names begin with `law_`.

A few functions call other crates: `base64`, `jpeg-encoder`, `rustls` and `serde_json`.
Their contracts are taken on trust, and the comments above them say what is claimed.

## The program, `app/`

Threads, sockets, files, the clock, the system's own interfaces and the window. The window
and the capture of the screen exist on Windows and macOS; elsewhere the program runs
without them.

## Tests, `tests/`

The library from outside, with the other crates linked.
