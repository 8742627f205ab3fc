# gliff

A remote desktop: a server captures an output, encodes it as H.264 and serves
it to one client over ssh; the client decodes it, sends input back, and both
sides share a clipboard.

The library holds what the two ends decide and compute, with contracts that
Verus proves. The program around it does the reading, writing, capturing and
floating point.

## The library, `src/`

- `cbor`, `msg`: the messages and their encoding. Fields that a newer peer
  appends are ignored, a version that is not ours is told apart.
- `frame`: messages and their payloads over a byte stream, whatever way the
  stream is cut.
- `udp`: video over datagrams. Sealing, splitting a frame into parts, asking
  again for the parts that are missing, giving a frame up, replay protection.
- `clipboard`: offers, requests, chunks within a window, files with safe
  relative paths, URI lists, spool directories, progress.
- `rate`: the bitrate controller, the quality ladder, the frame window and the
  ledger of what is in flight.
- `convert`, `video`, `codec`: BGRA to one or two 4:2:0 streams and back, and
  the OpenH264 encoder and decoder around them.
- `h264`: sequence and picture parameter sets, slice headers.
- `gpu`: which device, queues and memory are used.
- `server`, `client`: a session's decisions on either end.
- `probe`: checks of a machine and of a running server.

Times are nanoseconds of a clock that does not go back. Floating-point values
of the wire are carried by their bits.

Outside crates are called through a few items with stated contracts: `bytes`
for the read buffer, `minicbor` for single CBOR items, `postcard` for single
integers, `chacha20poly1305` for sealing, `openh264` for the codec.

## The program, `app/`

`gliff serve`, `gliff connect` and the checks. It serves a test pattern through
the `Desktop` trait; a compositor is another implementation of it.

## Tests, `tests/`

Concrete runs of the library, with the outside crates linked.
