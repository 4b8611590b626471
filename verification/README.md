# transecho

The verified core of a real-time interpretation client: system audio is
captured, resampled to 16 kHz mono PCM and streamed to a speech-translation
service over a WebSocket; subtitles and synthesized speech come back.

## Layout

- `src/` — the library, verified with Verus.
  - `wire`, `proto`: the protobuf wire format and the protocol's messages, with
    encoders and decoders proved against a model of the format (decoding an
    encoding gives the message back).
  - `codec`: the session requests and the events read from responses.
  - `client`, `session`: request numbering, what the reading and writing sides
    of the connection do with each outcome, the startup handshake, and the
    routing and de-duplication of subtitles.
  - `frames`, `queue`, `wsola`: audio framing, channel (de)interleaving, the
    bounded playback queue and the bookkeeping of the WSOLA time stretcher.
  - `device`, `capture`, `playback`, `types`, `text`: device selection and
    description, volume handling and small text helpers.
- `app/` — the desktop program around the library: audio devices, capture and
  playback, the WebSocket connection, floating-point signal processing and the
  UI commands.
- `tests/` — tests of the library.
