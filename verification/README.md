# QuicVid

QuicVid sends a generated JPEG test pattern over QUIC DATAGRAMs, watches the
path for stalled ACK progress, and recovers either by migrating the existing
connection to another local address or by reconnecting, while keeping one
logical media run and one frame timeline.

## Layout

- `src/` is the verified library (Verus). Each module states its behaviour in
  `requires`/`ensures` contracts over mathematical models:
  - `media`: the media datagram format, fragmentation of a frame into chunks;
  - `frame_assembler`, `frame_tracker`: reassembly of interleaved, reordered
    and duplicated chunks, and receive statistics;
  - `control`: the HELLO/OK and DONE/DONE_OK control messages;
  - `media_run`: the frame timeline of a media run;
  - `path_health`, `migration`, `client`: the ACK-progress detector, the
    migration state machine and the client's recovery decisions;
  - `path_discovery`: the choice of an alternative local IPv4 address;
  - `server`: the decisions of the receiving server for one session;
  - `test_pattern`, `preview`, `jpeg`: the test pattern, JPEG encoding and
    decoding, and preview pixels;
  - `mouse`: the mouse telemetry codec of the DATAGRAM demo;
  - `text`, `be`, `ids`: white-space tokens and decimal numbers, big-endian
    integers, identities.
- `app/` is the program around it: command line, TLS, QUIC endpoints and
  streams, network interfaces, the preview window, and logging.
- `tests/` exercises the library on concrete values.

Times handed to the library are nanoseconds of a monotonic clock, identities
are the 16 bytes of a UUID, and IPv4 addresses are the `u32` of their
big-endian octets.
