# rustycan

The logic of a CAN-bus monitor and CANopen analyser, written in Verus: every function of the
library carries a contract that is proved, and the properties that span functions are proved
functions whose names start with `law_`.

## Layout

- `src/canopen` decodes and encodes CANopen: SDO in all its transfer forms, PDO, EMCY, NMT, USDO.
- `src/dbc` decodes and encodes frames by the definitions of DBC files.
- `src/adapters` holds the wire formats and the rules of the CAN adapters.
- `src/bbd` downloads firmware to a CANopen bootloader.
- `src/dfu.rs` updates the firmware of the KCAN dongle.
- `src/app.rs`, `src/logger.rs`, `src/session.rs` and `src/gui` hold the state of a session, its log
  and what its screens show.
- `src/text.rs`, `src/bytes.rs`, `src/frame.rs` and `src/eds.rs` are shared by all of these.
- `app` is the program around the library: USB, sockets, files, threads and drawing.

The library does no I/O. Protocols are state machines: a step takes what came of the last action
and gives the next one. Times are numbers that the caller reads off its clock. Floating-point numbers
are held as their bits.

Calls into other crates stand behind items whose contracts are not proved; each says in its doc
comment what it claims.
