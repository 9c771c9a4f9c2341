# icecc_mon

A terminal monitor for the icecc distributed compiler, with its core verified
by Verus.

- `src/` is the verified library: the wire codec of the icecc monitor
  protocol (`codec`, `messages`), the version handshake and frame checks
  (`connection`), discovery reply parsing (`discovery`), the scheduler model
  that monitor events update (`model`), the translation of scheduler messages
  into events (`monitor`), and the interface state with its key handling and
  display text (`ui`). `text` holds the string helpers they share.
- `app/` is the program around it: sockets, the async event loop, the
  terminal and drawing. It performs what the library decides.
- `tests/` runs the library on concrete values.
