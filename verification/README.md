# protobuf_forensic

A schemaless Protocol Buffers wire-format decoder with a forensic analysis
layer, written in Verus. Given a blob and no `.proto`, it decodes the wire
format into a field tree, infers what each length-delimited payload is
(message first, then printable UTF-8 text, then opaque bytes), scores the
ambiguous readings, and renders the result as an indented text tree or a
protoscope-like listing.

## Layout

- `src/` — the verified library.
  - `varint.rs`, `reader.rs`, `wire.rs`, `error.rs`: the bounds-checked decoder.
    `parse_fields` specifies what a byte range means; `read_fields` is proved
    to compute exactly that, with every error and its offset.
  - `text.rs`: printable UTF-8 recognition (RFC 3629 validity plus no control
    characters other than tab, LF and CR).
  - `packed.rs`: re-reading a payload as a packed repeated field.
  - `analysis.rs`: path-addressed analysis with confidences and notes.
  - `render.rs`, `hex.rs`, `strings.rs`: text, protoscope and hex renderings.
  - `cli.rs`: hex-argument parsing and the command-line error type.
  - `laws.rs`, `relocate.rs`: properties that span functions (well-formed
    trees, message-first inference at every level, the depth bound, a single
    framed field decoding to itself, error offsets inside the input, the
    shape of each analysed field). The hex round trip is proved in `hex.rs`,
    the data shown by error messages in `error.rs`, and the packed count
    bound in `packed.rs`.
- `tests/` — behavioural tests run against the compiled library.
- `app/` — the command-line front end: argument parsing, file and stdin
  input, JSON lines output, and the floating-point timestamp flagging.
