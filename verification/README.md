# gdsii

A streaming GDSII reader, parser and writer, verified with Verus.

GDSII layout files are sequences of records: a four-byte header (length, record type,
data type) and a big-endian body. The library reads the records of a byte buffer, parses
them into events (library header, structure header, element, property, structure end,
library end), and writes events back as records.

## Layout

- `src/bytes.rs`: big-endian integers and their byte encodings (through `zerocopy`).
- `src/types.rs`: record and data types, record headers.
- `src/float.rs`: GDSII base-16 reals: exact parts, and encoding from an `f64`'s bits.
- `src/reader.rs`: the record reader and the decoding of record bodies.
- `src/events.rs`: events and elements.
- `src/parser.rs`: the event parser, with its grammar over the record stream.
- `src/writer.rs`: the event writer, with the records each event is written as.
- `src/roundtrip.rs`: records written by the writer read back as themselves.
- `src/wellformed.rs`: well-formed event streams; written, they parse back as the same
  events, and a file so written is rewritten byte for byte.
- `src/parsed.rs`: what the parser reads from any bytes follows the grammar and, read,
  written and read again, gives the same events.
- `src/canonical.rs`: a well-formed file, with records as the writer writes them, is
  rewritten byte for byte.
- `app/`: conversions to and from `f64`, errors that display themselves, iterators, and
  a writer over `std::io::Write`.
- `tests/`: tests of the library on concrete inputs.
