# h2gb

A library for describing and reading values in binary data: integers and
characters of any primitive size and byte order, how they are rendered as
text, datatypes built from them (strings, network addresses, UUIDs,
enumerations, bitmasks, arrays, structs, named references), and the named
collections of values (constants, enumerations, bitmasks, types) that those
datatypes refer to.

The library in `src/` is written in Verus: each public function carries a
contract over mathematical models (`Seq`, `Map`, `int`), and the whole crate
is proved against those contracts.

## Layout

- `src/number/` — reading values at a position of a buffer (`Context`),
  integers (`Integer`, `IntegerReader`), characters (`Character`,
  `CharacterReader` for ASCII, UTF-8, UTF-16 and UTF-32), number parsing, and
  the formatters that render integers in decimal, hex, octal, binary,
  scientific or boolean form.
- `src/types/` — the datatypes (`H2Type` and its variants), their sizes,
  ranges, alignment and display (`layout`), and fully worked-out values
  (`resolved`).
- `src/data/` — named collections grouped by namespace (`DataEntry`, `Data`),
  the constants, enumerations and bitmasks they hold, the lookup tables built
  from CSV text, and reading and writing them as CSV, JSON, YAML and RON.
- `app/` — what needs the file system or floating point: loading data files
  and directories, and reading and rendering floats.
- `tests/` — tests of the library on concrete values.

Calls into outside crates (csv, serde_json, serde_yaml, ron, bimap, uuid,
macaddr) go through small trusted wrappers whose contracts state what those
crates document.
