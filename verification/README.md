# strict_types

Strict types: a type system for deterministic, confined binary data layouts, with
the functions of the library verified by Verus against their contracts. The calls
into outside crates (SHA-256, BLAKE3, Base85, Baid58/Baid64, mnemonics) and
`String::from_iter` go through nine small `external_body` wrappers whose contracts
are trusted, not proved; each one's doc comment says what it claims.

The library (`src/`) holds:

- `primitive`: one-byte codes of primitive numeric types, their classes and sizes;
- `ident`: ASCII identifiers and the names built on them, with their encoding;
- `collection`: collections with bounds on the number of items;
- `ast`: type ASTs (`Ty`), their semantic ids (SHA-256 commitments), binary
  encoding and decoding, text, paths into them and their text, the key types of
  maps (`ast::key`), the errors of checking a value against a type, and
  translation between kinds of type references;
- `encoding`: decode errors, little-endian numbers, semantic versions, the traits
  that describe how Rust types map onto strict types, and counting writers;
- `layout`: type sizes, compatibility, memory-layout ids, and layout descriptions
  (`TypeInfo::to_vesper` for one item, `TypeLayout::to_vesper` for the tree of a
  whole layout);
- `armor` and `bindle`: ASCII armoring of binary data, and writing and reading
  bindles (a text that `bindle_text` writes, `parse_bindle` reads back);
- `dtl`: ids of libraries of types (keyed BLAKE3 of their root type ids);
- `typelib`: type libraries (a name, dependencies under aliases, named types),
  their binary encoding and decoding with the ordering checks, and their ids;
- `data`, `ty`, `util`: plain data descriptions and small shared values.

Laws that span functions are public proof functions next to the functions they
speak of, such as `ast::serialize::lemma_ty_roundtrip`,
`ast::key::lemma_key_ty_roundtrip`, `typelib::lemma_type_lib_roundtrip`,
`encoding::semver::lemma_semver_roundtrip` and
`bindle_law::lemma_bindle_frame_roundtrip`.
