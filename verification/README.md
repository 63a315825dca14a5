# zbus_names (verified)

Validation of D-Bus bus names, proved with Verus.

- `src/rules.rs`: the byte-level rules of unique and well-known names as spec
  functions, and the element-by-element parser both kinds share.
- `src/elements.rs`: names as elements joined by dots, and the proof that the
  byte-level rules describe exactly such names.
- `src/unique_name.rs`, `src/well_known_name.rs`: the name types, the parser
  and byte-by-byte validators, and the laws about each kind of name.
- `src/chars.rs`: the trusted byte-class tests of winnow and std.
- `app/`: the same types with the serde and zvariant derives, and conversions.
