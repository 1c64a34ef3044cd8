# sesearch_rust

A parser and query engine for SELinux binary kernel policies (Android
`sepolicy` / `precompiled_sepolicy`, or `/sys/fs/selinux/policy`), with
`sesearch`/`seinfo`-style output, written in Verus. The format, the queries
and the output are stated as functions on bytes and values, and the code is
proved to compute them.

## Layout

| Path | Contents |
|------|----------|
| `src/reader.rs` | bounds-checked little-endian cursor; each read is stated as a function of the bytes and the position |
| `src/text.rs` | decimal and hexadecimal renderings, string building |
| `src/order.rs` | the order of `str` on strings; merge sort |
| `src/collections.rs` | `NameSet` / `NameMap`: name-keyed collections kept sorted |
| `src/policy.rs` | the policy model, rule statements, and the `Query` filter |
| `src/json.rs` | the JSON value model and its compact rendering |
| `src/symtab.rs`, `src/tables.rs` | symbol-table datums and the eight symbol tables |
| `src/resolve.rs` | class permissions merged with their commons |
| `src/avtab.rs` | access-vector entries, permission decoding, ioctl ranges |
| `src/constraint.rs` | constraint expressions rendered in infix form |
| `src/sections.rs` | the rule sections after the symbol tables |
| `src/parser.rs` | the header and the whole blob: `sp_parse` and `parse` |
| `src/membership.rs` | attribute members are concrete types after any parse |
| `src/truncation.rs` | each reader on a prefix of the blob agrees or fails; a truncated blob is refused |
| `src/testgen.rs` | a synthetic policy blob, and what reading back a write gives |
| `src/cli.rs` | command-line arguments to a run configuration |
| `src/report.rs` | name checks with suggestions, matching rules, rule JSON |
| `src/listing.rs` | summary and symbol listings, the complete output of a run |
| `app/main.rs` | the program: arguments, the policy file, printing |
| `tests/` | tests of the library |
