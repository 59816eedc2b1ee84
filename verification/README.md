# license_compliance

Checks open-source license compatibility across a Rust project's dependencies:
it reads the package list of `Cargo.lock`, resolves each dependency's SPDX license
expression, parses it, checks it against the project's license with a built-in
database of 18 licenses, and writes a compliance report.

Layout:

- `src/` — the library, verified with Verus:
  - `text.rs` — character-level helpers (trimming, case mapping, substring
    search, UTF-8 widths, decimal notation) and the four calls into std that are
    trusted.
  - `license_db.rs` — the license database, its lookup and the list filter.
  - `spdx_parser.rs` — tokenizer and recursive-descent parser for SPDX expressions.
  - `cargo_parser.rs` — lockfile reading, `[package]` defaults, well-known crates.
  - `dependency_scanner.rs` — license resolution for each dependency.
  - `compatibility_checker.rs` — the compatibility decision and its laws.
  - `report_generator.rs` — report counting and the text table.
- `app/main.rs` — the command line, file and registry access, TOML and JSON.
- `tests/` — tests of the library.
