# rompatch_core

A ROM patching library verified with Verus: it applies IPS, UPS, BPS, PMSR,
APS (GBA and N64), PPF, RUP and BDF patches, detects patch formats and ROM
headers, fixes Game Boy and Mega Drive checksums, describes patch headers, and
keeps the index of a local ROM/patch library. Every function states what it
returns in its contract, and Verus proves the code against it.

## Layout

- `src/` — the verified library.
  - `format/` — one module per patch format, each with a spec of the format
    (`apply_spec` or an equivalent relation) and an `apply` proved to meet it;
    `format/mod.rs` detects formats by magic and dispatches.
  - `apply.rs` — the whole pipeline: header stripping, hash checks, format
    choice, checksum fixing, header re-attachment.
  - `bin_file.rs`, `buf.rs`, `text.rs` — byte reading, buffer edits and text
    building with their models.
  - `hash.rs` — CRC-32, MD5, SHA-1 and Adler-32 through their crates.
  - `header.rs`, `checksum_fix.rs`, `info.rs` — ROM headers, cartridge
    checksums and patch descriptions.
  - `library.rs`, `civil.rs` — the library index (recording, listing,
    deleting) and calendar dates for its timestamps.
  - `command.rs` — the command line's decisions: options, default output
    names, report lines and exit codes.
- `tests/` — tests of the library on concrete values.
- `app/` — the `rompatch` command-line tool and the library's file storage:
  reading and writing files around the verified code.

Public proof functions (`lemma_*`) state the library's laws: for example that
fixing a checksum twice changes nothing more, that the newest-first listing is
sorted and keeps every entry, and that every day number has exactly one
calendar date.
