# North

North is a small database engine: 8 KiB pages, stable row identifiers, immutable
table schemas with exactly one primary key, and a catalog that survives
reopening. The library under `src/` is written in Verus; what every function
returns or changes is stated in its contract and proved, but for what the platform
makes of unusual file names. The application under `app/` does the file access,
reads YAML settings, and holds the command line.

## Modules of the library

- `config`: the settings and when they can be used
- `storage`: raw pages, row identifiers, the database file and the buffer pool
- `heap`: slotted pages of variable-length rows, and heaps of linked pages
- `schema`: table schemas and the encoding of rows
- `catalog`: the persistent registry of tables
- `codec`, `text`, `message`: bytes, text and messages

A `*_format` module says what bytes mean, a `*_layout` module where an operation
leaves them, a `*_model` module what an operation does, and a `*_laws` module what holds of the operations together: what a row
read gives back, that a stale row identifier never identifies a row again, that
the buffer pool loses no change, that heaps and catalogs can be reopened.

## Steps

The library performs no input or output. An operation that needs the database
file stops with a step, such as "write this page" or "read that page", and goes
on when it is told that this was done. `app/engine.rs` runs these steps against a
file; `tests/engine.rs` runs them against memory.

## File format

All integers are little-endian. Page `n` starts at byte `n * 8192`; page zero
holds the database header. A row identifier is eight bytes: page (4), slot (2)
and generation (2).

A heap page has a 32-byte header, then an 8-byte entry for each slot, then free
space, then row bytes that are packed from the end of the page. Deleting a row
moves its slot on to the next generation, which makes the old row identifier
stale. A deleted slot is reused before the directory grows; a slot without a next
generation retires. Compaction moves row bytes and keeps every row identifier.

## Command

```sh
north --config north.yaml
```

The command checks a settings file. Unknown fields are refused, so that a
misspelled setting cannot silently fall back to a default.
