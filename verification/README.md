# wool

A library for managing theses: texts, and relations between two theses, each with an
optional alias and tags, read from and written to plain text commands such as
`/may R alias Общий релятивизм` or `/may total truth tag R`.

The library in `src/` is verified with Verus:

- `document_id`, `content`: a thesis identifier is the 128-bit xxh3 hash of its content,
  written as 22 characters of url-safe base64;
- `alias`, `tag`, `relation_kind`, `text`, `patterns`: the forms of the parts of a thesis;
- `grammar`, `command`, `reference`, `reading`, `resolver`: reading a command line;
- `writing`, `roundtrip`: writing a command as a line, and what reading it gives back;
- `thesis`, `backup`, `transaction`, `write`: theses as commands, backups of a store, and
  the rules a store applies when it changes, stated over the theses a store holds;
- `memory`: a store of theses held in memory, proved to keep those contracts.

A store is reached through the traits of `transaction` and `write`; `app/` holds the one
kept on disk and the serialised forms of the library's types.
