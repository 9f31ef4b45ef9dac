# magic_pocket

The clipboard-history logic of a small desktop clipboard tool, written in Verus
and proved against its contracts.

- `src/` is the verified library:
  - `limits.rs`: the history limit and how a requested limit is brought into range;
  - `text.rs`: trimming by Unicode white space, one-line summaries, tag cleaning,
    joining, decimal and hexadecimal forms;
  - `digest.rs`: SHA-256 hashing (through `sha2`) as lower-case hexadecimal;
  - `record.rs`: history records and their plain-value model;
  - `capture.rs`: turning what the clipboard holds (files, an image, a text) into a
    capture with a signature, a display line and a search text; PNG encoding
    through `image`;
  - `store.rs`: the history store: loading, storing captures (repeats are
    recognised by signature), favorites, tags, the limit, deletion;
  - `actions.rs`: what the shortcut does to the window and what copying a record
    back puts on the clipboard;
  - `laws.rs`: properties that span several operations.
- `app/` is the Tauri shell: window, commands, shortcut, the clipboard polling
  thread, JSON persistence and image files.
- `tests/` runs the library on concrete values.
