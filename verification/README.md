# rssstv

The rules behind an SSTV station's desktop interface, written in Verus and
proved against their contracts.

`src/` is the library:

- `app` — the interface's state and decisions: the QSO fields and their
  serial, what decoded identifiers fill in, why a transmission cannot start,
  what the transmit and receive tabs report, when to draw again, when a
  composition is asked for, and the operator's own variables.
- `config` — what the configuration file is read as, and the edits that write
  the settings back; `document` models the file as a tree of sections and
  proves, over that model, that settings written back are read as they were
  stored; `settings_file` parses, reads and edits the file with `toml_edit`,
  each of its calls stated over the same model.
- `bands` — the band plan: the built-in one, reading a file, finding a
  frequency's band, stepping within one.
- `history` — kept receptions: their names, their XMP packets, and their
  encodings.
- `receive`, `transmit` — what the workers report, and the decisions their
  loops make.
- `i18n` — the languages, and the interface's messages in each through
  `fluent-bundle`, a missing message reading as its key.
- `library`, `menu`, `paths`, `platform`, `text` — the library lists, the
  menu model, the directory layout, what differs between operating systems,
  and text handling.

`app/` is the program around it: finding directories, reading and writing
files (the Fluent texts among them), logging, and the window.
`tests/` runs the library on concrete values.
