# dupefind

Finds duplicate files by content and reclaims the space they waste, in a terminal.
The logic is a library that Verus verifies; a thin program around it talks to the
disk and the terminal.

## Layout

- `src/` is the verified library.
  - `scan` decides what each phase of a scan keeps, from the walk to the groups, and
    `scan/laws` states what the phases guarantee together: no duplicate is missed, and
    the files of a group agree in every byte.
  - `hashing` feeds contents to BLAKE3 piece by piece; `cache` remembers hashes between
    scans.
  - `model` holds files, groups, marks and keep strategies. A group always keeps a copy.
  - `app` is the state machine behind the keys; `app/laws` states what holds of the
    dashboard, such as that only a confirmation deletes.
  - `delete` plans and follows deletions, `export` builds the reports, `cli` turns
    flags into options.
  - `ui` and `format` produce the styled text of every screen.
  - `path/laws` takes a path apart below a directory and puts it together again.
  - `path`, `time`, `text`, `order`, `grouping` and `selection` are what the rest is
    built on.
- `app/` is the program: command line, walking and reading files, worker threads, the
  cache file, the trash, and drawing.
- `tests/` runs the library on concrete trees, keys and screens.

Paths are sequences of bytes as Unix has them and need not be UTF-8. The program is for
Unix: Windows path prefixes and drives are not understood.

## What is trusted

Calls into `blake3`, `humansize` and `base64`, and the parts of the standard library
that decode, trim and change the case of text, stand behind functions whose contracts
are stated and not proved. Each says above its declaration what it claims.
