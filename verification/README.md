# audiobook_forge

The core of a tool that turns folders of audio files into M4B audiobooks, written in Rust and
verified with Verus.

- `src/` is the library. It reads and merges chapter lists (`chapter*`, `patterns`, `text`), finds
  audiobooks in directory listings (`files`, `scanner`, `selection`), and takes the decisions of
  the commands (`commands`, `config`, `building`, `audible`, `metadata`, `matching`, `report`).
  It does no input or output: it is handed what was read, and says what to do.
- `app/` is the program around it: the command line, the file system, the calls of outside tools.
- `tests/` runs the library on concrete values.

What the library believes without proof is stated where it is used: the regex engine in
`patterns`, the number of CPUs in `building`, and a few functions of the standard library in
`text`, `files` and `paths`.
