# Local Words

An editor for the localisation files of a game mod: a dictionary holds the
lines of a primary language by tag, the other languages read against those
tags, and the versions of its content.

- `src/` is the library, verified with Verus: the `vrt` line format and its
  repairs, loading and listing a dictionary's languages, translations and
  their missing lines, the dictionary and what the editor shows of it, the
  files written for translators, the settings, and the editor's session as a
  state machine. `src/externals.rs` holds every call into std or an outside
  crate whose contract Verus takes on trust.
- `tests/` runs the library on concrete values.
- `app/` is the window around it (egui), the file and archive reading and
  writing, the localisation of the interface and the loading thread.
