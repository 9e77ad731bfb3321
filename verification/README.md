# tauri_uninstaller

The verified core of a Windows application uninstaller.

- `src/` — the library, verified with Verus:
  - `uninstall/registry.rs` builds application entries from the values of the
    registry's uninstall keys (recording each key's complete path), keeps one
    entry per application, preferring one with an uninstall command, and sorts them;
  - `uninstall/uwp.rs` picks the packages out of the JSON listing of packaged
    applications and builds their entries; `json.rs` holds JSON values as
    plain data (only the parse itself is left to `serde_json`);
  - `uninstall/runner.rs` parses uninstall commands, recognises MSI uninstalls,
    chooses silent switches and decides each step of waiting for an uninstaller;
  - `uninstall/residue.rs` recognises leftover files, shortcuts and registry keys,
    parses registry key paths and collects removal results;
  - `uninstall/mod.rs` plans an uninstall and describes its outcome;
  - `uninstaller.rs` builds the plain installed-software list (with `%VAR%` expansion);
  - `icon.rs` cleans icon paths and encodes icon pixels as PNG;
  - `keyed.rs` and `text.rs` hold the ordering, sorting and string functions.
    De-duplication keeps the keys it has seen in a vector and compares them
    character by character instead of using a hash map: vstd gives a map keyed
    by `String` no usable specification of its contents, while the vector
    version is proved to keep exactly one entry per key (the preferred one).
- `app/` — the Windows side: registry, file system, processes, shell icons and
  the serialisable copies of the library's types.
- `tests/` — tests of the library on concrete values.
