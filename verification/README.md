# spotiamp skin library

The skin handling and event routing of a Winamp-styled music player, written
in Verus and proved against its contracts.

- `src/text.rs`: chars and strings: ASCII case mapping, the Unicode
  `White_Space` set, decimal rendering, and the Unicode case mapping of the
  standard library.
- `src/paths.rs`: paths held as strings; `file_name`, `parent` and `join`
  are those of `std::path`.
- `src/naming.rs`: display names from skin ids, slugs of folder names, and the
  steps of the search for a free folder in the skins folder.
- `src/skins.rs`: the bundled skin, skin folders read from folder scans, and
  listings sorted by name.
- `src/library.rs`: the merged skin library and the choice of the current skin.
- `src/import.rs`: the decisions of a skin import, step by step.
- `src/player.rs`: which playback events reach the player window, and the
  media-key bindings.
- `app/`: the application around the library: windows, file system access,
  settings, and the front end's commands.
- `tests/`: tests of the library on concrete values.
