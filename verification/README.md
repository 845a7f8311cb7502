# tilemap_editor

A layered tilemap editor whose editing rules are a Verus-verified library.

- `src/`: the verified library. The layered tile grid and its resize, cell
  edits with a bounded undo/redo history, orientation edits, selections and
  paste sizes, the tileset library (merge, import, categories, menus), the
  palette filter, the text fields, and the decisions behind the menus and the
  renderer. Each public function states its result in `ensures`; the laws that
  span several calls are public proof functions (`lemma_*`).
- `tests/`: tests of the library on concrete values.
- `app/`: the Bevy front end (windows, input, rendering, files). It calls the
  library for every rule.
