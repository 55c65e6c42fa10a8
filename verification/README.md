# nnbfl_preview

The verified core of a previewer and editor for Nintendo UI layouts (BFLYT) and the
SARC archives that hold them.

`src/` is the library, checked with Verus:

- `magic`, `compression`: recognising file kinds by their header and removing a
  Zstandard or Yaz0 layer (the decompression itself is done by `tomolib` and `szs`).
- `sarc_walk`, `archive`, `scan`, `scan_laws`, `labels`: finding layout packages in
  nested archives, naming them, and the state of a background scan that keeps its
  entries in name order.
- `pane_tree`, `edit_history`, `tree_laws`, `visibility`, `anim_groups`: the pane
  tree, its edits with undo and redo, and which panes animations drive and hide.
- `glyph_atlas`, `atlas_laws`: shelf packing of glyph bitmaps into one texture.
- `batches`, `material`: grouping textured quads into draw batches with their index
  lists, and the texture, sampler and combiner settings a quad takes from its
  material.
- `game_config`, `frames`, `timeline`, `keybinds`, `ui_state`, `tabs`, `text`: the
  per-game font locations, window frame textures, timeline rows, shortcuts and the
  decisions behind the editor's panels.

`app/` holds what the library does not: the command-line front end, the scan's worker
thread and file reading, parsing SARC archives with `nnbfl`, and the floating-point
parts of glyph placement and animation playback.
