# dioxus_swdir_tree_core

A verified, framework-free state machine for a lazy-loading directory-tree
widget, and its sibling over caller-supplied item trees.

- `src/` — the library, written and proved with Verus. Every transition is
  a synchronous method whose `ensures` states the new state exactly, over
  the views `TreeView` and `ItemTreeView`; scans are returned as data and
  merged back only when their generation is current. Properties that span
  several calls are public proof functions in `src/tree/laws.rs` and
  `src/item_tree/laws.rs`.
- `tests/` — executable tests of the library on concrete values.
- `app/` — the plain-Rust surroundings: the directory scan through `swdir`,
  off-thread execution, path conversion, icon specs, and the Dioxus
  components `DirectoryTreeView` and `ItemTreeView`.
