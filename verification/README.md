# cherry

A keyboard-driven wallpaper picker for Wayland. The picker's logic is a
Verus-verified library; the window, the file system and the external
commands live in a thin program around it.

## Layout

- `src/wallpapers.rs` — the `Wallpaper` type, case-insensitive fuzzy
  matching (proved to decide "the lowercased query is a subsequence of the
  lowercased name") and filtering of the wallpaper list (proved to return
  exactly the matching positions, in order).
- `src/scan.rs` — which directory entries are listed (png/jpg/jpeg files in
  any case) and their stable sort by file name (proved sorted, a permutation
  of the listed entries, equal names in scan order).
- `src/picker.rs` — search, selection and keyboard navigation: the list
  rows, the preview, what Escape, Enter, the arrows and Tab do.
- `src/loader.rs` — the loader's channel and the preparation of a decoded
  image as a texture (downscaled above 1600 px, four bytes per pixel).
- `src/captions.rs` — the size caption and the notification text.
- `app/` — the egui/eframe program: directory reading, the background
  image thread, drawing, applying the wallpaper with `awww`.
- `tests/` — tests of the library.
