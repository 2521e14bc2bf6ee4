//! Core logic of a keyboard-driven wallpaper picker: fuzzy filtering of
//! wallpaper names, selection and keyboard navigation, directory-scan
//! selection and ordering, and image preparation for the preview pane.

pub mod captions;
pub mod loader;
pub mod picker;
pub mod scan;
pub mod wallpapers;
