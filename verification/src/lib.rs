//! Skin library logic of a small music player: naming, slugs, folder scans,
//! the merged skin library, skin imports, and the player's event routing.
pub mod text;
pub mod paths;
pub mod naming;
pub mod skins;
pub mod library;
pub mod import;
pub mod player;
