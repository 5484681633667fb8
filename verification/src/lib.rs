pub mod build_label;
pub mod local_drive;
pub mod notes;
pub mod numerals;
pub mod paths;
pub mod pieces;
pub mod repository;
pub mod text;
pub mod text_map;
