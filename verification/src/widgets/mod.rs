pub mod conflict_editor;
pub mod unified_diff;
pub mod word_diff;
