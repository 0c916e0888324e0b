pub mod app;
pub mod editor;
pub mod fields;
pub mod listing;
pub mod models;
pub mod render;
pub mod templates;
pub mod text;
pub mod tokens;
pub mod tree;
