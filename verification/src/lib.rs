pub mod render;
pub mod ui;
