pub mod app;
pub mod input;
pub mod keyboard;
pub mod selected;
pub mod word_list;
