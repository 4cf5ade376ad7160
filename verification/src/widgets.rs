pub mod editor;
pub mod bot_list;
pub mod app;
pub mod avatar;
pub mod editor_laws;
pub mod edit_laws;
pub mod quick_launcher;
pub mod double_column;
pub mod input_laws;
