pub mod msg;
pub mod bot;
pub mod app_store;
