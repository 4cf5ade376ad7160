pub mod open_ai;
pub mod req;
pub mod reply;
