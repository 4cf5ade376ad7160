//! Polestar: the chat message model, the streaming reply accumulator and the
//! logic of the message editor, with their contracts.

pub mod ext;
pub mod model;
pub mod text;
pub mod widgets;
pub mod service;
pub mod db;
pub mod cli;
