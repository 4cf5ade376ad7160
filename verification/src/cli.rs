pub mod channel;
