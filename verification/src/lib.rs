pub mod chat;
pub mod command;
pub mod numbers;
pub mod pattern;
pub mod questions;
pub mod state;
pub mod text;
pub mod thread;
pub mod vote;
pub mod water;
