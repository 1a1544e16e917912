//! What the operations are for, told of their inputs and results alone.

pub mod arguments;
pub mod calling;
pub mod checking;
pub mod commands;
pub mod configuring;
pub mod constraining;
pub mod decoding;
pub mod documents;
pub mod encoding;
pub mod generating;
pub mod loading;
pub mod naming;
pub mod numbers;
pub mod retrieving;
pub mod scanning;
pub mod showing;
pub mod tensors;
pub mod texts;
pub mod views;
