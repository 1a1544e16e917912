//! The decision logic of `sting`, an on-device function-calling assistant.

pub mod catalog;
pub mod cli;
pub mod constrain;
pub mod dispatch;
pub mod error;
pub mod following;
pub mod generate;
pub mod json;
pub mod laws;
pub mod machine;
pub mod model;
pub mod parity;
pub mod ranking;
pub mod report;
pub mod retrieval;
pub mod roundtrip;
pub mod single;
pub mod snake;
pub mod spec_file;
pub mod text;
pub mod tokenizer;
pub mod tools;
pub mod trie;
pub mod vocab;
