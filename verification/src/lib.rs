//! A reader for a small Lisp-family data notation: text in, expression trees out.

pub mod chars;
pub mod error;
pub mod grammar;
pub mod laws;
pub mod reader;
pub mod render;
pub mod roundtrip;
pub mod steps;
pub mod text;
pub mod types;
