//! Reading and editing of Advanced SubStation Alpha (`.ass`) subtitle scripts.

pub mod colour;
pub mod grammar;
pub mod laws;
pub mod lexical;
pub mod parser;
pub mod subtitle;
pub mod text;
pub mod ui;
