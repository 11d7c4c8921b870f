//! A small single-file database engine: a fixed-size page store, a
//! write-ahead log with a recoverable binary framing, an in-memory relational
//! catalog with the query engine that executes commands against it, and the
//! command language that the engine is driven by.

pub mod command;
pub mod engine;
pub mod lexer;
pub mod parser;
pub mod storage;
pub mod wal;
