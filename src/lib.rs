//! Lowers a small grammar of record and tagged-union declarations into
//! protocol-buffer schema text.

pub mod text;
pub mod emitter;
pub mod error;
pub mod ir;
pub mod schema;
pub mod lower;
pub mod syntax;
pub mod builder;
pub mod laws;
