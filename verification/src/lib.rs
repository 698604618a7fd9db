pub mod bytestr;
pub mod cache;
pub mod config;
pub mod diagnostic;
pub mod diskcache;
pub mod engine;
pub mod json;
pub mod report;
pub mod scan;
pub mod schemawalk;
pub mod session;
pub mod source;
pub mod text;
pub mod validate;
