//! An embeddable property-graph database: a value model, a key codec for
//! prefix iteration, a storage engine over an ordered key-value store,
//! a traversal evaluator, and a small query-language toolchain.

pub mod binfmt;
pub mod keys;
pub mod kv;
pub mod parser;
pub mod project_gen;
pub mod protocol;
pub mod query_gen;
pub mod storage;
pub mod traversal;
pub mod types;
pub mod value;
