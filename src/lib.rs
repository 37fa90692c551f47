//! Records of intermediate graph-query results: the value model, the record container with its
//! tagged columns and current entry, join and aggregation, expansion into derived records, and
//! the byte encoding that carries records between workers, and the conversion of structured
//! result messages into entries.

pub mod value;
pub mod columns;
pub mod record;
pub mod expand;
pub mod codec;
pub mod manager;
pub mod message;
