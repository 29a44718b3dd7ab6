//! A verified tabular query engine: CSV loading with schema inference,
//! a declarative operation pipeline (select, filter, group/aggregate,
//! sort, limit, elementwise transform), and typed result encoders.

pub mod encode;
pub mod error;
pub mod executor;
pub mod groupby;
pub mod helpers;
pub mod jwt;
pub mod laws;
pub mod loader;
pub mod numeric;
pub mod sort;
pub mod statics;
pub mod table;
pub mod text;
