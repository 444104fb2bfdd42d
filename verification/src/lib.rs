//! An in-memory table of string rows that finds the single row matching an
//! exact-match condition, either by scanning every row or by probing a hash
//! index built over a subset of the columns.

pub mod column_map;
pub mod file;
pub mod hashing;
pub mod index;
pub mod laws;
pub mod model;
pub mod setup;
pub mod text;
pub mod timing;

pub use crate::column_map::ColumnMap;
pub use crate::file::File;
pub use crate::file::IndexHandle;
pub use crate::file::LookupError;
pub use crate::setup::setup;
pub use crate::timing::time;
