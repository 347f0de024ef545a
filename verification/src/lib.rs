//! Reader for textual ABI type signatures.
//!
//! The crate turns a signature such as `"uint256"`, `"address[]"` or
//! `"tuple(bool[3],bytes)"` into a [`ParamType`] tree, or reports an
//! [`Error`] for text the grammar does not cover.  The grammar and the
//! behaviour of the reader are stated as specification functions, and the
//! executable reader is proved to follow them exactly.

pub mod digits;
pub mod error;
pub mod laws;
pub mod param_type;
pub mod reader;

pub use error::Error;
pub use param_type::ParamType;
pub use reader::Reader;
pub use reader::MAX_NESTING;
