//! A validated, immutable, string-backed identifier type.
//!
//! The library offers a single value type, [`Symbol`]: a non-empty textual
//! token with canonical construction and validation, derived structural
//! accessors (`is_composite`, `root`, `topic`), value-based equality and
//! hashing, and a two-phase restore path for cross-boundary reconstruction.

pub mod errors;
pub mod symbol;

pub use errors::ValidationError;
pub use errors::ValidationViolation;
pub use symbol::CmpOp;
pub use symbol::LexOrdering;
pub use symbol::Symbol;
