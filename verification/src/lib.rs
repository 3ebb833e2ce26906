//! A verified core for reverse-mode automatic differentiation over strided
//! n-dimensional arrays.
//!
//! The library provides, with machine-checked contracts:
//! - strided array storage with shared, copy-on-write buffers;
//! - an index iterator that enumerates buffer offsets in row-major order,
//!   with a contiguous fast path proved equivalent to the general path;
//! - a broadcast/reduce engine over chosen axes;
//! - a gradient map keyed by unique tensor identities;
//! - a gradient tape whose recorded operations run in reverse order, and the
//!   merge protocol that combines the tapes of two operands.
//!
//! Elements are exact fractions ([`ratio::Ratio`]); pointwise kernels whose
//! mathematics needs floating point (exponentials and the like) are outside
//! the scope of the verified core and are represented only by their marker
//! types.

pub mod ratio;
pub mod shapes;
pub mod iterate;
pub mod storage;
pub mod gradients;
pub mod tape;
pub mod tensor;
pub mod reduce;
pub mod ops;
pub mod nn;
pub mod select;

pub use ratio::Ratio;
