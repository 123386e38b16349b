//! Data-parallel Rust functions on Metal.
//!
//! A `#[parallel]` function ends in one iterator chain over tensors or over the points of an
//! extent:
//!
//! ```ignore
//! #[parallel]
//! fn xor(left: &Tensor<u64, 1>, right: &Tensor<u64, 1>) -> Tensor<u64, 1> {
//!     left.parallel_iter()
//!         .zip(right.parallel_iter())
//!         .map(|(left, right)| *left ^ *right)
//!         .collect()
//! }
//! ```
//!
//! [`expand::parallel`] compiles the syntax tree of such a function ([`source`]) to an element
//! kernel and its Metal source ([`kernel`]). [`runtime::plan_elementwise`] plans a dispatch of the
//! kernel over an extent, and [`execution`] says what the device is asked for next. [`extent`] and
//! [`tensor`] hold the data model: logical sizes, points, and contiguous tensors in which axis 0
//! is contiguous.
//!
//! [`meaning`] says what the Rust of a body computes, and [`metal`] what Metal source does, read
//! from its text. [`program`] proves that a compiled function, dispatched as planned, computes its
//! map. [`language`] and [`signature`] say which functions can be compiled, and [`complaint`] and
//! [`refusal`] why another one is refused.
//!
//! Nothing here talks to a device or to the Rust compiler: both are on the other side of plain
//! values.

pub mod captures;
pub mod complaint;
pub mod diagnostic;
pub mod element;
pub mod error;
pub mod execution;
pub mod expand;
pub mod expr;
pub mod extent;
pub mod host;
pub mod kernel;
pub mod language;
pub mod layout;
pub mod lower;
pub mod meaning;
pub mod metal;
pub mod names;
pub mod program;
pub mod refusal;
pub mod runtime;
pub mod scoping;
pub mod signature;
pub mod source;
pub mod statement;
pub mod syntax;
pub mod tensor;
pub mod text;
pub mod types;
pub mod wording;

pub use element::MetalElement;
pub use error::Error;
pub use expr::{Capture, Expr};
pub use extent::{Extent, Point};
pub use kernel::{ElementKernel, ScalarParam};
pub use statement::{AssignOp, Bound, DeviceBlock, Statement};
pub use tensor::Tensor;
pub use types::{BinaryOp, ScalarType, UnaryOp};
