//! Loading, validating, pruning and planning of neural-network computation
//! graphs for execution on a GPU.
//!
//! The library turns a graph description into an immutable execution plan:
//! it resolves the operator-set version, builds an internal graph in which
//! producers precede consumers, drops every node that no requested output
//! depends on, selects an operator implementation per node and assigns one
//! device buffer per tensor. It also decides, per inference call, what is
//! uploaded to and read back from the device. Driving the device itself is
//! left to the caller.

pub mod builder;
pub mod compiler;
pub mod config;
pub mod error;
pub mod graph;
pub mod marks;
pub mod model;
pub mod names;
pub mod onnx;
pub mod opset;
pub mod optimizer;
pub mod registry;
pub mod session;
pub mod wire;

pub use config::SessionConfig;
pub use error::{CompileError, DataTypeError, GpuError, IrError, SessionError, WonnxError};
pub use session::Session;
