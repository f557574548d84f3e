//! Execution core of a reverse-mode automatic-differentiation engine:
//! tensor metadata over shared byte storage, autograd metadata, a
//! computation graph of backward nodes, and the dependency-driven engine
//! that walks it to produce gradients.
pub mod counting;
pub mod device;
pub mod dims;
pub mod engine;
pub mod error;
pub mod storage;
pub mod flow;
pub mod graph;
pub mod linear;
pub mod matrix;
pub mod node;
pub mod ops;
pub mod options;
pub mod resize;
pub mod shape;
pub mod autograd;
pub mod autograd_meta;
pub mod tensor_impl;
pub mod tensor_ops;
pub mod version;
pub mod optim;
pub mod reduce;
