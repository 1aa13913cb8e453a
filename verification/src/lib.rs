//! Composite neural networks: trees of sub-networks that hand named arrays
//! to one another.
//!
//! A [`node::Node`] is a leaf, which runs a forward pass of its own, or a
//! vertex, which routes arrays between its children. The library decides
//! everything that does not depend on the numbers themselves: the window of
//! layers that each layer is connected to, the shape of every parameter and
//! value array, which named arrays pass along which edge, and the order of
//! the work. It keeps account of each array by its shape and its origin, and
//! a traversal returns the numeric work as a list of [`plan::Step`]s for a
//! tensor backend to carry out.

pub mod scope;
pub mod domain;
pub mod attribute;
pub mod edges;
pub mod names;
pub mod tensor;
pub mod plan;
pub mod utils;
pub mod layer;
pub mod width;
pub mod mesh;
pub mod processor;
pub mod node;
pub mod leaf;
pub mod traversal;
pub mod network;
