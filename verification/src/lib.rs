//! Node dispatch and filter-effect execution for a vector-graphics renderer.
//!
//! A document-element tree holds heterogeneous node implementations behind one
//! capability interface: natively implemented filter primitives and foreign
//! bridges that forward behaviour to externally supplied callbacks. A chain of
//! raster filter primitives reads cascaded style, produces bounded raster
//! buffers, publishes them under optional names, and composes them into a
//! final image.

pub mod attribute;
pub mod filter;
pub mod flood;
pub mod node;
pub mod raster;
pub mod style;
