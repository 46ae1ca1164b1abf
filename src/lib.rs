//! A small markup renderer: attribute sets with first-wins deduplication,
//! ordered children, and a single render function over a sum type of
//! renderable shapes.

pub mod node;
pub mod element_attribute;
pub mod children;
pub mod element_attributes;
pub mod element;
