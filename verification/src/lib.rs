//! Table box construction, filter conversion and paint culling for a CSS
//! layout and rendering engine, with their behaviour proved.
//!
//! - [`border`]: the widths border sides contribute to a collapsed table grid.
//! - [`span`]: parsing `colspan` / `rowspan` attribute values.
//! - [`table`]: turning a table's box tree into the grid it is laid out as.
//! - [`filters`]: turning a computed `filter` list into a filter chain.
//! - [`cull`]: deciding which elements painting a document draws.

pub mod border;
pub mod cull;
pub mod filters;
pub mod span;
pub mod table;
