//! Verified core of a Gerber/Excellon to G-code milling pipeline.
pub mod conversion;
pub mod edges;
pub mod excellon;
pub mod gerber;
pub mod macro_expr;
pub mod mods;
pub mod pipeline;
pub mod raster;
pub mod stackup;
pub mod text;
