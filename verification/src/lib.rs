//! Resolution of chapter selections against a translation catalog, and the
//! planning of a paginated document from the resolved page images.

pub mod assemble;
pub mod catalog;
pub mod client;
pub mod driver;
pub mod pages;
pub mod raster;
pub mod resolve;
pub mod selector;
pub mod text;
pub mod wire;
