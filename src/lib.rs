pub mod geometry;
pub mod raster;
pub mod render;
pub mod texture;
pub mod tiles;
pub mod utilities;
pub mod wireframe;
