pub mod assemble;
pub mod blockstate;
pub mod contours;
pub mod heightmap;
pub mod memcache;
pub mod model;
pub mod pool;
pub mod raster;
pub mod resource_identifier;
pub mod shading;
pub mod tileprovider;
pub mod tilestore;

pub use raster::{Heightmap, Raster};
pub use tileprovider::{Blacktile, TilePos};
