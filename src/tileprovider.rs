use vstd::prelude::*;

use crate::raster::Raster;

verus! {

/// Address of one map tile. Zoom 0 is the native resolution, negative zoom
/// levels cover more of the world per tile, positive ones magnify.
#[derive(Clone, Copy, Debug, PartialEq, Eq, Hash, Structural)]
pub struct TilePos {
    pub zoom: i32,
    pub x: i32,
    pub y: i32,
}

impl TilePos {
    pub fn new(zoom: i32, x: i32, y: i32) -> (r: Self)
        ensures
            r == (TilePos { zoom, x, y }),
    {
        Self { zoom, x, y }
    }
}

/// A tile source that draws every tile black.
#[derive(Clone, Copy, Debug, Default)]
pub struct Blacktile;

impl Blacktile {
    pub fn new() -> (r: Self) {
        Self
    }

    /// A black 256 by 256 gray tile, whatever the position.
    pub fn get_tile(&self, _pos: TilePos) -> (r: Option<Raster>)
        ensures
            r matches Some(t) && t.wf() && t.width == 256 && t.height == 256 && t.channels == 1
                && forall|k: int| 0 <= k < t.data@.len() ==> #[trigger] t.data@[k] == 0,
    {
        Some(Raster::filled(256, 256, 1, 0))
    }
}

} // verus!
