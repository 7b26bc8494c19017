//! The tile queue that orders page regions for rendering: visible regions
//! first, regions adjacent to the viewport next, the rest last.

use std::collections::VecDeque;
use vstd::prelude::*;

verus! {

/// The fidelity a tile is rendered at.
#[derive(Debug, Clone, Copy, PartialEq, Eq, Structural)]
pub enum Quality {
    Draft,
    Standard,
    HighQuality,
}

/// Three priority bands of tile coordinates, drained front to back.
pub struct TileRenderQueue {
    pub visible_tiles: VecDeque<(u16, u16)>,
    pub adjacent_tiles: VecDeque<(u16, u16)>,
    pub offscreen_tiles: VecDeque<(u16, u16)>,
}

impl TileRenderQueue {
    /// An empty queue: no tile is scheduled in any band.
    pub fn new() -> (r: Self)
        ensures
            r.visible_tiles@ == Seq::<(u16, u16)>::empty(),
            r.adjacent_tiles@ == Seq::<(u16, u16)>::empty(),
            r.offscreen_tiles@ == Seq::<(u16, u16)>::empty(),
    {
        TileRenderQueue {
            visible_tiles: VecDeque::new(),
            adjacent_tiles: VecDeque::new(),
            offscreen_tiles: VecDeque::new(),
        }
    }
}

} // verus!
