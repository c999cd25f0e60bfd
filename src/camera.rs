use vstd::prelude::*;
use crate::geometry::Coord;

verus! {

/// Width of the drawable console, in tiles.
pub const CONSOLE_W: i32 = 80;

/// Height of the drawable console, in tiles.
pub const CONSOLE_H: i32 = 60;

/// The part of the map on screen: a console-sized window centred on a point.
pub struct Camera {
    pub min_x: i32,
    pub max_x: i32,
    pub min_y: i32,
    pub max_y: i32,
}

/// The point is far enough from the bounds of an `i32` for a window around it.
pub open spec fn framable(pos: Coord) -> bool {
    i32::MIN + CONSOLE_W / 2 <= pos.x <= i32::MAX - CONSOLE_W / 2 && i32::MIN + CONSOLE_H / 2 <= pos.y
        <= i32::MAX - CONSOLE_H / 2
}

/// The window centred on `pos`.
pub open spec fn centred_on(c: Camera, pos: Coord) -> bool {
    &&& c.min_x == pos.x - CONSOLE_W / 2
    &&& c.max_x == pos.x + CONSOLE_W / 2
    &&& c.min_y == pos.y - CONSOLE_H / 2
    &&& c.max_y == pos.y + CONSOLE_H / 2
}

impl Camera {
    pub fn new(pos: Coord) -> (r: Camera)
        requires
            framable(pos),
        ensures
            centred_on(r, pos),
    {
        Camera {
            min_x: pos.x - CONSOLE_W / 2,
            max_x: pos.x + CONSOLE_W / 2,
            min_y: pos.y - CONSOLE_H / 2,
            max_y: pos.y + CONSOLE_H / 2,
        }
    }

    /// Re-centres the window on `pos`.
    pub fn move_camera(&mut self, pos: Coord)
        requires
            framable(pos),
        ensures
            centred_on(*final(self), pos),
    {
        self.min_x = pos.x - CONSOLE_W / 2;
        self.max_x = pos.x + CONSOLE_W / 2;
        self.min_y = pos.y - CONSOLE_H / 2;
        self.max_y = pos.y + CONSOLE_H / 2;
    }
}

} // verus!
