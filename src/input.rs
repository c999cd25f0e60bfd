use vstd::prelude::*;

verus! {

/// The discrete intents the player can issue during play.
#[derive(Clone, Copy, PartialEq, Eq, Structural, Debug)]
pub enum Actions {
    MoveUp,
    MoveDown,
    MoveLeft,
    MoveRight,
    MoveUpLeft,
    MoveUpRight,
    MoveDownLeft,
    MoveDownRight,
    TryPickUp,
    TryGoDown,
    Wait,
}

/// The offset of a move intent (x grows rightwards, y downwards).
pub open spec fn spec_move_delta(a: Actions) -> Option<(i32, i32)> {
    match a {
        Actions::MoveUp => Some((0i32, -1i32)),
        Actions::MoveDown => Some((0i32, 1i32)),
        Actions::MoveLeft => Some((-1i32, 0i32)),
        Actions::MoveRight => Some((1i32, 0i32)),
        Actions::MoveUpLeft => Some((-1i32, -1i32)),
        Actions::MoveUpRight => Some((1i32, -1i32)),
        Actions::MoveDownLeft => Some((-1i32, 1i32)),
        Actions::MoveDownRight => Some((1i32, 1i32)),
        _ => None,
    }
}

impl Actions {
    /// The offset of a move intent; `None` for the other intents.
    pub fn move_delta(&self) -> (r: Option<(i32, i32)>)
        ensures
            r == spec_move_delta(*self),
    {
        match self {
            Actions::MoveUp => Some((0, -1)),
            Actions::MoveDown => Some((0, 1)),
            Actions::MoveLeft => Some((-1, 0)),
            Actions::MoveRight => Some((1, 0)),
            Actions::MoveUpLeft => Some((-1, -1)),
            Actions::MoveUpRight => Some((1, -1)),
            Actions::MoveDownLeft => Some((-1, 1)),
            Actions::MoveDownRight => Some((1, 1)),
            _ => None,
        }
    }
}

} // verus!
