//! Domain value types shared by every component of the engine.

use vstd::prelude::*;

verus! {

/// A position in 2D space (root-window coordinates).
#[derive(Debug, Clone, Copy, PartialEq, Eq, Hash, Structural)]
pub struct Position {
    pub x: i16,
    pub y: i16,
}

impl Position {
    /// Create a new position.
    pub fn new(x: i16, y: i16) -> (r: Self)
        ensures
            r.x == x,
            r.y == y,
    {
        Self { x, y }
    }

    /// Convert to tuple for compatibility.
    pub fn as_tuple(self) -> (r: (i16, i16))
        ensures
            r.0 == self.x,
            r.1 == self.y,
    {
        (self.x, self.y)
    }

    /// Create from tuple.
    pub fn from_tuple(tuple: (i16, i16)) -> (r: Self)
        ensures
            r.x == tuple.0,
            r.y == tuple.1,
    {
        Self { x: tuple.0, y: tuple.1 }
    }
}

impl Default for Position {
    fn default() -> (r: Self)
        ensures
            r.x == 0,
            r.y == 0,
    {
        Self { x: 0, y: 0 }
    }
}

impl From<(i16, i16)> for Position {
    fn from(tuple: (i16, i16)) -> Self {
        Self::from_tuple(tuple)
    }
}

impl vstd::std_specs::convert::FromSpecImpl<(i16, i16)> for Position {
    open spec fn obeys_from_spec() -> bool {
        true
    }

    open spec fn from_spec(tuple: (i16, i16)) -> Self {
        Position { x: tuple.0, y: tuple.1 }
    }
}

impl From<Position> for (i16, i16) {
    fn from(pos: Position) -> Self {
        pos.as_tuple()
    }
}

impl vstd::std_specs::convert::FromSpecImpl<Position> for (i16, i16) {
    open spec fn obeys_from_spec() -> bool {
        true
    }

    open spec fn from_spec(pos: Position) -> Self {
        (pos.x, pos.y)
    }
}

/// Per-character settings: position and thumbnail dimensions.
#[derive(Debug, Clone, Copy, PartialEq, Eq, Structural)]
pub struct CharacterSettings {
    pub x: i16,
    pub y: i16,
    /// Thumbnail width (0 = use auto-detect).
    pub width: u16,
    /// Thumbnail height (0 = use auto-detect).
    pub height: u16,
}

impl CharacterSettings {
    pub fn new(x: i16, y: i16, width: u16, height: u16) -> (r: Self)
        ensures
            r.x == x,
            r.y == y,
            r.width == width,
            r.height == height,
    {
        Self { x, y, width, height }
    }

    pub fn position(&self) -> (r: Position)
        ensures
            r.x == self.x,
            r.y == self.y,
    {
        Position::new(self.x, self.y)
    }

    pub fn dimensions(&self) -> (r: (u16, u16))
        ensures
            r.0 == self.width,
            r.1 == self.height,
    {
        (self.width, self.height)
    }
}

/// Offset of the label text from the border edge of a preview tile.
#[derive(Debug, Clone, Copy, PartialEq, Eq, Structural)]
pub struct TextOffset {
    pub x: i16,
    pub y: i16,
}

impl TextOffset {
    /// Build the offset from the distances to the border edge.
    pub fn from_border_edge(x: i16, y: i16) -> (r: Self)
        ensures
            r.x == x,
            r.y == y,
    {
        Self { x, y }
    }
}

} // verus!
