//! The bricks: rectangles that take two hits to break.

use vstd::prelude::*;
use crate::geometry::{Rect, Vec2};

verus! {

/// The width of a brick, in sub-pixel units.
pub const BLOCK_WIDTH: i32 = 100_000;

/// The height of a brick, in sub-pixel units.
pub const BLOCK_HEIGHT: i32 = 40_000;

/// The hit-points a brick starts with.
pub const BLOCK_LIVES: i32 = 2;

/// The kinds of brick. The kind decides the colour a brick is shown in.
#[derive(Clone, Copy, Debug, PartialEq, Eq, Structural)]
pub enum Blocktype {
    Regular,
    SpawnBallOnDeath,
}

/// The colours a brick is shown in.
#[derive(Clone, Copy, Debug, PartialEq, Eq, Structural)]
pub enum BlockColor {
    Red,
    Orange,
    Green,
}

/// A brick: the rectangle it occupies, the hits it can still take, and its
/// kind.
#[derive(Clone, Copy, Debug, PartialEq, Eq, Structural)]
pub struct Block {
    /// The rectangle the brick occupies.
    pub rect: Rect,
    /// The hits the brick can still take.
    pub lives: i32,
    /// The kind of brick.
    pub block_type: Blocktype,
}

impl Block {
    /// The colour of a brick of the given kind with the given hit-points: a
    /// regular brick is red while untouched and orange afterwards, the other
    /// kind is always green.
    pub open spec fn color_of(block_type: Blocktype, lives: int) -> BlockColor {
        match block_type {
            Blocktype::Regular => if lives == BLOCK_LIVES {
                BlockColor::Red
            } else {
                BlockColor::Orange
            },
            Blocktype::SpawnBallOnDeath => BlockColor::Green,
        }
    }

    /// The brick after one more hit: one hit-point fewer, down to the least
    /// value the counter can hold.
    pub open spec fn struck(self) -> Block {
        Block {
            lives: if self.lives > i32::MIN {
                (self.lives - 1) as i32
            } else {
                self.lives
            },
            ..self
        }
    }

    /// Whether the brick has hit-points left. A brick without any is taken
    /// off the board at the end of the frame.
    pub open spec fn alive(self) -> bool {
        self.lives > 0
    }

    /// An untouched brick of the given kind with its corner at `pos`.
    pub fn new(pos: Vec2, block_type: Blocktype) -> (block: Block)
        ensures
            block == (Block {
                rect: Rect { x: pos.x, y: pos.y, w: BLOCK_WIDTH, h: BLOCK_HEIGHT },
                lives: BLOCK_LIVES,
                block_type,
            }),
    {
        Block {
            rect: Rect { x: pos.x, y: pos.y, w: BLOCK_WIDTH, h: BLOCK_HEIGHT },
            lives: BLOCK_LIVES,
            block_type,
        }
    }

    /// The colour to show the brick in.
    pub fn color(&self) -> (c: BlockColor)
        ensures
            c == Block::color_of(self.block_type, self.lives as int),
    {
        match self.block_type {
            Blocktype::Regular => {
                if self.lives == BLOCK_LIVES {
                    BlockColor::Red
                } else {
                    BlockColor::Orange
                }
            },
            Blocktype::SpawnBallOnDeath => BlockColor::Green,
        }
    }

    /// Whether one more hit breaks the brick: it has a hit-point left, and
    /// the hit takes its last. A brick that is already broken cannot be
    /// broken again.
    pub open spec fn breaks(self) -> bool {
        self.alive() && !self.struck().alive()
    }

    /// Takes one hit-point from the brick and reports whether that was its
    /// last: whether this hit broke a brick that had a hit-point left.
    pub fn hit(&mut self) -> (broken: bool)
        ensures
            *final(self) == old(self).struck(),
            broken == old(self).breaks(),
            broken == (old(self).lives == 1),
            old(self).lives > i32::MIN ==> final(self).lives == old(self).lives - 1,
    {
        let was_alive: bool = self.lives > 0;
        if self.lives > i32::MIN {
            self.lives = self.lives - 1;
        }
        was_alive && self.lives <= 0
    }

    /// Whether the brick has hit-points left.
    pub fn is_alive(&self) -> (alive: bool)
        ensures
            alive == self.alive(),
    {
        self.lives > 0
    }
}

} // verus!
