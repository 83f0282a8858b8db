//! The paddle: a rectangle that slides along the bottom of the screen.

use vstd::prelude::*;
use crate::geometry::Rect;
use crate::units::{center_in, centered, clip, clip_i64, quot, travel, travel_i64, UNIT};

verus! {

/// The width of the paddle, in sub-pixel units.
pub const PLAYER_WIDTH: i32 = 150_000;

/// The height of the paddle, in sub-pixel units.
pub const PLAYER_HEIGHT: i32 = 40_000;

/// The speed of the paddle, in sub-pixel units per second.
pub const PLAYER_SPEED: i32 = 700_000;

/// How far above the bottom edge of the screen the top of the paddle lies.
pub const PLAYER_RISE: i32 = 100_000;

/// The paddle.
#[derive(Clone, Copy, Debug, PartialEq, Eq, Structural)]
pub struct Player {
    /// The rectangle the paddle occupies.
    pub rect: Rect,
}

/// The direction the paddle is steered in: minus one for left, one for
/// right, zero for neither or both.
pub open spec fn steer(left: bool, right: bool) -> int {
    (if right {
        1int
    } else {
        0int
    }) - (if left {
        1int
    } else {
        0int
    })
}

/// `x` held to the screen: raised to zero if it is negative, then lowered to
/// `limit` if it is beyond it. The second bound wins where the two conflict.
pub open spec fn held(x: int, limit: int) -> int {
    let raised = if x < 0 {
        0
    } else {
        x
    };
    if raised > limit {
        limit
    } else {
        raised
    }
}

impl Player {
    /// The paddle at rest in the middle of a screen of the given size.
    pub open spec fn centered(screen_w: int, screen_h: int) -> Player {
        Player {
            rect: Rect {
                x: centered(screen_w, PLAYER_WIDTH as int) as i32,
                y: clip(screen_h - PLAYER_RISE) as i32,
                w: PLAYER_WIDTH,
                h: PLAYER_HEIGHT,
            },
        }
    }

    /// The paddle after `dt` time units with the given keys held, on a screen
    /// `screen_w` wide: moved sideways at [`PLAYER_SPEED`], then held between
    /// the left edge and the place where its right side meets the right edge.
    pub open spec fn moved(self, dt: int, left: bool, right: bool, screen_w: int) -> Player {
        let x = self.rect.x + travel(steer(left, right) * UNIT, PLAYER_SPEED as int, dt);
        Player { rect: Rect { x: clip(held(x, screen_w - self.rect.w)) as i32, ..self.rect } }
    }

    /// Whether the paddle lies wholly between the left and right edges of a
    /// screen `screen_w` wide.
    pub open spec fn on_screen(self, screen_w: int) -> bool {
        0 <= self.rect.x <= screen_w - self.rect.w
    }

    /// The paddle where a session begins: centred on a screen of the given
    /// size, with its top edge [`PLAYER_RISE`] above the bottom of the screen.
    /// On a screen at least as wide as the paddle it lies wholly on the
    /// screen.
    pub fn default(screen_w: i32, screen_h: i32) -> (player: Player)
        ensures
            player == Player::centered(screen_w as int, screen_h as int),
            player.rect.w == PLAYER_WIDTH,
            player.rect.h == PLAYER_HEIGHT,
            player.rect.x == quot(screen_w as int, 2) - PLAYER_WIDTH / 2,
            player.rect.y == clip(screen_h - PLAYER_RISE),
            screen_h - PLAYER_RISE >= i32::MIN ==> player.rect.y == screen_h - PLAYER_RISE,
            screen_w >= PLAYER_WIDTH ==> player.on_screen(screen_w as int),
    {
        Player {
            rect: Rect {
                x: center_in(screen_w, PLAYER_WIDTH),
                y: clip_i64(screen_h as i64 - PLAYER_RISE as i64),
                w: PLAYER_WIDTH,
                h: PLAYER_HEIGHT,
            },
        }
    }

    /// Moves the paddle for `dt` time units with the given keys held, on a
    /// screen `screen_w` wide. Where the screen is at least as wide as the
    /// paddle, the paddle ends up wholly on it.
    pub fn update(&mut self, dt: u32, left: bool, right: bool, screen_w: i32)
        ensures
            *final(self) == old(self).moved(dt as int, left, right, screen_w as int),
            screen_w >= old(self).rect.w ==> final(self).on_screen(screen_w as int),
    {
        let mut x_move: i32 = 0;
        if left {
            x_move = x_move - 1;
        }
        if right {
            x_move = x_move + 1;
        }
        let mut x: i64 = self.rect.x as i64 + travel_i64(x_move * UNIT, PLAYER_SPEED, dt);
        let limit: i64 = screen_w as i64 - self.rect.w as i64;
        if x < 0 {
            x = 0;
        }
        if x > limit {
            x = limit;
        }
        self.rect.x = clip_i64(x);
    }
}

} // verus!
