//! A paddle-and-ball brick-breaker, simulated one frame at a time on exact
//! integer arithmetic.
//!
//! A [`game::Game`] owns the paddle, the balls and the bricks of one session.
//! [`game::Game::step`] advances it by one frame, given what the frame brings
//! in from outside as a [`game::Frame`]: the time that has passed, the size of
//! the screen and the keys. Nothing in this crate reads input or draws; a
//! caller polls, steps, and renders what the session then holds.
//!
//! # Units
//!
//! Positions and sizes are whole numbers of sub-pixel units, a thousand to
//! the pixel ([`units::PIXEL`]). Directions are whole millionths
//! ([`units::UNIT`] is a component of magnitude one), and time is counted in
//! microseconds ([`units::SECOND`]). The y axis points down the screen.
//! Coordinates are 32-bit; a sum that would leave that range stops at its
//! end, and every contract that involves such a sum says so through
//! [`units::clip`].
//!
//! # Contracts
//!
//! Every executable function is total and says exactly what it returns or
//! changes, over mathematical integers and sequences. The per-frame step is
//! stated on [`game::GameView`], the session as a mathematical value, as a
//! chain of stages; [`theorems`] proves what holds of every collision and
//! every frame from those definitions. The one thing taken on trust is that
//! the random draw behind [`ball::Ball::new`] stays within the bounds it is
//! given.

pub mod ball;
pub mod block;
pub mod game;
pub mod geometry;
pub mod player;
pub mod theorems;
pub mod units;
