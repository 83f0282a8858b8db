//! The session: collision response, the per-frame step and the transitions
//! between menu, play, victory and defeat.

use vstd::prelude::*;
use crate::ball::Ball;
use crate::block::{Block, Blocktype, BLOCK_HEIGHT, BLOCK_WIDTH};
use crate::geometry::{Rect, Vec2};
use crate::player::{Player, PLAYER_HEIGHT, PLAYER_WIDTH};
use crate::units::{clip, clip_i64, directed, magnitude, magnitude_i32, quot, UNIT};

verus! {

/// Whether an overlap of `a` with `b` is answered along the y axis: it is when
/// the common region is wider than it is high.
pub open spec fn is_vertical_hit(a: Rect, b: Rect) -> bool {
    a.overlap(b).w > a.overlap(b).h
}

/// The moving rectangle `a` after its overlap with the resting rectangle `b`
/// has been answered: pushed along one axis by the size of the common region,
/// away from the side on which the centre of `b` lies, and left alone where the
/// centres are level on that axis or the two do not overlap.
pub open spec fn pushed_back(a: Rect, b: Rect) -> Rect {
    if !a.overlaps(b) {
        a
    } else if is_vertical_hit(a, b) {
        Rect { y: clip(a.y - directed(a.facing(b).y as int, a.overlap(b).h as int)) as i32, ..a }
    } else {
        Rect { x: clip(a.x - directed(a.facing(b).x as int, a.overlap(b).w as int)) as i32, ..a }
    }
}

/// The direction `vel` of the moving rectangle `a` after its overlap with the
/// resting rectangle `b` has been answered. A vertical hit turns the y
/// component away from `b` when the centre of `b` is lower, and downward
/// otherwise; a horizontal hit turns the x component toward the side on which
/// the centre of `b` lies when that is the right, and leftward otherwise. The
/// magnitude of the component is kept.
pub open spec fn deflected(a: Rect, vel: Vec2, b: Rect) -> Vec2 {
    if !a.overlaps(b) {
        vel
    } else if is_vertical_hit(a, b) {
        if a.facing(b).y > 0 {
            Vec2 { y: (-magnitude(vel.y as int)) as i32, ..vel }
        } else {
            Vec2 { y: clip(magnitude(vel.y as int)) as i32, ..vel }
        }
    } else {
        if a.facing(b).x > 0 {
            Vec2 { x: clip(magnitude(vel.x as int)) as i32, ..vel }
        } else {
            Vec2 { x: (-magnitude(vel.x as int)) as i32, ..vel }
        }
    }
}

/// Computes [`directed`].
fn directed_i64(sign: i32, len: i32) -> (r: i64)
    ensures
        r == directed(sign as int, len as int),
{
    if sign > 0 {
        len as i64
    } else if sign < 0 {
        -(len as i64)
    } else {
        0
    }
}

/// Whether the moving rectangle `a` reaches into the resting rectangle `b`
/// across its top edge in a vertical hit: the two overlap in a region wider
/// than it is high, `a` begins above `b`, and `a` does not reach below it.
pub open spec fn lands_on(a: Rect, b: Rect) -> bool {
    a.overlaps(b) && is_vertical_hit(a, b) && a.y < b.y && a.bottom() <= b.bottom()
}

/// Answers an overlap between a moving rectangle and a resting one: reports
/// whether they overlap and, if so, pushes the moving rectangle back and turns
/// its direction. A rectangle that reached into the resting one across its
/// top edge is lifted by the height of the common region, so that it stands
/// on that edge, and flies upward; this holds wherever the lifted rectangle is
/// still within the range of the coordinates.
pub fn resolve_collison(a: &mut Rect, vel: &mut Vec2, b: &Rect) -> (hit: bool)
    ensures
        hit == old(a).overlaps(*b),
        *final(a) == pushed_back(*old(a), *b),
        *final(vel) == deflected(*old(a), *old(vel), *b),
        !hit ==> *final(a) == *old(a) && *final(vel) == *old(vel),
        lands_on(*old(a), *b) ==> final(vel).y <= 0 && final(vel).x == old(vel).x,
        lands_on(*old(a), *b) && b.y - old(a).h >= i32::MIN ==> {
            &&& final(a).y == old(a).y - old(a).overlap(*b).h
            &&& final(a).y + final(a).h == b.y
            &&& final(a).x == old(a).x
            &&& final(a).w == old(a).w
            &&& final(a).h == old(a).h
        },
{
    let common = match a.intersect(b) {
        Some(common) => common,
        None => {
            return false;
        },
    };
    let toward: Vec2 = a.direction_to(b);
    if common.w > common.h {
        a.y = clip_i64(a.y as i64 - directed_i64(toward.y, common.h));
        if toward.y > 0 {
            vel.y = (-magnitude_i32(vel.y)) as i32;
        } else {
            vel.y = clip_i64(magnitude_i32(vel.y));
        }
    } else {
        a.x = clip_i64(a.x as i64 - directed_i64(toward.x, common.w));
        if toward.x > 0 {
            vel.x = clip_i64(magnitude_i32(vel.x));
        } else {
            vel.x = (-magnitude_i32(vel.x)) as i32;
        }
    }
    true
}

/// The lives a session starts with.
pub const START_LIVES: i8 = 3;

/// What breaking a brick adds to the score.
pub const BLOCK_SCORE: u32 = 10;

/// The number of bricks in a row of the grid.
pub const GRID_COLUMNS: usize = 6;

/// The number of rows in the grid.
pub const GRID_ROWS: usize = 6;

/// The gap that follows each brick of the grid, to the right and below, in
/// sub-pixel units.
pub const GRID_PADDING: i32 = 5_000;

/// The distance from the top of the screen to the first row of bricks, in
/// sub-pixel units.
pub const GRID_TOP: i32 = 55_000;

/// Where the session stands.
#[derive(Clone, Copy, Debug, PartialEq, Eq, Structural)]
pub enum GameState {
    Menu,
    Playing,
    LevelCompleted,
    Dead,
}

/// What one frame brings in from outside: the time since the last frame, the
/// size of the screen, the steering keys that are held, and whether the
/// action key was pressed since the last frame.
#[derive(Clone, Copy, Debug, PartialEq, Eq, Structural)]
pub struct Frame {
    /// The time since the last frame, in time units.
    pub dt: u32,
    /// The width of the screen, in sub-pixel units.
    pub screen_w: i32,
    /// The height of the screen, in sub-pixel units.
    pub screen_h: i32,
    /// Whether the key that steers left is held.
    pub left: bool,
    /// Whether the key that steers right is held.
    pub right: bool,
    /// Whether the action key was pressed since the last frame. It starts
    /// play from the menu, adds a ball during play, and leads back to the menu
    /// after a win or a loss.
    pub action: bool,
}

/// A session: its state, the score, the lives left, the paddle, and the
/// balls and bricks in play.
#[derive(Debug, PartialEq, Eq)]
pub struct Game {
    /// Where the session stands.
    pub state: GameState,
    /// Ten for every brick broken since play began.
    pub score: u32,
    /// The lives left.
    pub player_lives: i8,
    /// The paddle.
    pub player: Player,
    /// The balls in play, in the order they were made.
    pub balls: Vec<Ball>,
    /// The bricks on the board, in the order of the grid.
    pub blocks: Vec<Block>,
}

/// A session as a mathematical value: the balls and bricks are sequences.
pub struct GameView {
    pub state: GameState,
    pub score: u32,
    pub player_lives: i8,
    pub player: Player,
    pub balls: Seq<Ball>,
    pub blocks: Seq<Block>,
}

impl View for Game {
    type V = GameView;

    open spec fn view(&self) -> GameView {
        GameView {
            state: self.state,
            score: self.score,
            player_lives: self.player_lives,
            player: self.player,
            balls: self.balls@,
            blocks: self.blocks@,
        }
    }
}

/// The middle of a screen of the given size.
pub open spec fn middle(screen_w: int, screen_h: int) -> Vec2 {
    Vec2 { x: quot(screen_w, 2) as i32, y: quot(screen_h, 2) as i32 }
}

/// The width of one cell of the grid: a brick and the gap after it.
pub open spec fn cell_width() -> int {
    BLOCK_WIDTH + GRID_PADDING
}

/// The height of one cell of the grid: a brick and the gap below it.
pub open spec fn cell_height() -> int {
    BLOCK_HEIGHT + GRID_PADDING
}

/// The x coordinate of the first column of the grid on a screen `screen_w`
/// wide: the cells are centred, and each brick sits one gap into its cell.
pub open spec fn grid_left(screen_w: int) -> int {
    quot(screen_w - cell_width() * GRID_COLUMNS as int, 2) + GRID_PADDING
}

/// The `i`-th brick of the grid on a screen `screen_w` wide, counting along
/// the rows from the top left.
pub open spec fn grid_block(screen_w: int, i: int) -> Block {
    Block {
        rect: Rect {
            x: (grid_left(screen_w) + (i % GRID_COLUMNS as int) * cell_width()) as i32,
            y: (GRID_TOP + (i / GRID_COLUMNS as int) * cell_height()) as i32,
            w: BLOCK_WIDTH,
            h: BLOCK_HEIGHT,
        },
        lives: crate::block::BLOCK_LIVES,
        block_type: Blocktype::Regular,
    }
}

/// The full grid of bricks on a screen `screen_w` wide.
pub open spec fn grid(screen_w: int) -> Seq<Block> {
    Seq::new((GRID_COLUMNS * GRID_ROWS) as nat, |i: int| grid_block(screen_w, i))
}

/// Lays out the full grid of bricks on a screen `screen_w` wide.
pub fn build_grid(screen_w: i32) -> (blocks: Vec<Block>)
    ensures
        blocks@ == grid(screen_w as int),
        blocks.len() == 36,
{
    let cell_w: i64 = BLOCK_WIDTH as i64 + GRID_PADDING as i64;
    let cell_h: i64 = BLOCK_HEIGHT as i64 + GRID_PADDING as i64;
    let left: i64 = (screen_w as i64 - cell_w * GRID_COLUMNS as i64) / 2 + GRID_PADDING as i64;
    let mut blocks: Vec<Block> = Vec::new();
    let mut i: usize = 0;
    while i < GRID_COLUMNS * GRID_ROWS
        invariant
            i <= GRID_COLUMNS * GRID_ROWS,
            cell_w == cell_width(),
            cell_h == cell_height(),
            left == grid_left(screen_w as int),
            blocks.len() == i,
            forall|j: int| 0 <= j < i ==> blocks[j] == grid_block(screen_w as int, j),
        decreases GRID_COLUMNS * GRID_ROWS - i,
    {
        let column: i64 = (i % GRID_COLUMNS) as i64;
        let row: i64 = (i / GRID_COLUMNS) as i64;
        let pos: Vec2 = Vec2 {
            x: (left + column * cell_w) as i32,
            y: (GRID_TOP as i64 + row * cell_h) as i32,
        };
        blocks.push(Block::new(pos, Blocktype::Regular));
        i = i + 1;
    }
    assert(blocks@ =~= grid(screen_w as int));
    blocks
}

/// The score after one more brick has been broken: ten more, up to the
/// largest value the counter can hold.
pub open spec fn raised(score: u32) -> u32 {
    if score + BLOCK_SCORE > u32::MAX {
        u32::MAX
    } else {
        (score + BLOCK_SCORE) as u32
    }
}

/// The score after `bricks` more bricks have been broken: ten more for each,
/// up to the largest value the counter can hold.
pub open spec fn raised_by(score: u32, bricks: int) -> u32 {
    if score + BLOCK_SCORE * bricks > u32::MAX {
        u32::MAX
    } else {
        (score + BLOCK_SCORE * bricks) as u32
    }
}

/// The number of bricks without hit-points among the first `k` of `blocks`.
pub open spec fn broken_among(blocks: Seq<Block>, k: nat) -> nat
    decreases k,
{
    if k == 0 {
        0
    } else {
        broken_among(blocks, (k - 1) as nat) + if blocks[k - 1].alive() {
            0nat
        } else {
            1nat
        }
    }
}

/// The number of bricks without hit-points in `blocks`.
pub open spec fn broken(blocks: Seq<Block>) -> nat {
    broken_among(blocks, blocks.len())
}

/// The hit-points of a brick that had `lives` after `hits` more hits: one
/// fewer for each, down to the least value the counter can hold.
pub open spec fn worn(lives: i32, hits: nat) -> i32 {
    clip(lives - hits) as i32
}

/// The ball after any overlap with the resting rectangle `obstacle` has been
/// answered.
pub open spec fn rebound(ball: Ball, obstacle: Rect) -> Ball {
    Ball {
        rect: pushed_back(ball.rect, obstacle),
        vel: deflected(ball.rect, ball.vel, obstacle),
    }
}

/// One ball on its way through the bricks, with the score.
pub struct Volley {
    pub ball: Ball,
    pub blocks: Seq<Block>,
    pub score: u32,
}

impl Volley {
    /// The volley after the ball has met brick `i`. Where the two overlap the
    /// ball rebounds and the brick loses a hit-point; the score is raised if
    /// that hit takes the last hit-point of the brick, and not if the brick had
    /// none left before.
    pub open spec fn meet(self, i: int) -> Volley {
        let block = self.blocks[i];
        if self.ball.rect.overlaps(block.rect) {
            Volley {
                ball: rebound(self.ball, block.rect),
                blocks: self.blocks.update(i, block.struck()),
                score: if block.breaks() {
                    raised(self.score)
                } else {
                    self.score
                },
            }
        } else {
            self
        }
    }

    /// Whether the ball overlaps brick `i` when it comes to it, after it has
    /// met the bricks before it.
    #[verifier::opaque]
    pub open spec fn reaches(self, i: int) -> bool {
        self.meet_first(i as nat).ball.rect.overlaps(self.blocks[i].rect)
    }

    /// The volley after the ball has met the first `k` bricks, in order.
    pub open spec fn meet_first(self, k: nat) -> Volley
        decreases k,
    {
        if k == 0 {
            self
        } else {
            self.meet_first((k - 1) as nat).meet(k - 1)
        }
    }
}

/// The start of the turn of one ball: it has rebounded from the paddle and
/// met no brick yet.
pub open spec fn opening(ball: Ball, paddle: Rect, blocks: Seq<Block>, score: u32) -> Volley {
    Volley { ball: rebound(ball, paddle), blocks, score }
}

/// The turn of one ball: it rebounds from the paddle, then meets every brick
/// in order.
pub open spec fn volley(ball: Ball, paddle: Rect, blocks: Seq<Block>, score: u32) -> Volley {
    opening(ball, paddle, blocks, score).meet_first(blocks.len())
}

/// The balls and bricks in play, with the score.
pub struct Board {
    pub balls: Seq<Ball>,
    pub blocks: Seq<Block>,
    pub score: u32,
}

impl Board {
    /// The board after ball `i` has had its turn.
    pub open spec fn serve(self, paddle: Rect, i: int) -> Board {
        let v = volley(self.balls[i], paddle, self.blocks, self.score);
        Board { balls: self.balls.update(i, v.ball), blocks: v.blocks, score: v.score }
    }

    /// The number of balls among the first `n` that overlap brick `j` when
    /// they come to it in their turns.
    pub open spec fn hits_on(self, paddle: Rect, n: nat, j: int) -> nat
        decreases n,
    {
        if n == 0 {
            0
        } else {
            let before = self.serve_first(paddle, (n - 1) as nat);
            self.hits_on(paddle, (n - 1) as nat, j) + if opening(
                before.balls[n - 1],
                paddle,
                before.blocks,
                before.score,
            ).reaches(j) {
                1nat
            } else {
                0nat
            }
        }
    }

    /// The board after the first `n` balls have had their turns, in order.
    pub open spec fn serve_first(self, paddle: Rect, n: nat) -> Board
        decreases n,
    {
        if n == 0 {
            self
        } else {
            self.serve_first(paddle, (n - 1) as nat).serve(paddle, n - 1)
        }
    }
}

/// Raises the score for a broken brick.
pub fn raise_score(score: u32) -> (r: u32)
    ensures
        r == raised(score),
{
    if score > u32::MAX - BLOCK_SCORE {
        u32::MAX
    } else {
        score + BLOCK_SCORE
    }
}

/// Gives one ball its turn: answers its overlap with the paddle, then with
/// every brick in order, taking a hit-point from each brick it overlaps and
/// raising the score for each brick whose last hit-point it takes.
pub fn collide_ball(ball: &mut Ball, paddle: &Rect, blocks: &mut Vec<Block>, score: &mut u32)
    ensures
        *final(ball) == volley(*old(ball), *paddle, old(blocks)@, *old(score)).ball,
        final(blocks)@ == volley(*old(ball), *paddle, old(blocks)@, *old(score)).blocks,
        *final(score) == volley(*old(ball), *paddle, old(blocks)@, *old(score)).score,
{
    let mut rect: Rect = ball.rect;
    let mut vel: Vec2 = ball.vel;
    resolve_collison(&mut rect, &mut vel, paddle);
    let ghost start = Volley {
        ball: rebound(*old(ball), *paddle),
        blocks: old(blocks)@,
        score: *old(score),
    };
    let n: usize = blocks.len();
    let mut i: usize = 0;
    while i < n
        invariant
            i <= n,
            n == start.blocks.len(),
            blocks@.len() == n,
            start.meet_first(i as nat) == (Volley {
                ball: Ball { rect, vel },
                blocks: blocks@,
                score: *score,
            }),
        decreases n - i,
    {
        let mut block: Block = blocks[i];
        if resolve_collison(&mut rect, &mut vel, &block.rect) {
            if block.hit() {
                *score = raise_score(*score);
            }
            blocks.set(i, block);
        }
        i = i + 1;
    }
    ball.rect = rect;
    ball.vel = vel;
}

/// The test a ball passes while it has not fallen past the bottom edge of a
/// screen `screen_h` high.
pub open spec fn in_play(screen_h: int) -> spec_fn(Ball) -> bool {
    |ball: Ball| ball.rect.y < screen_h
}

/// The test a brick passes while it has hit-points left.
pub open spec fn standing() -> spec_fn(Block) -> bool {
    |block: Block| block.alive()
}

/// One life fewer, down to the least value the counter can hold.
pub open spec fn one_life_less(lives: i8) -> i8 {
    if lives > i8::MIN {
        (lives - 1) as i8
    } else {
        lives
    }
}

impl GameView {
    /// Whether the session is in order: the paddle has its size, while the
    /// session is being played there is a life left, every ball is in order,
    /// and every brick on the board has a hit-point left.
    pub open spec fn wf(self) -> bool {
        &&& self.player.rect.w == PLAYER_WIDTH
        &&& self.player.rect.h == PLAYER_HEIGHT
        &&& self.state == GameState::Playing ==> self.player_lives >= 1
        &&& forall|i: int| 0 <= i < self.balls.len() ==> (#[trigger] self.balls[i]).wf()
        &&& forall|i: int| 0 <= i < self.blocks.len() ==> (#[trigger] self.blocks[i]).alive()
    }

    /// The session set up anew on a screen of the given size: no score, all
    /// lives, the paddle in the middle, the full grid of bricks, and one ball
    /// in the middle of the screen with the heading of `bias`. The state stays
    /// as it is.
    pub open spec fn reset(self, screen_w: int, screen_h: int, bias: int) -> GameView {
        GameView {
            state: self.state,
            score: 0,
            player_lives: START_LIVES,
            player: Player::centered(screen_w, screen_h),
            balls: seq![Ball::launched(middle(screen_w, screen_h), bias)],
            blocks: grid(screen_w),
        }
    }

    /// The session with one more ball, in the middle of the screen with the
    /// heading of `bias`.
    pub open spec fn with_extra_ball(self, screen_w: int, screen_h: int, bias: int) -> GameView {
        GameView { balls: self.balls.push(Ball::launched(middle(screen_w, screen_h), bias)), ..self }
    }

    /// The session after the paddle has moved for one frame.
    pub open spec fn paddle_moved(self, frame: Frame) -> GameView {
        GameView {
            player: self.player.moved(
                frame.dt as int,
                frame.left,
                frame.right,
                frame.screen_w as int,
            ),
            ..self
        }
    }

    /// The session after every ball has flown for one frame.
    pub open spec fn balls_moved(self, frame: Frame) -> GameView {
        GameView {
            balls: Seq::new(
                self.balls.len(),
                |i: int| self.balls[i].moved(frame.dt as int, frame.screen_w as int),
            ),
            ..self
        }
    }

    /// The session after every ball, in order, has had its turn against the
    /// paddle and the bricks.
    pub open spec fn collided(self) -> GameView {
        let board = Board { balls: self.balls, blocks: self.blocks, score: self.score }.serve_first(
            self.player.rect,
            self.balls.len(),
        );
        GameView { balls: board.balls, blocks: board.blocks, score: board.score, ..self }
    }

    /// The number of balls that overlap brick `j` when they come to it in the
    /// turns of [`GameView::collided`].
    pub open spec fn hits_on(self, j: int) -> nat {
        Board { balls: self.balls, blocks: self.blocks, score: self.score }.hits_on(
            self.player.rect,
            self.balls.len(),
            j,
        )
    }

    /// Whether taking the fallen balls away costs a life: it does when there
    /// was exactly one ball and it has fallen.
    pub open spec fn loses_life(self, screen_h: int) -> bool {
        self.balls.len() == 1 && self.balls.filter(in_play(screen_h)).len() < self.balls.len()
    }

    /// The session after the balls that fell past the bottom edge have been
    /// taken away. Where that costs a life and none is left, the session is
    /// lost.
    pub open spec fn without_fallen_balls(self, screen_h: int) -> GameView {
        let balls = self.balls.filter(in_play(screen_h));
        if self.loses_life(screen_h) {
            GameView {
                balls,
                player_lives: one_life_less(self.player_lives),
                state: if one_life_less(self.player_lives) <= 0 {
                    GameState::Dead
                } else {
                    self.state
                },
                ..self
            }
        } else {
            GameView { balls, ..self }
        }
    }

    /// The session after the bricks without hit-points have been taken away.
    /// Where no brick is left, the level is completed.
    pub open spec fn without_broken_blocks(self) -> GameView {
        let blocks = self.blocks.filter(standing());
        GameView {
            blocks,
            state: if blocks.len() == 0 {
                GameState::LevelCompleted
            } else {
                self.state
            },
            ..self
        }
    }

    /// The session in mid-frame, when everything has moved and nothing has
    /// been taken away yet: an extra ball is made if the action key was
    /// pressed, then the paddle moves, the balls fly, and the overlaps are
    /// answered.
    pub open spec fn flown(self, frame: Frame, bias: int) -> GameView {
        let start = if frame.action {
            self.with_extra_ball(frame.screen_w as int, frame.screen_h as int, bias)
        } else {
            self
        };
        start.paddle_moved(frame).balls_moved(frame).collided()
    }

    /// The session after one frame of play: everything moves, then the fallen
    /// balls are taken away, and then the broken bricks.
    pub open spec fn played(self, frame: Frame, bias: int) -> GameView {
        self.flown(frame, bias).without_fallen_balls(frame.screen_h as int).without_broken_blocks()
    }

    /// The session after one frame. In the menu the action key sets the
    /// session up anew and starts play; during play the frame is played; after
    /// a win or a loss the action key leads back to the menu and changes
    /// nothing else. `bias` is used only where a ball is made.
    pub open spec fn step(self, frame: Frame, bias: int) -> GameView {
        match self.state {
            GameState::Menu => if frame.action {
                GameView {
                    state: GameState::Playing,
                    ..self.reset(frame.screen_w as int, frame.screen_h as int, bias)
                }
            } else {
                self
            },
            GameState::Playing => self.played(frame, bias),
            _ => if frame.action {
                GameView { state: GameState::Menu, ..self }
            } else {
                self
            },
        }
    }

    /// Whether a frame makes a ball, and so draws a random number.
    pub open spec fn makes_ball(self, frame: Frame) -> bool {
        frame.action && (self.state == GameState::Menu || self.state == GameState::Playing)
    }
}

/// Computes [`middle`].
pub fn screen_middle(screen_w: i32, screen_h: i32) -> (pos: Vec2)
    ensures
        pos == middle(screen_w as int, screen_h as int),
{
    Vec2 { x: screen_w / 2, y: screen_h / 2 }
}

/// The balls that have not fallen past the bottom edge of a screen `screen_h`
/// high, in their order.
pub fn balls_in_play(balls: &Vec<Ball>, screen_h: i32) -> (kept: Vec<Ball>)
    ensures
        kept@ == balls@.filter(in_play(screen_h as int)),
{
    let mut kept: Vec<Ball> = Vec::new();
    let mut i: usize = 0;
    proof {
        reveal(Seq::filter);
        assert(balls@.take(0) =~= Seq::<Ball>::empty());
    }
    while i < balls.len()
        invariant
            i <= balls.len(),
            kept@ == balls@.take(i as int).filter(in_play(screen_h as int)),
        decreases balls.len() - i,
    {
        let ball: Ball = balls[i];
        proof {
            reveal(Seq::filter);
            assert(balls@.take(i + 1).drop_last() =~= balls@.take(i as int));
            assert(balls@.take(i + 1).last() == ball);
        }
        if ball.rect.y < screen_h {
            kept.push(ball);
        }
        i = i + 1;
    }
    assert(balls@.take(balls.len() as int) =~= balls@);
    kept
}

/// The bricks that have hit-points left, in their order.
pub fn standing_blocks(blocks: &Vec<Block>) -> (kept: Vec<Block>)
    ensures
        kept@ == blocks@.filter(standing()),
{
    let mut kept: Vec<Block> = Vec::new();
    let mut i: usize = 0;
    proof {
        reveal(Seq::filter);
        assert(blocks@.take(0) =~= Seq::<Block>::empty());
    }
    while i < blocks.len()
        invariant
            i <= blocks.len(),
            kept@ == blocks@.take(i as int).filter(standing()),
        decreases blocks.len() - i,
    {
        let block: Block = blocks[i];
        proof {
            reveal(Seq::filter);
            assert(blocks@.take(i + 1).drop_last() =~= blocks@.take(i as int));
            assert(blocks@.take(i + 1).last() == block);
        }
        if block.is_alive() {
            kept.push(block);
        }
        i = i + 1;
    }
    assert(blocks@.take(blocks.len() as int) =~= blocks@);
    kept
}

impl Game {
    /// A session in the menu, with nothing in play yet and the paddle in the
    /// middle of a screen of the given size.
    pub fn new(screen_w: i32, screen_h: i32) -> (game: Game)
        ensures
            game@ == (GameView {
                state: GameState::Menu,
                score: 0,
                player_lives: 0,
                player: Player::centered(screen_w as int, screen_h as int),
                balls: Seq::empty(),
                blocks: Seq::empty(),
            }),
            game@.wf(),
    {
        Game {
            state: GameState::Menu,
            score: 0,
            player_lives: 0,
            player: Player::default(screen_w, screen_h),
            balls: Vec::new(),
            blocks: Vec::new(),
        }
    }

    /// Sets the session up anew on a screen of the given size, with the one
    /// ball heading as `bias` says.
    pub fn reset_game_with(&mut self, screen_w: i32, screen_h: i32, bias: i32)
        ensures
            final(self)@ == old(self)@.reset(screen_w as int, screen_h as int, bias as int),
            final(self)@.wf(),
    {
        self.player_lives = START_LIVES;
        self.score = 0;
        self.player = Player::default(screen_w, screen_h);
        let mut balls: Vec<Ball> = Vec::new();
        balls.push(Ball::with_bias(screen_middle(screen_w, screen_h), bias));
        self.balls = balls;
        self.blocks = build_grid(screen_w);
        assert(self.balls@ =~= seq![
            Ball::launched(middle(screen_w as int, screen_h as int), bias as int),
        ]);
    }

    /// Sets the session up anew on a screen of the given size, with the one
    /// ball heading in a direction drawn at random.
    pub fn reset_game(&mut self, screen_w: i32, screen_h: i32)
        ensures
            exists|bias: int|
                -UNIT <= bias <= UNIT && final(self)@ == #[trigger] old(self)@.reset(
                    screen_w as int,
                    screen_h as int,
                    bias,
                ),
            final(self)@.blocks == grid(screen_w as int),
            final(self)@.balls.len() == 1,
            final(self)@.score == 0,
            final(self)@.player_lives == START_LIVES,
            final(self)@.state == old(self)@.state,
            final(self)@.wf(),
    {
        let bias: i32 = crate::ball::random_between(-UNIT, UNIT);
        self.reset_game_with(screen_w, screen_h, bias);
    }

    /// Puts one more ball into play, in the middle of the screen and heading as
    /// `bias` says.
    pub fn spawn_ball_with(&mut self, screen_w: i32, screen_h: i32, bias: i32)
        ensures
            final(self)@ == old(self)@.with_extra_ball(
                screen_w as int,
                screen_h as int,
                bias as int,
            ),
    {
        self.balls.push(Ball::with_bias(screen_middle(screen_w, screen_h), bias));
    }

    /// Lets every ball fly for one frame.
    pub fn update_balls(&mut self, frame: &Frame)
        ensures
            final(self)@ == old(self)@.balls_moved(*frame),
    {
        let n: usize = self.balls.len();
        let mut i: usize = 0;
        while i < n
            invariant
                i <= n,
                n == old(self).balls.len(),
                self.balls.len() == n,
                self.state == old(self).state,
                self.score == old(self).score,
                self.player_lives == old(self).player_lives,
                self.player == old(self).player,
                self.blocks@ == old(self).blocks@,
                forall|j: int|
                    0 <= j < i ==> self.balls[j] == old(self).balls[j].moved(
                        frame.dt as int,
                        frame.screen_w as int,
                    ),
                forall|j: int| i <= j < n ==> self.balls[j] == old(self).balls[j],
            decreases n - i,
        {
            let mut ball: Ball = self.balls[i];
            ball.update(frame.dt, frame.screen_w);
            self.balls.set(i, ball);
            i = i + 1;
        }
        assert(self.balls@ =~= old(self)@.balls_moved(*frame).balls);
    }

    /// Gives every ball, in order, its turn against the paddle and the bricks.
    /// No ball or brick comes or goes. Each brick keeps its place and kind and
    /// loses one hit-point for each ball that overlaps it in its turn, and the
    /// score rises by ten for each brick that is broken in these turns.
    pub fn collison_handle(&mut self)
        ensures
            final(self)@ == old(self)@.collided(),
            final(self)@.balls.len() == old(self)@.balls.len(),
            final(self)@.blocks.len() == old(self)@.blocks.len(),
            forall|j: int|
                0 <= j < old(self)@.blocks.len() ==> {
                    &&& (#[trigger] final(self)@.blocks[j]).rect == old(self)@.blocks[j].rect
                    &&& final(self)@.blocks[j].block_type == old(self)@.blocks[j].block_type
                    &&& final(self)@.blocks[j].lives == worn(
                        old(self)@.blocks[j].lives,
                        old(self)@.hits_on(j),
                    )
                },
            broken(final(self)@.blocks) >= broken(old(self)@.blocks),
            final(self)@.score == raised_by(
                old(self)@.score,
                broken(final(self)@.blocks) - broken(old(self)@.blocks),
            ),
    {
        proof {
            crate::theorems::lemma_collided(old(self)@);
        }
        let ghost start = Board {
            balls: old(self).balls@,
            blocks: old(self).blocks@,
            score: old(self).score,
        };
        let n: usize = self.balls.len();
        let mut i: usize = 0;
        while i < n
            invariant
                i <= n,
                n == start.balls.len(),
                self.balls.len() == n,
                self.state == old(self).state,
                self.player_lives == old(self).player_lives,
                self.player == old(self).player,
                start.serve_first(self.player.rect, i as nat) == (Board {
                    balls: self.balls@,
                    blocks: self.blocks@,
                    score: self.score,
                }),
            decreases n - i,
        {
            let mut ball: Ball = self.balls[i];
            let paddle: Rect = self.player.rect;
            collide_ball(&mut ball, &paddle, &mut self.blocks, &mut self.score);
            self.balls.set(i, ball);
            i = i + 1;
        }
    }

    /// Takes away the balls that fell past the bottom edge of a screen
    /// `screen_h` high. If the only ball fell, that costs a life, and the
    /// session is lost when none is left.
    pub fn remove_balls(&mut self, screen_h: i32)
        ensures
            final(self)@ == old(self)@.without_fallen_balls(screen_h as int),
    {
        let balls_len: usize = self.balls.len();
        let was_last_ball: bool = balls_len == 1;
        let kept: Vec<Ball> = balls_in_play(&self.balls, screen_h);
        proof {
            old(self).balls@.lemma_filter_len(in_play(screen_h as int));
        }
        let removed: usize = balls_len - kept.len();
        self.balls = kept;
        if removed > 0 && was_last_ball {
            if self.player_lives > i8::MIN {
                self.player_lives = self.player_lives - 1;
            }
            if self.player_lives <= 0 {
                self.state = GameState::Dead;
            }
        }
    }

    /// Takes away the bricks without hit-points. If no brick is left, the
    /// level is completed.
    pub fn remove_blocks(&mut self)
        ensures
            final(self)@ == old(self)@.without_broken_blocks(),
    {
        let kept: Vec<Block> = standing_blocks(&self.blocks);
        self.blocks = kept;
        if self.blocks.len() == 0 {
            self.state = GameState::LevelCompleted;
        }
    }

    /// Advances the session by one frame; `bias` gives the heading of the ball
    /// that the frame makes, if it makes one.
    pub fn step_with(&mut self, frame: &Frame, bias: i32)
        ensures
            final(self)@ == old(self)@.step(*frame, bias as int),
            old(self)@.wf() ==> final(self)@.wf(),
    {
        proof {
            if old(self)@.wf() {
                crate::theorems::lemma_step_keeps_order(old(self)@, *frame, bias as int);
            }
        }
        match self.state {
            GameState::Menu => {
                if frame.action {
                    self.reset_game_with(frame.screen_w, frame.screen_h, bias);
                    self.state = GameState::Playing;
                }
            },
            GameState::Playing => {
                if frame.action {
                    self.spawn_ball_with(frame.screen_w, frame.screen_h, bias);
                }
                self.player.update(frame.dt, frame.left, frame.right, frame.screen_w);
                self.update_balls(frame);
                self.collison_handle();
                self.remove_balls(frame.screen_h);
                self.remove_blocks();
            },
            _ => {
                if frame.action {
                    self.state = GameState::Menu;
                }
            },
        }
    }

    /// Advances the session by one frame. Where the frame makes a ball, its
    /// heading is drawn at random; a frame that makes none draws nothing.
    pub fn step(&mut self, frame: &Frame)
        ensures
            exists|bias: int|
                -UNIT <= bias <= UNIT && final(self)@ == #[trigger] old(self)@.step(*frame, bias),
            !old(self)@.makes_ball(*frame) ==> final(self)@ == old(self)@.step(*frame, 0),
            old(self)@.wf() ==> final(self)@.wf(),
    {
        let makes_ball: bool = frame.action && match self.state {
            GameState::Menu => true,
            GameState::Playing => true,
            _ => false,
        };
        let bias: i32 = if makes_ball {
            crate::ball::random_between(-UNIT, UNIT)
        } else {
            0
        };
        self.step_with(frame, bias);
    }
}

} // verus!
