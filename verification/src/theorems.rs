//! What holds of every collision and of every frame, proved from the
//! definitions that the contracts of the executable functions are stated
//! over.

use vstd::prelude::*;
use crate::ball::{has_unit_length, lemma_heading, length_squared, Ball};
use crate::block::Block;
use crate::game::{
    broken, broken_among, deflected, grid, in_play, is_vertical_hit, lands_on, middle, opening,
    pushed_back,
    raised, raised_by, rebound, standing, worn, Board, Frame, GameState, GameView, Volley,
    BLOCK_SCORE, START_LIVES,
};
use crate::geometry::{Rect, Vec2};
use crate::player::{Player, PLAYER_HEIGHT, PLAYER_RISE, PLAYER_WIDTH};
use crate::units::{clip, magnitude, quot};

verus! {

/// A paddle that is moved on a screen at least as wide as itself ends up
/// wholly on the screen, wherever it was before and whatever keys are held.
pub proof fn lemma_paddle_kept_on_screen(
    player: Player,
    dt: int,
    left: bool,
    right: bool,
    screen_w: int,
)
    requires
        i32::MIN <= screen_w <= i32::MAX,
        screen_w >= player.rect.w,
    ensures
        player.moved(dt, left, right, screen_w).on_screen(screen_w),
        player.moved(dt, left, right, screen_w).rect.w == player.rect.w,
{
}

/// The paddle stays on the screen from frame to frame. On a screen at least
/// as wide as the paddle, a frame of play and a frame that starts play each
/// leave the paddle wholly on the screen; any other frame leaves it where it
/// was.
pub proof fn lemma_paddle_remains_on_screen(game: GameView, frame: Frame, bias: int)
    requires
        game.wf(),
        frame.screen_w >= PLAYER_WIDTH,
    ensures
        game.state == GameState::Playing || game.makes_ball(frame) ==> game.step(
            frame,
            bias,
        ).player.on_screen(frame.screen_w as int),
        game.player.on_screen(frame.screen_w as int) ==> game.step(frame, bias).player.on_screen(
            frame.screen_w as int,
        ),
{
}

/// A ball made with any bias flies in a direction of length one, to within
/// the rounding of its two components.
pub proof fn lemma_new_ball_has_unit_velocity(pos: Vec2, bias: int)
    requires
        i32::MIN <= bias <= i32::MAX,
    ensures
        has_unit_length(Ball::launched(pos, bias).vel),
{
    lemma_heading(bias);
}

/// Rectangles that do not overlap are left as they are, and so is the
/// direction of the moving one.
pub proof fn lemma_apart_is_untouched(a: Rect, vel: Vec2, b: Rect)
    requires
        !a.overlaps(b),
    ensures
        pushed_back(a, b) == a,
        deflected(a, vel, b) == vel,
{
}

/// A vertical hit on an obstacle whose centre lies lower on the screen sends
/// the moving rectangle upward and lifts it by the height of the common
/// region. Where the moving rectangle reached into the obstacle from above, it
/// then rests on the obstacle's top edge.
pub proof fn lemma_vertical_hit_from_above(a: Rect, vel: Vec2, b: Rect)
    requires
        a.overlaps(b),
        is_vertical_hit(a, b),
        a.center_y2() < b.center_y2(),
    ensures
        deflected(a, vel, b).y == -magnitude(vel.y as int),
        deflected(a, vel, b).y <= 0,
        deflected(a, vel, b).x == vel.x,
        pushed_back(a, b).y == clip(a.y - a.overlap(b).h),
        pushed_back(a, b).x == a.x,
        pushed_back(a, b).w == a.w,
        pushed_back(a, b).h == a.h,
        a.y <= b.y && a.bottom() <= b.bottom() && b.y - a.h >= i32::MIN ==> pushed_back(
            a,
            b,
        ).bottom() == b.y,
{
}

/// A rectangle that reached into an obstacle across its top edge in a
/// vertical hit is lifted by the height of the common region and flies
/// upward. It then stands on that edge: its bottom is the top of the obstacle
/// and no height is common to the two. The lift is exact wherever the lifted
/// rectangle is still within the range of the coordinates.
pub proof fn lemma_landing(a: Rect, vel: Vec2, b: Rect)
    requires
        lands_on(a, b),
    ensures
        a.overlap(b).h == a.bottom() - b.y,
        deflected(a, vel, b).y == -magnitude(vel.y as int),
        deflected(a, vel, b).y <= 0,
        deflected(a, vel, b).x == vel.x,
        pushed_back(a, b).y == clip(a.y - a.overlap(b).h),
        pushed_back(a, b).x == a.x,
        pushed_back(a, b).w == a.w,
        pushed_back(a, b).h == a.h,
        b.y - a.h >= i32::MIN ==> {
            &&& pushed_back(a, b).y == a.y - a.overlap(b).h
            &&& pushed_back(a, b).bottom() == b.y
            &&& pushed_back(a, b).overlaps(b) ==> pushed_back(a, b).overlap(b).h == 0
        },
{
}

/// The paddle begins a session centred and, on a screen at least as wide as
/// itself, wholly on the screen.
pub proof fn lemma_new_paddle(screen_w: int, screen_h: int)
    requires
        i32::MIN <= screen_w <= i32::MAX,
        i32::MIN <= screen_h <= i32::MAX,
    ensures
        Player::centered(screen_w, screen_h).rect.w == PLAYER_WIDTH,
        Player::centered(screen_w, screen_h).rect.h == PLAYER_HEIGHT,
        Player::centered(screen_w, screen_h).rect.x + PLAYER_WIDTH / 2 == quot(screen_w, 2),
        Player::centered(screen_w, screen_h).rect.y == clip(screen_h - PLAYER_RISE),
        screen_w >= PLAYER_WIDTH ==> Player::centered(screen_w, screen_h).on_screen(screen_w),
{
}

/// A vertical hit on an obstacle whose centre lies higher on the screen sends
/// the moving rectangle downward and lowers it by the height of the common
/// region. Where the moving rectangle reached into the obstacle from below, its
/// top edge then lies on the obstacle's bottom edge.
pub proof fn lemma_vertical_hit_from_below(a: Rect, vel: Vec2, b: Rect)
    requires
        a.overlaps(b),
        is_vertical_hit(a, b),
        a.center_y2() > b.center_y2(),
    ensures
        deflected(a, vel, b).y == clip(magnitude(vel.y as int)),
        deflected(a, vel, b).y >= 0,
        deflected(a, vel, b).x == vel.x,
        pushed_back(a, b).y == clip(a.y + a.overlap(b).h),
        pushed_back(a, b).x == a.x,
        pushed_back(a, b).w == a.w,
        pushed_back(a, b).h == a.h,
        a.y >= b.y && a.bottom() >= b.bottom() && b.bottom() <= i32::MAX ==> pushed_back(a, b).y
            == b.bottom(),
{
}

/// A horizontal hit pushes the moving rectangle away from the obstacle by the
/// width of the common region and sets its direction toward the side on
/// which the centre of the obstacle lies: rightward if that is the right,
/// leftward if it is the left or neither. The y axis is left alone.
pub proof fn lemma_horizontal_hit(a: Rect, vel: Vec2, b: Rect)
    requires
        a.overlaps(b),
        !is_vertical_hit(a, b),
    ensures
        a.center_x2() < b.center_x2() ==> {
            &&& pushed_back(a, b).x == clip(a.x - a.overlap(b).w)
            &&& deflected(a, vel, b).x == clip(magnitude(vel.x as int))
            &&& deflected(a, vel, b).x >= 0
        },
        a.center_x2() > b.center_x2() ==> {
            &&& pushed_back(a, b).x == clip(a.x + a.overlap(b).w)
            &&& deflected(a, vel, b).x == -magnitude(vel.x as int)
            &&& deflected(a, vel, b).x <= 0
        },
        a.center_x2() == b.center_x2() ==> {
            &&& pushed_back(a, b).x == a.x
            &&& deflected(a, vel, b).x == -magnitude(vel.x as int)
        },
        pushed_back(a, b).y == a.y,
        pushed_back(a, b).w == a.w,
        pushed_back(a, b).h == a.h,
        deflected(a, vel, b).y == vel.y,
{
}

/// An overlap that has been answered changes at most the sign of one
/// component of the direction, so the direction keeps its length: a ball that
/// flew at length one still does.
pub proof fn lemma_rebound_keeps_length(ball: Ball, obstacle: Rect)
    requires
        ball.vel.x > i32::MIN,
        ball.vel.y > i32::MIN,
    ensures
        magnitude(rebound(ball, obstacle).vel.x as int) == magnitude(ball.vel.x as int),
        magnitude(rebound(ball, obstacle).vel.y as int) == magnitude(ball.vel.y as int),
        length_squared(rebound(ball, obstacle).vel) == length_squared(ball.vel),
        has_unit_length(ball.vel) ==> has_unit_length(rebound(ball, obstacle).vel),
{
    let before = ball.vel;
    let after = rebound(ball, obstacle).vel;
    assert(after.x * after.x == before.x * before.x) by (nonlinear_arith)
        requires
            after.x == before.x || after.x == -before.x,
    ;
    assert(after.y * after.y == before.y * before.y) by (nonlinear_arith)
        requires
            after.y == before.y || after.y == -before.y,
    ;
}

/// What meeting one brick does. A brick that the ball does not overlap is
/// left alone, with the ball and the score. A brick that it overlaps loses
/// exactly one hit-point and nothing else; the score rises by exactly ten if
/// that was the last hit-point of the brick, and stays as it is both when the
/// brick has a hit-point left and when it had none before. No other brick
/// changes.
pub proof fn lemma_meet(v: Volley, i: int)
    requires
        0 <= i < v.blocks.len(),
    ensures
        v.meet(i).blocks.len() == v.blocks.len(),
        forall|j: int| 0 <= j < v.blocks.len() && j != i ==> v.meet(i).blocks[j] == v.blocks[j],
        !v.ball.rect.overlaps(v.blocks[i].rect) ==> v.meet(i) == v,
        v.ball.rect.overlaps(v.blocks[i].rect) ==> {
            &&& v.meet(i).blocks[i].rect == v.blocks[i].rect
            &&& v.meet(i).blocks[i].block_type == v.blocks[i].block_type
            &&& v.meet(i).blocks[i].lives == worn(v.blocks[i].lives, 1)
            &&& v.blocks[i].lives > i32::MIN ==> v.meet(i).blocks[i].lives == v.blocks[i].lives - 1
            &&& v.blocks[i].lives == 1 ==> v.meet(i).score == raised(v.score)
            &&& v.blocks[i].lives == 1 && v.score + BLOCK_SCORE <= u32::MAX ==> v.meet(i).score
                == v.score + BLOCK_SCORE
            &&& v.blocks[i].lives != 1 ==> v.meet(i).score == v.score
        },
{
}

/// After a frame of play every brick on the board has a hit-point left: the
/// board is what the frame left standing, in order, and a brick that the
/// frame left without hit-points is not on it.
pub proof fn lemma_broken_blocks_are_gone(game: GameView, frame: Frame, bias: int)
    ensures
        game.played(frame, bias).blocks == game.flown(frame, bias).blocks.filter(standing()),
        forall|i: int|
            0 <= i < game.played(frame, bias).blocks.len() ==> (#[trigger] game.played(
                frame,
                bias,
            ).blocks[i]).alive(),
        forall|i: int|
            0 <= i < game.flown(frame, bias).blocks.len() && !(#[trigger] game.flown(
                frame,
                bias,
            ).blocks[i]).alive() ==> !game.played(frame, bias).blocks.contains(
                game.flown(frame, bias).blocks[i],
            ),
{
    let mid = game.flown(frame, bias);
    let after = game.played(frame, bias);
    broadcast use vstd::seq_lib::group_filter_ensures;

    assert forall|i: int| 0 <= i < mid.blocks.len() && !(#[trigger] mid.blocks[i]).alive() implies !after.blocks.contains(
        mid.blocks[i],
    ) by {
        if after.blocks.contains(mid.blocks[i]) {
            let j = choose|j: int| 0 <= j < after.blocks.len() && after.blocks[j] == mid.blocks[i];
            assert(standing()(after.blocks[j]));
        }
    }
}

/// Losing the only ball costs one life. With a life to spare the session
/// goes on: it is not lost, and play continues unless the same frame cleared
/// the board.
pub proof fn lemma_losing_a_ball_costs_a_life(game: GameView, frame: Frame, bias: int)
    requires
        game.state == GameState::Playing,
        game.flown(frame, bias).balls.len() == 1,
        game.flown(frame, bias).balls[0].rect.y >= frame.screen_h,
        game.player_lives >= 2,
    ensures
        game.played(frame, bias).player_lives == game.player_lives - 1,
        game.played(frame, bias).balls.len() == 0,
        game.played(frame, bias).state != GameState::Dead,
        game.played(frame, bias).blocks.len() > 0 ==> game.played(frame, bias).state
            == GameState::Playing,
{
    let mid = game.flown(frame, bias);
    lemma_only_ball_fallen(mid.balls, frame.screen_h as int);
}

/// Losing the only ball with one life left ends the session in defeat,
/// unless the same frame cleared the board.
pub proof fn lemma_losing_the_last_life(game: GameView, frame: Frame, bias: int)
    requires
        game.state == GameState::Playing,
        game.flown(frame, bias).balls.len() == 1,
        game.flown(frame, bias).balls[0].rect.y >= frame.screen_h,
        game.player_lives == 1,
        game.played(frame, bias).blocks.len() > 0,
    ensures
        game.played(frame, bias).player_lives == 0,
        game.played(frame, bias).state == GameState::Dead,
{
    let mid = game.flown(frame, bias);
    lemma_only_ball_fallen(mid.balls, frame.screen_h as int);
}

/// A frame of play that leaves no brick on the board completes the level,
/// whatever balls and lives are left; one that leaves a brick does not.
pub proof fn lemma_cleared_board_completes_level(game: GameView, frame: Frame, bias: int)
    requires
        game.state == GameState::Playing,
    ensures
        game.played(frame, bias).blocks.len() == 0 <==> game.played(frame, bias).state
            == GameState::LevelCompleted,
{
}

/// Starting play from the menu always gives the same board: the full grid of
/// thirty-six untouched bricks, one ball in the middle of the screen, all
/// lives and no score, whatever the session held before.
pub proof fn lemma_start_from_menu(game: GameView, frame: Frame, bias: int)
    requires
        game.state == GameState::Menu,
        frame.action,
    ensures
        game.step(frame, bias).state == GameState::Playing,
        game.step(frame, bias).blocks == grid(frame.screen_w as int),
        game.step(frame, bias).blocks.len() == 36,
        game.step(frame, bias).balls.len() == 1,
        game.step(frame, bias).balls[0] == Ball::launched(
            middle(frame.screen_w as int, frame.screen_h as int),
            bias,
        ),
        game.step(frame, bias).player == Player::centered(
            frame.screen_w as int,
            frame.screen_h as int,
        ),
        game.step(frame, bias).score == 0,
        game.step(frame, bias).player_lives == START_LIVES,
{
}

/// Meeting bricks neither adds nor removes any.
pub proof fn lemma_meet_first_len(v: Volley, k: nat)
    requires
        k <= v.blocks.len(),
    ensures
        v.meet_first(k).blocks.len() == v.blocks.len(),
    decreases k,
{
    if k > 0 {
        lemma_meet_first_len(v, (k - 1) as nat);
    }
}

/// Turns of balls neither add nor remove balls or bricks.
pub proof fn lemma_serve_first_len(b: Board, paddle: Rect, n: nat)
    requires
        n <= b.balls.len(),
    ensures
        b.serve_first(paddle, n).balls.len() == b.balls.len(),
        b.serve_first(paddle, n).blocks.len() == b.blocks.len(),
    decreases n,
{
    if n > 0 {
        lemma_serve_first_len(b, paddle, (n - 1) as nat);
        let before = b.serve_first(paddle, (n - 1) as nat);
        lemma_meet_first_len(
            Volley {
                ball: rebound(before.balls[n - 1], paddle),
                blocks: before.blocks,
                score: before.score,
            },
            before.blocks.len(),
        );
    }
}

/// An overlap that has been answered leaves a ball in order.
pub proof fn lemma_rebound_keeps_order(ball: Ball, obstacle: Rect)
    requires
        ball.wf(),
    ensures
        rebound(ball, obstacle).wf(),
{
}

/// Meeting bricks leaves a ball in order.
pub proof fn lemma_meet_first_keeps_order(v: Volley, k: nat)
    requires
        v.ball.wf(),
        k <= v.blocks.len(),
    ensures
        v.meet_first(k).ball.wf(),
    decreases k,
{
    if k > 0 {
        lemma_meet_first_len(v, (k - 1) as nat);
        lemma_meet_first_keeps_order(v, (k - 1) as nat);
        lemma_rebound_keeps_order(
            v.meet_first((k - 1) as nat).ball,
            v.meet_first((k - 1) as nat).blocks[k - 1].rect,
        );
    }
}

/// The turns of the balls leave every ball in order.
pub proof fn lemma_serve_first_keeps_order(board: Board, paddle: Rect, n: nat)
    requires
        n <= board.balls.len(),
        forall|i: int| 0 <= i < board.balls.len() ==> (#[trigger] board.balls[i]).wf(),
    ensures
        forall|i: int|
            0 <= i < board.balls.len() ==> (#[trigger] board.serve_first(paddle, n).balls[i]).wf(),
    decreases n,
{
    lemma_serve_first_len(board, paddle, n);
    if n > 0 {
        lemma_serve_first_len(board, paddle, (n - 1) as nat);
        lemma_serve_first_keeps_order(board, paddle, (n - 1) as nat);
        let before = board.serve_first(paddle, (n - 1) as nat);
        lemma_rebound_keeps_order(before.balls[n - 1], paddle);
        lemma_meet_first_keeps_order(
            Volley { ball: rebound(before.balls[n - 1], paddle), blocks: before.blocks, score: before.score },
            before.blocks.len(),
        );
    }
}

/// What holds of every member of a sequence holds of every member of a
/// selection from it.
proof fn lemma_filter_keeps<A>(s: Seq<A>, pred: spec_fn(A) -> bool, holds: spec_fn(A) -> bool)
    requires
        forall|i: int| 0 <= i < s.len() ==> holds(#[trigger] s[i]),
    ensures
        forall|i: int| 0 <= i < s.filter(pred).len() ==> holds(#[trigger] s.filter(pred)[i]),
    decreases s.len(),
{
    reveal(Seq::filter);
    if s.len() > 0 {
        let front = s.drop_last();
        let kept = front.filter(pred);
        assert forall|i: int| 0 <= i < front.len() implies holds(#[trigger] front[i]) by {
            assert(front[i] == s[i]);
        }
        lemma_filter_keeps(front, pred, holds);
        assert(holds(s[s.len() - 1]));
        assert forall|i: int| 0 <= i < s.filter(pred).len() implies holds(
            #[trigger] s.filter(pred)[i],
        ) by {
            if i < kept.len() {
                assert(s.filter(pred)[i] == kept[i]);
            } else {
                assert(s.filter(pred)[i] == s.last());
            }
        }
    }
}

/// A frame keeps a session in order: if the paddle has its size, play has a
/// life left, every ball is in order and every brick has a hit-point left
/// before the frame, the same holds after it.
pub proof fn lemma_step_keeps_order(game: GameView, frame: Frame, bias: int)
    requires
        game.wf(),
        i32::MIN <= bias <= i32::MAX,
    ensures
        game.step(frame, bias).wf(),
{
    broadcast use vstd::seq_lib::group_filter_ensures;

    lemma_heading(bias);
    if game.state == GameState::Playing {
        let start = if frame.action {
            game.with_extra_ball(frame.screen_w as int, frame.screen_h as int, bias)
        } else {
            game
        };
        let moved = start.paddle_moved(frame).balls_moved(frame);
        let board = Board { balls: moved.balls, blocks: moved.blocks, score: moved.score };
        lemma_serve_first_len(board, moved.player.rect, moved.balls.len());
        lemma_serve_first_keeps_order(board, moved.player.rect, moved.balls.len());
        let mid = game.flown(frame, bias);
        lemma_filter_keeps(mid.balls, in_play(frame.screen_h as int), |b: Ball| b.wf());
    }
}

/// Meeting bricks never lowers the score.
pub proof fn lemma_meet_first_score_never_falls(v: Volley, k: nat)
    requires
        k <= v.blocks.len(),
    ensures
        v.meet_first(k).score >= v.score,
    decreases k,
{
    if k > 0 {
        lemma_meet_first_score_never_falls(v, (k - 1) as nat);
    }
}

/// The turns of the balls never lower the score.
pub proof fn lemma_serve_first_score_never_falls(board: Board, paddle: Rect, n: nat)
    requires
        n <= board.balls.len(),
    ensures
        board.serve_first(paddle, n).score >= board.score,
    decreases n,
{
    if n > 0 {
        lemma_serve_first_score_never_falls(board, paddle, (n - 1) as nat);
        let before = board.serve_first(paddle, (n - 1) as nat);
        lemma_meet_first_score_never_falls(
            Volley { ball: rebound(before.balls[n - 1], paddle), blocks: before.blocks, score: before.score },
            before.blocks.len(),
        );
    }
}

/// The score never falls while the session is played, and only the start of
/// play from the menu sets it back.
pub proof fn lemma_score_never_falls(game: GameView, frame: Frame, bias: int)
    requires
        !(game.state == GameState::Menu && frame.action),
    ensures
        game.step(frame, bias).score >= game.score,
{
    if game.state == GameState::Playing {
        let start = if frame.action {
            game.with_extra_ball(frame.screen_w as int, frame.screen_h as int, bias)
        } else {
            game
        };
        let moved = start.paddle_moved(frame).balls_moved(frame);
        let board = Board { balls: moved.balls, blocks: moved.blocks, score: moved.score };
        lemma_serve_first_score_never_falls(board, moved.player.rect, moved.balls.len());
    }
}

/// The count of broken bricks among the first `k` looks at those `k` only.
proof fn lemma_broken_among_prefix(a: Seq<Block>, b: Seq<Block>, k: nat)
    requires
        k <= a.len(),
        k <= b.len(),
        forall|j: int| 0 <= j < k ==> a[j] == b[j],
    ensures
        broken_among(a, k) == broken_among(b, k),
        broken_among(a, k) <= k,
    decreases k,
{
    if k > 0 {
        lemma_broken_among_prefix(a, b, (k - 1) as nat);
    }
}

/// One for a brick without hit-points, nothing for one that has some.
spec fn gone(block: Block) -> int {
    if block.alive() {
        0
    } else {
        1
    }
}

/// Changing one brick changes the count of broken bricks among the first `k`
/// by what that brick adds to it, if it is among them.
proof fn lemma_broken_among_update(blocks: Seq<Block>, i: int, block: Block, k: nat)
    requires
        0 <= i < blocks.len(),
        k <= blocks.len(),
    ensures
        broken_among(blocks.update(i, block), k) == broken_among(blocks, k) + if i < k {
            gone(block) - gone(blocks[i])
        } else {
            0
        },
    decreases k,
{
    if k > 0 {
        lemma_broken_among_update(blocks, i, block, (k - 1) as nat);
    }
}

/// Bricks that all have a hit-point left count no broken brick.
proof fn lemma_none_broken(blocks: Seq<Block>, k: nat)
    requires
        k <= blocks.len(),
        forall|j: int| 0 <= j < blocks.len() ==> (#[trigger] blocks[j]).alive(),
    ensures
        broken_among(blocks, k) == 0,
    decreases k,
{
    if k > 0 {
        lemma_none_broken(blocks, (k - 1) as nat);
    }
}

/// Taking the broken bricks away shortens the board by their number.
pub proof fn lemma_standing_count(blocks: Seq<Block>)
    ensures
        blocks.filter(standing()).len() + broken(blocks) == blocks.len(),
    decreases blocks.len(),
{
    reveal(Seq::filter);
    if blocks.len() > 0 {
        let front = blocks.drop_last();
        lemma_standing_count(front);
        lemma_broken_among_prefix(front, blocks, front.len());
        assert(standing()(blocks.last()) == blocks.last().alive());
    }
}

/// Raising the score brick by brick comes to the same as raising it for all
/// of them at once.
pub proof fn lemma_raised_by(score: u32, a: int, b: int)
    requires
        0 <= a,
        0 <= b,
    ensures
        raised_by(score, 0) == score,
        raised(raised_by(score, a)) == raised_by(score, a + 1),
        raised_by(raised_by(score, a), b) == raised_by(score, a + b),
        score + BLOCK_SCORE * a <= u32::MAX ==> raised_by(score, a) == score + BLOCK_SCORE * a,
{
    assert(BLOCK_SCORE * 0 == 0) by (nonlinear_arith);
    assert(BLOCK_SCORE * (a + 1) == BLOCK_SCORE * a + BLOCK_SCORE) by (nonlinear_arith);
    assert(BLOCK_SCORE * (a + b) == BLOCK_SCORE * a + BLOCK_SCORE * b) by (nonlinear_arith);
    assert(0 <= BLOCK_SCORE * a) by (nonlinear_arith)
        requires
            0 <= a,
    ;
    assert(0 <= BLOCK_SCORE * b) by (nonlinear_arith)
        requires
            0 <= b,
    ;
}

/// What meeting one brick adds to the count of broken bricks and to the
/// score: one brick and ten points if the ball overlaps the brick and takes
/// its last hit-point, nothing otherwise.
proof fn lemma_meet_count(v: Volley, i: int)
    requires
        0 <= i < v.blocks.len(),
    ensures
        v.meet(i).blocks.len() == v.blocks.len(),
        broken(v.meet(i).blocks) == broken(v.blocks) + if v.ball.rect.overlaps(v.blocks[i].rect)
            && v.blocks[i].breaks() {
            1nat
        } else {
            0nat
        },
        v.meet(i).score == if v.ball.rect.overlaps(v.blocks[i].rect) && v.blocks[i].breaks() {
            raised(v.score)
        } else {
            v.score
        },
{
    if v.ball.rect.overlaps(v.blocks[i].rect) {
        lemma_broken_among_update(v.blocks, i, v.blocks[i].struck(), v.blocks.len());
    }
}

/// The turn of one ball among the bricks, brick by brick. When the ball has
/// met the first `k` bricks, each of those that it overlapped as it came to it
/// has lost exactly one hit-point, and every other brick is as it was.
pub proof fn lemma_meet_first_blocks(v: Volley, k: nat)
    requires
        k <= v.blocks.len(),
    ensures
        v.meet_first(k).blocks.len() == v.blocks.len(),
        forall|j: int|
            0 <= j < v.blocks.len() ==> #[trigger] v.meet_first(k).blocks[j] == if j < k
                && v.reaches(j) {
                v.blocks[j].struck()
            } else {
                v.blocks[j]
            },
    decreases k,
{
    if k > 0 {
        let before = v.meet_first((k - 1) as nat);
        let after = v.meet_first(k);
        lemma_meet_first_blocks(v, (k - 1) as nat);
        assert(after == before.meet(k - 1));
        assert(before.blocks[k - 1] == v.blocks[k - 1]);
        assert(v.reaches(k - 1) == before.ball.rect.overlaps(v.blocks[k - 1].rect)) by {
            reveal(Volley::reaches);
        }
        assert forall|j: int| 0 <= j < v.blocks.len() implies #[trigger] after.blocks[j] == if j < k
            && v.reaches(j) {
            v.blocks[j].struck()
        } else {
            v.blocks[j]
        } by {
            if j != k - 1 {
                assert(after.blocks[j] == before.blocks[j]);
            }
        }
    }
}

/// The turn of one ball among the bricks, in the score. When the ball has met
/// the first `k` bricks, the score has risen by ten for each brick that these
/// hits broke.
pub proof fn lemma_meet_first_score(v: Volley, k: nat)
    requires
        k <= v.blocks.len(),
    ensures
        v.meet_first(k).blocks.len() == v.blocks.len(),
        broken(v.meet_first(k).blocks) >= broken(v.blocks),
        v.meet_first(k).score == raised_by(
            v.score,
            broken(v.meet_first(k).blocks) - broken(v.blocks),
        ),
    decreases k,
{
    lemma_raised_by(v.score, 0, 0);
    if k > 0 {
        let before = v.meet_first((k - 1) as nat);
        lemma_meet_first_score(v, (k - 1) as nat);
        lemma_meet_count(before, k - 1);
        lemma_raised_by(v.score, broken(before.blocks) - broken(v.blocks), 0);
    }
}

/// The turns of the balls. When the first `n` balls have had their turns, no
/// ball or brick has come or gone, each brick has its place and kind and has
/// lost one hit-point for each ball that overlapped it in its turn, and the
/// score has risen by ten for each brick that these turns broke.
pub proof fn lemma_serve_first(board: Board, paddle: Rect, n: nat)
    requires
        n <= board.balls.len(),
    ensures
        board.serve_first(paddle, n).balls.len() == board.balls.len(),
        board.serve_first(paddle, n).blocks.len() == board.blocks.len(),
        forall|j: int|
            0 <= j < board.blocks.len() ==> {
                &&& (#[trigger] board.serve_first(paddle, n).blocks[j]).rect == board.blocks[j].rect
                &&& board.serve_first(paddle, n).blocks[j].block_type == board.blocks[j].block_type
                &&& board.serve_first(paddle, n).blocks[j].lives == worn(
                    board.blocks[j].lives,
                    board.hits_on(paddle, n, j),
                )
            },
        broken(board.serve_first(paddle, n).blocks) >= broken(board.blocks),
        board.serve_first(paddle, n).score == raised_by(
            board.score,
            broken(board.serve_first(paddle, n).blocks) - broken(board.blocks),
        ),
    decreases n,
{
    lemma_raised_by(board.score, 0, 0);
    if n > 0 {
        lemma_serve_first(board, paddle, (n - 1) as nat);
        let before = board.serve_first(paddle, (n - 1) as nat);
        let start = opening(before.balls[n - 1], paddle, before.blocks, before.score);
        let end = start.meet_first(before.blocks.len());
        let after = board.serve_first(paddle, n);
        lemma_meet_first_blocks(start, before.blocks.len());
        lemma_meet_first_score(start, before.blocks.len());
        assert(after.blocks == end.blocks);
        assert(after.score == end.score);
        lemma_raised_by(
            board.score,
            broken(before.blocks) - broken(board.blocks),
            broken(end.blocks) - broken(before.blocks),
        );
        assert forall|j: int| 0 <= j < board.blocks.len() implies {
            &&& (#[trigger] after.blocks[j]).rect == board.blocks[j].rect
            &&& after.blocks[j].block_type == board.blocks[j].block_type
            &&& after.blocks[j].lives == worn(board.blocks[j].lives, board.hits_on(paddle, n, j))
        } by {
            let hits = board.hits_on(paddle, (n - 1) as nat, j);
            assert(before.blocks[j].lives == worn(board.blocks[j].lives, hits));
            assert(end.blocks[j] == if start.reaches(j) {
                before.blocks[j].struck()
            } else {
                before.blocks[j]
            });
        }
    }
}

/// What the turns of all the balls of a session come to: see
/// [`lemma_serve_first`].
pub proof fn lemma_collided(game: GameView)
    ensures
        game.collided().balls.len() == game.balls.len(),
        game.collided().blocks.len() == game.blocks.len(),
        forall|j: int|
            0 <= j < game.blocks.len() ==> {
                &&& (#[trigger] game.collided().blocks[j]).rect == game.blocks[j].rect
                &&& game.collided().blocks[j].block_type == game.blocks[j].block_type
                &&& game.collided().blocks[j].lives == worn(game.blocks[j].lives, game.hits_on(j))
            },
        broken(game.collided().blocks) >= broken(game.blocks),
        game.collided().score == raised_by(
            game.score,
            broken(game.collided().blocks) - broken(game.blocks),
        ),
{
    lemma_serve_first(
        Board { balls: game.balls, blocks: game.blocks, score: game.score },
        game.player.rect,
        game.balls.len(),
    );
}

/// Where the counters have room, the turns of the balls take exactly one
/// hit-point from a brick for each ball that overlapped it, and add exactly
/// ten to the score for each brick that they broke.
pub proof fn lemma_collided_exactly(game: GameView)
    requires
        forall|j: int|
            0 <= j < game.blocks.len() ==> (#[trigger] game.blocks[j]).lives - game.balls.len()
                >= i32::MIN,
        game.score + BLOCK_SCORE * game.blocks.len() <= u32::MAX,
    ensures
        forall|j: int|
            0 <= j < game.blocks.len() ==> (#[trigger] game.collided().blocks[j]).lives
                == game.blocks[j].lives - game.hits_on(j),
        game.collided().score == game.score + BLOCK_SCORE * (broken(game.collided().blocks)
            - broken(game.blocks)),
{
    lemma_collided(game);
    let board = Board { balls: game.balls, blocks: game.blocks, score: game.score };
    assert forall|j: int| 0 <= j < game.blocks.len() implies (#[trigger] game.collided().blocks[j]).lives
        == game.blocks[j].lives - game.hits_on(j) by {
        lemma_hits_bound(board, game.player.rect, game.balls.len(), j);
    }
    let more = broken(game.collided().blocks) - broken(game.blocks);
    lemma_broken_among_prefix(game.collided().blocks, game.collided().blocks, game.blocks.len());
    assert(BLOCK_SCORE * more <= BLOCK_SCORE * game.blocks.len()) by (nonlinear_arith)
        requires
            more <= game.blocks.len(),
    ;
    lemma_raised_by(game.score, more, 0);
}

/// No more balls overlap a brick than have had their turns.
proof fn lemma_hits_bound(board: Board, paddle: Rect, n: nat, j: int)
    ensures
        board.hits_on(paddle, n, j) <= n,
    decreases n,
{
    if n > 0 {
        lemma_hits_bound(board, paddle, (n - 1) as nat, j);
    }
}

/// A frame of play that starts with a hit-point on every brick raises the
/// score by ten for each brick that it takes off the board, however many
/// balls are in play, up to the largest value the counter can hold.
pub proof fn lemma_score_counts_broken_blocks(game: GameView, frame: Frame, bias: int)
    requires
        forall|j: int| 0 <= j < game.blocks.len() ==> (#[trigger] game.blocks[j]).alive(),
    ensures
        game.played(frame, bias).blocks.len() <= game.blocks.len(),
        game.played(frame, bias).score == raised_by(
            game.score,
            game.blocks.len() - game.played(frame, bias).blocks.len(),
        ),
        game.score + BLOCK_SCORE * game.blocks.len() <= u32::MAX ==> game.played(frame, bias).score
            == game.score + BLOCK_SCORE * (game.blocks.len() - game.played(
            frame,
            bias,
        ).blocks.len()),
{
    let start = if frame.action {
        game.with_extra_ball(frame.screen_w as int, frame.screen_h as int, bias)
    } else {
        game
    };
    let moved = start.paddle_moved(frame).balls_moved(frame);
    assert(moved.blocks == game.blocks);
    assert(moved.score == game.score);
    lemma_collided(moved);
    let mid = game.flown(frame, bias);
    assert(mid == moved.collided());
    lemma_none_broken(game.blocks, game.blocks.len());
    lemma_standing_count(mid.blocks);
    let taken = game.blocks.len() - game.played(frame, bias).blocks.len();
    assert(taken == broken(mid.blocks));
    assert(BLOCK_SCORE * taken <= BLOCK_SCORE * game.blocks.len()) by (nonlinear_arith)
        requires
            taken <= game.blocks.len(),
    ;
    lemma_raised_by(game.score, taken, 0);
}

/// A single ball that has fallen past the bottom edge leaves no ball in
/// play.
proof fn lemma_only_ball_fallen(balls: Seq<Ball>, screen_h: int)
    requires
        balls.len() == 1,
        balls[0].rect.y >= screen_h,
    ensures
        balls.filter(in_play(screen_h)).len() == 0,
{
    reveal(Seq::filter);
    assert(balls.drop_last().len() == 0);
    assert(balls.drop_last().filter(in_play(screen_h)).len() == 0);
    assert(!in_play(screen_h)(balls.last()));
}

} // verus!
