use breakout::ball::Ball;
use breakout::block::{Block, Blocktype};
use breakout::game::{
    balls_in_play, build_grid, collide_ball, raise_score, screen_middle, standing_blocks, Frame,
    Game, GameState, BLOCK_SCORE, GRID_COLUMNS, GRID_PADDING, GRID_ROWS, GRID_TOP, START_LIVES,
};
use breakout::geometry::{Rect, Vec2};
use breakout::player::Player;
use breakout::units::UNIT;

const SCREEN_W: i32 = 800_000;
const SCREEN_H: i32 = 600_000;

fn frame(dt: u32, action: bool) -> Frame {
    Frame { dt, screen_w: SCREEN_W, screen_h: SCREEN_H, left: false, right: false, action }
}

fn playing(player_lives: i8, balls: Vec<Ball>, blocks: Vec<Block>) -> Game {
    Game {
        state: GameState::Playing,
        score: 0,
        player_lives,
        player: Player::default(SCREEN_W, SCREEN_H),
        balls,
        blocks,
    }
}

fn ball_at(x: i32, y: i32, vx: i32, vy: i32) -> Ball {
    Ball { rect: Rect::new(x, y, 50_000, 50_000), vel: Vec2::new(vx, vy) }
}

fn block_at(x: i32, y: i32, lives: i32) -> Block {
    Block { rect: Rect::new(x, y, 100_000, 40_000), lives, block_type: Blocktype::Regular }
}

#[test]
fn game_constants() {
    assert_eq!(START_LIVES, 3);
    assert_eq!(BLOCK_SCORE, 10);
    assert_eq!(GRID_COLUMNS, 6);
    assert_eq!(GRID_ROWS, 6);
    assert_eq!(GRID_PADDING, 5_000);
    assert_eq!(GRID_TOP, 55_000);
}

#[test]
fn new_game_waits_in_the_menu() {
    let game = Game::new(SCREEN_W, SCREEN_H);
    assert_eq!(game.state, GameState::Menu);
    assert_eq!(game.score, 0);
    assert_eq!(game.player_lives, 0);
    assert_eq!(game.player, Player::default(SCREEN_W, SCREEN_H));
    assert!(game.balls.is_empty());
    assert!(game.blocks.is_empty());
}

#[test]
fn screen_middle_halves_toward_zero() {
    assert_eq!(screen_middle(800_000, 600_000), Vec2::new(400_000, 300_000));
    assert_eq!(screen_middle(800_001, 599_999), Vec2::new(400_000, 299_999));
    assert_eq!(screen_middle(-3, -1), Vec2::new(-1, 0));
}

#[test]
fn grid_has_thirty_six_blocks_in_six_rows() {
    let blocks = build_grid(SCREEN_W);
    assert_eq!(blocks.len(), 36);
    assert_eq!(blocks[0], block_at(90_000, 55_000, 2));
    assert_eq!(blocks[1], block_at(195_000, 55_000, 2));
    assert_eq!(blocks[5], block_at(615_000, 55_000, 2));
    assert_eq!(blocks[6], block_at(90_000, 100_000, 2));
    assert_eq!(blocks[35], block_at(615_000, 280_000, 2));
    let mut i: usize = 0;
    while i < 36 {
        let column: i32 = (i % 6) as i32;
        let row: i32 = (i / 6) as i32;
        assert_eq!(blocks[i], block_at(90_000 + column * 105_000, 55_000 + row * 45_000, 2));
        i += 1;
    }
}

#[test]
fn grid_is_centred_on_the_screen() {
    // The six cells of a row take 630 pixels; the rest is shared between
    // both sides, and each block sits one gap into its cell.
    let blocks = build_grid(SCREEN_W);
    let left: i32 = blocks[0].rect.x - GRID_PADDING;
    let right: i32 = SCREEN_W - (blocks[5].rect.x + blocks[5].rect.w);
    assert_eq!(left, 85_000);
    assert_eq!(right, 85_000);
}

#[test]
fn grid_on_odd_and_narrow_screens() {
    assert_eq!(build_grid(801_001)[0].rect.x, 90_500);
    assert_eq!(build_grid(100_000)[0].rect.x, -260_000);
    assert_eq!(build_grid(100_000)[35].rect.x, 265_000);
    assert_eq!(build_grid(i32::MAX).len(), 36);
    assert_eq!(build_grid(i32::MIN).len(), 36);
}

#[test]
fn reset_game_with_sets_everything_up() {
    let mut game = playing(1, vec![ball_at(1, 2, 3, 4), ball_at(5, 6, 7, 8)], vec![block_at(0, 0, 1)]);
    game.score = 70;
    game.player = Player { rect: Rect::new(3, 4, 5, 6) };
    game.reset_game_with(SCREEN_W, SCREEN_H, 0);
    assert_eq!(game.state, GameState::Playing);
    assert_eq!(game.score, 0);
    assert_eq!(game.player_lives, 3);
    assert_eq!(game.player, Player::default(SCREEN_W, SCREEN_H));
    assert_eq!(game.balls, vec![ball_at(400_000, 300_000, 0, UNIT)]);
    assert_eq!(game.blocks, build_grid(SCREEN_W));
}

#[test]
fn reset_game_keeps_the_state() {
    let mut game = Game::new(SCREEN_W, SCREEN_H);
    game.reset_game_with(SCREEN_W, SCREEN_H, UNIT);
    assert_eq!(game.state, GameState::Menu);
    assert_eq!(game.balls, vec![ball_at(400_000, 300_000, 707_107, 707_107)]);
    game.state = GameState::Dead;
    game.reset_game_with(SCREEN_W, SCREEN_H, -UNIT);
    assert_eq!(game.state, GameState::Dead);
    assert_eq!(game.balls, vec![ball_at(400_000, 300_000, -707_107, 707_107)]);
}

#[test]
fn raise_score_adds_ten_and_saturates() {
    assert_eq!(raise_score(0), 10);
    assert_eq!(raise_score(990), 1_000);
    assert_eq!(raise_score(u32::MAX - 10), u32::MAX);
    assert_eq!(raise_score(u32::MAX - 9), u32::MAX);
    assert_eq!(raise_score(u32::MAX), u32::MAX);
}

#[test]
fn balls_in_play_keeps_the_order() {
    let balls = vec![
        ball_at(1, 599_999, 0, UNIT),
        ball_at(2, 600_000, 0, UNIT),
        ball_at(3, -5, 0, UNIT),
        ball_at(4, 700_000, 0, UNIT),
        ball_at(5, 0, 0, UNIT),
    ];
    let kept = balls_in_play(&balls, SCREEN_H);
    assert_eq!(kept, vec![ball_at(1, 599_999, 0, UNIT), ball_at(3, -5, 0, UNIT), ball_at(5, 0, 0, UNIT)]);
    assert_eq!(balls_in_play(&Vec::new(), SCREEN_H), Vec::new());
}

#[test]
fn standing_blocks_keeps_the_order() {
    let blocks = vec![block_at(1, 0, 2), block_at(2, 0, 0), block_at(3, 0, 1), block_at(4, 0, -1)];
    assert_eq!(standing_blocks(&blocks), vec![block_at(1, 0, 2), block_at(3, 0, 1)]);
    assert_eq!(standing_blocks(&Vec::new()), Vec::new());
}

#[test]
fn collide_ball_meets_the_paddle_and_then_each_block() {
    // The ball reaches into the paddle from above and, once lifted, no
    // longer into the block below it.
    let mut ball = ball_at(100_000, 455_000, 0, UNIT);
    let paddle = Rect::new(50_000, 500_000, 150_000, 40_000);
    let mut blocks = vec![block_at(100_000, 503_000, 2)];
    let mut score: u32 = 0;
    collide_ball(&mut ball, &paddle, &mut blocks, &mut score);
    assert_eq!(ball, ball_at(100_000, 450_000, 0, -UNIT));
    assert_eq!(blocks, vec![block_at(100_000, 503_000, 2)]);
    assert_eq!(score, 0);
}

#[test]
fn collide_ball_can_hit_several_blocks_in_one_turn() {
    // Two blocks side by side under the ball: the first lifts the ball out
    // of reach only by the depth of the overlap, so the second, which it only
    // touches after that, is hit as well.
    let mut ball = ball_at(75_000, 55_000, 0, UNIT);
    let paddle = Rect::new(0, 900_000, 150_000, 40_000);
    let mut blocks = vec![block_at(0, 100_000, 1), block_at(100_000, 100_000, 2)];
    let mut score: u32 = 30;
    collide_ball(&mut ball, &paddle, &mut blocks, &mut score);
    assert_eq!(ball, ball_at(75_000, 50_000, 0, -UNIT));
    assert_eq!(blocks, vec![block_at(0, 100_000, 0), block_at(100_000, 100_000, 1)]);
    assert_eq!(score, 40);
}

#[test]
fn menu_without_the_action_key_changes_nothing() {
    let mut game = Game::new(SCREEN_W, SCREEN_H);
    game.step_with(&frame(16_667, false), 0);
    assert_eq!(game.state, GameState::Menu);
    assert!(game.balls.is_empty());
    assert!(game.blocks.is_empty());
    assert_eq!(game.player_lives, 0);
}

#[test]
fn menu_with_the_action_key_starts_play() {
    let mut game = Game::new(SCREEN_W, SCREEN_H);
    game.step_with(&frame(16_667, true), 0);
    assert_eq!(game.state, GameState::Playing);
    assert_eq!(game.score, 0);
    assert_eq!(game.player_lives, 3);
    assert_eq!(game.player, Player::default(SCREEN_W, SCREEN_H));
    assert_eq!(game.blocks.len(), 36);
    assert_eq!(game.blocks, build_grid(SCREEN_W));
    assert_eq!(game.balls.len(), 1);
    // The frame that starts play does not move the ball.
    assert_eq!(game.balls[0], ball_at(400_000, 300_000, 0, UNIT));
}

#[test]
fn start_of_play_resets_an_earlier_session() {
    let mut game = playing(1, vec![ball_at(0, 0, 0, UNIT), ball_at(9, 9, 0, UNIT)], vec![block_at(0, 0, 1)]);
    game.state = GameState::Menu;
    game.score = 120;
    game.step_with(&frame(0, true), UNIT);
    assert_eq!(game.state, GameState::Playing);
    assert_eq!(game.score, 0);
    assert_eq!(game.player_lives, 3);
    assert_eq!(game.blocks.len(), 36);
    assert_eq!(game.balls, vec![ball_at(400_000, 300_000, 707_107, 707_107)]);
}

#[test]
fn first_frame_on_a_low_screen_finds_the_ball_in_the_bottom_row() {
    // On a screen 600 pixels high the middle lies inside the last row of
    // the grid: the new ball touches one block on its left and reaches into
    // the next from below.
    let mut game = Game::new(SCREEN_W, SCREEN_H);
    game.step_with(&frame(0, true), 0);
    game.step_with(&frame(0, false), 0);
    assert_eq!(game.balls, vec![ball_at(400_000, 320_000, 0, UNIT)]);
    let mut expected = build_grid(SCREEN_W);
    expected[32].lives = 1;
    expected[33].lives = 1;
    assert_eq!(game.blocks, expected);
    assert_eq!(game.score, 0);
    assert_eq!(game.state, GameState::Playing);
}

#[test]
fn play_moves_the_ball_and_the_paddle() {
    let mut game = playing(3, vec![ball_at(400_000, 350_000, 0, UNIT)], build_grid(SCREEN_W));
    let mut f = frame(10_000, false);
    f.right = true;
    game.step_with(&f, 0);
    assert_eq!(game.state, GameState::Playing);
    assert_eq!(game.balls, vec![ball_at(400_000, 354_000, 0, UNIT)]);
    assert_eq!(game.player.rect, Rect::new(332_000, 500_000, 150_000, 40_000));
    assert_eq!(game.blocks, build_grid(SCREEN_W));
    assert_eq!(game.score, 0);
    assert_eq!(game.player_lives, 3);
}

#[test]
fn action_key_during_play_adds_a_ball() {
    let blocks = vec![block_at(90_000, 55_000, 2), block_at(195_000, 55_000, 1)];
    let mut game = playing(2, vec![ball_at(100_000, 400_000, 0, -UNIT)], blocks.clone());
    game.score = 50;
    game.step_with(&frame(10_000, true), UNIT);
    assert_eq!(game.state, GameState::Playing);
    assert_eq!(game.score, 50);
    assert_eq!(game.player_lives, 2);
    assert_eq!(game.blocks, blocks);
    // The new ball flies in the frame that made it.
    assert_eq!(
        game.balls,
        vec![ball_at(100_000, 396_000, 0, -UNIT), ball_at(402_828, 302_828, 707_107, 707_107)]
    );
}

#[test]
fn ball_bounces_off_the_paddle() {
    // The ball lands 3 pixels deep in the paddle and is lifted onto it.
    let mut game = playing(3, vec![ball_at(350_000, 449_000, 0, UNIT)], vec![block_at(0, 0, 2)]);
    game.step_with(&frame(10_000, false), 0);
    assert_eq!(game.balls, vec![ball_at(350_000, 450_000, 0, -UNIT)]);
    assert_eq!(game.state, GameState::Playing);
    assert_eq!(game.player_lives, 3);
}

#[test]
fn hit_block_loses_one_life_and_stays() {
    let mut game = playing(
        3,
        vec![ball_at(100_000, 100_000, 0, UNIT)],
        vec![block_at(100_000, 145_000, 2), block_at(500_000, 55_000, 2)],
    );
    game.step_with(&frame(0, false), 0);
    assert_eq!(game.blocks, vec![block_at(100_000, 145_000, 1), block_at(500_000, 55_000, 2)]);
    assert_eq!(game.score, 0);
    assert_eq!(game.balls, vec![ball_at(100_000, 95_000, 0, -UNIT)]);
    assert_eq!(game.state, GameState::Playing);
}

#[test]
fn broken_block_scores_ten_and_is_gone_next_frame() {
    let mut game = playing(
        3,
        vec![ball_at(100_000, 100_000, 0, UNIT)],
        vec![block_at(100_000, 145_000, 1), block_at(500_000, 55_000, 2)],
    );
    game.score = 20;
    game.step_with(&frame(0, false), 0);
    assert_eq!(game.score, 30);
    assert_eq!(game.blocks, vec![block_at(500_000, 55_000, 2)]);
    assert_eq!(game.state, GameState::Playing);
    // The next frame finds nothing to hit and leaves the score alone.
    game.step_with(&frame(0, false), 0);
    assert_eq!(game.score, 30);
    assert_eq!(game.blocks, vec![block_at(500_000, 55_000, 2)]);
}

#[test]
fn block_takes_two_hits_over_two_frames() {
    let mut game = playing(
        3,
        vec![ball_at(100_000, 100_000, 0, UNIT)],
        vec![block_at(100_000, 145_000, 2), block_at(500_000, 55_000, 2)],
    );
    game.step_with(&frame(0, false), 0);
    assert_eq!(game.blocks[0].lives, 1);
    assert_eq!(game.score, 0);
    // Send the ball back into the block.
    game.balls[0] = ball_at(100_000, 100_000, 0, UNIT);
    game.step_with(&frame(0, false), 0);
    assert_eq!(game.blocks, vec![block_at(500_000, 55_000, 2)]);
    assert_eq!(game.score, 10);
}

#[test]
fn two_balls_on_one_block_in_one_frame_score_once() {
    // Both balls overlap a block on its last life: the first hit breaks it
    // and scores, the second finds it broken and scores nothing.
    let mut game = playing(
        3,
        vec![ball_at(100_000, 100_000, 0, UNIT), ball_at(140_000, 100_000, 0, UNIT)],
        vec![block_at(100_000, 145_000, 1), block_at(500_000, 55_000, 2)],
    );
    game.step_with(&frame(0, false), 0);
    assert_eq!(game.score, 10);
    assert_eq!(game.blocks, vec![block_at(500_000, 55_000, 2)]);
}

#[test]
fn collison_handle_scores_a_block_once_however_many_balls_hit_it() {
    let mut game = playing(
        3,
        vec![ball_at(20_000, 30_000, 0, -UNIT), ball_at(20_000, 30_000, 0, -UNIT)],
        vec![block_at(0, 0, 1)],
    );
    game.collison_handle();
    assert_eq!(game.score, 10);
    // Both balls took a hit-point, and the block is still on the board until
    // the end of the frame.
    assert_eq!(game.blocks, vec![block_at(0, 0, -1)]);
    assert_eq!(game.balls, vec![ball_at(20_000, 40_000, 0, UNIT), ball_at(20_000, 40_000, 0, UNIT)]);
}

#[test]
fn collison_handle_takes_one_life_for_each_ball_that_overlaps() {
    // Three balls over a block with five lives, a fourth elsewhere.
    let mut game = playing(
        3,
        vec![
            ball_at(20_000, 30_000, 0, -UNIT),
            ball_at(400_000, 300_000, 0, -UNIT),
            ball_at(30_000, 30_000, 0, -UNIT),
            ball_at(40_000, 30_000, 0, -UNIT),
        ],
        vec![block_at(0, 0, 5), block_at(600_000, 0, 2)],
    );
    game.score = 70;
    game.collison_handle();
    assert_eq!(game.blocks, vec![block_at(0, 0, 2), block_at(600_000, 0, 2)]);
    assert_eq!(game.score, 70);
    assert_eq!(game.balls.len(), 4);
}

#[test]
fn collison_handle_with_one_ball_scores_ten_for_each_block_taken_from_one_to_none() {
    // One ball under two blocks side by side: the first had one life, the
    // second two.
    let mut game = playing(
        3,
        vec![ball_at(75_000, 35_000, 0, -UNIT)],
        vec![block_at(0, 0, 1), block_at(100_000, 0, 2), block_at(600_000, 0, 1)],
    );
    game.score = 40;
    game.collison_handle();
    assert_eq!(
        game.blocks,
        vec![block_at(0, 0, 0), block_at(100_000, 0, 1), block_at(600_000, 0, 1)]
    );
    assert_eq!(game.score, 50);
}

#[test]
fn score_stops_at_the_largest_value() {
    let mut game = playing(
        3,
        vec![ball_at(100_000, 100_000, 0, UNIT)],
        vec![block_at(100_000, 145_000, 1), block_at(500_000, 55_000, 2)],
    );
    game.score = u32::MAX - 3;
    game.step_with(&frame(0, false), 0);
    assert_eq!(game.score, u32::MAX);
}

#[test]
fn losing_the_only_ball_costs_a_life() {
    let mut game = playing(3, vec![ball_at(100_000, 599_000, 0, UNIT)], vec![block_at(0, 0, 2)]);
    game.step_with(&frame(10_000, false), 0);
    assert_eq!(game.player_lives, 2);
    assert_eq!(game.state, GameState::Playing);
    assert!(game.balls.is_empty());
    assert_eq!(game.blocks, vec![block_at(0, 0, 2)]);
}

#[test]
fn ball_at_the_bottom_edge_exactly_is_lost() {
    let mut game = playing(3, vec![ball_at(100_000, 600_000, 0, -UNIT)], vec![block_at(0, 0, 2)]);
    game.step_with(&frame(0, false), 0);
    assert_eq!(game.player_lives, 2);
    assert!(game.balls.is_empty());
    let mut game = playing(3, vec![ball_at(100_000, 599_999, 0, -UNIT)], vec![block_at(0, 0, 2)]);
    game.step_with(&frame(0, false), 0);
    assert_eq!(game.player_lives, 3);
    assert_eq!(game.balls.len(), 1);
}

#[test]
fn losing_the_only_ball_with_one_life_is_defeat() {
    let mut game = playing(1, vec![ball_at(100_000, 599_000, 0, UNIT)], vec![block_at(0, 0, 2)]);
    game.score = 40;
    game.step_with(&frame(10_000, false), 0);
    assert_eq!(game.player_lives, 0);
    assert_eq!(game.state, GameState::Dead);
    assert_eq!(game.score, 40);
    assert!(game.balls.is_empty());
}

#[test]
fn three_lost_balls_end_the_session() {
    let mut game = Game::new(SCREEN_W, SCREEN_H);
    game.step_with(&frame(0, true), 0);
    let mut lives: i8 = 3;
    while lives > 0 {
        assert_eq!(game.state, GameState::Playing);
        assert_eq!(game.player_lives, lives);
        if game.balls.is_empty() {
            game.step_with(&frame(0, true), 0);
            assert_eq!(game.balls.len(), 1);
        }
        game.balls[0].rect.y = 700_000;
        game.step_with(&frame(0, false), 0);
        lives -= 1;
    }
    assert_eq!(game.state, GameState::Dead);
    assert_eq!(game.player_lives, 0);
}

#[test]
fn losing_one_of_two_balls_costs_nothing() {
    let mut game = playing(
        1,
        vec![ball_at(100_000, 650_000, 0, UNIT), ball_at(300_000, 200_000, 0, UNIT)],
        vec![block_at(0, 0, 2)],
    );
    game.step_with(&frame(0, false), 0);
    assert_eq!(game.player_lives, 1);
    assert_eq!(game.state, GameState::Playing);
    assert_eq!(game.balls, vec![ball_at(300_000, 200_000, 0, UNIT)]);
}

#[test]
fn losing_two_balls_at_once_costs_nothing() {
    let mut game = playing(
        1,
        vec![ball_at(100_000, 650_000, 0, UNIT), ball_at(300_000, 650_000, 0, UNIT)],
        vec![block_at(0, 0, 2)],
    );
    game.step_with(&frame(0, false), 0);
    assert_eq!(game.player_lives, 1);
    assert_eq!(game.state, GameState::Playing);
    assert!(game.balls.is_empty());
}

#[test]
fn play_without_balls_goes_on() {
    let mut game = playing(2, Vec::new(), vec![block_at(0, 0, 2)]);
    game.step_with(&frame(16_667, false), 0);
    assert_eq!(game.player_lives, 2);
    assert_eq!(game.state, GameState::Playing);
}

#[test]
fn clearing_the_board_completes_the_level() {
    let mut game = playing(2, vec![ball_at(100_000, 100_000, 0, UNIT)], vec![block_at(100_000, 145_000, 1)]);
    game.step_with(&frame(0, false), 0);
    assert_eq!(game.state, GameState::LevelCompleted);
    assert!(game.blocks.is_empty());
    assert_eq!(game.score, 10);
    assert_eq!(game.player_lives, 2);
    assert_eq!(game.balls.len(), 1);
}

#[test]
fn cleared_board_completes_the_level_without_balls() {
    let mut game = playing(2, Vec::new(), Vec::new());
    game.step_with(&frame(0, false), 0);
    assert_eq!(game.state, GameState::LevelCompleted);
}

#[test]
fn cleared_board_wins_over_the_last_lost_ball() {
    // The only ball falls on the last life in a frame that leaves no block:
    // the life is taken, and the level is completed all the same.
    let mut game = playing(1, vec![ball_at(100_000, 650_000, 0, UNIT)], Vec::new());
    game.step_with(&frame(0, false), 0);
    assert_eq!(game.player_lives, 0);
    assert_eq!(game.state, GameState::LevelCompleted);
    assert!(game.balls.is_empty());
}

#[test]
fn action_key_after_a_win_or_a_loss_leads_to_the_menu() {
    let mut game = playing(0, vec![ball_at(1, 2, 3, 4)], vec![block_at(5, 6, 1)]);
    game.state = GameState::Dead;
    game.score = 90;
    game.step_with(&frame(16_667, false), 0);
    assert_eq!(game.state, GameState::Dead);
    game.step_with(&frame(16_667, true), 0);
    assert_eq!(game.state, GameState::Menu);
    // Nothing is reset yet.
    assert_eq!(game.score, 90);
    assert_eq!(game.player_lives, 0);
    assert_eq!(game.balls, vec![ball_at(1, 2, 3, 4)]);
    assert_eq!(game.blocks, vec![block_at(5, 6, 1)]);

    game.state = GameState::LevelCompleted;
    game.step_with(&frame(16_667, false), 0);
    assert_eq!(game.state, GameState::LevelCompleted);
    game.step_with(&frame(16_667, true), 0);
    assert_eq!(game.state, GameState::Menu);
    assert_eq!(game.score, 90);
}

#[test]
fn round_trip_through_the_menu_gives_a_fresh_board() {
    let mut game = Game::new(SCREEN_W, SCREEN_H);
    game.step_with(&frame(0, true), 0);
    game.blocks.truncate(1);
    game.blocks[0].lives = 1;
    game.balls[0] = ball_at(game.blocks[0].rect.x, game.blocks[0].rect.y - 45_000, 0, UNIT);
    game.step_with(&frame(0, false), 0);
    assert_eq!(game.state, GameState::LevelCompleted);
    assert_eq!(game.score, 10);
    game.step_with(&frame(0, true), 0);
    assert_eq!(game.state, GameState::Menu);
    game.step_with(&frame(0, true), 0);
    assert_eq!(game.state, GameState::Playing);
    assert_eq!(game.blocks, build_grid(SCREEN_W));
    assert_eq!(game.blocks.len(), 36);
    assert_eq!(game.balls.len(), 1);
    assert_eq!(game.score, 0);
    assert_eq!(game.player_lives, 3);
}

#[test]
fn paddle_stays_on_the_screen_through_a_session() {
    let mut game = Game::new(SCREEN_W, SCREEN_H);
    game.step_with(&frame(0, true), 0);
    let mut round: u32 = 0;
    while round < 600 {
        let mut f = frame(16_667, false);
        f.left = round % 200 < 120;
        f.right = round % 300 >= 150;
        game.step_with(&f, 0);
        assert!(0 <= game.player.rect.x && game.player.rect.x <= SCREEN_W - 150_000);
        round += 1;
    }
}

#[test]
fn session_keeps_its_order_through_many_frames() {
    let mut game = Game::new(SCREEN_W, SCREEN_H);
    let mut round: u32 = 0;
    let mut last_score: u32 = 0;
    while round < 5_000 {
        let mut f = frame(16_667, round % 97 == 0);
        f.left = round % 64 < 32;
        f.right = round % 48 < 16;
        let before: GameState = game.state;
        let blocks_before: usize = game.blocks.len();
        game.step_with(&f, ((round % 2_001) as i32 - 1_000) * 1_000);
        for block in game.blocks.iter() {
            assert!(block.lives > 0);
        }
        if game.state == GameState::Playing {
            assert!(game.player_lives >= 1);
            if before == GameState::Playing {
                assert!(game.score >= last_score);
                assert!(game.blocks.len() <= blocks_before);
            }
        }
        last_score = game.score;
        round += 1;
    }
}

#[test]
fn single_ball_scores_ten_for_each_block_it_takes_off() {
    // A tall screen keeps the new ball clear of the grid. The paddle follows
    // the ball, and a new ball is asked for whenever none is left.
    let mut game = Game::new(SCREEN_W, 1_000_000);
    let mut f = Frame {
        dt: 16_667,
        screen_w: SCREEN_W,
        screen_h: 1_000_000,
        left: false,
        right: false,
        action: true,
    };
    game.step_with(&f, 300_000);
    let mut round: u32 = 0;
    let mut broken: u32 = 0;
    while round < 20_000 && game.state == GameState::Playing {
        let blocks_before: usize = game.blocks.len();
        let score_before: u32 = game.score;
        f.action = game.balls.is_empty();
        if !game.balls.is_empty() {
            let ball_centre: i32 = game.balls[0].rect.x + 25_000;
            let paddle_centre: i32 = game.player.rect.x + 75_000;
            f.left = ball_centre < paddle_centre;
            f.right = ball_centre > paddle_centre;
        }
        game.step_with(&f, ((round % 1_999) as i32 - 999) * 1_000);
        assert!(game.balls.len() <= 1);
        let removed: u32 = (blocks_before - game.blocks.len()) as u32;
        assert_eq!(game.score, score_before + 10 * removed);
        broken += removed;
        round += 1;
    }
    assert_eq!(game.score, 10 * broken);
    assert_eq!(game.blocks.len() as u32, 36 - broken);
    // The session went somewhere in that time.
    assert!(broken > 0);
}
