use breakout::geometry::Rect;
use breakout::player::{Player, PLAYER_HEIGHT, PLAYER_RISE, PLAYER_SPEED, PLAYER_WIDTH};
use breakout::units::SECOND;

#[test]
fn player_constants() {
    assert_eq!(PLAYER_WIDTH, 150_000);
    assert_eq!(PLAYER_HEIGHT, 40_000);
    assert_eq!(PLAYER_SPEED, 700_000);
    assert_eq!(PLAYER_RISE, 100_000);
}

#[test]
fn default_player_is_centred_above_the_bottom() {
    let player = Player::default(800_000, 600_000);
    assert_eq!(player.rect, Rect::new(325_000, 500_000, 150_000, 40_000));
}

#[test]
fn default_player_on_an_odd_width() {
    let player = Player::default(800_001, 600_001);
    assert_eq!(player.rect, Rect::new(325_000, 500_001, 150_000, 40_000));
}

#[test]
fn default_player_on_a_small_screen() {
    let player = Player::default(100_000, 50_000);
    assert_eq!(player.rect, Rect::new(-25_000, -50_000, 150_000, 40_000));
}

#[test]
fn default_player_saturates_at_the_ends_of_the_range() {
    let player = Player::default(i32::MIN, i32::MIN);
    assert_eq!(player.rect, Rect::new(-1_073_741_824 - 75_000, i32::MIN, 150_000, 40_000));
    let player = Player::default(i32::MAX, i32::MAX);
    assert_eq!(player.rect, Rect::new(1_073_741_823 - 75_000, i32::MAX - 100_000, 150_000, 40_000));
}

#[test]
fn update_without_keys_stays() {
    let mut player = Player::default(800_000, 600_000);
    player.update(16_667, false, false, 800_000);
    assert_eq!(player.rect, Rect::new(325_000, 500_000, 150_000, 40_000));
}

#[test]
fn update_with_both_keys_stays() {
    let mut player = Player::default(800_000, 600_000);
    player.update(16_667, true, true, 800_000);
    assert_eq!(player.rect, Rect::new(325_000, 500_000, 150_000, 40_000));
}

#[test]
fn update_moves_left_and_right_at_the_speed() {
    let mut player = Player::default(800_000, 600_000);
    player.update(16_667, true, false, 800_000);
    assert_eq!(player.rect, Rect::new(325_000 - 11_666, 500_000, 150_000, 40_000));
    player.update(16_667, false, true, 800_000);
    assert_eq!(player.rect, Rect::new(325_000, 500_000, 150_000, 40_000));
    player.update(100_000, false, true, 800_000);
    assert_eq!(player.rect.x, 395_000);
}

#[test]
fn update_stops_at_the_left_edge() {
    let mut player = Player::default(800_000, 600_000);
    player.update(SECOND, true, false, 800_000);
    assert_eq!(player.rect, Rect::new(0, 500_000, 150_000, 40_000));
    player.update(SECOND, true, false, 800_000);
    assert_eq!(player.rect.x, 0);
}

#[test]
fn update_stops_at_the_right_edge() {
    let mut player = Player::default(800_000, 600_000);
    player.update(SECOND, false, true, 800_000);
    assert_eq!(player.rect, Rect::new(650_000, 500_000, 150_000, 40_000));
    player.update(SECOND, false, true, 800_000);
    assert_eq!(player.rect.x, 650_000);
}

#[test]
fn update_brings_a_stray_paddle_back() {
    let mut player = Player { rect: Rect::new(-500_000, 500_000, 150_000, 40_000) };
    player.update(0, false, false, 800_000);
    assert_eq!(player.rect.x, 0);
    let mut player = Player { rect: Rect::new(900_000, 500_000, 150_000, 40_000) };
    player.update(0, false, false, 800_000);
    assert_eq!(player.rect.x, 650_000);
}

#[test]
fn update_follows_a_screen_that_shrinks() {
    let mut player = Player::default(800_000, 600_000);
    player.update(0, false, false, 400_000);
    assert_eq!(player.rect.x, 250_000);
}

#[test]
fn update_stays_within_the_screen_for_every_step_tried() {
    let mut player = Player::default(800_000, 600_000);
    let mut round: u32 = 0;
    while round < 500 {
        let left: bool = round % 7 < 4;
        let right: bool = round % 5 < 2;
        player.update(round * 1_000, left, right, 800_000);
        assert!(0 <= player.rect.x && player.rect.x <= 800_000 - 150_000);
        assert_eq!(player.rect.y, 500_000);
        round += 1;
    }
}

#[test]
fn update_on_a_screen_narrower_than_the_paddle() {
    // No place keeps the paddle on the screen: the right bound is applied
    // last.
    let mut player = Player::default(800_000, 600_000);
    player.update(0, false, false, 100_000);
    assert_eq!(player.rect.x, -50_000);
}

#[test]
fn update_with_the_longest_step_does_not_overflow() {
    let mut player = Player::default(800_000, 600_000);
    player.update(u32::MAX, false, true, i32::MAX);
    assert_eq!(player.rect.x, i32::MAX - 150_000);
    player.update(u32::MAX, true, false, i32::MAX);
    assert_eq!(player.rect.x, 0);
}

#[test]
fn default_player_is_centred_and_on_the_screen_for_every_width_tried() {
    let mut screen_w: i32 = 150_000;
    while screen_w < 4_000_000 {
        let player = Player::default(screen_w, 600_000);
        assert_eq!(player.rect.x + 75_000, screen_w / 2);
        assert_eq!(player.rect.y, 500_000);
        assert_eq!((player.rect.w, player.rect.h), (150_000, 40_000));
        assert!(0 <= player.rect.x && player.rect.x <= screen_w - player.rect.w);
        screen_w += 7_919;
    }
}
