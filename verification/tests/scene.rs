use netpong::game::GameMode;
use netpong::player::{Player, PlayerMode, PlayerType};
use netpong::scene::{centred, scene, Banner, Outline, Scene, SCORE_TOP};
use netpong::Position;

#[test]
fn each_mode_has_its_scene() {
    assert_eq!(
        scene(GameMode::Paused),
        Scene { banner: Some(Banner::Paused), players: false, ball: false }
    );
    assert_eq!(
        scene(GameMode::WaitingForNetwork),
        Scene { banner: Some(Banner::Waiting), players: false, ball: false }
    );
    assert_eq!(
        scene(GameMode::GameOver),
        Scene { banner: Some(Banner::Over), players: true, ball: false }
    );
    assert_eq!(scene(GameMode::Active), Scene { banner: None, players: true, ball: true });
}

#[test]
fn each_banner_has_its_words() {
    assert_eq!(Banner::Paused.text(), "Game paused. Hit [space] to continue.\n[Esc] to quit.");
    assert_eq!(Banner::Waiting.text(), "Waiting for network player");
    assert_eq!(Banner::Over.text(), "Game Over");
}

#[test]
fn words_are_centred_on_the_court() {
    assert_eq!(centred(200_000, 20_000), Position { x: 300_000, y: 290_000 });
    assert_eq!(centred(0, 0), Position { x: 400_000, y: 300_000 });
    assert_eq!(centred(800_000, 600_000), Position { x: 0, y: 0 });
    assert_eq!(centred(3, 5), Position { x: 399_998, y: 299_997 });
}

#[test]
fn words_larger_than_the_court_begin_beyond_its_corner() {
    assert_eq!(centred(800_002, 600_004), Position { x: -1, y: -2 });
    assert_eq!(centred(800_001, 600_003), Position { x: -1, y: -2 });
    assert_eq!(centred(1_000_000_000, -1_000_000_000), Position { x: -499_600_000, y: 500_300_000 });
}

#[test]
fn the_outline_of_a_paddle_is_centred_on_it() {
    let p = Player::new(true, &PlayerType::Computer);
    assert_eq!(p.outline(), Outline { left: 37_000, top: 0, width: 6_000, height: 40_000 });
    let mut p = Player::new(false, &PlayerType::Computer);
    p.pos.y = 300_000;
    assert_eq!(p.outline(), Outline { left: 757_000, top: 280_000, width: 6_000, height: 40_000 });
}

#[test]
fn the_figure_dances_once_the_match_is_over() {
    let mut p = Player::new(true, &PlayerType::Computer);
    assert_eq!(p.figure(), None);
    p.set_mode(PlayerMode::Winner);
    assert_eq!(p.figure(), Some(true));
    p.set_mode(PlayerMode::Loser);
    assert_eq!(p.figure(), Some(false));
}

#[test]
fn the_scores_stand_a_quarter_of_the_width_from_the_edges() {
    let left = Player::new(true, &PlayerType::Computer);
    let right = Player::new(false, &PlayerType::Computer);
    assert_eq!(left.score_place(), Position { x: 200_000, y: SCORE_TOP });
    assert_eq!(right.score_place(), Position { x: 600_000, y: SCORE_TOP });
}
