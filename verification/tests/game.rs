use netpong::ball::{Ball, Sound, RADIUS};
use netpong::game::{
    paddle_motion, to_player_type, Cursor, Events, GameMode, Key, MainState, MOTION_MAX,
};
use netpong::player::{PlayerMode, PlayerType};
use netpong::Position;

const QUIET: Events = Events { wall: None, first: None, second: None };

fn running(left: &str, right: &str) -> MainState {
    let mut state = MainState::with_serve(left, right, true, true);
    state.mode = GameMode::Active;
    state
}

#[test]
fn the_words_of_the_command_line_name_who_plays() {
    assert_eq!(to_player_type("network"), PlayerType::Network(None));
    assert_eq!(to_player_type("computer"), PlayerType::Computer);
    assert_eq!(to_player_type("me"), PlayerType::Human("player".to_string()));
    assert_eq!(to_player_type("10.0.0.7"), PlayerType::Network(Some("10.0.0.7".to_string())));
    assert_eq!(to_player_type(""), PlayerType::Network(Some(String::new())));
    assert_eq!(to_player_type("Me"), PlayerType::Network(Some("Me".to_string())));
    assert_eq!(to_player_type("computer "), PlayerType::Network(Some("computer ".to_string())));
}

#[test]
fn a_match_with_an_awaited_peer_begins_waiting() {
    assert_eq!(MainState::new("me", "computer").mode, GameMode::Paused);
    assert_eq!(MainState::new("network", "computer").mode, GameMode::WaitingForNetwork);
    assert_eq!(MainState::new("me", "network").mode, GameMode::WaitingForNetwork);
    assert_eq!(MainState::new("me", "10.0.0.7").mode, GameMode::Paused);
    assert_eq!(MainState::new("network", "network").mode, GameMode::WaitingForNetwork);
}

#[test]
fn a_new_match_has_two_players_and_a_served_ball() {
    let state = MainState::with_serve("me", "computer", false, true);
    assert_eq!(state.p1.me, PlayerType::Human("player".to_string()));
    assert_eq!(state.p2.me, PlayerType::Computer);
    assert!(state.p1.is_left && !state.p2.is_left);
    assert_eq!((state.p1.score, state.p2.score), (0, 0));
    assert_eq!(state.ball, Ball::serve(false, true));
    assert_eq!(state.ball.pos, Position { x: 400_000, y: 0 });
    let state = MainState::new("me", "computer");
    assert_eq!(state.ball.pos, Position { x: 400_000, y: 0 });
    assert!(state.ball.is_valid());
}

#[test]
fn the_space_bar_starts_and_pauses_the_match() {
    let mut state = MainState::with_serve("me", "computer", true, true);
    assert_eq!(state.key_up_event(Key::Other), Cursor::Keep);
    assert_eq!(state.mode, GameMode::Paused);
    assert_eq!(state.key_up_event(Key::Space), Cursor::Grab);
    assert_eq!(state.mode, GameMode::Active);
    assert_eq!(state.key_up_event(Key::Other), Cursor::Keep);
    assert_eq!(state.mode, GameMode::Active);
    assert_eq!(state.key_up_event(Key::Space), Cursor::Release);
    assert_eq!(state.mode, GameMode::Paused);
}

#[test]
fn the_space_bar_does_nothing_while_waiting_or_when_the_match_is_over() {
    for mode in [GameMode::WaitingForNetwork, GameMode::GameOver] {
        let mut state = MainState::with_serve("me", "computer", true, true);
        state.mode = mode;
        assert_eq!(state.key_up_event(Key::Space), Cursor::Keep);
        assert_eq!(state.mode, mode);
    }
}

#[test]
fn a_paused_match_does_not_move() {
    let mut state = MainState::with_serve("me", "me", true, true);
    let ball = state.ball;
    assert_eq!(state.update_with(16_666, 5, true, true), QUIET);
    assert_eq!(state.ball, ball);
    assert_eq!(state.p2.pos.y, 20_000);
    assert_eq!(state.p1.t, 0);
    assert_eq!(state.mode, GameMode::Paused);
    assert!(!state.reads_controller(16_666));
}

#[test]
fn waiting_for_a_peer_ends_with_the_next_tick() {
    let mut state = MainState::with_serve("network", "me", true, true);
    let ball = state.ball;
    assert_eq!(state.mode, GameMode::WaitingForNetwork);
    assert_eq!(state.update_with(16_666, 5, true, true), QUIET);
    assert_eq!(state.mode, GameMode::Paused);
    assert_eq!(state.ball, ball);
    assert_eq!(state.p1.t, 0);
}

#[test]
fn a_match_that_is_over_lets_only_the_clocks_run() {
    let mut state = MainState::with_serve("me", "me", true, true);
    state.mode = GameMode::GameOver;
    let ball = state.ball;
    assert_eq!(state.update_with(16_666, 5, true, true), QUIET);
    assert_eq!(state.mode, GameMode::GameOver);
    assert_eq!(state.ball, ball);
    assert_eq!((state.p1.t, state.p2.t), (16_666, 16_666));
    assert_eq!((state.p1.wacky.time, state.p2.wacky.time), (16_666, 16_666));
    assert_eq!(state.p2.pos.y, 20_000);
    assert_eq!(state.p1.last_ball, None);
}

#[test]
fn a_running_match_moves_the_ball_and_the_second_paddle() {
    let mut state = running("me", "me");
    state.ball.pos.y = 300_000;
    assert!(state.reads_controller(16_666));
    assert_eq!(state.update_with(16_666, 2, true, true), QUIET);
    assert_eq!(state.ball.pos, Position { x: 405_999, y: 305_999 });
    assert_eq!(state.p1.pos.y, 20_000);
    assert_eq!(state.p2.pos.y, 32_000);
    assert_eq!((state.p1.t, state.p2.t), (16_666, 16_666));
    assert_eq!(state.p1.last_ball, Some(state.ball.pos));
    assert_eq!(state.p2.last_ball, Some(state.ball.pos));
    assert_eq!(state.mode, GameMode::Active);
}

#[test]
fn the_first_tick_of_a_match_finds_the_ball_at_the_top_wall() {
    let mut state = running("me", "me");
    let events = state.update_with(16_666, 0, true, true);
    assert_eq!(events, Events { wall: Some(Sound::Table), first: None, second: None });
    assert_eq!(state.ball.pos, Position { x: 405_999, y: RADIUS });
    assert_eq!(state.ball.heading, 45_000);
    let mut state = running("me", "me");
    state.ball.heading = 315_000;
    let events = state.update_with(16_666, 0, true, true);
    assert_eq!(events, Events { wall: Some(Sound::Table), first: None, second: None });
    assert_eq!(state.ball.pos, Position { x: 405_999, y: RADIUS });
    assert_eq!(state.ball.heading, 45_000);
}

#[test]
fn a_stalled_tick_is_skipped() {
    let mut state = running("me", "me");
    let ball = state.ball;
    assert!(!state.reads_controller(100_000));
    assert_eq!(state.update_with(100_000, 2, true, true), QUIET);
    assert_eq!(state.ball, ball);
    assert_eq!(state.p2.pos.y, 20_000);
    assert_eq!(state.p1.t, 0);
    assert!(state.reads_controller(99_999));
    assert_eq!(state.update_with(99_999, 0, true, true), QUIET);
    assert_eq!(state.p1.t, 99_999);
    assert_eq!(state.update_with(u32::MAX, 2, true, true), QUIET);
    assert_eq!(state.p1.t, 99_999);
}

#[test]
fn a_point_is_counted_and_the_ball_served_anew() {
    let mut state = running("me", "me");
    state.ball = Ball {
        pos: Position { x: 795_000, y: 300_000 },
        speed: 360_000,
        heading: 0,
        radius: RADIUS,
        consecutive: 4,
    };
    assert_eq!(state.update_with(50_000, 0, false, false), QUIET);
    assert_eq!((state.p1.score, state.p2.score), (1, 0));
    assert_eq!(state.ball.pos, Position { x: 400_000, y: 300_000 });
    assert_eq!(state.ball.heading, 225_000);
    assert_eq!(state.ball.consecutive, 0);
    assert_eq!(state.mode, GameMode::Active);
    assert_eq!(state.p1.mode, PlayerMode::Active);
}

#[test]
fn the_winning_score_ends_the_match() {
    let mut state = running("me", "me");
    state.p2.score = 14;
    state.p1.score = 14;
    state.ball = Ball {
        pos: Position { x: 5_000, y: 300_000 },
        speed: 360_000,
        heading: 180_000,
        radius: RADIUS,
        consecutive: 0,
    };
    assert_eq!(state.update_with(50_000, 0, true, true), QUIET);
    assert_eq!((state.p1.score, state.p2.score), (14, 15));
    assert_eq!(state.mode, GameMode::GameOver);
    assert_eq!(state.p2.mode, PlayerMode::Winner);
    assert_eq!(state.p1.mode, PlayerMode::Loser);
    assert_eq!(state.key_up_event(Key::Space), Cursor::Keep);
    let ball = state.ball;
    state.update_with(16_666, 0, true, true);
    assert_eq!(state.ball, ball);
    assert_eq!((state.p1.score, state.p2.score), (14, 15));
}

#[test]
fn the_first_player_can_win_too() {
    let mut state = running("me", "me");
    state.p1.score = 14;
    state.ball.pos.x = 799_000;
    state.ball.heading = 0;
    state.update_with(50_000, 0, true, true);
    assert_eq!(state.mode, GameMode::GameOver);
    assert_eq!(state.p1.mode, PlayerMode::Winner);
    assert_eq!(state.p2.mode, PlayerMode::Loser);
    assert_eq!(state.p1.score, 15);
}

#[test]
fn the_sounds_of_a_tick_come_back_in_order() {
    let mut state = running("me", "computer");
    state.ball = Ball {
        pos: Position { x: 740_000, y: 10_000 },
        speed: 360_000,
        heading: 315_000,
        radius: RADIUS,
        consecutive: 0,
    };
    assert_eq!(state.update_with(10_000, 0, true, true), QUIET);
    let events = state.update_with(50_000, 0, true, true);
    assert_eq!(events, Events { wall: Some(Sound::Table), first: None, second: Some(Sound::Pong) });
    assert_eq!(state.ball.consecutive, 1);
    assert_eq!(state.ball.pos.x, 751_000);
    assert_eq!(state.p2.last_ball, None);
    assert_eq!(state.p1.last_ball, Some(Position { x: 755_272, y: 6_000 }));
}

#[test]
fn the_controller_moves_the_paddle_by_three_times_the_square() {
    assert_eq!(paddle_motion(0), 0);
    assert_eq!(paddle_motion(1), 3_000);
    assert_eq!(paddle_motion(-1), -3_000);
    assert_eq!(paddle_motion(2), 12_000);
    assert_eq!(paddle_motion(-3), -27_000);
    assert_eq!(paddle_motion(10), 300_000);
    assert_eq!(paddle_motion(1_154), 3_995_148_000);
    assert_eq!(paddle_motion(1_155), MOTION_MAX);
    assert_eq!(paddle_motion(-1_155), -MOTION_MAX);
    assert_eq!(paddle_motion(65_536), MOTION_MAX);
    assert_eq!(paddle_motion(i64::MAX), MOTION_MAX);
    assert_eq!(paddle_motion(i64::MIN), -MOTION_MAX);
}

#[test]
fn a_random_tick_takes_the_same_step_between_the_edges() {
    let mut a = running("me", "me");
    let mut b = running("me", "me");
    let ea = a.update(16_666, -1);
    let eb = b.update_with(16_666, -1, false, true);
    assert_eq!(ea, eb);
    assert_eq!(a.ball, b.ball);
    assert_eq!(a.p2.pos, b.p2.pos);
}

#[test]
fn is_valid_tells_a_match_that_cannot_be_advanced() {
    let mut state = running("me", "me");
    assert!(state.is_valid());
    state.p1.score = 15;
    assert!(!state.is_valid());
    state.mode = GameMode::GameOver;
    assert!(state.is_valid());
    state.p1.score = 16;
    assert!(!state.is_valid());
    state.p1.score = -1;
    assert!(!state.is_valid());
    state.p1.score = 0;
    state.p1.is_left = false;
    assert!(!state.is_valid());
    state.p1.is_left = true;
    state.ball.speed = -1;
    assert!(!state.is_valid());
}

#[test]
fn a_random_tick_that_scores_serves_in_one_of_the_four_directions() {
    for _ in 0..16 {
        let mut state = running("me", "me");
        state.ball.pos.x = 1_000;
        state.ball.heading = 180_000;
        state.update(50_000, 0);
        assert_eq!((state.p1.score, state.p2.score), (0, 1));
        assert_eq!(state.ball.pos, Position { x: 400_000, y: 0 });
        assert!([45_000, 135_000, 225_000, 315_000].contains(&state.ball.heading));
    }
}

#[test]
fn the_side_of_the_peer_is_the_one_that_names_it() {
    assert_eq!(MainState::with_serve("me", "computer", true, true).peer_side(), None);
    assert_eq!(MainState::with_serve("me", "10.0.0.7", true, true).peer_side(), Some(false));
    assert_eq!(MainState::with_serve("network", "me", true, true).peer_side(), Some(true));
    assert_eq!(MainState::with_serve("network", "10.0.0.7", true, true).peer_side(), Some(false));
}
