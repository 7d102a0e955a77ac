//! A match: two players, the ball, and the mode that says whether the
//! simulation runs.

use vstd::prelude::*;
use crate::ball::{Ball, Sound, random_ratio};
use crate::fixed::clamp;
use crate::player::{Player, PlayerKind, PlayerMode, PlayerType};
use crate::{COORD_MAX, SCREEN_HEIGHT, WINNING_SCORE};

verus! {

/// A step of this many microseconds or more is taken for a stall and not
/// simulated.
pub const STALL: u32 = 100_000;

/// Largest displacement that the controller can ask of a paddle in one
/// step: more than any paddle can move.
pub const MOTION_MAX: i64 = 4_000_000_000;

/// Whether the simulation runs.
#[derive(Clone, Copy, Debug, PartialEq, Eq, Structural)]
pub enum GameMode {
    Paused,
    WaitingForNetwork,
    Active,
    GameOver,
}

/// A key that was released.
#[derive(Clone, Copy, Debug, PartialEq, Eq, Structural)]
pub enum Key {
    Space,
    Other,
}

/// What the host does with the pointer after a key.
#[derive(Clone, Copy, Debug, PartialEq, Eq, Structural)]
pub enum Cursor {
    /// Confine and hide the pointer: the match runs.
    Grab,
    /// Free and show the pointer: the match is paused.
    Release,
    /// Leave the pointer as it is.
    Keep,
}

/// The sounds of one step, in the order in which they arose.
#[derive(Clone, Copy, Debug, PartialEq, Eq, Structural)]
pub struct Events {
    /// The ball met a wall.
    pub wall: Option<Sound>,
    /// The first player struck the ball.
    pub first: Option<Sound>,
    /// The second player struck the ball.
    pub second: Option<Sound>,
}

/// Who moves a paddle, as the word on the command line says it: `network`
/// is a peer still awaited, `computer` the machine, `me` a person named
/// `player`, and any other word the address of a peer.
pub open spec fn player_kind(word: Seq<char>) -> PlayerKind {
    if word == "network"@ {
        PlayerKind::Network(None)
    } else if word == "computer"@ {
        PlayerKind::Computer
    } else if word == "me"@ {
        PlayerKind::Human("player"@)
    } else {
        PlayerKind::Network(Some(word))
    }
}

/// Who moves a paddle, as the word on the command line says it.
pub fn to_player_type(s: &str) -> (me: PlayerType)
    ensures
        me@ == player_kind(s@),
{
    let word: String = s.to_owned();
    if word == "network".to_owned() {
        PlayerType::Network(None)
    } else if word == "computer".to_owned() {
        PlayerType::Computer
    } else if word == "me".to_owned() {
        PlayerType::Human("player".to_owned())
    } else {
        PlayerType::Network(Some(word))
    }
}

/// The mode in which a match between the two begins: waiting while either
/// is a peer still awaited, paused otherwise.
pub open spec fn opening_mode(left: PlayerKind, right: PlayerKind) -> GameMode {
    if left == PlayerKind::Network(None) || right == PlayerKind::Network(None) {
        GameMode::WaitingForNetwork
    } else {
        GameMode::Paused
    }
}

/// The displacement of a paddle for a controller reading of `delta`: three
/// court units times the square of the reading, in its direction, and at
/// most `MOTION_MAX` either way.
pub open spec fn motion(delta: int) -> int {
    clamp(
        if delta >= 0 {
            3_000 * delta * delta
        } else {
            -3_000 * delta * delta
        },
        -MOTION_MAX as int,
        MOTION_MAX as int,
    )
}

/// The displacement of a paddle for a controller reading of `delta`.
pub fn paddle_motion(delta: i64) -> (m: i64)
    ensures
        m == motion(delta as int),
{
    if delta >= 65_536 {
        assert(3_000 * delta * delta >= 4_000_000_000) by (nonlinear_arith)
            requires
                delta >= 65_536,
        ;
        MOTION_MAX
    } else if delta <= -65_536 {
        assert(-3_000 * delta * delta <= -4_000_000_000) by (nonlinear_arith)
            requires
                delta <= -65_536,
        ;
        -MOTION_MAX
    } else {
        assert(0 <= delta * delta <= 65_536 * 65_536) by (nonlinear_arith)
            requires
                -65_536 < delta < 65_536,
        ;
        let square: i64 = delta * delta;
        let gain: i64 = if delta >= 0 {
            3_000 * square
        } else {
            -3_000 * square
        };
        assert(gain == (if delta >= 0 {
            3_000 * delta * delta
        } else {
            -3_000 * delta * delta
        })) by (nonlinear_arith)
            requires
                square == delta * delta,
                gain == (if delta >= 0 {
                    3_000 * square
                } else {
                    -3_000 * square
                }),
        ;
        if gain > MOTION_MAX {
            MOTION_MAX
        } else if gain < -MOTION_MAX {
            -MOTION_MAX
        } else {
            gain
        }
    }
}

/// The bound on the displacement is never seen: a paddle between the walls
/// ends where the unbounded displacement would have put it.
pub proof fn lemma_motion_bound_unseen(y: int, delta: int, lo: int, hi: int)
    requires
        -COORD_MAX <= y <= COORD_MAX,
        0 <= lo <= hi <= SCREEN_HEIGHT,
    ensures
        clamp(y + motion(delta), lo, hi) == clamp(
            y + (if delta >= 0 {
                3_000 * delta * delta
            } else {
                -3_000 * delta * delta
            }),
            lo,
            hi,
        ),
{
}

/// A match.
#[derive(Clone, Debug)]
pub struct MainState {
    /// The player on the left.
    pub p1: Player,
    /// The player on the right.
    pub p2: Player,
    pub ball: Ball,
    pub mode: GameMode,
}

impl MainState {
    /// The players and the ball are well formed, the first player is on the
    /// left and the second on the right, and the scores are below
    /// `WINNING_SCORE` until the match is over.
    pub open spec fn wf(self) -> bool {
        &&& self.p1.wf()
        &&& self.p2.wf()
        &&& self.ball.wf()
        &&& self.p1.is_left
        &&& !self.p2.is_left
        &&& 0 <= self.p1.score <= WINNING_SCORE
        &&& 0 <= self.p2.score <= WINNING_SCORE
        &&& self.mode != GameMode::GameOver ==> self.p1.score < WINNING_SCORE && self.p2.score
            < WINNING_SCORE
    }

    /// The match after a key was released, and what the host does with the
    /// pointer: the space bar starts a paused match and pauses a running
    /// one, and nothing else changes anything.
    pub open spec fn after_key(self, key: Key) -> (MainState, Cursor) {
        if key == Key::Space && self.mode == GameMode::Paused {
            (MainState { mode: GameMode::Active, ..self }, Cursor::Grab)
        } else if key == Key::Space && self.mode == GameMode::Active {
            (MainState { mode: GameMode::Paused, ..self }, Cursor::Release)
        } else {
            (self, Cursor::Keep)
        }
    }

    /// The match after one simulated step of `dt` microseconds, and its
    /// sounds. Both paddles move, the second by what the controller asks;
    /// the ball moves; a point is counted, and the match is over when a
    /// score reaches `WINNING_SCORE`; then the first and the second player
    /// look for a strike, in this order.
    pub open spec fn after_play(
        self,
        dt: int,
        movement: int,
        toward_right: bool,
        toward_bottom: bool,
    ) -> (MainState, Events) {
        let p1 = self.p1.after_update(dt, 0);
        let p2 = self.p2.after_update(dt, motion(movement));
        let (ball, out) = self.ball.after_update(dt, toward_right, toward_bottom);
        let first_won = p1.score + out.left == WINNING_SCORE;
        let second_won = p2.score + out.right == WINNING_SCORE;
        let p1 = Player {
            score: (p1.score + out.left) as i32,
            mode: if second_won {
                PlayerMode::Loser
            } else if first_won {
                PlayerMode::Winner
            } else {
                p1.mode
            },
            ..p1
        };
        let p2 = Player {
            score: (p2.score + out.right) as i32,
            mode: if second_won {
                PlayerMode::Winner
            } else if first_won {
                PlayerMode::Loser
            } else {
                p2.mode
            },
            ..p2
        };
        let mode = if first_won || second_won {
            GameMode::GameOver
        } else {
            self.mode
        };
        let (p1, ball, first) = p1.after_check(ball);
        let (p2, ball, second) = p2.after_check(ball);
        (
            MainState { p1, p2, ball, mode },
            Events {
                wall: if out.wall_hit {
                    Some(Sound::Table)
                } else {
                    None
                },
                first,
                second,
            },
        )
    }

    /// The match after a tick of `dt` microseconds, and its sounds. A
    /// paused match stays as it is. A match that waited for a peer is
    /// paused. A match that is over lets its players' clocks run and
    /// nothing else. A running match is simulated, unless the tick is as
    /// long as `STALL`: then it is skipped.
    pub open spec fn after_update(
        self,
        dt: int,
        movement: int,
        toward_right: bool,
        toward_bottom: bool,
    ) -> (MainState, Events) {
        let quiet = Events { wall: None, first: None, second: None };
        match self.mode {
            GameMode::Paused => (self, quiet),
            GameMode::GameOver => (
                MainState {
                    p1: self.p1.after_update(dt, 0),
                    p2: self.p2.after_update(dt, 0),
                    ..self
                },
                quiet,
            ),
            GameMode::WaitingForNetwork => (MainState { mode: GameMode::Paused, ..self }, quiet),
            GameMode::Active => if dt < STALL {
                self.after_play(dt, movement, toward_right, toward_bottom)
            } else {
                (self, quiet)
            },
        }
    }

    /// Whether the match is well formed.
    pub fn is_valid(&self) -> (b: bool)
        ensures
            b == self.wf(),
    {
        let over: bool = match self.mode {
            GameMode::GameOver => true,
            _ => false,
        };
        self.p1.is_valid() && self.p2.is_valid() && self.ball.is_valid() && self.p1.is_left
            && !self.p2.is_left && 0 <= self.p1.score && self.p1.score <= WINNING_SCORE && 0
            <= self.p2.score && self.p2.score <= WINNING_SCORE && (over || (self.p1.score
            < WINNING_SCORE && self.p2.score < WINNING_SCORE))
    }

    /// A match between the two players that the words name, the ball
    /// served in the given direction.
    pub fn with_serve(left: &str, right: &str, toward_right: bool, toward_bottom: bool) -> (state:
        MainState)
        ensures
            state.wf(),
            state.p1.me@ == player_kind(left@),
            state.p2.me@ == player_kind(right@),
            state.mode == opening_mode(player_kind(left@), player_kind(right@)),
            state.ball == Ball::serve_spec(toward_right, toward_bottom),
            state.p1.is_fresh(true),
            state.p2.is_fresh(false),
    {
        let left = to_player_type(left);
        let right = to_player_type(right);
        let waiting = match (&left, &right) {
            (PlayerType::Network(None), _) => true,
            (_, PlayerType::Network(None)) => true,
            _ => false,
        };
        let mode = if waiting {
            GameMode::WaitingForNetwork
        } else {
            GameMode::Paused
        };
        MainState {
            p1: Player::new(true, &left),
            p2: Player::new(false, &right),
            ball: Ball::serve(toward_right, toward_bottom),
            mode,
        }
    }

    /// A match between the two players that the words name, the ball
    /// served in a direction drawn at random.
    pub fn new(left: &str, right: &str) -> (state: MainState)
        ensures
            state.wf(),
            state.p1.me@ == player_kind(left@),
            state.p2.me@ == player_kind(right@),
            state.mode == opening_mode(player_kind(left@), player_kind(right@)),
            exists|r: bool, b: bool| state.ball == Ball::serve_spec(r, b),
            state.p1.is_fresh(true),
            state.p2.is_fresh(false),
    {
        let toward_right = random_ratio(1, 2);
        let toward_bottom = random_ratio(1, 2);
        let state = MainState::with_serve(left, right, toward_right, toward_bottom);
        assert(state.ball == Ball::serve_spec(toward_right, toward_bottom));
        state
    }

    /// Takes a released key: see `after_key`.
    pub fn key_up_event(&mut self, key: Key) -> (cursor: Cursor)
        ensures
            *final(self) == old(self).after_key(key).0,
            cursor == old(self).after_key(key).1,
            old(self).wf() ==> final(self).wf(),
    {
        match (key, self.mode) {
            (Key::Space, GameMode::Paused) => {
                self.mode = GameMode::Active;
                Cursor::Grab
            },
            (Key::Space, GameMode::Active) => {
                self.mode = GameMode::Paused;
                Cursor::Release
            },
            _ => Cursor::Keep,
        }
    }

    /// The side on which a peer plays: the right (`Some(false)`) if the
    /// second player is at a peer's machine, else the left (`Some(true)`) if
    /// the first is, and `None` if neither is.
    pub fn peer_side(&self) -> (side: Option<bool>)
        ensures
            side == (if self.p2.me is Network {
                Some(false)
            } else if self.p1.me is Network {
                Some(true)
            } else {
                None
            }),
    {
        match (&self.p1.me, &self.p2.me) {
            (_, PlayerType::Network(_)) => Some(false),
            (PlayerType::Network(_), _) => Some(true),
            _ => None,
        }
    }

    /// Whether a tick of `dt` microseconds simulates the match, and so
    /// needs a reading of the controller.
    pub fn reads_controller(&self, dt: u32) -> (b: bool)
        ensures
            b == (self.mode == GameMode::Active && dt < STALL),
    {
        match self.mode {
            GameMode::Active => dt < STALL,
            _ => false,
        }
    }

    /// Advances the match by a tick of `dt` microseconds, with `movement`
    /// read from the controller and the direction of a serve given: see
    /// `after_update`.
    pub fn update_with(
        &mut self,
        dt: u32,
        movement: i64,
        toward_right: bool,
        toward_bottom: bool,
    ) -> (events: Events)
        requires
            old(self).wf(),
        ensures
            *final(self) == old(self).after_update(
                dt as int,
                movement as int,
                toward_right,
                toward_bottom,
            ).0,
            events == old(self).after_update(
                dt as int,
                movement as int,
                toward_right,
                toward_bottom,
            ).1,
            final(self).wf(),
            old(self).mode != GameMode::Active ==> final(self).ball == old(self).ball && final(self).p1.score == old(self).p1.score && final(self).p2.score == old(self).p2.score,
    {
        let quiet = Events { wall: None, first: None, second: None };
        match self.mode {
            GameMode::Paused => {
                return quiet;
            },
            GameMode::GameOver => {
                self.p1.update(dt, 0);
                self.p2.update(dt, 0);
                return quiet;
            },
            GameMode::WaitingForNetwork => {
                self.mode = GameMode::Paused;
                return quiet;
            },
            GameMode::Active => {},
        }
        if dt < STALL {
            let extra = paddle_motion(movement);
            self.p1.update(dt, 0);
            self.p2.update(dt, extra);
            let out = self.ball.update_with(dt, toward_right, toward_bottom);
            if self.p1.update_score(out.left) == WINNING_SCORE {
                self.mode = GameMode::GameOver;
                self.p1.set_mode(PlayerMode::Winner);
                self.p2.set_mode(PlayerMode::Loser);
            }
            if self.p2.update_score(out.right) == WINNING_SCORE {
                self.mode = GameMode::GameOver;
                self.p2.set_mode(PlayerMode::Winner);
                self.p1.set_mode(PlayerMode::Loser);
            }
            let first = self.p1.check_for_hit(&mut self.ball);
            let second = self.p2.check_for_hit(&mut self.ball);
            Events {
                wall: if out.wall_hit {
                    Some(Sound::Table)
                } else {
                    None
                },
                first,
                second,
            }
        } else {
            quiet
        }
    }

    /// Whether a tick of `dt` microseconds scores a point, so that the ball
    /// is served anew.
    pub open spec fn serves(self, dt: int) -> bool {
        self.mode == GameMode::Active && dt < STALL && self.ball.leaves_court(dt)
    }

    /// Advances the match by a tick as `update_with` does. Where the tick
    /// scores a point, the direction of the serve is drawn at random.
    pub fn update(&mut self, dt: u32, movement: i64) -> (events: Events)
        requires
            old(self).wf(),
        ensures
            exists|r: bool, b: bool|
                *final(self) == (#[trigger] old(self).after_update(dt as int, movement as int, r, b)).0
                    && events == old(self).after_update(dt as int, movement as int, r, b).1,
            final(self).wf(),
            !old(self).serves(dt as int) ==> *final(self) == old(self).after_update(
                dt as int,
                movement as int,
                false,
                false,
            ).0,
    {
        let serves: bool = self.reads_controller(dt) && self.ball.scores(dt);
        let (toward_right, toward_bottom) = if serves {
            (random_ratio(1, 2), random_ratio(1, 2))
        } else {
            (false, false)
        };
        let events = self.update_with(dt, movement, toward_right, toward_bottom);
        assert(*self == old(self).after_update(
            dt as int,
            movement as int,
            toward_right,
            toward_bottom,
        ).0);
        events
    }
}

/// The ball moves and points are counted only while the match runs: in any
/// other mode a tick leaves the ball and the scores as they are, and so does
/// a key in every mode.
pub proof fn lemma_only_a_running_match_moves(
    state: MainState,
    dt: int,
    movement: int,
    toward_right: bool,
    toward_bottom: bool,
    key: Key,
)
    ensures
        state.mode != GameMode::Active ==> ({
            let after = state.after_update(dt, movement, toward_right, toward_bottom).0;
            &&& after.ball == state.ball
            &&& after.p1.score == state.p1.score
            &&& after.p2.score == state.p2.score
            &&& after.p1.last_ball == state.p1.last_ball
            &&& after.p2.last_ball == state.p2.last_ball
        }),
        state.after_key(key).0.ball == state.ball,
        state.after_key(key).0.p1 == state.p1,
        state.after_key(key).0.p2 == state.p2,
{
}

/// A match that is over stays over, whatever the ticks and the keys; a
/// match leaves waiting with the first tick; and only the space bar starts
/// or pauses a match.
pub proof fn lemma_modes(
    state: MainState,
    dt: int,
    movement: int,
    toward_right: bool,
    toward_bottom: bool,
    key: Key,
)
    ensures
        state.mode == GameMode::GameOver ==> state.after_update(
            dt,
            movement,
            toward_right,
            toward_bottom,
        ).0.mode == GameMode::GameOver && state.after_key(key).0.mode == GameMode::GameOver,
        state.mode == GameMode::WaitingForNetwork ==> state.after_update(
            dt,
            movement,
            toward_right,
            toward_bottom,
        ).0.mode == GameMode::Paused && state.after_key(key).0.mode == GameMode::WaitingForNetwork,
        state.mode == GameMode::Paused ==> state.after_update(
            dt,
            movement,
            toward_right,
            toward_bottom,
        ).0.mode == GameMode::Paused,
        key == Key::Other ==> state.after_key(key).0.mode == state.mode,
        state.mode == GameMode::Active ==> ({
            let mode = state.after_update(dt, movement, toward_right, toward_bottom).0.mode;
            mode == GameMode::Active || mode == GameMode::GameOver
        }),
{
}

/// A running match is over after a tick exactly when the tick brought a
/// score to `WINNING_SCORE`.
pub proof fn lemma_match_ends_at_winning_score(
    state: MainState,
    dt: int,
    movement: int,
    toward_right: bool,
    toward_bottom: bool,
)
    requires
        state.wf(),
        state.mode == GameMode::Active,
    ensures
        ({
            let after = state.after_update(dt, movement, toward_right, toward_bottom).0;
            &&& after.mode == GameMode::GameOver <==> after.p1.score == WINNING_SCORE
                || after.p2.score == WINNING_SCORE
            &&& state.p1.score <= after.p1.score <= state.p1.score + 1
            &&& state.p2.score <= after.p2.score <= state.p2.score + 1
            &&& after.p1.score + after.p2.score <= state.p1.score + state.p2.score + 1
        }),
{
}

} // verus!
