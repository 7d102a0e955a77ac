//! A player: the paddle, who moves it, the score, and the swept test that
//! finds where the ball met the paddle between two samples.

use vstd::prelude::*;
use crate::ball::{Ball, Sound};
use crate::fixed::{trunc_quot, clamp, quot_toward_zero, clamp_to, lemma_trunc_div_bounds};
use crate::wacky_tube_man::WackyTubeMan;
use crate::{Position, SCREEN_WIDTH, SCREEN_HEIGHT, COORD_MAX};

verus! {

/// How a player is shown.
#[derive(Clone, Copy, Debug, PartialEq, Eq, Structural)]
pub enum PlayerMode {
    Active,
    Winner,
    Loser,
}

/// Who moves a paddle.
#[derive(Clone, Debug, PartialEq, Eq)]
pub enum PlayerType {
    /// A person at this machine, by name.
    Human(String),
    /// The machine: the paddle follows the ball.
    Computer,
    /// A peer, at the address given, or one that is still awaited.
    Network(Option<String>),
}

/// What a `PlayerType` says, with its strings as sequences of characters.
pub enum PlayerKind {
    Human(Seq<char>),
    Computer,
    Network(Option<Seq<char>>),
}

impl View for PlayerType {
    type V = PlayerKind;

    open spec fn view(&self) -> PlayerKind {
        match self {
            PlayerType::Human(name) => PlayerKind::Human(name@),
            PlayerType::Computer => PlayerKind::Computer,
            PlayerType::Network(Some(address)) => PlayerKind::Network(Some(address@)),
            PlayerType::Network(None) => PlayerKind::Network(None),
        }
    }
}

impl PlayerType {
    /// A copy that says the same.
    pub fn duplicate(&self) -> (copy: PlayerType)
        ensures
            copy == *self,
    {
        match self {
            PlayerType::Human(name) => PlayerType::Human(name.clone()),
            PlayerType::Computer => PlayerType::Computer,
            PlayerType::Network(Some(address)) => PlayerType::Network(Some(address.clone())),
            PlayerType::Network(None) => PlayerType::Network(None),
        }
    }

    /// Whether the paddle follows the ball by itself.
    pub fn is_computer(&self) -> (b: bool)
        ensures
            b == (*self is Computer),
    {
        match self {
            PlayerType::Computer => true,
            _ => false,
        }
    }

    /// Whether a person at this machine moves the paddle.
    pub fn is_human(&self) -> (b: bool)
        ensures
            b == (*self is Human),
    {
        match self {
            PlayerType::Human(_) => true,
            _ => false,
        }
    }
}

/// Height at which the ball, seen at `prev` and then at `cur`, crossed the
/// vertical line at `edge`: the point of the segment from `prev` to `cur`
/// (or of the line through them) whose x is `edge`, its height rounded
/// toward `prev`.
pub open spec fn contact_y(prev: Position, cur: Position, edge: int) -> int
    recommends
        cur.x != prev.x,
{
    prev.y + trunc_quot((cur.y - prev.y) * (edge - prev.x), cur.x - prev.x)
}

/// The height at which the ball crossed the line at `edge` between two
/// samples; `None` where it did not move horizontally, or where that height
/// is beyond the coordinate range.
pub fn sweep(prev: Position, cur: Position, edge: i64) -> (y: Option<i64>)
    requires
        prev.in_range(),
        cur.in_range(),
        -2 * COORD_MAX <= edge <= 2 * COORD_MAX,
    ensures
        y is Some <==> cur.x != prev.x && -COORD_MAX <= contact_y(prev, cur, edge as int)
            <= COORD_MAX,
        y is Some ==> y->0 == contact_y(prev, cur, edge as int),
{
    if cur.x == prev.x {
        return None;
    }
    let rise: i128 = (cur.y - prev.y) as i128;
    let run: i128 = (cur.x - prev.x) as i128;
    let reach: i128 = (edge - prev.x) as i128;
    assert(-6_000_000_000_000_000_000 <= rise * reach <= 6_000_000_000_000_000_000)
        by (nonlinear_arith)
        requires
            -2_000_000_000 <= rise <= 2_000_000_000,
            -3_000_000_000 <= reach <= 3_000_000_000,
    ;
    let q: i128 = quot_toward_zero(rise * reach, run);
    proof {
        if run > 0 {
            lemma_trunc_div_bounds(rise * reach, run as int);
        } else {
            lemma_trunc_div_bounds(-(rise * reach), -run as int);
        }
    }
    let y: i128 = prev.y as i128 + q;
    if -(COORD_MAX as i128) <= y && y <= COORD_MAX as i128 {
        Some(y as i64)
    } else {
        None
    }
}

/// A count of microseconds that stops at `u64::MAX`.
pub open spec fn saturated(micros: int) -> u64 {
    if micros > u64::MAX {
        u64::MAX
    } else {
        micros as u64
    }
}

/// A player.
#[derive(Clone, Debug)]
pub struct Player {
    /// Who moves the paddle.
    pub me: PlayerType,
    /// Centre of the paddle.
    pub pos: Position,
    /// Extent of the paddle along x.
    pub width: i64,
    /// Extent of the paddle along y.
    pub height: i64,
    /// Whether the paddle guards the left edge.
    pub is_left: bool,
    /// Where the ball was when it was last looked at; `None` after a
    /// strike and before the first look.
    pub last_ball: Option<Position>,
    /// Points won.
    pub score: i32,
    /// Microseconds played; it stops at `u64::MAX`.
    pub t: u64,
    /// How the player is shown.
    pub mode: PlayerMode,
    /// The figure shown once the match is over.
    pub wacky: WackyTubeMan,
}

impl Player {
    /// The paddle stands within the court and is no larger than it, and what
    /// it remembers of the ball lies within the coordinate range.
    pub open spec fn wf(self) -> bool {
        &&& 0 <= self.pos.x <= SCREEN_WIDTH
        &&& -COORD_MAX <= self.pos.y <= COORD_MAX
        &&& 0 < self.width <= SCREEN_WIDTH
        &&& 0 < self.height <= SCREEN_HEIGHT
        &&& self.last_ball matches Some(p) ==> p.in_range()
    }

    /// The paddle is where a person's paddle is held: wholly between the
    /// walls.
    pub open spec fn between_walls(self) -> bool {
        self.height / 2 <= self.pos.y <= SCREEN_HEIGHT - self.height / 2
    }

    /// The x beyond which a ball of the given radius touches the face of the
    /// paddle.
    pub open spec fn edge(self, radius: int) -> int {
        if self.is_left {
            self.pos.x + self.width / 2 + radius
        } else {
            self.pos.x - self.width / 2 - radius
        }
    }

    /// Whether a ball seen at `prev` and now at `cur` can have met the face
    /// of the paddle: it is at the face or behind it now, and it was not
    /// behind the paddle's centre before.
    pub open spec fn reachable(self, prev: Position, cur: Position, radius: int) -> bool {
        if self.is_left {
            cur.x <= self.edge(radius) && self.pos.x <= prev.x
        } else {
            cur.x >= self.edge(radius) && self.pos.x >= prev.x
        }
    }

    /// Whether a ball of the given radius at height `y` touches the paddle.
    pub open spec fn covers(self, y: int, radius: int) -> bool {
        self.pos.y - self.height / 2 - radius <= y <= self.pos.y + self.height / 2 + radius
    }

    /// The player with the paddle at height `y` if the machine moves it,
    /// and unchanged otherwise.
    pub open spec fn following(self, y: int) -> Player {
        if self.me is Computer {
            Player { pos: Position { x: self.pos.x, y: y as i64 }, ..self }
        } else {
            self
        }
    }

    /// The player and the ball after the player has looked for a strike,
    /// and the sound of the strike if there was one.
    ///
    /// A paddle that the machine moves first goes to the height of the
    /// ball. Without an earlier sample of the ball there is no strike. With
    /// one, a strike is possible where the ball is `reachable`, has moved
    /// horizontally, and crossed the face of the paddle at a height within
    /// the coordinate range; a paddle that the machine moves then goes to
    /// that height. The strike happens if the paddle `covers` that height:
    /// the ball is struck at the face, and the sample is forgotten. In every
    /// other case the ball stays as it is and becomes the new sample.
    pub open spec fn after_check(self, ball: Ball) -> (Player, Ball, Option<Sound>) {
        let p = self.following(ball.pos.y as int);
        let missed = (Player { last_ball: Some(ball.pos), ..p }, ball, None::<Sound>);
        match self.last_ball {
            None => missed,
            Some(prev) => {
                let edge = p.edge(ball.radius as int);
                let y = contact_y(prev, ball.pos, edge);
                if p.reachable(prev, ball.pos, ball.radius as int) && ball.pos.x != prev.x
                    && -COORD_MAX <= y <= COORD_MAX {
                    let q = p.following(y);
                    if q.covers(y, ball.radius as int) {
                        (
                            Player { last_ball: None, ..q },
                            ball.struck(edge, y, q.pos.y as int, q.height as int, q.is_left),
                            Some(
                                if q.is_left {
                                    Sound::Ping
                                } else {
                                    Sound::Pong
                                },
                            ),
                        )
                    } else {
                        (Player { last_ball: Some(ball.pos), ..q }, ball, None::<Sound>)
                    }
                } else {
                    missed
                }
            },
        }
    }

    /// Whether the player is well formed.
    pub fn is_valid(&self) -> (b: bool)
        ensures
            b == self.wf(),
    {
        let seen: bool = match self.last_ball {
            Some(p) => -COORD_MAX <= p.x && p.x <= COORD_MAX && -COORD_MAX <= p.y && p.y
                <= COORD_MAX,
            None => true,
        };
        0 <= self.pos.x && self.pos.x <= SCREEN_WIDTH && -COORD_MAX <= self.pos.y && self.pos.y
            <= COORD_MAX && 0 < self.width && self.width <= SCREEN_WIDTH && 0 < self.height
            && self.height <= SCREEN_HEIGHT && seen
    }

    /// Whether the player is as at the start of a match, on the given side:
    /// the paddle a fifteenth of the court's height from its edge and at the
    /// top wall, a fifteenth of the court's height long and a hundredth of
    /// it wide, no points, nothing seen of the ball.
    pub open spec fn is_fresh(self, is_left: bool) -> bool {
        &&& self.is_left == is_left
        &&& self.pos.x == (if is_left {
            SCREEN_HEIGHT / 15
        } else {
            SCREEN_WIDTH - SCREEN_HEIGHT / 15
        })
        &&& self.pos.y == SCREEN_HEIGHT / 30
        &&& self.width == SCREEN_HEIGHT / 100
        &&& self.height == SCREEN_HEIGHT / 15
        &&& self.last_ball is None
        &&& self.score == 0
        &&& self.t == 0
        &&& self.mode == PlayerMode::Active
        &&& self.wacky == (WackyTubeMan {
            time: 0,
            x: 0,
            y: 0,
            height: self.height,
            thickness: self.width,
        })
    }

    /// The player after a peer has said that its paddle is at height `y`:
    /// the paddle of a player at a peer's machine goes there, as far as the
    /// walls allow, and any other stays.
    pub open spec fn after_peer(self, y: int) -> Player {
        if self.me is Network {
            Player {
                pos: Position {
                    x: self.pos.x,
                    y: clamp(y, self.height / 2, SCREEN_HEIGHT - self.height / 2) as i64,
                },
                ..self
            }
        } else {
            self
        }
    }

    /// A player at the start of a match: see `is_fresh`.
    pub fn new(is_left: bool, me: &PlayerType) -> (player: Player)
        ensures
            player.wf(),
            player.between_walls(),
            player.me == *me,
            player.is_fresh(is_left),
    {
        let padding: i64 = SCREEN_HEIGHT / 15;
        let x: i64 = if is_left {
            padding
        } else {
            SCREEN_WIDTH - padding
        };
        let height: i64 = SCREEN_HEIGHT / 15;
        let width: i64 = SCREEN_HEIGHT / 100;
        Player {
            me: me.duplicate(),
            pos: Position { x, y: SCREEN_HEIGHT / 30 },
            width,
            height,
            is_left,
            last_ball: None,
            score: 0,
            t: 0,
            mode: PlayerMode::Active,
            wacky: WackyTubeMan::new(height, width),
        }
    }

    /// Adds to the score and returns it.
    pub fn update_score(&mut self, increment: i32) -> (score: i32)
        requires
            i32::MIN <= old(self).score + increment <= i32::MAX,
        ensures
            score == old(self).score + increment,
            *final(self) == (Player { score, ..*old(self) }),
    {
        self.score = self.score + increment;
        self.score
    }

    /// The player after `dt` microseconds in which a person's paddle was
    /// moved by `extra`, as far as the walls allow. The figure is put where
    /// the paddle stood. A paddle that no person moves stays.
    pub open spec fn after_update(self, dt: int, extra: int) -> Player {
        Player {
            t: saturated(self.t + dt),
            wacky: WackyTubeMan {
                time: saturated(self.wacky.time + dt),
                x: self.pos.x,
                y: self.pos.y,
                ..self.wacky
            },
            pos: Position {
                x: self.pos.x,
                y: if self.me is Human {
                    clamp(self.pos.y + extra, self.height / 2, SCREEN_HEIGHT - self.height / 2) as i64
                } else {
                    self.pos.y
                },
            },
            ..self
        }
    }

    /// Lets `dt` microseconds pass and moves a person's paddle by `extra`:
    /// see `after_update`.
    pub fn update(&mut self, dt: u32, extra: i64)
        requires
            old(self).wf(),
        ensures
            final(self).wf(),
            *final(self) == old(self).after_update(dt as int, extra as int),
            final(self).me is Human ==> final(self).between_walls(),
    {
        self.t = self.t.saturating_add(dt as u64);
        self.wacky.update(dt);
        self.wacky.set_position(self.pos.x, self.pos.y);
        if self.me.is_human() {
            let moved: i128 = self.pos.y as i128 + extra as i128;
            self.pos.y = clamp_to(moved, self.height / 2, SCREEN_HEIGHT - self.height / 2);
        }
    }

    /// Takes the height that a peer has sent for its paddle: see
    /// `after_peer`.
    pub fn follow_peer(&mut self, y: i64)
        requires
            old(self).wf(),
        ensures
            *final(self) == old(self).after_peer(y as int),
            final(self).wf(),
            final(self).me is Network ==> final(self).between_walls(),
    {
        let remote: bool = match self.me {
            PlayerType::Network(_) => true,
            _ => false,
        };
        if remote {
            self.pos.y = clamp_to(y as i128, self.height / 2, SCREEN_HEIGHT - self.height / 2);
        }
    }

    /// Sets how the player is shown.
    pub fn set_mode(&mut self, mode: PlayerMode)
        ensures
            *final(self) == (Player { mode, ..*old(self) }),
    {
        self.mode = mode;
    }

    /// Looks for a strike since the ball was last seen, and strikes the
    /// ball if there was one: see `after_check`. The sound of the strike is
    /// returned for the host to play.
    pub fn check_for_hit(&mut self, ball: &mut Ball) -> (sound: Option<Sound>)
        requires
            old(self).wf(),
            old(ball).wf(),
        ensures
            *final(self) == old(self).after_check(*old(ball)).0,
            *final(ball) == old(self).after_check(*old(ball)).1,
            sound == old(self).after_check(*old(ball)).2,
            final(self).wf(),
            final(ball).wf(),
            sound is Some ==> final(self).last_ball is None,
            sound is None ==> *final(ball) == *old(ball) && final(self).last_ball == Some(
                old(ball).pos,
            ),
            old(self).last_ball is None ==> sound is None,
    {
        let computer = self.me.is_computer();
        if computer {
            self.pos.y = ball.pos.y;
        }
        if let Some(prev) = self.last_ball {
            let edge: i64 = if self.is_left {
                self.pos.x + self.width / 2 + ball.radius
            } else {
                self.pos.x - self.width / 2 - ball.radius
            };
            let possible: bool = if self.is_left {
                ball.pos.x <= edge && self.pos.x <= prev.x
            } else {
                ball.pos.x >= edge && self.pos.x >= prev.x
            };
            if possible {
                if let Some(y) = sweep(prev, ball.pos, edge) {
                    if computer {
                        self.pos.y = y;
                    }
                    let top: i64 = self.pos.y + self.height / 2;
                    let bottom: i64 = self.pos.y - self.height / 2;
                    if y >= bottom - ball.radius && y <= top + ball.radius {
                        let sound = ball.paddle_strike(
                            edge,
                            y,
                            self.pos.y,
                            self.height,
                            self.is_left,
                        );
                        self.last_ball = None;
                        return Some(sound);
                    }
                }
            }
        }
        self.last_ball = Some(ball.pos);
        None
    }
}

/// A strike is not found twice: when a look at the ball found a strike, a
/// second look without a step of the ball between them finds none, and
/// leaves the ball as the first look left it.
pub proof fn lemma_no_double_hit(player: Player, ball: Ball)
    ensures
        ({
            let (p1, b1, s1) = player.after_check(ball);
            let (p2, b2, s2) = p1.after_check(b1);
            s1 is Some ==> s2 is None && b2 == b1 && p2.last_ball == Some(b1.pos)
        }),
{
}

} // verus!
