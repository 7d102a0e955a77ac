//! What a match shows in each mode, and where: the host draws it.

use vstd::prelude::*;
use crate::game::GameMode;
use crate::player::{Player, PlayerMode};
use crate::{Position, SCREEN_HEIGHT, SCREEN_WIDTH, COORD_MAX};

verus! {

/// Distance of the scores from the top of the court.
pub const SCORE_TOP: i64 = 40_000;

/// Width of the line that divides the court.
pub const MID_LINE_WIDTH: i64 = 2_000;

/// A rectangle with sides along the axes.
#[derive(Clone, Copy, Debug, PartialEq, Eq, Structural)]
pub struct Outline {
    pub left: i64,
    pub top: i64,
    pub width: i64,
    pub height: i64,
}

/// The words across the court while the match does not run.
#[derive(Clone, Copy, Debug, PartialEq, Eq, Structural)]
pub enum Banner {
    Paused,
    Waiting,
    Over,
}

/// What is drawn.
#[derive(Clone, Copy, Debug, PartialEq, Eq, Structural)]
pub struct Scene {
    /// The words across the court, if any.
    pub banner: Option<Banner>,
    /// Whether the players and their scores are drawn.
    pub players: bool,
    /// Whether the ball and the line that divides the court are drawn.
    pub ball: bool,
}

/// What is drawn in a mode: the words alone while the match is paused or
/// waits, the players and the words when it is over, and the players, the
/// ball and the dividing line while it runs.
pub open spec fn scene_of(mode: GameMode) -> Scene {
    match mode {
        GameMode::Paused => Scene { banner: Some(Banner::Paused), players: false, ball: false },
        GameMode::WaitingForNetwork => Scene {
            banner: Some(Banner::Waiting),
            players: false,
            ball: false,
        },
        GameMode::GameOver => Scene { banner: Some(Banner::Over), players: true, ball: false },
        GameMode::Active => Scene { banner: None, players: true, ball: true },
    }
}

/// What is drawn in a mode.
pub fn scene(mode: GameMode) -> (s: Scene)
    ensures
        s == scene_of(mode),
{
    match mode {
        GameMode::Paused => Scene { banner: Some(Banner::Paused), players: false, ball: false },
        GameMode::WaitingForNetwork => Scene {
            banner: Some(Banner::Waiting),
            players: false,
            ball: false,
        },
        GameMode::GameOver => Scene { banner: Some(Banner::Over), players: true, ball: false },
        GameMode::Active => Scene { banner: None, players: true, ball: true },
    }
}

impl Banner {
    /// The words of the banner.
    pub open spec fn words(self) -> Seq<char> {
        match self {
            Banner::Paused => "Game paused. Hit [space] to continue.\n[Esc] to quit."@,
            Banner::Waiting => "Waiting for network player"@,
            Banner::Over => "Game Over"@,
        }
    }

    /// The words of the banner.
    pub fn text(&self) -> (t: &'static str)
        ensures
            t@ == self.words(),
    {
        match self {
            Banner::Paused => "Game paused. Hit [space] to continue.\n[Esc] to quit.",
            Banner::Waiting => "Waiting for network player",
            Banner::Over => "Game Over",
        }
    }
}

/// Where words of the given extent begin so that they stand in the middle
/// of the court.
pub fn centred(width: i64, height: i64) -> (at: Position)
    requires
        -COORD_MAX <= width <= COORD_MAX,
        -COORD_MAX <= height <= COORD_MAX,
    ensures
        at.x == (SCREEN_WIDTH - width) / 2,
        at.y == (SCREEN_HEIGHT - height) / 2,
{
    let dx: i64 = SCREEN_WIDTH - width;
    let dy: i64 = SCREEN_HEIGHT - height;
    Position {
        x: if dx >= 0 {
            dx / 2
        } else {
            -((1 - dx) / 2)
        },
        y: if dy >= 0 {
            dy / 2
        } else {
            -((1 - dy) / 2)
        },
    }
}

impl Player {
    /// The rectangle that the paddle covers.
    pub fn outline(&self) -> (r: Outline)
        requires
            self.wf(),
        ensures
            r.left == self.pos.x - self.width / 2,
            r.top == self.pos.y - self.height / 2,
            r.width == self.width,
            r.height == self.height,
    {
        Outline {
            left: self.pos.x - self.width / 2,
            top: self.pos.y - self.height / 2,
            width: self.width,
            height: self.height,
        }
    }

    /// Whether the dancing figure is drawn in place of the paddle, and
    /// whether it is happy: it is for the winner.
    pub fn figure(&self) -> (happy: Option<bool>)
        ensures
            happy == (match self.mode {
                PlayerMode::Active => None,
                PlayerMode::Loser => Some(false),
                PlayerMode::Winner => Some(true),
            }),
    {
        match self.mode {
            PlayerMode::Active => None,
            PlayerMode::Loser => Some(false),
            PlayerMode::Winner => Some(true),
        }
    }

    /// Where the score of the player is drawn: a quarter of the court's
    /// width from the edge that the player guards.
    pub fn score_place(&self) -> (at: Position)
        ensures
            at.x == (if self.is_left {
                SCREEN_WIDTH / 4
            } else {
                SCREEN_WIDTH - SCREEN_WIDTH / 4
            }),
            at.y == SCORE_TOP,
    {
        Position {
            x: if self.is_left {
                SCREEN_WIDTH / 4
            } else {
                SCREEN_WIDTH - SCREEN_WIDTH / 4
            },
            y: SCORE_TOP,
        }
    }
}

} // verus!
