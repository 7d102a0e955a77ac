//! The figure that dances in a paddle's place once the match is over: its
//! clock, where it stands, and the lengths of its limbs. Posing and drawing
//! it is the host's part.

use vstd::prelude::*;
use crate::fixed::div_toward_zero;
use crate::trig::{spec_sin, spec_cos, spec_normalize, project, normalize, lemma_project_bounds};
use crate::COORD_MAX;

verus! {

/// Most segments that a chain is posed with.
pub const MAX_SEGMENTS: usize = 1_000_000;

/// Where a segment starts and which way it points.
#[derive(Clone, Copy, Debug, PartialEq, Eq, Structural)]
pub struct Orientation {
    pub x: i64,
    pub y: i64,
    /// A direction in `[0, FULL_TURN)`.
    pub phi: i32,
}

/// A chain of segments, each hinged on the end of the one before.
pub struct Chain {
    pub lengths: Vec<i64>,
}

/// Where segment `k` of a chain starts and which way it points, when the
/// chain starts at `initial` and each segment is turned by its angle
/// against the one before: a segment starts where the one before ends.
pub open spec fn joint(lengths: Seq<i64>, angles: Seq<i32>, initial: Orientation, k: int) -> (
    int,
    int,
    int,
)
    decreases k,
{
    if k <= 0 {
        (initial.x as int, initial.y as int, spec_normalize(initial.phi + angles[0]))
    } else {
        let (x, y, phi) = joint(lengths, angles, initial, k - 1);
        (
            x + project(lengths[k - 1] as int, spec_cos(phi)),
            y + project(lengths[k - 1] as int, spec_sin(phi)),
            spec_normalize(phi + angles[k]),
        )
    }
}

/// A joint is no farther from the start of the chain, along either axis,
/// than the segments before it are long at most.
pub proof fn lemma_joint_reach(lengths: Seq<i64>, angles: Seq<i32>, initial: Orientation, k: int)
    requires
        0 <= k <= lengths.len(),
        forall|i: int| 0 <= i < lengths.len() ==> 0 <= #[trigger] lengths[i] <= COORD_MAX,
    ensures
        initial.x - k * COORD_MAX <= joint(lengths, angles, initial, k).0 <= initial.x + k
            * COORD_MAX,
        initial.y - k * COORD_MAX <= joint(lengths, angles, initial, k).1 <= initial.y + k
            * COORD_MAX,
        0 <= joint(lengths, angles, initial, k).2 < 360_000,
    decreases k,
{
    if k > 0 {
        lemma_joint_reach(lengths, angles, initial, k - 1);
        let (x, y, phi) = joint(lengths, angles, initial, k - 1);
        crate::trig::lemma_sin_cos_bounds(phi);
        lemma_project_bounds(lengths[k - 1] as int, spec_cos(phi));
        lemma_project_bounds(lengths[k - 1] as int, spec_sin(phi));
        assert(k * COORD_MAX == (k - 1) * COORD_MAX + COORD_MAX) by (nonlinear_arith);
    } else {
        assert(0 * COORD_MAX == 0);
    }
}

impl Chain {
    /// The chain can be posed: it has at most `MAX_SEGMENTS` segments, none
    /// of a negative length or longer than `COORD_MAX`.
    pub open spec fn wf(&self) -> bool {
        &&& self.lengths@.len() <= MAX_SEGMENTS
        &&& forall|i: int|
            0 <= i < self.lengths@.len() ==> 0 <= #[trigger] self.lengths@[i] <= COORD_MAX
    }

    /// Whether the chain can be posed.
    pub fn is_valid(&self) -> (b: bool)
        ensures
            b == self.wf(),
    {
        let n: usize = self.lengths.len();
        if n > MAX_SEGMENTS {
            return false;
        }
        let mut i: usize = 0;
        while i < n
            invariant
                i <= n == self.lengths@.len() <= MAX_SEGMENTS,
                forall|j: int| 0 <= j < i ==> 0 <= #[trigger] self.lengths@[j] <= COORD_MAX,
            decreases n - i,
        {
            if self.lengths[i] < 0 || self.lengths[i] > COORD_MAX {
                return false;
            }
            i = i + 1;
        }
        true
    }

    /// A chain of the given segment lengths.
    pub fn new(lengths: Vec<i64>) -> (chain: Chain)
        ensures
            chain.lengths@ == lengths@,
    {
        Chain { lengths }
    }

    /// Poses the chain: for each segment that has an angle, where it starts
    /// and which way it points, and its length.
    pub fn solve(&self, initial: &Orientation, angles: &Vec<i32>) -> (posed: Vec<(Orientation, i64)>)
        requires
            self.wf(),
            -COORD_MAX <= initial.x <= COORD_MAX,
            -COORD_MAX <= initial.y <= COORD_MAX,
        ensures
            posed@.len() == if angles@.len() < self.lengths@.len() {
                angles@.len()
            } else {
                self.lengths@.len()
            },
            forall|k: int|
                0 <= k < posed@.len() ==> {
                    let (x, y, phi) = joint(self.lengths@, angles@, *initial, k);
                    &&& (#[trigger] posed@[k]).0.x == x
                    &&& posed@[k].0.y == y
                    &&& posed@[k].0.phi == phi
                    &&& posed@[k].1 == self.lengths@[k]
                },
    {
        let n: usize = if angles.len() < self.lengths.len() {
            angles.len()
        } else {
            self.lengths.len()
        };
        let mut posed: Vec<(Orientation, i64)> = Vec::new();
        if n == 0 {
            return posed;
        }
        let mut x: i64 = initial.x;
        let mut y: i64 = initial.y;
        let mut phi: i32 = normalize(initial.phi as i128 + angles[0] as i128);
        let mut k: usize = 0;
        while k < n
            invariant
                0 < n <= self.lengths@.len(),
                n <= angles@.len(),
                self.wf(),
                -COORD_MAX <= initial.x <= COORD_MAX,
                -COORD_MAX <= initial.y <= COORD_MAX,
                k <= n,
                posed@.len() == k,
                k < n ==> joint(self.lengths@, angles@, *initial, k as int) == (
                    x as int,
                    y as int,
                    phi as int,
                ),
                0 <= phi < 360_000,
                forall|j: int|
                    0 <= j < k ==> {
                        let (jx, jy, jphi) = joint(self.lengths@, angles@, *initial, j);
                        &&& (#[trigger] posed@[j]).0.x == jx
                        &&& posed@[j].0.y == jy
                        &&& posed@[j].0.phi == jphi
                        &&& posed@[j].1 == self.lengths@[j]
                    },
            decreases n - k,
        {
            let length: i64 = self.lengths[k];
            posed.push((Orientation { x, y, phi }, length));
            if k + 1 < n {
                let c: i64 = crate::trig::cos(phi);
                let s: i64 = crate::trig::sin(phi);
                proof {
                    lemma_joint_reach(self.lengths@, angles@, *initial, k as int);
                    lemma_joint_reach(self.lengths@, angles@, *initial, k as int + 1);
                    lemma_project_bounds(length as int, c as int);
                    lemma_project_bounds(length as int, s as int);
                    assert(-1_000_000_000_000_000 <= length * c <= 1_000_000_000_000_000)
                        by (nonlinear_arith)
                        requires
                            0 <= length <= 1_000_000_000,
                            -1_000_000 <= c <= 1_000_000,
                    ;
                    assert(-1_000_000_000_000_000 <= length * s <= 1_000_000_000_000_000)
                        by (nonlinear_arith)
                        requires
                            0 <= length <= 1_000_000_000,
                            -1_000_000 <= s <= 1_000_000,
                    ;
                    assert((k + 1) * COORD_MAX <= 1_000_000 * COORD_MAX) by (nonlinear_arith)
                        requires
                            k + 1 <= 1_000_000,
                    ;
                }
                let dx: i128 = div_toward_zero((length as i128) * (c as i128), 1_000_000);
                let dy: i128 = div_toward_zero((length as i128) * (s as i128), 1_000_000);
                x = (x as i128 + dx) as i64;
                y = (y as i128 + dy) as i64;
                phi = normalize(phi as i128 + angles[k + 1] as i128);
            }
            k = k + 1;
        }
        posed
    }
}

/// The dancing figure.
#[derive(Clone, Copy, Debug, PartialEq, Eq, Structural)]
pub struct WackyTubeMan {
    /// Microseconds that the figure has been animated for; it stops at
    /// `u64::MAX`.
    pub time: u64,
    /// Where the figure stands.
    pub x: i64,
    /// Where the figure stands.
    pub y: i64,
    /// Height of the figure at rest.
    pub height: i64,
    /// Thickness of its body.
    pub thickness: i64,
}

/// The lengths of the five segments of a body of the given height: a
/// quarter of the height each, but the third and the fourth, which are six
/// and four tenths of that.
pub open spec fn body_lengths(height: int) -> Seq<i64> {
    let b = height / 4;
    seq![b as i64, b as i64, (b * 3 / 5) as i64, (b * 2 / 5) as i64, b as i64]
}

/// The lengths of the four segments of an arm: an eighth of the height
/// each.
pub open spec fn arm_lengths(height: int) -> Seq<i64> {
    let a = height / 4 / 2;
    seq![a as i64, a as i64, a as i64, a as i64]
}

impl WackyTubeMan {
    /// A figure of the given height and thickness, at the origin, its clock
    /// at zero.
    pub fn new(height: i64, thickness: i64) -> (man: WackyTubeMan)
        ensures
            man == (WackyTubeMan { time: 0, x: 0, y: 0, height, thickness }),
    {
        WackyTubeMan { time: 0, x: 0, y: 0, height, thickness }
    }

    /// Lets `dt` microseconds pass.
    pub fn update(&mut self, dt: u32)
        ensures
            *final(self) == (WackyTubeMan {
                time: if old(self).time + dt > u64::MAX {
                    u64::MAX
                } else {
                    (old(self).time + dt) as u64
                },
                ..*old(self)
            }),
    {
        self.time = self.time.saturating_add(dt as u64);
    }

    /// Moves the figure.
    pub fn set_position(&mut self, x: i64, y: i64)
        ensures
            *final(self) == (WackyTubeMan { x, y, ..*old(self) }),
    {
        self.x = x;
        self.y = y;
    }

    /// The body of the figure, from the ground up.
    pub fn body(&self) -> (chain: Chain)
        requires
            0 <= self.height,
        ensures
            chain.lengths@ == body_lengths(self.height as int),
    {
        let b: i64 = self.height / 4;
        let third: i64 = ((b as i128) * 3 / 5) as i64;
        let fourth: i64 = ((b as i128) * 2 / 5) as i64;
        let mut lengths: Vec<i64> = Vec::new();
        lengths.push(b);
        lengths.push(b);
        lengths.push(third);
        lengths.push(fourth);
        lengths.push(b);
        assert(lengths@ =~= body_lengths(self.height as int));
        Chain::new(lengths)
    }

    /// One arm of the figure, from the shoulder out.
    pub fn arm(&self) -> (chain: Chain)
        requires
            0 <= self.height,
        ensures
            chain.lengths@ == arm_lengths(self.height as int),
    {
        let a: i64 = self.height / 4 / 2;
        let mut lengths: Vec<i64> = Vec::new();
        lengths.push(a);
        lengths.push(a);
        lengths.push(a);
        lengths.push(a);
        assert(lengths@ =~= arm_lengths(self.height as int));
        Chain::new(lengths)
    }
}

} // verus!
