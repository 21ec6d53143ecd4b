//! Scene entities and their time-stepping.

use crate::fixmath::{
    div_toward_zero, div_tz, isqrt, lemma_div_toward_zero_bounds, lemma_scale_within,
    lemma_sqrt_floor_bounds, sqrt_floor, LIMIT, MILLI,
};
use crate::gamedata::speed::Speed;
use crate::gamedata::various::Time;
use crate::gamedata::vectors::{Vec2, Vec3};
use vstd::prelude::*;

verus! {

/// An ongoing walk toward a 2D destination at a fixed speed.
#[derive(Debug, Clone, Copy, PartialEq)]
pub struct WalkTo {
    pub destination: Vec2,
    pub speed: Speed,
}

/// What a character is currently doing on its own: nothing, or walking.
#[derive(Debug, Clone, Copy, PartialEq)]
pub enum OngoingMovement {
    Idle,
    WalkTo(WalkTo),
}

/// A scene entity: a 3D position, a facing, an ongoing movement, and an
/// opaque actor tag. Mutated only through scene mutation methods.
#[derive(Debug)]
pub struct Chara {
    pub position: Vec3,
    pub ongoing_movement: OngoingMovement,
    /// The direction the character last walked in, unnormalised. The facing
    /// angle in radians is the arctangent of `y / x`, plus pi when `x` is
    /// negative (the two-quadrant correction); the renderer computes it from
    /// this vector.
    pub facing: Vec2,
    /// Opaque actor identity, not interpreted by the core.
    pub actor: String,
}

/// Mathematical image of a [`Chara`].
pub struct CharaModel {
    pub position: Vec3,
    pub ongoing_movement: OngoingMovement,
    pub facing: Vec2,
    pub actor: Seq<char>,
}

impl View for Chara {
    type V = CharaModel;

    open spec fn view(&self) -> CharaModel {
        CharaModel {
            position: self.position,
            ongoing_movement: self.ongoing_movement,
            facing: self.facing,
            actor: self.actor@,
        }
    }
}

impl Clone for Chara {
    fn clone(&self) -> (c: Chara)
        ensures
            c == *self,
    {
        Chara {
            position: self.position,
            ongoing_movement: self.ongoing_movement,
            facing: self.facing,
            actor: self.actor.clone(),
        }
    }
}

/// A simulation scalar within the range every formula stays exact on.
pub open spec fn scalar_ok(v: i64) -> bool {
    -LIMIT <= v <= LIMIT
}

impl CharaModel {
    /// Position and any pending walk within the fixed-point range.
    pub open spec fn wf(self) -> bool {
        &&& scalar_ok(self.position.x)
        &&& scalar_ok(self.position.y)
        &&& scalar_ok(self.position.z)
        &&& match self.ongoing_movement {
            OngoingMovement::Idle => true,
            OngoingMovement::WalkTo(w) => scalar_ok(w.destination.x) && scalar_ok(w.destination.y)
                && 0 <= w.speed.0 <= LIMIT,
        }
    }

    /// The fresh character an `AddChara` update creates: at the origin,
    /// facing along the positive first axis, not moving.
    pub open spec fn fresh(actor: Seq<char>) -> CharaModel {
        CharaModel {
            position: Vec3 { x: 0, y: 0, z: 0 },
            ongoing_movement: OngoingMovement::Idle,
            facing: Vec2 { x: MILLI, y: 0 },
            actor,
        }
    }
}

/// One tick of the walk-to algorithm, as spec.
///
/// Let `remaining` be the distance from the position to the destination and
/// `reach` the distance the walk can cover this tick. If `reach` falls short
/// of `remaining` the character moves along the line toward the destination
/// by `reach` and turns to face that way; otherwise the position snaps
/// exactly to the destination (elevation zeroed), the movement is cleared,
/// and the tick reports the walk finished. Reaching the destination exactly
/// on the tick where `reach == remaining` counts as finished.
///
/// The returned flag is that report: `true` exactly when a walk completed on
/// this tick.
pub open spec fn chara_tick(c: CharaModel, dt: Time) -> (CharaModel, bool) {
    match c.ongoing_movement {
        OngoingMovement::Idle => (c, false),
        OngoingMovement::WalkTo(w) => {
            let dx = w.destination.x - c.position.x;
            let dy = w.destination.y - c.position.y;
            let dist2 = dx * dx + dy * dy;
            let reach = (w.speed.0 * dt.0) / (MILLI as int);
            if reach * reach >= dist2 {
                (
                    CharaModel {
                        position: Vec3 { x: w.destination.x, y: w.destination.y, z: 0 },
                        ongoing_movement: OngoingMovement::Idle,
                        facing: c.facing,
                        actor: c.actor,
                    },
                    true,
                )
            } else {
                let rem = sqrt_floor(dist2 as nat) as int;
                (
                    CharaModel {
                        position: Vec3 {
                            x: (c.position.x + div_toward_zero(dx * reach, rem)) as i64,
                            y: (c.position.y + div_toward_zero(dy * reach, rem)) as i64,
                            z: 0,
                        },
                        ongoing_movement: c.ongoing_movement,
                        facing: Vec2 { x: dx as i64, y: dy as i64 },
                        actor: c.actor,
                    },
                    false,
                )
            }
        },
    }
}

/// A tick leaves a well-formed character well-formed, and while a walk is
/// still ongoing the new position stays between the old position and the
/// destination on each axis.
pub proof fn lemma_chara_tick_wf(c: CharaModel, dt: Time)
    requires
        c.wf(),
        0 <= dt.0 <= LIMIT,
    ensures
        chara_tick(c, dt).0.wf(),
{
    match c.ongoing_movement {
        OngoingMovement::Idle => {},
        OngoingMovement::WalkTo(w) => {
            let dx = w.destination.x - c.position.x;
            let dy = w.destination.y - c.position.y;
            let dist2 = dx * dx + dy * dy;
            let reach = (w.speed.0 * dt.0) / (MILLI as int);
            lemma_walk_quantities(c, dt);
            if reach * reach >= dist2 {
            } else {
                let rem = sqrt_floor(dist2 as nat) as int;
                lemma_scale_within(dx, reach, rem);
                lemma_scale_within(dy, reach, rem);
            }
        },
    }
}

/// Shared facts about one walking tick: the reachable distance is
/// non-negative, and when the walk does not finish this tick the floor root
/// of the squared remaining distance is at least one and at least the
/// reachable distance.
pub proof fn lemma_walk_quantities(c: CharaModel, dt: Time)
    requires
        c.wf(),
        0 <= dt.0 <= LIMIT,
        c.ongoing_movement is WalkTo,
    ensures
        ({
            let w = c.ongoing_movement->WalkTo_0;
            let dx = w.destination.x - c.position.x;
            let dy = w.destination.y - c.position.y;
            let dist2 = dx * dx + dy * dy;
            let reach = (w.speed.0 * dt.0) / (MILLI as int);
            &&& 0 <= w.speed.0 * dt.0 <= 0x4000_0000_0000_0000
            &&& 0 <= reach <= 0x4000_0000_0000_0000
            &&& 0 <= dist2 <= 0x2_0000_0000_0000_0000
            &&& (reach * reach < dist2 ==> 1 <= sqrt_floor(dist2 as nat) as int && reach
                <= sqrt_floor(dist2 as nat) as int)
        }),
{
    let w = c.ongoing_movement->WalkTo_0;
    let dx = w.destination.x - c.position.x;
    let dy = w.destination.y - c.position.y;
    let dist2 = dx * dx + dy * dy;
    let prod = w.speed.0 * dt.0;
    assert(0 <= prod <= 0x4000_0000_0000_0000 && 0 <= dist2 <= 0x2_0000_0000_0000_0000)
        by (nonlinear_arith)
        requires
            prod == w.speed.0 * dt.0,
            dist2 == dx * dx + dy * dy,
            0 <= w.speed.0 <= 0x8000_0000,
            0 <= dt.0 <= 0x8000_0000,
            -0x1_0000_0000 <= dx <= 0x1_0000_0000,
            -0x1_0000_0000 <= dy <= 0x1_0000_0000,
    {
    }
    let reach = prod / (MILLI as int);
    vstd::arithmetic::div_mod::lemma_div_pos_is_pos(prod, MILLI as int);
    vstd::arithmetic::div_mod::lemma_div_nonincreasing(prod, MILLI as int);
    if reach * reach < dist2 {
        let rem = sqrt_floor(dist2 as nat) as int;
        lemma_sqrt_floor_bounds(dist2 as nat);
        assert(reach <= rem && 1 <= rem) by (nonlinear_arith)
            requires
                0 <= reach,
                0 <= rem,
                reach * reach < dist2,
                dist2 < (rem + 1) * (rem + 1),
        {
        }
    }
}

impl Chara {
    /// A fresh character for the given actor, at the origin.
    pub fn new(actor: String) -> (c: Chara)
        ensures
            c@ == CharaModel::fresh(actor@),
    {
        Chara {
            position: Vec3 { x: 0, y: 0, z: 0 },
            ongoing_movement: OngoingMovement::Idle,
            facing: Vec2 { x: MILLI, y: 0 },
            actor,
        }
    }

    /// Clear any ongoing movement; the position stays where it is.
    pub fn abort_ongoing_movement(&mut self)
        ensures
            final(self)@ == (CharaModel {
                ongoing_movement: OngoingMovement::Idle,
                ..old(self)@
            }),
    {
        self.ongoing_movement = OngoingMovement::Idle;
    }

    /// Abort any ongoing movement, then move the character exactly to
    /// `position`.
    pub fn set_position(&mut self, position: Vec3)
        ensures
            final(self)@ == (CharaModel {
                position,
                ongoing_movement: OngoingMovement::Idle,
                ..old(self)@
            }),
    {
        self.abort_ongoing_movement();
        self.position = position;
    }

    /// Abort any ongoing movement, then start walking toward `destination`.
    pub fn walk_to(&mut self, destination: Vec2, speed: Speed)
        ensures
            final(self)@ == (CharaModel {
                ongoing_movement: OngoingMovement::WalkTo(WalkTo { destination, speed }),
                ..old(self)@
            }),
    {
        self.abort_ongoing_movement();
        self.ongoing_movement = OngoingMovement::WalkTo(WalkTo { destination, speed });
    }

    /// Advance any ongoing walk by `time`. Returns `true` exactly when a
    /// walk completed on this tick.
    pub fn time_spent(&mut self, time: Time) -> (finished: bool)
        requires
            old(self)@.wf(),
            0 <= time.0 <= LIMIT,
        ensures
            final(self)@ == chara_tick(old(self)@, time).0,
            finished == chara_tick(old(self)@, time).1,
            final(self)@.wf(),
    {
        proof {
            lemma_chara_tick_wf(old(self)@, time);
        }
        let mv = self.ongoing_movement;
        match mv {
            OngoingMovement::Idle => false,
            OngoingMovement::WalkTo(w) => {
                proof {
                    lemma_walk_quantities(old(self)@, time);
                }
                let dx: i128 = w.destination.x as i128 - self.position.x as i128;
                let dy: i128 = w.destination.y as i128 - self.position.y as i128;
                proof {
                    assert(0 <= dx * dx <= 0x1_0000_0000_0000_0000 && 0 <= dy * dy
                        <= 0x1_0000_0000_0000_0000) by (nonlinear_arith)
                        requires
                            -0x1_0000_0000 <= dx <= 0x1_0000_0000,
                            -0x1_0000_0000 <= dy <= 0x1_0000_0000,
                    {
                    }
                }
                let dist2: i128 = dx * dx + dy * dy;
                let prod: i128 = w.speed.0 as i128 * time.0 as i128;
                let reach: i128 = div_tz(prod, 1000);
                proof {
                    lemma_div_toward_zero_bounds(prod as int, 1000);
                    assert(reach * reach <= 0x1000_0000_0000_0000_0000_0000_0000_0000i128
                        && -0x8000_0000_0000_0000_0000_0000i128 <= dx * reach
                            <= 0x8000_0000_0000_0000_0000_0000i128
                        && -0x8000_0000_0000_0000_0000_0000i128 <= dy * reach
                            <= 0x8000_0000_0000_0000_0000_0000i128) by (nonlinear_arith)
                        requires
                            0 <= reach <= 0x4000_0000_0000_0000i128,
                            -0x1_0000_0000 <= dx <= 0x1_0000_0000,
                            -0x1_0000_0000 <= dy <= 0x1_0000_0000,
                    {
                    }
                }
                if reach * reach >= dist2 {
                    self.position = Vec3 { x: w.destination.x, y: w.destination.y, z: 0 };
                    self.ongoing_movement = OngoingMovement::Idle;
                    true
                } else {
                    let rem64: u64 = isqrt(dist2 as u128);
                    let rem: i128 = rem64 as i128;
                    proof {
                        lemma_sqrt_floor_bounds(dist2 as nat);
                        assert(rem64 as nat * rem64 as nat <= 0x2_0000_0000_0000_0000);
                        assert(rem64 <= 0x2_0000_0000) by (nonlinear_arith)
                            requires
                                rem64 as nat * rem64 as nat <= 0x2_0000_0000_0000_0000,
                        {
                        }
                        lemma_scale_within(dx as int, reach as int, rem as int);
                        lemma_scale_within(dy as int, reach as int, rem as int);
                    }
                    let sx: i128 = div_tz(dx * reach, rem);
                    let sy: i128 = div_tz(dy * reach, rem);
                    let nx: i64 = (self.position.x as i128 + sx) as i64;
                    let ny: i64 = (self.position.y as i128 + sy) as i64;
                    self.facing = Vec2 { x: dx as i64, y: dy as i64 };
                    self.position = Vec3 { x: nx, y: ny, z: 0 };
                    false
                }
            },
        }
    }
}

} // verus!
