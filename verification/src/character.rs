//! Character state and the per-tick movement decision: life and damage,
//! what a hit from an enemy leads to, how input, ground contact, climbing
//! range and water turn into a movement command, and which animation a
//! character shows. Velocities themselves are scaled by the host from the
//! integer directions decided here.

use crate::contact::{Climber, ContactSet, Jumping};
use vstd::prelude::*;

verus! {

/// Remaining life of a character.
#[derive(Clone, Copy, PartialEq, Eq, Structural, Debug)]
pub struct Life {
    current: u16,
}

/// Life a character spawns with when the level file gives none.
pub const DEFAULT_LIFE: u16 = 5;

impl Life {
    pub closed spec fn spec_get(self) -> u16 {
        self.current
    }

    /// Life read from the level file's optional `life` field; missing
    /// values fall back to the default, and the raw count is truncated to
    /// the stored width exactly as the file's integer is.
    pub fn from_field(field: Option<i32>) -> (r: Life)
        ensures
            r.spec_get() == match field {
                Some(v) => v as u16,
                None => DEFAULT_LIFE,
            },
    {
        match field {
            Some(v) => Life { current: #[verifier::truncate] (v as u16) },
            None => Life { current: DEFAULT_LIFE },
        }
    }

    pub fn new(current: u16) -> (r: Life)
        ensures
            r.spec_get() == current,
    {
        Life { current }
    }

    pub fn get(&self) -> (r: u16)
        ensures
            r == self.spec_get(),
    {
        self.current
    }

    /// Takes damage, saturating at zero.
    pub fn hit(&mut self, damage: u16)
        ensures
            final(self).spec_get() == if old(self).spec_get() >= damage {
                old(self).spec_get() - damage
            } else {
                0
            },
    {
        self.current = self.current.saturating_sub(damage);
    }

    pub fn is_dead(&self) -> (r: bool)
        ensures
            r == (self.spec_get() == 0),
    {
        self.current == 0
    }
}

/// Damage an enemy deals per hit.
#[derive(Clone, Copy, PartialEq, Eq, Structural, Debug)]
pub struct Damage(pub u16);

/// What a hit from an enemy leads to for the player: death, or a short
/// invulnerability window while it survives.
#[derive(Clone, Copy, PartialEq, Eq, Structural, Debug)]
pub enum HitOutcome {
    Dying,
    BecomesInvulnerable,
}

/// Applies one enemy hit to the player's life: the player starts dying
/// exactly when the remaining life reaches zero, and otherwise becomes
/// invulnerable for a fixed window.
pub fn enemy_hit_player(life: &mut Life, damage: Damage) -> (outcome: HitOutcome)
    ensures
        final(life).spec_get() == if old(life).spec_get() >= damage.0 {
            old(life).spec_get() - damage.0
        } else {
            0
        },
        outcome == (if final(life).spec_get() == 0 {
            HitOutcome::Dying
        } else {
            HitOutcome::BecomesInvulnerable
        }),
{
    life.hit(damage.0);
    if life.is_dead() {
        HitOutcome::Dying
    } else {
        HitOutcome::BecomesInvulnerable
    }
}

/// The stomp pass: every enemy standing in the player's ground-sensor
/// contact set takes one point of damage; the others are untouched. The
/// caller despawns those whose life has reached zero.
pub fn player_hits_enemy(enemies: Vec<(u64, Life)>, contacts: &ContactSet) -> (out: Vec<(u64, Life)>)
    ensures
        out@.len() == enemies@.len(),
        forall|i: int|
            0 <= i < out@.len() ==> {
                &&& (#[trigger] out@[i]).0 == enemies@[i].0
                &&& out@[i].1.spec_get() == (if contacts.set().contains(enemies@[i].0) {
                    if enemies@[i].1.spec_get() >= 1 {
                        (enemies@[i].1.spec_get() - 1) as u16
                    } else {
                        0u16
                    }
                } else {
                    enemies@[i].1.spec_get()
                })
            },
{
    let ghost orig = enemies@;
    let mut rest = enemies;
    let mut out: Vec<(u64, Life)> = Vec::new();
    while rest.len() > 0
        invariant
            out@.len() + rest@.len() == orig.len(),
            rest@ =~= orig.subrange(out@.len() as int, orig.len() as int),
            forall|i: int|
                0 <= i < out@.len() ==> {
                    &&& (#[trigger] out@[i]).0 == orig[i].0
                    &&& out@[i].1.spec_get() == (if contacts.set().contains(orig[i].0) {
                        if orig[i].1.spec_get() >= 1 {
                            (orig[i].1.spec_get() - 1) as u16
                        } else {
                            0u16
                        }
                    } else {
                        orig[i].1.spec_get()
                    })
                },
        decreases rest@.len(),
    {
        proof {
            assert(rest@[0] == orig[out@.len() as int]);
        }
        let (entity, mut life) = rest.remove(0);
        if contacts.contains(entity) {
            life.hit(1);
        }
        out.push((entity, life));
    }
    out
}

/// One tick's sampled movement input.
#[derive(Clone, Copy, PartialEq, Eq, Structural, Debug)]
pub struct MovementInput {
    pub right: bool,
    pub left: bool,
    pub up: bool,
    pub down: bool,
    pub jump_pressed: bool,
}

/// The vertical part of the movement command, in decreasing priority: a
/// jump impulse, a climb drift, a swim drift, or gravity untouched.
#[derive(Clone, Copy, PartialEq, Eq, Structural, Debug)]
pub enum VerticalMove {
    Jump { with_boots: bool },
    Climb(i8),
    Swim(i8),
    Unchanged,
}

/// The movement command the host scales by the character's speeds.
#[derive(Clone, Copy, PartialEq, Eq, Structural, Debug)]
pub struct MoveCommand {
    pub x_dir: i8,
    pub water_slows_x: bool,
    pub vertical: VerticalMove,
}

/// Signed direction of a pressed/pressed opposition.
pub open spec fn spec_dir(pos: bool, neg: bool) -> i8 {
    if pos && !neg {
        1i8
    } else if neg && !pos {
        -1i8
    } else {
        0i8
    }
}

fn dir(pos: bool, neg: bool) -> (d: i8)
    ensures
        d == spec_dir(pos, neg),
{
    if pos && !neg {
        1
    } else if neg && !pos {
        -1i8
    } else {
        0
    }
}

/// The per-tick movement decision. Climbing mode follows the range and
/// vertical input; a jump is allowed only when not already jumping and
/// standing on ground, climbing, or floating in water, and it ends the
/// climb. The horizontal direction is slowed in water; the vertical
/// command is the jump impulse when one triggers, else the climb drift,
/// else the swim drift, else left to gravity.
pub fn movement(
    input: MovementInput,
    climber: &mut Climber,
    jumping: &mut Jumping,
    on_ground: bool,
    in_water: bool,
    has_boots: bool,
) -> (cmd: MoveCommand)
    requires
        old(climber).wf(),
    ensures
        final(climber).wf(),
        final(climber).range() == old(climber).range(),
        cmd.x_dir == spec_dir(input.right, input.left),
        cmd.water_slows_x == in_water,
        ({
            // climbing mode after the range/input gate, before any jump
            let climb_gated = if old(climber).range().is_empty() {
                false
            } else if input.up || input.down {
                true
            } else {
                old(climber).climbing
            };
            let jumped = input.jump_pressed && !old(jumping).0 && (on_ground || climb_gated
                || in_water);
            &&& final(jumping).0 == (old(jumping).0 || jumped)
            &&& final(climber).climbing == (climb_gated && !jumped)
            &&& cmd.vertical == (if jumped {
                VerticalMove::Jump { with_boots: has_boots }
            } else if climb_gated {
                VerticalMove::Climb(spec_dir(input.up, input.down))
            } else if in_water {
                VerticalMove::Swim(spec_dir(input.up, input.down))
            } else {
                VerticalMove::Unchanged
            })
        }),
{
    let x_dir = dir(input.right, input.left);
    climber.update_climbing(input.up || input.down);
    let jumped = input.jump_pressed && !jumping.0 && (on_ground || climber.climbing || in_water);
    let vertical: VerticalMove;
    if jumped {
        jumping.0 = true;
        climber.climbing = false;
        vertical = VerticalMove::Jump { with_boots: has_boots };
    } else if climber.climbing {
        vertical = VerticalMove::Climb(dir(input.up, input.down));
    } else if in_water {
        vertical = VerticalMove::Swim(dir(input.up, input.down));
    } else {
        vertical = VerticalMove::Unchanged;
    }
    MoveCommand { x_dir, water_slows_x: in_water, vertical }
}

/// The patrol turnaround an enemy makes when it reaches its current
/// waypoint (the host detects arrival by the velocity turning against the
/// waypoint direction): at either end of the waypoint list the walk
/// direction flips, then the index moves one step along it.
pub fn patrol_advance(index: usize, count: usize, forward: bool) -> (r: (usize, bool))
    requires
        2 <= count,
        index < count,
    ensures
        r.1 == if index == 0 {
            true
        } else if index == count - 1 {
            false
        } else {
            forward
        },
        r.0 == if r.1 {
            index + 1
        } else {
            index - 1
        },
        r.0 < count,
{
    let forward = if index == 0 {
        true
    } else if index == count - 1 {
        false
    } else {
        forward
    };
    if forward {
        (index + 1, true)
    } else {
        (index - 1, false)
    }
}

/// Which walk-cycle a character shows, decided from its horizontal motion
/// and climbing state: moving right or left wins, then an active climb
/// (animated only while moving vertically), then standing still.
#[derive(Clone, Copy, PartialEq, Eq, Structural, Debug)]
pub enum WalkAnimation {
    MoveRight,
    MoveLeft,
    ClimbMove,
    ClimbHold,
    Stand,
}

pub fn walk_animation(
    moving_right: bool,
    moving_left: bool,
    climbing: bool,
    moving_vertical: bool,
) -> (r: WalkAnimation)
    ensures
        r == if moving_right {
            WalkAnimation::MoveRight
        } else if moving_left {
            WalkAnimation::MoveLeft
        } else if climbing && moving_vertical {
            WalkAnimation::ClimbMove
        } else if climbing {
            WalkAnimation::ClimbHold
        } else {
            WalkAnimation::Stand
        },
{
    if moving_right {
        WalkAnimation::MoveRight
    } else if moving_left {
        WalkAnimation::MoveLeft
    } else if climbing {
        if moving_vertical {
            WalkAnimation::ClimbMove
        } else {
            WalkAnimation::ClimbHold
        }
    } else {
        WalkAnimation::Stand
    }
}

/// Which jump sprite strip a character shows while airborne.
#[derive(Clone, Copy, PartialEq, Eq, Structural, Debug)]
pub enum JumpAnimation {
    Right,
    Left,
    Front,
}

pub fn jump_animation(moving_right: bool, moving_left: bool) -> (r: JumpAnimation)
    ensures
        r == if moving_right {
            JumpAnimation::Right
        } else if moving_left {
            JumpAnimation::Left
        } else {
            JumpAnimation::Front
        },
{
    if moving_right {
        JumpAnimation::Right
    } else if moving_left {
        JumpAnimation::Left
    } else {
        JumpAnimation::Front
    }
}

} // verus!
