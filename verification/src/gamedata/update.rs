//! The currency of the scene: one mutation intent/effect per value.

use crate::gamedata::color::Color;
use crate::gamedata::lock::{Lock, LockModel};
use crate::gamedata::portrait::{Portrait, PortraitModel};
use crate::gamedata::speed::Speed;
use crate::gamedata::various::Time;
use crate::gamedata::vectors::{Vec2, Vec3};
use vstd::prelude::*;

verus! {

/// Everything that can update the scene. Immutable once constructed; the
/// sole currency of the update log.
#[derive(Debug)]
pub enum Update {
    /// id
    DelChara(String),
    /// id, actor
    AddChara(String, String),
    /// id, position
    SetPosition(String, Vec3),
    /// id, destination, speed
    WalkTo(String, Vec2, Speed),
    /// lock
    AddLock(Lock),
    /// time spent
    TimeSpent(Time),
    /// set the colour of a screen (by its id), immediately
    SetScreenColor(u16, Color),
    /// transition the colour of a screen (by its id) over a duration
    TransitionScreenColor(u16, Time, Color),
    /// the character finished everything and can start its idle animation
    StartIDLE(String),
    /// show a portrait overlay
    SetPortrait(Portrait),
    /// remove the portrait overlay
    RemovePortrait,
}

/// Mathematical image of an [`Update`].
pub enum UpdateModel {
    DelChara { id: Seq<char> },
    AddChara { id: Seq<char>, actor: Seq<char> },
    SetPosition { id: Seq<char>, position: Vec3 },
    WalkTo { id: Seq<char>, destination: Vec2, speed: Speed },
    AddLock { lock: LockModel },
    TimeSpent { dt: Time },
    SetScreenColor { screen: u16, color: Color },
    TransitionScreenColor { screen: u16, duration: Time, color: Color },
    StartIDLE { id: Seq<char> },
    SetPortrait { portrait: PortraitModel },
    RemovePortrait,
}

impl View for Update {
    type V = UpdateModel;

    open spec fn view(&self) -> UpdateModel {
        match self {
            Update::DelChara(id) => UpdateModel::DelChara { id: id@ },
            Update::AddChara(id, actor) => UpdateModel::AddChara { id: id@, actor: actor@ },
            Update::SetPosition(id, position) => UpdateModel::SetPosition {
                id: id@,
                position: *position,
            },
            Update::WalkTo(id, destination, speed) => UpdateModel::WalkTo {
                id: id@,
                destination: *destination,
                speed: *speed,
            },
            Update::AddLock(lock) => UpdateModel::AddLock { lock: lock@ },
            Update::TimeSpent(dt) => UpdateModel::TimeSpent { dt: *dt },
            Update::SetScreenColor(screen, color) => UpdateModel::SetScreenColor {
                screen: *screen,
                color: *color,
            },
            Update::TransitionScreenColor(screen, duration, color) => {
                UpdateModel::TransitionScreenColor {
                    screen: *screen,
                    duration: *duration,
                    color: *color,
                }
            },
            Update::StartIDLE(id) => UpdateModel::StartIDLE { id: id@ },
            Update::SetPortrait(portrait) => UpdateModel::SetPortrait { portrait: portrait@ },
            Update::RemovePortrait => UpdateModel::RemovePortrait,
        }
    }
}

impl Clone for Update {
    fn clone(&self) -> (u: Update)
        ensures
            u == *self,
    {
        match self {
            Update::DelChara(id) => Update::DelChara(id.clone()),
            Update::AddChara(id, actor) => Update::AddChara(id.clone(), actor.clone()),
            Update::SetPosition(id, position) => Update::SetPosition(id.clone(), *position),
            Update::WalkTo(id, destination, speed) => Update::WalkTo(
                id.clone(),
                *destination,
                *speed,
            ),
            Update::AddLock(lock) => Update::AddLock(lock.clone()),
            Update::TimeSpent(dt) => Update::TimeSpent(*dt),
            Update::SetScreenColor(screen, color) => Update::SetScreenColor(*screen, *color),
            Update::TransitionScreenColor(screen, duration, color) => {
                Update::TransitionScreenColor(*screen, *duration, *color)
            },
            Update::StartIDLE(id) => Update::StartIDLE(id.clone()),
            Update::SetPortrait(portrait) => Update::SetPortrait(portrait.clone()),
            Update::RemovePortrait => Update::RemovePortrait,
        }
    }
}

} // verus!
