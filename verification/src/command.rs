//! The command vocabulary the binding layer feeds into the scene.
//!
//! Each function translates one scripted operation into scene mutations.
//! The blocking operations (sleeping, waiting for a movement, fading with a
//! wait) install a lock on a fresh latch and hand back the
//! [`YieldResult`](crate::sched::YieldResult) the calling task must block
//! on.

use crate::fixmath::LIMIT;
use crate::gamedata::characters::scalar_ok;
use crate::gamedata::color::Color;
use crate::gamedata::facetype::FaceType;
use crate::gamedata::lock::{Lock, LockModel};
use crate::gamedata::portrait::{Portrait, PortraitModel};
use crate::gamedata::scene::{lock_fresh, scene_step, ApplyError, Scene, SceneModel};
use crate::gamedata::speed::Speed;
use crate::gamedata::update::{Update, UpdateModel};
use crate::gamedata::various::Time;
use crate::gamedata::vectors::{Vec2, Vec3};
use crate::sched::{LockReason, YieldResult};
use vstd::prelude::*;

verus! {

/// The scene after a fresh latch was created for it.
pub open spec fn with_fresh_latch(s: SceneModel) -> SceneModel {
    SceneModel { latches: s.latches.push(false), ..s }
}

/// Creating a latch disturbs nothing: the scene stays well-formed, and the
/// new latch is fresh for any lock that wraps it.
pub proof fn lemma_with_fresh_latch(s: SceneModel, l: LockModel)
    requires
        s.wf(),
        l.latch() == s.latches.len(),
        l matches LockModel::Wait { remaining, .. } ==> -LIMIT <= remaining.0 <= LIMIT,
    ensures
        with_fresh_latch(s).wf(),
        lock_fresh(with_fresh_latch(s), l),
{
    let s1 = with_fresh_latch(s);
    assert forall|i: int| 0 <= i < s1.locks.len() implies crate::gamedata::scene::lock_wf(
        #[trigger] s1.locks[i],
        s1.latches,
    ) by {
        assert(crate::gamedata::scene::lock_wf(s.locks[i], s.latches));
        assert(s1.latches[s1.locks[i].latch() as int] == s.latches[s.locks[i].latch() as int]);
    }
}

/// `CHARA:DynamicLoad` — create a character for an actor. A fresh character
/// stands at the origin with no ongoing movement; loading an id again
/// replaces its character.
pub fn dynamic_load(scene: &mut Scene, id: String, actor: String)
    requires
        old(scene)@.wf(),
    ensures
        final(scene)@ == scene_step(
            old(scene)@,
            UpdateModel::AddChara { id: id@, actor: actor@ },
        )->Ok_0,
        final(scene)@.wf(),
{
    let _ = scene.update(Update::AddChara(id, actor));
}

/// `CHARA:DynamicRemove` — remove a character. Removing an unknown id is a
/// no-op.
pub fn dynamic_remove(scene: &mut Scene, id: String)
    requires
        old(scene)@.wf(),
    ensures
        final(scene)@ == scene_step(old(scene)@, UpdateModel::DelChara { id: id@ })->Ok_0,
        final(scene)@.wf(),
{
    let _ = scene.update(Update::DelChara(id));
}

/// `CH:SetPosition` — abort any walk and move the character exactly to
/// `position`. Fails with a lookup error on an unknown id.
pub fn set_position(scene: &mut Scene, id: String, position: Vec3) -> (r: Result<(), ApplyError>)
    requires
        old(scene)@.wf(),
        scalar_ok(position.x) && scalar_ok(position.y) && scalar_ok(position.z),
    ensures
        match scene_step(old(scene)@, UpdateModel::SetPosition { id: id@, position }) {
            Result::Ok(m) => r is Ok && final(scene)@ == m && m.wf(),
            Result::Err(e) => r == Result::<(), ApplyError>::Err(e) && *final(scene) == *old(
                scene,
            ),
        },
{
    scene.update(Update::SetPosition(id, position))
}

/// `CH:WalkTo` — abort any walk and start walking toward `destination` at
/// `speed`. Fails with a lookup error on an unknown id.
pub fn walk_to(scene: &mut Scene, id: String, destination: Vec2, speed: Speed) -> (r: Result<
    (),
    ApplyError,
>)
    requires
        old(scene)@.wf(),
        scalar_ok(destination.x) && scalar_ok(destination.y),
        0 <= speed.0 <= LIMIT,
    ensures
        match scene_step(
            old(scene)@,
            UpdateModel::WalkTo { id: id@, destination, speed },
        ) {
            Result::Ok(m) => r is Ok && final(scene)@ == m && m.wf(),
            Result::Err(e) => r == Result::<(), ApplyError>::Err(e) && *final(scene) == *old(
                scene,
            ),
        },
{
    scene.update(Update::WalkTo(id, destination, speed))
}

/// `TASK:Sleep` — install a wait lock for `time` on a fresh latch. The
/// returned yield carries the block condition for the calling task.
pub fn sleep(scene: &mut Scene, time: Time) -> (y: YieldResult)
    requires
        old(scene)@.wf(),
        -LIMIT <= time.0 <= LIMIT,
    ensures
        ({
            let l = old(scene)@.latches.len() as usize;
            let u = UpdateModel::AddLock { lock: LockModel::Wait { latch: l, remaining: time } };
            &&& final(scene)@ == scene_step(with_fresh_latch(old(scene)@), u)->Ok_0
            &&& final(scene)@.wf()
            &&& y.lock == LockReason::WaitAtomicBool(l)
        }),
{
    let latch = scene.latches.new_latch();
    proof {
        lemma_with_fresh_latch(
            old(scene)@,
            LockModel::Wait { latch, remaining: time },
        );
        assert(scene@ =~= with_fresh_latch(old(scene)@));
    }
    let _ = scene.update(Update::AddLock(Lock::Wait(latch, time)));
    YieldResult::new(LockReason::new_abool(latch))
}

/// `CH:WaitMove` — install a movement lock watching `id` on a fresh latch.
/// The returned yield carries the block condition for the calling task.
pub fn wait_move(scene: &mut Scene, id: String) -> (y: YieldResult)
    requires
        old(scene)@.wf(),
    ensures
        ({
            let l = old(scene)@.latches.len() as usize;
            let u = UpdateModel::AddLock {
                lock: LockModel::WaitMove { latch: l, chara: id@ },
            };
            &&& final(scene)@ == scene_step(with_fresh_latch(old(scene)@), u)->Ok_0
            &&& final(scene)@.wf()
            &&& y.lock == LockReason::WaitAtomicBool(l)
        }),
{
    let latch = scene.latches.new_latch();
    proof {
        lemma_with_fresh_latch(old(scene)@, LockModel::WaitMove { latch, chara: id@ });
        assert(scene@ =~= with_fresh_latch(old(scene)@));
    }
    let _ = scene.update(Update::AddLock(Lock::WaitMove(latch, id)));
    YieldResult::new(LockReason::new_abool(latch))
}

/// `SCREEN:FadeOut` — blank the screen to transparency, then fade it to
/// black over `duration`; with `sleep_after`, additionally install a wait
/// lock for the same duration. Fails with an index error on a bad screen
/// id, in which case nothing changes. The calling task yields either way.
pub fn fade_out(scene: &mut Scene, screen_id: u16, duration: Time, sleep_after: bool) -> (r: Result<
    YieldResult,
    ApplyError,
>)
    requires
        old(scene)@.wf(),
        -LIMIT <= duration.0 <= LIMIT,
    ensures
        ({
            let u1 = UpdateModel::SetScreenColor {
                screen: screen_id,
                color: Color::transparent_spec(),
            };
            match scene_step(old(scene)@, u1) {
                Result::Err(e) => r == Result::<YieldResult, ApplyError>::Err(e) && *final(scene)
                    == *old(scene),
                Result::Ok(m1) => {
                    let u2 = UpdateModel::TransitionScreenColor {
                        screen: screen_id,
                        duration,
                        color: Color::black_spec(),
                    };
                    let m2 = scene_step(m1, u2)->Ok_0;
                    if sleep_after {
                        let l = m2.latches.len() as usize;
                        let u3 = UpdateModel::AddLock {
                            lock: LockModel::Wait { latch: l, remaining: duration },
                        };
                        &&& final(scene)@ == scene_step(with_fresh_latch(m2), u3)->Ok_0
                        &&& final(scene)@.wf()
                        &&& r is Ok && r->Ok_0.lock == LockReason::WaitAtomicBool(l)
                    } else {
                        &&& final(scene)@ == m2
                        &&& final(scene)@.wf()
                        &&& r is Ok && r->Ok_0.lock == LockReason::Unblocked
                    }
                },
            }
        }),
{
    match scene.update(Update::SetScreenColor(screen_id, Color::transparent())) {
        Result::Err(e) => {
            return Result::Err(e);
        },
        Result::Ok(_) => {},
    }
    let _ = scene.update(
        Update::TransitionScreenColor(screen_id, duration, Color::black()),
    );
    if sleep_after {
        let y = sleep(scene, duration);
        Result::Ok(y)
    } else {
        Result::Ok(YieldResult::new(LockReason::Unblocked))
    }
}

/// `WINDOW:DrawFace` — show a portrait overlay at a screen-space coordinate
/// for an actor and face tag, replacing any previous overlay.
pub fn draw_face(scene: &mut Scene, x: i64, y: i64, actor: String, facetype: FaceType)
    requires
        old(scene)@.wf(),
    ensures
        final(scene)@ == scene_step(
            old(scene)@,
            UpdateModel::SetPortrait {
                portrait: PortraitModel { coord: (x, y), actor: actor@, facetype },
            },
        )->Ok_0,
        final(scene)@.wf(),
{
    let _ = scene.update(Update::SetPortrait(Portrait { coord: (x, y), actor, facetype }));
}

/// `WINDOW:RemoveFace` — remove the portrait overlay.
pub fn remove_face(scene: &mut Scene)
    requires
        old(scene)@.wf(),
    ensures
        final(scene)@ == scene_step(old(scene)@, UpdateModel::RemovePortrait)->Ok_0,
        final(scene)@.wf(),
{
    let _ = scene.update(Update::RemovePortrait);
}

} // verus!
