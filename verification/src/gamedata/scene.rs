//! The authoritative scene state machine and its append-only update log.
//!
//! All mutation goes through the single entrypoint [`Scene::update`]; every
//! applied update is recorded in the log, which an observer drains once per
//! cycle through [`Scene::get_and_clear_updates`].

use crate::fixmath::LIMIT;
use crate::gamedata::characters::{chara_tick, lemma_chara_tick_wf, scalar_ok, Chara, CharaModel,
    OngoingMovement, WalkTo};
use crate::gamedata::lock::{Lock, LockModel};
use crate::gamedata::portrait::{Portrait, PortraitModel};
use crate::gamedata::screen::{lemma_screen_tick_wf, screen_tick, Screen};
use crate::gamedata::update::{Update, UpdateModel};
use crate::gamedata::various::Time;
use crate::latch::LatchStore;
use vstd::prelude::*;

verus! {

/// Why an update was rejected. Rejected updates change nothing.
#[derive(Debug, Clone, Copy, PartialEq, Eq)]
pub enum ApplyError {
    /// The update targets an unknown entity id.
    LookupError,
    /// The update targets an out-of-range screen id.
    IndexError,
}

/// One named character of the scene.
#[derive(Debug)]
pub struct CharaEntry {
    pub id: String,
    pub chara: Chara,
}

impl View for CharaEntry {
    type V = (Seq<char>, CharaModel);

    open spec fn view(&self) -> (Seq<char>, CharaModel) {
        (self.id@, self.chara@)
    }
}

/// The authoritative entity/screen/portrait state, the lock registry, the
/// latch store, and the append-only update log.
pub struct Scene {
    /// The characters, keyed by id, in insertion order.
    pub charas: Vec<CharaEntry>,
    /// The append-only update log.
    pub updates: Vec<Update>,
    /// The active locks.
    pub locks: Vec<Lock>,
    /// Screen 0: upper, screen 1: lower.
    pub screens: Vec<Screen>,
    /// At most one active portrait overlay.
    pub portrait: Option<Portrait>,
    /// Every latch ever handed out for this scene.
    pub latches: LatchStore,
}

/// Mathematical image of a [`Scene`].
#[verifier::ext_equal]
pub struct SceneModel {
    pub charas: Seq<(Seq<char>, CharaModel)>,
    pub log: Seq<UpdateModel>,
    pub locks: Seq<LockModel>,
    pub screens: Seq<Screen>,
    pub portrait: Option<PortraitModel>,
    pub latches: Seq<bool>,
}

/// The images of a sequence of character entries.
pub open spec fn entries_view(v: Seq<CharaEntry>) -> Seq<(Seq<char>, CharaModel)> {
    Seq::new(v.len(), |i: int| v[i]@)
}

/// The images of a sequence of updates.
pub open spec fn log_view(v: Seq<Update>) -> Seq<UpdateModel> {
    Seq::new(v.len(), |i: int| v[i]@)
}

/// The images of a sequence of locks.
pub open spec fn locks_view(v: Seq<Lock>) -> Seq<LockModel> {
    Seq::new(v.len(), |i: int| v[i]@)
}

impl View for Scene {
    type V = SceneModel;

    open spec fn view(&self) -> SceneModel {
        SceneModel {
            charas: entries_view(self.charas@),
            log: log_view(self.updates@),
            locks: locks_view(self.locks@),
            screens: self.screens@,
            portrait: match self.portrait {
                Option::None => Option::None,
                Option::Some(p) => Option::Some(p@),
            },
            latches: self.latches@,
        }
    }
}

/// The index of the first entry for `id`, or the length of the sequence when
/// no entry carries it.
pub open spec fn find_chara(cs: Seq<(Seq<char>, CharaModel)>, id: Seq<char>) -> int
    decreases cs.len(),
{
    if cs.len() == 0 {
        0
    } else if cs.first().0 == id {
        0
    } else {
        1 + find_chara(cs.drop_first(), id)
    }
}

/// What [`find_chara`] returns: an index within the sequence pointing at the
/// first entry for `id`, or the length when there is none.
pub proof fn lemma_find_chara(cs: Seq<(Seq<char>, CharaModel)>, id: Seq<char>)
    ensures
        0 <= find_chara(cs, id) <= cs.len(),
        find_chara(cs, id) < cs.len() ==> cs[find_chara(cs, id)].0 == id,
        forall|j: int| 0 <= j < find_chara(cs, id) ==> (#[trigger] cs[j]).0 != id,
    decreases cs.len(),
{
    if cs.len() == 0 {
    } else if cs.first().0 == id {
    } else {
        lemma_find_chara(cs.drop_first(), id);
        assert forall|j: int| 0 <= j < find_chara(cs, id) implies (#[trigger] cs[j]).0 != id by {
            if j > 0 {
                assert(cs.drop_first()[j - 1] == cs[j]);
            }
        }
    }
}

/// A single lock entry in good standing: its latch exists and is still
/// unset (a lock whose latch is set leaves the registry within the mutation
/// that set it), and a pending wait keeps its remaining time in range.
pub open spec fn lock_wf(l: LockModel, latches: Seq<bool>) -> bool {
    &&& (l.latch() as int) < latches.len()
    &&& !latches[l.latch() as int]
    &&& match l {
        LockModel::Wait { remaining, .. } => -LIMIT <= remaining.0 <= LIMIT,
        LockModel::WaitMove { .. } => true,
    }
}

/// The whole registry in good standing: every entry well-formed, and no two
/// entries sharing a latch.
pub open spec fn locks_wf(locks: Seq<LockModel>, latches: Seq<bool>) -> bool {
    &&& forall|i: int| 0 <= i < locks.len() ==> lock_wf(#[trigger] locks[i], latches)
    &&& forall|i: int, j: int|
        0 <= i < j < locks.len() ==> (#[trigger] locks[i]).latch() != (#[trigger] locks[j]).latch()
}

impl SceneModel {
    /// The scene invariant: exactly two screens, each well-formed; characters
    /// well-formed with unique ids; the lock registry in good standing.
    pub open spec fn wf(self) -> bool {
        &&& self.screens.len() == 2
        &&& forall|i: int| 0 <= i < self.screens.len() ==> (#[trigger] self.screens[i]).wf()
        &&& forall|i: int| 0 <= i < self.charas.len() ==> (#[trigger] self.charas[i]).1.wf()
        &&& forall|i: int, j: int|
            0 <= i < j < self.charas.len() ==> (#[trigger] self.charas[i]).0 != (
            #[trigger] self.charas[j]).0
        &&& locks_wf(self.locks, self.latches)
    }
}

/// A lock an `AddLock` update may carry: it wraps a latch of this scene that
/// is still unset and that no registered lock already wraps, and a pending
/// wait starts with a remaining time in range.
pub open spec fn lock_fresh(s: SceneModel, l: LockModel) -> bool {
    &&& lock_wf(l, s.latches)
    &&& forall|i: int| 0 <= i < s.locks.len() ==> (#[trigger] s.locks[i]).latch() != l.latch()
}

/// What an update may carry to be applied at all: scalars within the
/// fixed-point range, and any new lock fresh for this scene. These are the
/// machine limits of the fixed-point model, not scene rules.
pub open spec fn update_allowed(s: SceneModel, u: UpdateModel) -> bool {
    match u {
        UpdateModel::SetPosition { position, .. } => scalar_ok(position.x) && scalar_ok(position.y)
            && scalar_ok(position.z),
        UpdateModel::WalkTo { destination, speed, .. } => scalar_ok(destination.x) && scalar_ok(
            destination.y,
        ) && 0 <= speed.0 <= LIMIT,
        UpdateModel::AddLock { lock } => lock_fresh(s, lock),
        UpdateModel::TimeSpent { dt } => 0 <= dt.0 <= LIMIT,
        UpdateModel::SetScreenColor { color, .. } => color.wf(),
        UpdateModel::TransitionScreenColor { duration, color, .. } => -LIMIT <= duration.0 <= LIMIT
            && color.wf(),
        _ => true,
    }
}

/// State threaded through the phases of a `TimeSpent` step.
#[verifier::ext_equal]
pub struct TickSt {
    pub charas: Seq<(Seq<char>, CharaModel)>,
    pub locks: Seq<LockModel>,
    pub latches: Seq<bool>,
    pub log: Seq<UpdateModel>,
}

/// First phase of a time step, from entry `i` on with `kept` and `latches`
/// accumulated so far: burn `dt` off every pending wait; a wait whose
/// remaining time drops at or below zero has its latch set and leaves the
/// registry, every other lock is kept unchanged.
pub open spec fn locks_tick(
    orig: Seq<LockModel>,
    i: int,
    dt: Time,
    kept: Seq<LockModel>,
    latches: Seq<bool>,
) -> (Seq<LockModel>, Seq<bool>)
    decreases orig.len() - i,
{
    if i < 0 || i >= orig.len() {
        (kept, latches)
    } else {
        match orig[i] {
            LockModel::Wait { latch, remaining } => {
                let rem2 = remaining.0 - dt.0;
                if rem2 <= 0 {
                    locks_tick(orig, i + 1, dt, kept, latches.update(latch as int, true))
                } else {
                    locks_tick(
                        orig,
                        i + 1,
                        dt,
                        kept.push(LockModel::Wait { latch, remaining: Time(rem2 as i64) }),
                        latches,
                    )
                }
            },
            LockModel::WaitMove { .. } => locks_tick(orig, i + 1, dt, kept.push(orig[i]), latches),
        }
    }
}

/// Resolution of the movement locks watching `id`, from entry `i` on: each
/// such lock has its latch set and leaves the registry; every other lock is
/// kept unchanged.
pub open spec fn waitmove_tick(
    orig: Seq<LockModel>,
    i: int,
    id: Seq<char>,
    kept: Seq<LockModel>,
    latches: Seq<bool>,
) -> (Seq<LockModel>, Seq<bool>)
    decreases orig.len() - i,
{
    if i < 0 || i >= orig.len() {
        (kept, latches)
    } else {
        match orig[i] {
            LockModel::WaitMove { latch, chara } => {
                if chara == id {
                    waitmove_tick(orig, i + 1, id, kept, latches.update(latch as int, true))
                } else {
                    waitmove_tick(orig, i + 1, id, kept.push(orig[i]), latches)
                }
            },
            LockModel::Wait { .. } => waitmove_tick(orig, i + 1, id, kept.push(orig[i]), latches),
        }
    }
}

/// Last phase of a time step, from character `i` on: advance every ongoing
/// walk by `dt`; each character whose walk completes this tick has a
/// `StartIDLE` update appended for it, and its pending movement locks
/// resolved within the same step.
pub open spec fn charas_tick(st: TickSt, i: int, dt: Time) -> TickSt
    decreases st.charas.len() - i,
{
    if i < 0 || i >= st.charas.len() {
        st
    } else {
        let entry = st.charas[i];
        let ticked = chara_tick(entry.1, dt);
        let charas2 = st.charas.update(i, (entry.0, ticked.0));
        if ticked.1 {
            let resolved = waitmove_tick(st.locks, 0, entry.0, Seq::empty(), st.latches);
            charas_tick(
                TickSt {
                    charas: charas2,
                    locks: resolved.0,
                    latches: resolved.1,
                    log: st.log.push(UpdateModel::StartIDLE { id: entry.0 }),
                },
                i + 1,
                dt,
            )
        } else {
            charas_tick(TickSt { charas: charas2, ..st }, i + 1, dt)
        }
    }
}

/// The scene state machine: the exact effect of applying one update, or the
/// error that rejects it. A rejected update leaves the scene unchanged.
/// Every applied update is appended to the log, after any `StartIDLE`
/// entries the step itself synthesised.
pub open spec fn scene_step(s: SceneModel, u: UpdateModel) -> Result<SceneModel, ApplyError> {
    match u {
        UpdateModel::AddChara { id, actor } => {
            let f = find_chara(s.charas, id);
            let entry = (id, CharaModel::fresh(actor));
            let charas2 = if f < s.charas.len() {
                s.charas.update(f, entry)
            } else {
                s.charas.push(entry)
            };
            Result::Ok(SceneModel { charas: charas2, log: s.log.push(u), ..s })
        },
        UpdateModel::DelChara { id } => {
            let f = find_chara(s.charas, id);
            let charas2 = if f < s.charas.len() {
                s.charas.remove(f)
            } else {
                s.charas
            };
            Result::Ok(SceneModel { charas: charas2, log: s.log.push(u), ..s })
        },
        UpdateModel::SetPosition { id, position } => {
            let f = find_chara(s.charas, id);
            if f == s.charas.len() {
                Result::Err(ApplyError::LookupError)
            } else {
                let c = s.charas[f].1;
                let c2 = CharaModel { position, ongoing_movement: OngoingMovement::Idle, ..c };
                Result::Ok(
                    SceneModel { charas: s.charas.update(f, (id, c2)), log: s.log.push(u), ..s },
                )
            }
        },
        UpdateModel::WalkTo { id, destination, speed } => {
            let f = find_chara(s.charas, id);
            if f == s.charas.len() {
                Result::Err(ApplyError::LookupError)
            } else {
                let c = s.charas[f].1;
                let c2 = CharaModel {
                    ongoing_movement: OngoingMovement::WalkTo(WalkTo { destination, speed }),
                    ..c
                };
                Result::Ok(
                    SceneModel { charas: s.charas.update(f, (id, c2)), log: s.log.push(u), ..s },
                )
            }
        },
        UpdateModel::AddLock { lock } => Result::Ok(
            SceneModel { locks: s.locks.push(lock), log: s.log.push(u), ..s },
        ),
        UpdateModel::TimeSpent { dt } => {
            let burned = locks_tick(s.locks, 0, dt, Seq::empty(), s.latches);
            let screens2 = Seq::new(s.screens.len(), |i: int| screen_tick(s.screens[i], dt));
            let st = charas_tick(
                TickSt { charas: s.charas, locks: burned.0, latches: burned.1, log: s.log },
                0,
                dt,
            );
            Result::Ok(
                SceneModel {
                    charas: st.charas,
                    log: st.log.push(u),
                    locks: st.locks,
                    screens: screens2,
                    portrait: s.portrait,
                    latches: st.latches,
                },
            )
        },
        UpdateModel::SetScreenColor { screen, color } => {
            if screen >= s.screens.len() {
                Result::Err(ApplyError::IndexError)
            } else {
                let sc = Screen { actual_color: color, ongoing_transition: Option::None };
                Result::Ok(
                    SceneModel {
                        screens: s.screens.update(screen as int, sc),
                        log: s.log.push(u),
                        ..s
                    },
                )
            }
        },
        UpdateModel::TransitionScreenColor { screen, duration, color } => {
            if screen >= s.screens.len() {
                Result::Err(ApplyError::IndexError)
            } else {
                let old_screen = s.screens[screen as int];
                let sc = Screen {
                    actual_color: old_screen.actual_color,
                    ongoing_transition: Option::Some(
                        crate::gamedata::screen::ColorTransition {
                            elapsed_time: Time(0),
                            duration,
                            initial_color: old_screen.actual_color,
                            final_color: color,
                        },
                    ),
                };
                Result::Ok(
                    SceneModel {
                        screens: s.screens.update(screen as int, sc),
                        log: s.log.push(u),
                        ..s
                    },
                )
            }
        },
        UpdateModel::StartIDLE { .. } => Result::Ok(SceneModel { log: s.log.push(u), ..s }),
        UpdateModel::SetPortrait { portrait } => Result::Ok(
            SceneModel { portrait: Option::Some(portrait), log: s.log.push(u), ..s },
        ),
        UpdateModel::RemovePortrait => Result::Ok(
            SceneModel { portrait: Option::None, log: s.log.push(u), ..s },
        ),
    }
}

/// The first phase keeps the registry in good standing: assuming the locks
/// kept so far and those still to visit are well-formed and pairwise
/// distinct, so is its result; the latch store keeps its size, and a set
/// latch stays set.
pub proof fn lemma_locks_tick(
    orig: Seq<LockModel>,
    i: int,
    dt: Time,
    kept: Seq<LockModel>,
    latches: Seq<bool>,
)
    requires
        0 <= i <= orig.len(),
        0 <= dt.0 <= LIMIT,
        forall|a: int| 0 <= a < kept.len() ==> lock_wf(#[trigger] kept[a], latches),
        forall|a: int, b: int|
            0 <= a < b < kept.len() ==> (#[trigger] kept[a]).latch() != (
            #[trigger] kept[b]).latch(),
        forall|b: int| i <= b < orig.len() ==> lock_wf(#[trigger] orig[b], latches),
        forall|a: int, b: int|
            i <= a < b < orig.len() ==> (#[trigger] orig[a]).latch() != (
            #[trigger] orig[b]).latch(),
        forall|a: int, b: int|
            0 <= a < kept.len() && i <= b < orig.len() ==> (#[trigger] kept[a]).latch() != (
            #[trigger] orig[b]).latch(),
    ensures
        ({
            let r = locks_tick(orig, i, dt, kept, latches);
            &&& locks_wf(r.0, r.1)
            &&& r.1.len() == latches.len()
            &&& forall|k: int| 0 <= k < latches.len() && latches[k] ==> r.1[k]
        }),
    decreases orig.len() - i,
{
    if i >= orig.len() {
    } else {
        match orig[i] {
            LockModel::Wait { latch, remaining } => {
                let rem2 = remaining.0 - dt.0;
                if rem2 <= 0 {
                    let latches2 = latches.update(latch as int, true);
                    assert forall|a: int| 0 <= a < kept.len() implies lock_wf(
                        #[trigger] kept[a],
                        latches2,
                    ) by {
                        assert(kept[a].latch() != orig[i].latch());
                    }
                    assert forall|b: int| i + 1 <= b < orig.len() implies lock_wf(
                        #[trigger] orig[b],
                        latches2,
                    ) by {
                        assert(orig[i].latch() != orig[b].latch());
                    }
                    lemma_locks_tick(orig, i + 1, dt, kept, latches2);
                    assert forall|k: int| 0 <= k < latches.len() && latches[k] implies locks_tick(
                        orig,
                        i,
                        dt,
                        kept,
                        latches,
                    ).1[k] by {
                        assert(latches2[k]);
                    }
                } else {
                    let kept2 = kept.push(
                        LockModel::Wait { latch, remaining: Time(rem2 as i64) },
                    );
                    lemma_locks_tick(orig, i + 1, dt, kept2, latches);
                }
            },
            LockModel::WaitMove { .. } => {
                lemma_locks_tick(orig, i + 1, dt, kept.push(orig[i]), latches);
            },
        }
    }
}

/// Movement-lock resolution keeps the registry in good standing in the same
/// way as the first phase.
pub proof fn lemma_waitmove_tick(
    orig: Seq<LockModel>,
    i: int,
    id: Seq<char>,
    kept: Seq<LockModel>,
    latches: Seq<bool>,
)
    requires
        0 <= i <= orig.len(),
        forall|a: int| 0 <= a < kept.len() ==> lock_wf(#[trigger] kept[a], latches),
        forall|a: int, b: int|
            0 <= a < b < kept.len() ==> (#[trigger] kept[a]).latch() != (
            #[trigger] kept[b]).latch(),
        forall|b: int| i <= b < orig.len() ==> lock_wf(#[trigger] orig[b], latches),
        forall|a: int, b: int|
            i <= a < b < orig.len() ==> (#[trigger] orig[a]).latch() != (
            #[trigger] orig[b]).latch(),
        forall|a: int, b: int|
            0 <= a < kept.len() && i <= b < orig.len() ==> (#[trigger] kept[a]).latch() != (
            #[trigger] orig[b]).latch(),
    ensures
        ({
            let r = waitmove_tick(orig, i, id, kept, latches);
            &&& locks_wf(r.0, r.1)
            &&& r.1.len() == latches.len()
            &&& forall|k: int| 0 <= k < latches.len() && latches[k] ==> r.1[k]
        }),
    decreases orig.len() - i,
{
    if i >= orig.len() {
    } else {
        match orig[i] {
            LockModel::WaitMove { latch, chara } => {
                if chara == id {
                    let latches2 = latches.update(latch as int, true);
                    assert forall|a: int| 0 <= a < kept.len() implies lock_wf(
                        #[trigger] kept[a],
                        latches2,
                    ) by {
                        assert(kept[a].latch() != orig[i].latch());
                    }
                    assert forall|b: int| i + 1 <= b < orig.len() implies lock_wf(
                        #[trigger] orig[b],
                        latches2,
                    ) by {
                        assert(orig[i].latch() != orig[b].latch());
                    }
                    lemma_waitmove_tick(orig, i + 1, id, kept, latches2);
                    assert forall|k: int| 0 <= k < latches.len() && latches[k] implies
                        waitmove_tick(orig, i, id, kept, latches).1[k] by {
                        assert(latches2[k]);
                    }
                } else {
                    lemma_waitmove_tick(orig, i + 1, id, kept.push(orig[i]), latches);
                }
            },
            LockModel::Wait { .. } => {
                lemma_waitmove_tick(orig, i + 1, id, kept.push(orig[i]), latches);
            },
        }
    }
}

/// The character phase keeps every character well-formed under its
/// unchanged id, and the registry in good standing; the latch store keeps
/// its size, and a set latch stays set.
pub proof fn lemma_charas_tick(st: TickSt, i: int, dt: Time)
    requires
        0 <= i <= st.charas.len(),
        0 <= dt.0 <= LIMIT,
        forall|j: int| 0 <= j < st.charas.len() ==> (#[trigger] st.charas[j]).1.wf(),
        locks_wf(st.locks, st.latches),
    ensures
        ({
            let r = charas_tick(st, i, dt);
            &&& r.charas.len() == st.charas.len()
            &&& forall|j: int| 0 <= j < r.charas.len() ==> (#[trigger] r.charas[j]).1.wf()
            &&& forall|j: int|
                0 <= j < r.charas.len() ==> (#[trigger] r.charas[j]).0 == st.charas[j].0
            &&& locks_wf(r.locks, r.latches)
            &&& r.latches.len() == st.latches.len()
            &&& forall|k: int| 0 <= k < st.latches.len() && st.latches[k] ==> r.latches[k]
        }),
    decreases st.charas.len() - i,
{
    if i < 0 || i >= st.charas.len() {
    } else {
        let entry = st.charas[i];
        lemma_chara_tick_wf(entry.1, dt);
        let ticked = chara_tick(entry.1, dt);
        let charas2 = st.charas.update(i, (entry.0, ticked.0));
        if ticked.1 {
            lemma_waitmove_tick(st.locks, 0, entry.0, Seq::empty(), st.latches);
            let resolved = waitmove_tick(st.locks, 0, entry.0, Seq::empty(), st.latches);
            let st2 = TickSt {
                charas: charas2,
                locks: resolved.0,
                latches: resolved.1,
                log: st.log.push(UpdateModel::StartIDLE { id: entry.0 }),
            };
            assert forall|a: int| 0 <= a < st2.locks.len() implies lock_wf(
                #[trigger] st2.locks[a],
                st2.latches,
            ) by {
                assert(locks_wf(resolved.0, resolved.1));
            }
            lemma_charas_tick(st2, i + 1, dt);
        } else {
            lemma_charas_tick(TickSt { charas: charas2, ..st }, i + 1, dt);
        }
    }
}

/// An accepted update leaves a well-formed scene well-formed.
pub proof fn lemma_scene_step_wf(s: SceneModel, u: UpdateModel)
    requires
        s.wf(),
        update_allowed(s, u),
    ensures
        scene_step(s, u) is Ok ==> scene_step(s, u)->Ok_0.wf(),
{
    match u {
        UpdateModel::AddChara { id, actor } => {
            lemma_find_chara(s.charas, id);
        },
        UpdateModel::DelChara { id } => {
            lemma_find_chara(s.charas, id);
        },
        UpdateModel::SetPosition { id, .. } => {
            lemma_find_chara(s.charas, id);
        },
        UpdateModel::WalkTo { id, .. } => {
            lemma_find_chara(s.charas, id);
        },
        UpdateModel::AddLock { .. } => {},
        UpdateModel::TimeSpent { dt } => {
            lemma_locks_tick(s.locks, 0, dt, Seq::empty(), s.latches);
            let burned = locks_tick(s.locks, 0, dt, Seq::empty(), s.latches);
            let screens2 = Seq::new(s.screens.len(), |i: int| screen_tick(s.screens[i], dt));
            assert forall|i: int| 0 <= i < screens2.len() implies (
            #[trigger] screens2[i]).wf() by {
                lemma_screen_tick_wf(s.screens[i], dt);
            }
            let st0 = TickSt { charas: s.charas, locks: burned.0, latches: burned.1, log: s.log };
            lemma_charas_tick(st0, 0, dt);
        },
        _ => {},
    }
}

/// The drain relation: one call of the log drain hands out exactly the
/// accumulated log and leaves the scene with an empty log and everything
/// else untouched.
pub open spec fn drained(pre: SceneModel, post: SceneModel, out: Seq<UpdateModel>) -> bool {
    &&& out == pre.log
    &&& post == (SceneModel { log: Seq::empty(), ..pre })
}

/// Draining the log twice in a row, with no update applied in between,
/// hands out an empty sequence the second time.
pub proof fn lemma_drain_twice(
    s0: SceneModel,
    s1: SceneModel,
    out1: Seq<UpdateModel>,
    s2: SceneModel,
    out2: Seq<UpdateModel>,
)
    requires
        drained(s0, s1, out1),
        drained(s1, s2, out2),
    ensures
        out2 == Seq::<UpdateModel>::empty(),
{
}

/// A time step neither creates nor destroys latches, and never unsets one:
/// it only resolves pending locks by setting theirs.
pub proof fn lemma_time_step_latches(s: SceneModel, dt: Time)
    requires
        s.wf(),
        0 <= dt.0 <= LIMIT,
    ensures
        ({
            let m = scene_step(s, UpdateModel::TimeSpent { dt })->Ok_0;
            &&& m.latches.len() == s.latches.len()
            &&& forall|k: int| 0 <= k < s.latches.len() && s.latches[k] ==> m.latches[k]
        }),
{
    lemma_locks_tick(s.locks, 0, dt, Seq::empty(), s.latches);
    let burned = locks_tick(s.locks, 0, dt, Seq::empty(), s.latches);
    let st0 = TickSt { charas: s.charas, locks: burned.0, latches: burned.1, log: s.log };
    lemma_charas_tick(st0, 0, dt);
}

/// The scene after a whole run of time steps.
pub open spec fn time_steps(s: SceneModel, dts: Seq<Time>) -> SceneModel
    decreases dts.len(),
{
    if dts.len() == 0 {
        s
    } else {
        time_steps(
            scene_step(s, UpdateModel::TimeSpent { dt: dts.first() })->Ok_0,
            dts.drop_first(),
        )
    }
}

/// The cumulative time of a run of time steps.
pub open spec fn total_time(dts: Seq<Time>) -> int
    decreases dts.len(),
{
    if dts.len() == 0 {
        0
    } else {
        dts.first().0 + total_time(dts.drop_first())
    }
}

/// Every delta of the run admissible for one cycle.
pub open spec fn deltas_ok(dts: Seq<Time>) -> bool {
    forall|i: int| 0 <= i < dts.len() ==> 0 <= (#[trigger] dts[i]).0 <= LIMIT
}

/// No lock of the registry wraps the latch `l`.
pub open spec fn locks_avoid(locks: Seq<LockModel>, l: usize) -> bool {
    forall|i: int| 0 <= i < locks.len() ==> (#[trigger] locks[i]).latch() != l
}

/// Every lock of the registry wraps a latch of the store.
pub open spec fn locks_valid(locks: Seq<LockModel>, latches: Seq<bool>) -> bool {
    forall|i: int| 0 <= i < locks.len() ==> ((#[trigger] locks[i]).latch() as int) < latches.len()
}

/// The first phase neither revives nor touches a latch no pending lock
/// wraps.
proof fn lemma_locks_tick_avoid(
    orig: Seq<LockModel>,
    i: int,
    dt: Time,
    kept: Seq<LockModel>,
    latches: Seq<bool>,
    l: usize,
)
    requires
        locks_avoid(kept, l),
        locks_valid(kept, latches),
        forall|b: int| i <= b < orig.len() ==> (#[trigger] orig[b]).latch() != l,
        forall|b: int| i <= b < orig.len() ==> ((#[trigger] orig[b]).latch() as int) < latches.len(),
        (l as int) < latches.len(),
    ensures
        ({
            let r = locks_tick(orig, i, dt, kept, latches);
            &&& locks_avoid(r.0, l)
            &&& locks_valid(r.0, r.1)
            &&& r.1.len() == latches.len() && r.1[l as int] == latches[l as int]
        }),
    decreases orig.len() - i,
{
    if i < 0 || i >= orig.len() {
    } else {
        match orig[i] {
            LockModel::Wait { latch, remaining } => {
                let rem2 = remaining.0 - dt.0;
                if rem2 <= 0 {
                    lemma_locks_tick_avoid(orig, i + 1, dt, kept, latches.update(latch as int, true), l);
                } else {
                    let kept2 = kept.push(LockModel::Wait { latch, remaining: Time(rem2 as i64) });
                    assert(locks_avoid(kept2, l)) by {
                        assert(forall|a: int|
                            0 <= a < kept2.len() ==> (#[trigger] kept2[a]).latch() == if a
                                < kept.len() {
                                kept[a].latch()
                            } else {
                                latch
                            });
                    }
                    lemma_locks_tick_avoid(orig, i + 1, dt, kept2, latches, l);
                }
            },
            LockModel::WaitMove { .. } => {
                let kept2 = kept.push(orig[i]);
                assert(locks_avoid(kept2, l)) by {
                    assert(forall|a: int|
                        0 <= a < kept2.len() ==> (#[trigger] kept2[a]).latch() == if a
                            < kept.len() {
                            kept[a].latch()
                        } else {
                            orig[i].latch()
                        });
                }
                lemma_locks_tick_avoid(orig, i + 1, dt, kept2, latches, l);
            },
        }
    }
}

/// Movement-lock resolution keeps every pending wait exactly as it is, and
/// neither revives nor touches a latch no pending lock wraps.
proof fn lemma_waitmove_tick_avoid(
    orig: Seq<LockModel>,
    i: int,
    id: Seq<char>,
    kept: Seq<LockModel>,
    latches: Seq<bool>,
    l: usize,
)
    requires
        locks_avoid(kept, l),
        locks_valid(kept, latches),
        forall|b: int| i <= b < orig.len() ==> (#[trigger] orig[b]).latch() != l,
        forall|b: int| i <= b < orig.len() ==> ((#[trigger] orig[b]).latch() as int) < latches.len(),
        (l as int) < latches.len(),
    ensures
        ({
            let r = waitmove_tick(orig, i, id, kept, latches);
            &&& locks_avoid(r.0, l)
            &&& locks_valid(r.0, r.1)
            &&& r.1.len() == latches.len() && r.1[l as int] == latches[l as int]
        }),
    decreases orig.len() - i,
{
    if i < 0 || i >= orig.len() {
    } else {
        let keep_case = match orig[i] {
            LockModel::WaitMove { chara, .. } => chara != id,
            LockModel::Wait { .. } => true,
        };
        if keep_case {
            let kept2 = kept.push(orig[i]);
            assert(locks_avoid(kept2, l)) by {
                assert(forall|a: int|
                    0 <= a < kept2.len() ==> (#[trigger] kept2[a]).latch() == if a < kept.len() {
                        kept[a].latch()
                    } else {
                        orig[i].latch()
                    });
            }
            lemma_waitmove_tick_avoid(orig, i + 1, id, kept2, latches, l);
        } else {
            lemma_waitmove_tick_avoid(
                orig,
                i + 1,
                id,
                kept,
                latches.update(orig[i].latch() as int, true),
                l,
            );
        }
    }
}

/// Movement-lock resolution keeps a tracked pending wait.
proof fn lemma_waitmove_tick_wait(
    orig: Seq<LockModel>,
    i: int,
    id: Seq<char>,
    kept: Seq<LockModel>,
    latches: Seq<bool>,
    w: LockModel,
)
    requires
        0 <= i,
        w is Wait,
        (exists|a: int| 0 <= a < kept.len() && kept[a] == w) || (exists|b: int|
            i <= b < orig.len() && orig[b] == w),
    ensures
        exists|a: int|
            0 <= a < waitmove_tick(orig, i, id, kept, latches).0.len() && waitmove_tick(
                orig,
                i,
                id,
                kept,
                latches,
            ).0[a] == w,
    decreases orig.len() - i,
{
    if i < 0 || i >= orig.len() {
        assert(exists|a: int| 0 <= a < kept.len() && kept[a] == w);
    } else {
        let keep_case = match orig[i] {
            LockModel::WaitMove { chara, .. } => chara != id,
            LockModel::Wait { .. } => true,
        };
        if keep_case {
            let kept2 = kept.push(orig[i]);
            if exists|a: int| 0 <= a < kept.len() && kept[a] == w {
                let a = choose|a: int| 0 <= a < kept.len() && kept[a] == w;
                assert(kept2[a] == w);
            } else {
                let b = choose|b: int| i <= b < orig.len() && orig[b] == w;
                if b == i {
                    assert(kept2[kept.len() as int] == w);
                } else {
                    assert(orig[b] == w && i + 1 <= b < orig.len());
                }
            }
            lemma_waitmove_tick_wait(orig, i + 1, id, kept2, latches, w);
            let rr = waitmove_tick(orig, i + 1, id, kept2, latches);
            let a1 = choose|a: int| 0 <= a < rr.0.len() && rr.0[a] == w;
            assert(waitmove_tick(orig, i, id, kept, latches).0[a1] == w);
        } else {
            if exists|a: int| 0 <= a < kept.len() && kept[a] == w {
            } else {
                // the dropped lock watches a movement, so it is not the wait
                let b = choose|b: int| i <= b < orig.len() && orig[b] == w;
                assert(b != i);
                assert(orig[b] == w && i + 1 <= b < orig.len());
            }
            let latches2 = latches.update(orig[i].latch() as int, true);
            lemma_waitmove_tick_wait(orig, i + 1, id, kept, latches2, w);
            let rr = waitmove_tick(orig, i + 1, id, kept, latches2);
            let a1 = choose|a: int| 0 <= a < rr.0.len() && rr.0[a] == w;
            assert(waitmove_tick(orig, i, id, kept, latches).0[a1] == w);
        }
    }
}

/// The character phase keeps a tracked pending wait, and neither revives
/// nor touches a latch no pending lock wraps.
proof fn lemma_charas_tick_wait(st: TickSt, i: int, dt: Time, w: LockModel, l: usize)
    requires
        w is Wait,
        w.latch() == l,
        exists|a: int| 0 <= a < st.locks.len() && st.locks[a] == w,
        forall|a: int|
            0 <= a < st.locks.len() ==> st.locks[a] == w || (#[trigger] st.locks[a]).latch() != l,
        locks_valid(st.locks, st.latches),
        (l as int) < st.latches.len(),
        !st.latches[l as int],
    ensures
        ({
            let r = charas_tick(st, i, dt);
            &&& exists|a: int| 0 <= a < r.locks.len() && r.locks[a] == w
            &&& forall|a: int|
                0 <= a < r.locks.len() ==> r.locks[a] == w || (#[trigger] r.locks[a]).latch() != l
            &&& locks_valid(r.locks, r.latches)
            &&& (l as int) < r.latches.len()
            &&& !r.latches[l as int]
        }),
    decreases st.charas.len() - i,
{
    if i < 0 || i >= st.charas.len() {
    } else {
        let entry = st.charas[i];
        let ticked = chara_tick(entry.1, dt);
        let charas2 = st.charas.update(i, (entry.0, ticked.0));
        if ticked.1 {
            let resolved = waitmove_tick(st.locks, 0, entry.0, Seq::empty(), st.latches);
            lemma_waitmove_tick_wait(st.locks, 0, entry.0, Seq::empty(), st.latches, w);
            lemma_waitmove_keep_avoid(st.locks, 0, entry.0, Seq::empty(), st.latches, w, l);
            let st2 = TickSt {
                charas: charas2,
                locks: resolved.0,
                latches: resolved.1,
                log: st.log.push(UpdateModel::StartIDLE { id: entry.0 }),
            };
            lemma_charas_tick_wait(st2, i + 1, dt, w, l);
        } else {
            lemma_charas_tick_wait(TickSt { charas: charas2, ..st }, i + 1, dt, w, l);
        }
    }
}

/// Within movement-lock resolution, every lock of the result other than a
/// tracked wait keeps avoiding its latch, and that latch stays as it was.
proof fn lemma_waitmove_keep_avoid(
    orig: Seq<LockModel>,
    i: int,
    id: Seq<char>,
    kept: Seq<LockModel>,
    latches: Seq<bool>,
    w: LockModel,
    l: usize,
)
    requires
        w.latch() == l,
        forall|a: int| 0 <= a < kept.len() ==> kept[a] == w || (#[trigger] kept[a]).latch() != l,
        forall|b: int| i <= b < orig.len() ==> orig[b] == w || (#[trigger] orig[b]).latch() != l,
        locks_valid(kept, latches),
        forall|b: int| i <= b < orig.len() ==> ((#[trigger] orig[b]).latch() as int) < latches.len(),
        w is Wait,
        (l as int) < latches.len(),
    ensures
        ({
            let r = waitmove_tick(orig, i, id, kept, latches);
            &&& forall|a: int|
                0 <= a < r.0.len() ==> r.0[a] == w || (#[trigger] r.0[a]).latch() != l
            &&& locks_valid(r.0, r.1)
            &&& r.1.len() == latches.len() && r.1[l as int] == latches[l as int]
        }),
    decreases orig.len() - i,
{
    if i < 0 || i >= orig.len() {
    } else {
        let keep_case = match orig[i] {
            LockModel::WaitMove { chara, .. } => chara != id,
            LockModel::Wait { .. } => true,
        };
        if keep_case {
            let kept2 = kept.push(orig[i]);
            assert(forall|a: int|
                0 <= a < kept2.len() ==> kept2[a] == (if a < kept.len() {
                    kept[a]
                } else {
                    orig[i]
                }));
            lemma_waitmove_keep_avoid(orig, i + 1, id, kept2, latches, w, l);
        } else {
            assert(orig[i].latch() != l);
            lemma_waitmove_keep_avoid(
                orig,
                i + 1,
                id,
                kept,
                latches.update(orig[i].latch() as int, true),
                w,
                l,
            );
        }
    }
}

/// The remaining time of a pending wait.
pub open spec fn wait_remaining(l: LockModel) -> int {
    match l {
        LockModel::Wait { remaining, .. } => remaining.0 as int,
        LockModel::WaitMove { .. } => 0,
    }
}

/// The character phase keeps every lock avoiding a latch it avoided.
proof fn lemma_charas_tick_avoid(st: TickSt, i: int, dt: Time, l: usize)
    requires
        locks_avoid(st.locks, l),
        locks_valid(st.locks, st.latches),
        (l as int) < st.latches.len(),
    ensures
        ({
            let r = charas_tick(st, i, dt);
            &&& locks_avoid(r.locks, l)
            &&& locks_valid(r.locks, r.latches)
            &&& r.latches.len() == st.latches.len()
            &&& r.latches[l as int] == st.latches[l as int]
        }),
    decreases st.charas.len() - i,
{
    if i < 0 || i >= st.charas.len() {
    } else {
        let entry = st.charas[i];
        let ticked = chara_tick(entry.1, dt);
        let charas2 = st.charas.update(i, (entry.0, ticked.0));
        if ticked.1 {
            let resolved = waitmove_tick(st.locks, 0, entry.0, Seq::empty(), st.latches);
            lemma_waitmove_tick_avoid(st.locks, 0, entry.0, Seq::empty(), st.latches, l);
            let st2 = TickSt {
                charas: charas2,
                locks: resolved.0,
                latches: resolved.1,
                log: st.log.push(UpdateModel::StartIDLE { id: entry.0 }),
            };
            lemma_charas_tick_avoid(st2, i + 1, dt, l);
        } else {
            lemma_charas_tick_avoid(TickSt { charas: charas2, ..st }, i + 1, dt, l);
        }
    }
}

/// The first phase, watching one tracked pending wait among locks that all
/// avoid its latch: the wait either survives with its remaining time
/// reduced by the delta, or — the moment that reduction reaches zero — its
/// latch is set and it leaves the registry.
proof fn lemma_locks_tick_wait(
    orig: Seq<LockModel>,
    i: int,
    dt: Time,
    kept: Seq<LockModel>,
    latches: Seq<bool>,
    j: int,
)
    requires
        0 <= i <= j < orig.len(),
        orig[j] is Wait,
        0 <= dt.0 <= LIMIT,
        -LIMIT <= wait_remaining(orig[j]) <= LIMIT,
        locks_avoid(kept, orig[j].latch()),
        locks_valid(kept, latches),
        forall|b: int|
            i <= b < orig.len() && b != j ==> (#[trigger] orig[b]).latch() != orig[j].latch(),
        forall|b: int|
            i <= b < orig.len() ==> ((#[trigger] orig[b]).latch() as int) < latches.len(),
        (orig[j].latch() as int) < latches.len(),
    ensures
        ({
            let r = locks_tick(orig, i, dt, kept, latches);
            let l = orig[j].latch();
            let rem2 = wait_remaining(orig[j]) - dt.0;
            &&& r.1.len() == latches.len()
            &&& locks_valid(r.0, r.1)
            &&& (rem2 > 0 ==> {
                let w = LockModel::Wait { latch: l, remaining: Time(rem2 as i64) };
                &&& (exists|a: int| 0 <= a < r.0.len() && r.0[a] == w)
                &&& forall|a: int|
                    0 <= a < r.0.len() ==> r.0[a] == w || (#[trigger] r.0[a]).latch() != l
                &&& r.1[l as int] == latches[l as int]
            })
            &&& (rem2 <= 0 ==> r.1[l as int] == true && locks_avoid(r.0, l))
        }),
    decreases orig.len() - i,
{
    let l = orig[j].latch();
    if i == j {
        let rem2 = wait_remaining(orig[j]) - dt.0;
        if rem2 <= 0 {
            lemma_locks_tick_avoid(orig, i + 1, dt, kept, latches.update(l as int, true), l);
        } else {
            let w = LockModel::Wait { latch: l, remaining: Time(rem2 as i64) };
            let kept2 = kept.push(w);
            lemma_locks_tick_avoid_except(orig, i + 1, dt, kept2, latches, w, l);
            assert(exists|a: int| 0 <= a < kept2.len() && kept2[a] == w) by {
                assert(kept2[kept.len() as int] == w);
            }
        }
    } else {
        match orig[i] {
            LockModel::Wait { latch, remaining } => {
                let rem2i = remaining.0 - dt.0;
                if rem2i <= 0 {
                    lemma_locks_tick_wait(orig, i + 1, dt, kept, latches.update(latch as int, true), j);
                } else {
                    let kept2 = kept.push(LockModel::Wait { latch, remaining: Time(rem2i as i64) });
                    assert(locks_avoid(kept2, l)) by {
                        assert(forall|a: int|
                            0 <= a < kept2.len() ==> (#[trigger] kept2[a]).latch() == if a
                                < kept.len() {
                                kept[a].latch()
                            } else {
                                latch
                            });
                    }
                    lemma_locks_tick_wait(orig, i + 1, dt, kept2, latches, j);
                }
            },
            LockModel::WaitMove { .. } => {
                let kept2 = kept.push(orig[i]);
                assert(locks_avoid(kept2, l)) by {
                    assert(forall|a: int|
                        0 <= a < kept2.len() ==> (#[trigger] kept2[a]).latch() == if a
                            < kept.len() {
                            kept[a].latch()
                        } else {
                            orig[i].latch()
                        });
                }
                lemma_locks_tick_wait(orig, i + 1, dt, kept2, latches, j);
            },
        }
    }
}

/// The first phase keeps every lock either equal to a tracked kept wait or
/// avoiding its latch, and leaves that latch as it was.
proof fn lemma_locks_tick_avoid_except(
    orig: Seq<LockModel>,
    i: int,
    dt: Time,
    kept: Seq<LockModel>,
    latches: Seq<bool>,
    w: LockModel,
    l: usize,
)
    requires
        w.latch() == l,
        forall|a: int| 0 <= a < kept.len() ==> kept[a] == w || (#[trigger] kept[a]).latch() != l,
        forall|b: int| i <= b < orig.len() ==> (#[trigger] orig[b]).latch() != l,
        locks_valid(kept, latches),
        forall|b: int| i <= b < orig.len() ==> ((#[trigger] orig[b]).latch() as int) < latches.len(),
        (l as int) < latches.len(),
        exists|a: int| 0 <= a < kept.len() && kept[a] == w,
    ensures
        ({
            let r = locks_tick(orig, i, dt, kept, latches);
            &&& (exists|a: int| 0 <= a < r.0.len() && r.0[a] == w)
            &&& forall|a: int|
                0 <= a < r.0.len() ==> r.0[a] == w || (#[trigger] r.0[a]).latch() != l
            &&& locks_valid(r.0, r.1)
            &&& r.1.len() == latches.len() && r.1[l as int] == latches[l as int]
        }),
    decreases orig.len() - i,
{
    if i < 0 || i >= orig.len() {
    } else {
        match orig[i] {
            LockModel::Wait { latch, remaining } => {
                let rem2 = remaining.0 - dt.0;
                if rem2 <= 0 {
                    lemma_locks_tick_avoid_except(
                        orig,
                        i + 1,
                        dt,
                        kept,
                        latches.update(latch as int, true),
                        w,
                        l,
                    );
                } else {
                    let kept2 = kept.push(LockModel::Wait { latch, remaining: Time(rem2 as i64) });
                    assert(forall|a: int|
                        0 <= a < kept2.len() ==> kept2[a] == (if a < kept.len() {
                            kept[a]
                        } else {
                            LockModel::Wait { latch, remaining: Time(rem2 as i64) }
                        }));
                    let a0 = choose|a: int| 0 <= a < kept.len() && kept[a] == w;
                    assert(kept2[a0] == w);
                    lemma_locks_tick_avoid_except(orig, i + 1, dt, kept2, latches, w, l);
                }
            },
            LockModel::WaitMove { .. } => {
                let kept2 = kept.push(orig[i]);
                assert(forall|a: int|
                    0 <= a < kept2.len() ==> kept2[a] == (if a < kept.len() {
                        kept[a]
                    } else {
                        orig[i]
                    }));
                let a0 = choose|a: int| 0 <= a < kept.len() && kept[a] == w;
                assert(kept2[a0] == w);
                lemma_locks_tick_avoid_except(orig, i + 1, dt, kept2, latches, w, l);
            },
        }
    }
}

/// One time step, as seen by one pending wait lock: its remaining time is
/// reduced by exactly the delta; it stays registered, its latch unset,
/// while the reduction leaves time over, and the moment it does not, the
/// latch is set and the lock leaves the registry within the same mutation.
pub proof fn lemma_time_step_wait(s: SceneModel, dt: Time, j: int)
    requires
        s.wf(),
        0 <= dt.0 <= LIMIT,
        0 <= j < s.locks.len(),
        s.locks[j] is Wait,
    ensures
        ({
            let m = scene_step(s, UpdateModel::TimeSpent { dt })->Ok_0;
            let l = s.locks[j].latch();
            let rem2 = wait_remaining(s.locks[j]) - dt.0;
            &&& m.wf()
            &&& m.latches.len() == s.latches.len()
            &&& (rem2 > 0 ==> {
                let w = LockModel::Wait { latch: l, remaining: Time(rem2 as i64) };
                &&& (exists|a: int| 0 <= a < m.locks.len() && m.locks[a] == w)
                &&& forall|a: int|
                    0 <= a < m.locks.len() ==> m.locks[a] == w || (#[trigger] m.locks[a]).latch()
                        != l
                &&& !m.latches[l as int]
            })
            &&& (rem2 <= 0 ==> m.latches[l as int] && locks_avoid(m.locks, l))
        }),
{
    let u = UpdateModel::TimeSpent { dt };
    lemma_scene_step_wf(s, u);
    lemma_time_step_latches(s, dt);
    let l = s.locks[j].latch();
    let rem2 = wait_remaining(s.locks[j]) - dt.0;
    lemma_locks_tick(s.locks, 0, dt, Seq::empty(), s.latches);
    lemma_locks_tick_wait(s.locks, 0, dt, Seq::empty(), s.latches, j);
    let burned = locks_tick(s.locks, 0, dt, Seq::empty(), s.latches);
    let st0 = TickSt { charas: s.charas, locks: burned.0, latches: burned.1, log: s.log };
    lemma_charas_tick(st0, 0, dt);
    if rem2 > 0 {
        let w = LockModel::Wait { latch: l, remaining: Time(rem2 as i64) };
        lemma_charas_tick_wait(st0, 0, dt, w, l);
    } else {
        lemma_charas_tick_avoid(st0, 0, dt, l);
    }
}

/// A run of admissible time steps never turns the clock back.
pub proof fn lemma_total_time_nonneg(dts: Seq<Time>)
    requires
        deltas_ok(dts),
    ensures
        total_time(dts) >= 0,
    decreases dts.len(),
{
    if dts.len() > 0 {
        assert(deltas_ok(dts.drop_first())) by {
            assert(forall|i: int|
                0 <= i < dts.drop_first().len() ==> (#[trigger] dts.drop_first()[i]) == dts[i
                    + 1]);
        }
        lemma_total_time_nonneg(dts.drop_first());
    }
}

/// Once set, a latch no pending lock wraps stays set and stays unwrapped
/// through any run of time steps.
proof fn lemma_steps_preserve_set(s: SceneModel, dts: Seq<Time>, l: usize)
    requires
        s.wf(),
        deltas_ok(dts),
        (l as int) < s.latches.len(),
        s.latches[l as int],
        locks_avoid(s.locks, l),
    ensures
        ({
            let m = time_steps(s, dts);
            &&& (l as int) < m.latches.len()
            &&& m.latches[l as int]
            &&& locks_avoid(m.locks, l)
        }),
    decreases dts.len(),
{
    if dts.len() > 0 {
        let dt = dts.first();
        let u = UpdateModel::TimeSpent { dt };
        lemma_scene_step_wf(s, u);
        lemma_time_step_latches(s, dt);
        let m1 = scene_step(s, u)->Ok_0;
        lemma_locks_tick(s.locks, 0, dt, Seq::empty(), s.latches);
        lemma_locks_tick_avoid(s.locks, 0, dt, Seq::empty(), s.latches, l);
        let burned = locks_tick(s.locks, 0, dt, Seq::empty(), s.latches);
        let st0 = TickSt { charas: s.charas, locks: burned.0, latches: burned.1, log: s.log };
        lemma_charas_tick_avoid(st0, 0, dt, l);
        assert(deltas_ok(dts.drop_first())) by {
            assert(forall|i: int|
                0 <= i < dts.drop_first().len() ==> (#[trigger] dts.drop_first()[i]) == dts[i
                    + 1]);
        }
        lemma_steps_preserve_set(m1, dts.drop_first(), l);
    }
}

/// The wait-lock accounting law. For any run of time steps with
/// non-negative deltas, the time burned off one pending wait lock is
/// exactly the cumulative time spent while it was registered: as long as
/// the cumulative time falls short of the lock's duration the lock is
/// still registered with exactly the difference remaining and its latch
/// unset, and as soon as the cumulative time reaches the duration the
/// latch is set and the lock is gone from the registry.
pub proof fn lemma_wait_lock_accounting(s: SceneModel, dts: Seq<Time>, j: int)
    requires
        s.wf(),
        deltas_ok(dts),
        0 <= j < s.locks.len(),
        s.locks[j] is Wait,
        1 <= wait_remaining(s.locks[j]),
    ensures
        ({
            let m = time_steps(s, dts);
            let l = s.locks[j].latch();
            let d = wait_remaining(s.locks[j]);
            let total = total_time(dts);
            &&& (total < d ==> {
                let w = LockModel::Wait { latch: l, remaining: Time((d - total) as i64) };
                &&& !m.latches[l as int]
                &&& (exists|a: int| 0 <= a < m.locks.len() && m.locks[a] == w)
            })
            &&& (total >= d ==> m.latches[l as int] && locks_avoid(m.locks, l))
        }),
    decreases dts.len(),
{
    lemma_total_time_nonneg(dts);
    let l = s.locks[j].latch();
    let d = wait_remaining(s.locks[j]);
    if dts.len() == 0 {
        assert(lock_wf(s.locks[j], s.latches));
    } else {
        let dt = dts.first();
        let rest = dts.drop_first();
        assert(deltas_ok(rest)) by {
            assert(forall|i: int|
                0 <= i < rest.len() ==> (#[trigger] rest[i]) == dts[i + 1]);
        }
        lemma_total_time_nonneg(rest);
        assert(lock_wf(s.locks[j], s.latches));
        lemma_time_step_wait(s, dt, j);
        let m1 = scene_step(s, UpdateModel::TimeSpent { dt })->Ok_0;
        let rem2 = d - dt.0;
        if rem2 > 0 {
            let w = LockModel::Wait { latch: l, remaining: Time(rem2 as i64) };
            let a = choose|a: int| 0 <= a < m1.locks.len() && m1.locks[a] == w;
            lemma_wait_lock_accounting(m1, rest, a);
        } else {
            lemma_steps_preserve_set(m1, rest, l);
        }
    }
}

impl SceneModel {
    /// The model of a fresh scene: no characters, locks, latches or log
    /// entries, and two transparent screens.
    pub open spec fn init() -> SceneModel {
        SceneModel {
            charas: Seq::empty(),
            log: Seq::empty(),
            locks: Seq::empty(),
            screens: seq![Screen::init(), Screen::init()],
            portrait: Option::None,
            latches: Seq::empty(),
        }
    }
}

/// The position of the entry for `id`, or the number of entries when there
/// is none.
fn find_index(charas: &Vec<CharaEntry>, id: &String) -> (f: usize)
    ensures
        f as int == find_chara(entries_view(charas@), id@),
{
    proof {
        lemma_find_chara(entries_view(charas@), id@);
    }
    let n = charas.len();
    let mut i: usize = 0;
    while i < n
        invariant
            n == charas@.len(),
            0 <= i <= n,
            forall|j: int| 0 <= j < i ==> (#[trigger] entries_view(charas@)[j]).0 != id@,
        decreases n - i,
    {
        if charas[i].id == *id {
            proof {
                let cs = entries_view(charas@);
                let fs = find_chara(cs, id@);
                lemma_find_chara(cs, id@);
                assert(cs[i as int].0 == id@);
                if fs < i {
                    assert(cs[fs].0 != id@);
                }
            }
            return i;
        }
        i += 1;
    }
    proof {
        let cs = entries_view(charas@);
        let fs = find_chara(cs, id@);
        if fs < cs.len() {
            assert(cs[fs].0 != id@);
        }
    }
    n
}

impl Default for Scene {
    fn default() -> (s: Scene)
        ensures
            s@ == SceneModel::init(),
            s@.wf(),
    {
        let mut screens: Vec<Screen> = Vec::new();
        screens.push(Screen::new());
        screens.push(Screen::new());
        let s = Scene {
            charas: Vec::new(),
            updates: Vec::new(),
            locks: Vec::new(),
            screens,
            portrait: Option::None,
            latches: LatchStore::new(),
        };
        proof {
            assert(entries_view(s.charas@) =~= Seq::<(Seq<char>, CharaModel)>::empty());
            assert(log_view(s.updates@) =~= Seq::<UpdateModel>::empty());
            assert(locks_view(s.locks@) =~= Seq::<LockModel>::empty());
            assert(s.screens@ =~= seq![Screen::init(), Screen::init()]);
            assert(s@ =~= SceneModel::init());
        }
        s
    }
}

impl Scene {
    /// The single mutation entrypoint: apply one update, exactly as
    /// [`scene_step`] says, and record it in the log. A rejected update
    /// (unknown entity id, out-of-range screen id) changes nothing and the
    /// error is returned to the caller.
    pub fn update(&mut self, update: Update) -> (r: Result<(), ApplyError>)
        requires
            old(self)@.wf(),
            update_allowed(old(self)@, update@),
        ensures
            match scene_step(old(self)@, update@) {
                Result::Ok(m) => r is Ok && final(self)@ == m && m.wf(),
                Result::Err(e) => r == Result::<(), ApplyError>::Err(e) && *final(self) == *old(
                    self,
                ),
            },
    {
        let ghost s0 = self@;
        let ghost u = update@;
        proof {
            lemma_scene_step_wf(s0, u);
        }
        match &update {
            Update::AddChara(id, actor) => {
                let f = find_index(&self.charas, id);
                proof {
                    lemma_find_chara(s0.charas, id@);
                }
                let chara = Chara::new(actor.clone());
                if f < self.charas.len() {
                    let entry = &mut self.charas[f];
                    entry.chara = chara;
                    proof {
                        assert(entries_view(self.charas@) =~= s0.charas.update(
                            f as int,
                            (id@, CharaModel::fresh(actor@)),
                        ));
                    }
                } else {
                    self.charas.push(CharaEntry { id: id.clone(), chara });
                    proof {
                        assert(entries_view(self.charas@) =~= s0.charas.push(
                            (id@, CharaModel::fresh(actor@)),
                        ));
                    }
                }
            },
            Update::DelChara(id) => {
                let f = find_index(&self.charas, id);
                if f < self.charas.len() {
                    self.charas.remove(f);
                    proof {
                        assert(entries_view(self.charas@) =~= s0.charas.remove(f as int));
                    }
                }
            },
            Update::SetPosition(id, position) => {
                let f = find_index(&self.charas, id);
                proof {
                    lemma_find_chara(s0.charas, id@);
                }
                if f == self.charas.len() {
                    return Result::Err(ApplyError::LookupError);
                }
                let entry = &mut self.charas[f];
                entry.chara.set_position(*position);
                proof {
                    let c = s0.charas[f as int].1;
                    let c2 = CharaModel {
                        position: *position,
                        ongoing_movement: OngoingMovement::Idle,
                        ..c
                    };
                    assert(entries_view(self.charas@) =~= s0.charas.update(f as int, (id@, c2)));
                }
            },
            Update::WalkTo(id, destination, speed) => {
                let f = find_index(&self.charas, id);
                proof {
                    lemma_find_chara(s0.charas, id@);
                }
                if f == self.charas.len() {
                    return Result::Err(ApplyError::LookupError);
                }
                let entry = &mut self.charas[f];
                entry.chara.walk_to(*destination, *speed);
                proof {
                    let c = s0.charas[f as int].1;
                    let c2 = CharaModel {
                        ongoing_movement: OngoingMovement::WalkTo(
                            WalkTo { destination: *destination, speed: *speed },
                        ),
                        ..c
                    };
                    assert(entries_view(self.charas@) =~= s0.charas.update(f as int, (id@, c2)));
                }
            },
            Update::AddLock(lock) => {
                let lk = lock.clone();
                self.locks.push(lk);
                proof {
                    assert(locks_view(self.locks@) =~= s0.locks.push(lock@));
                }
            },
            Update::TimeSpent(t) => {
                let dt = *t;
                self.time_spent_phases(dt);
            },
            Update::SetScreenColor(screen_id, color) => {
                let sid = *screen_id as usize;
                if sid >= self.screens.len() {
                    return Result::Err(ApplyError::IndexError);
                }
                let sc = &mut self.screens[sid];
                sc.set_color_immediate(*color);
                proof {
                    assert(self.screens@ =~= s0.screens.update(
                        sid as int,
                        Screen { actual_color: *color, ongoing_transition: Option::None },
                    ));
                }
            },
            Update::TransitionScreenColor(screen_id, duration, color) => {
                let sid = *screen_id as usize;
                if sid >= self.screens.len() {
                    return Result::Err(ApplyError::IndexError);
                }
                let sc = &mut self.screens[sid];
                sc.set_color_transition(*duration, *color);
            },
            Update::StartIDLE(_) => {},
            Update::SetPortrait(portrait) => {
                self.portrait = Option::Some(portrait.clone());
            },
            Update::RemovePortrait => {
                self.portrait = Option::None;
            },
        }
        let ghost mid = self@;
        self.updates.push(update);
        proof {
            assert(log_view(self.updates@) =~= mid.log.push(u));
            assert(self@ =~= scene_step(s0, u)->Ok_0);
        }
        Result::Ok(())
    }

    /// The three phases of a `TimeSpent` update: burn time off pending
    /// waits, advance the screen transitions, then advance every walking
    /// character, resolving movement locks and logging `StartIDLE` entries
    /// for the walks that completed.
    fn time_spent_phases(&mut self, dt: Time)
        requires
            old(self)@.wf(),
            0 <= dt.0 <= LIMIT,
        ensures
            ({
                let s0 = old(self)@;
                let burned = locks_tick(s0.locks, 0, dt, Seq::empty(), s0.latches);
                let st = charas_tick(
                    TickSt { charas: s0.charas, locks: burned.0, latches: burned.1, log: s0.log },
                    0,
                    dt,
                );
                final(self)@ == (SceneModel {
                    charas: st.charas,
                    log: st.log,
                    locks: st.locks,
                    screens: Seq::new(
                        s0.screens.len(),
                        |i: int| screen_tick(s0.screens[i], dt),
                    ),
                    portrait: s0.portrait,
                    latches: st.latches,
                })
            }),
    {
        let ghost s0 = self@;
        let ghost lock0 = s0.locks;
        let ghost lat0 = s0.latches;
        // Phase one: burn `dt` off every pending wait.
        let mut kept: Vec<Lock> = Vec::new();
        proof {
            assert(locks_view(kept@) =~= Seq::<LockModel>::empty());
        }
        let n = self.locks.len();
        let mut i: usize = 0;
        while i < n
            invariant
                0 <= dt.0 <= LIMIT,
                n == self.locks@.len(),
                0 <= i <= n,
                locks_view(self.locks@) == lock0,
                self.latches@.len() == lat0.len(),
                locks_tick(lock0, 0, dt, Seq::empty(), lat0) == locks_tick(
                    lock0,
                    i as int,
                    dt,
                    locks_view(kept@),
                    self.latches@,
                ),
                forall|b: int| 0 <= b < n ==> lock_wf(#[trigger] lock0[b], lat0),
                self@ == (SceneModel { latches: self.latches@, ..s0 }),
            decreases n - i,
        {
            let lk = self.locks[i].clone();
            let ghost kprev = locks_view(kept@);
            match lk {
                Lock::Wait(latch, remaining) => {
                    proof {
                        assert(lock_wf(lock0[i as int], lat0));
                    }
                    let rem2: i64 = remaining.0 - dt.0;
                    if rem2 <= 0 {
                        self.latches.set(latch);
                    } else {
                        kept.push(Lock::Wait(latch, Time(rem2)));
                        proof {
                            assert(locks_view(kept@) =~= kprev.push(
                                LockModel::Wait { latch, remaining: Time(rem2) },
                            ));
                        }
                    }
                },
                Lock::WaitMove(latch, chara) => {
                    kept.push(Lock::WaitMove(latch, chara));
                    proof {
                        assert(locks_view(kept@) =~= kprev.push(lock0[i as int]));
                    }
                },
            }
            i += 1;
        }
        self.locks = kept;
        let ghost burned = locks_tick(lock0, 0, dt, Seq::empty(), lat0);
        proof {
            lemma_locks_tick(lock0, 0, dt, Seq::empty(), lat0);
            assert(locks_view(self.locks@) == burned.0 && self.latches@ == burned.1);
        }
        // Phase two: advance the screen colour transitions.
        let ghost scr0 = s0.screens;
        let nscr = self.screens.len();
        let mut si: usize = 0;
        while si < nscr
            invariant
                0 <= dt.0 <= LIMIT,
                nscr == self.screens@.len(),
                nscr == scr0.len(),
                0 <= si <= nscr,
                forall|j: int|
                    0 <= j < si ==> self.screens@[j] == screen_tick(#[trigger] scr0[j], dt),
                forall|j: int| si <= j < nscr ==> self.screens@[j] == #[trigger] scr0[j]
                    && scr0[j].wf(),
                self@ == (SceneModel {
                    screens: self.screens@,
                    locks: burned.0,
                    latches: burned.1,
                    ..s0
                }),
            decreases nscr - si,
        {
            proof {
                assert(self.screens@[si as int] == scr0[si as int] && scr0[si as int].wf());
            }
            let sc = &mut self.screens[si];
            sc.time_spent(dt);
            si += 1;
        }
        proof {
            assert(self.screens@ =~= Seq::new(
                s0.screens.len(),
                |j: int| screen_tick(s0.screens[j], dt),
            ));
        }
        // Phase three: advance every walking character.
        let ghost bscreens = self.screens@;
        let ghost st0 = TickSt {
            charas: s0.charas,
            locks: burned.0,
            latches: burned.1,
            log: s0.log,
        };
        let ncha = self.charas.len();
        let mut ci: usize = 0;
        while ci < ncha
            invariant
                0 <= dt.0 <= LIMIT,
                ncha == self.charas@.len(),
                0 <= ci <= ncha,
                charas_tick(st0, 0, dt) == charas_tick(
                    TickSt {
                        charas: entries_view(self.charas@),
                        locks: locks_view(self.locks@),
                        latches: self.latches@,
                        log: log_view(self.updates@),
                    },
                    ci as int,
                    dt,
                ),
                forall|j: int|
                    ci <= j < ncha ==> (#[trigger] entries_view(self.charas@)[j]).1.wf(),
                locks_wf(locks_view(self.locks@), self.latches@),
                self.screens@ == bscreens,
                self@ == (SceneModel {
                    charas: entries_view(self.charas@),
                    log: log_view(self.updates@),
                    locks: locks_view(self.locks@),
                    latches: self.latches@,
                    screens: bscreens,
                    ..s0
                }),
            decreases ncha - ci,
        {
            let ghost cprev = entries_view(self.charas@);
            let ghost entry0 = cprev[ci as int];
            proof {
                assert(entry0 == (self.charas@[ci as int].id@, self.charas@[ci as int].chara@));
                assert(entry0.1.wf());
            }
            let e = &mut self.charas[ci];
            let finished = e.chara.time_spent(dt);
            proof {
                assert(entries_view(self.charas@) =~= cprev.update(
                    ci as int,
                    (entry0.0, chara_tick(entry0.1, dt).0),
                ));
            }
            if finished {
                let id = self.charas[ci].id.clone();
                let ghost logprev = log_view(self.updates@);
                self.updates.push(Update::StartIDLE(id.clone()));
                proof {
                    assert(log_view(self.updates@) =~= logprev.push(
                        UpdateModel::StartIDLE { id: id@ },
                    ));
                }
                let ghost ccur = entries_view(self.charas@);
                let ghost logcur = log_view(self.updates@);
                let ghost ilock0 = locks_view(self.locks@);
                let ghost ilat0 = self.latches@;
                let mut kept2: Vec<Lock> = Vec::new();
                proof {
                    assert(locks_view(kept2@) =~= Seq::<LockModel>::empty());
                }
                let nl = self.locks.len();
                let mut li: usize = 0;
                while li < nl
                    invariant
                        nl == self.locks@.len(),
                        0 <= li <= nl,
                        locks_view(self.locks@) == ilock0,
                        self.latches@.len() == ilat0.len(),
                        waitmove_tick(ilock0, 0, id@, Seq::empty(), ilat0) == waitmove_tick(
                            ilock0,
                            li as int,
                            id@,
                            locks_view(kept2@),
                            self.latches@,
                        ),
                        forall|b: int| 0 <= b < nl ==> lock_wf(#[trigger] ilock0[b], ilat0),
                        self@ == (SceneModel {
                            charas: ccur,
                            log: logcur,
                            locks: ilock0,
                            latches: self.latches@,
                            screens: bscreens,
                            ..s0
                        }),
                    decreases nl - li,
                {
                    let lk = self.locks[li].clone();
                    let ghost k2prev = locks_view(kept2@);
                    match lk {
                        Lock::WaitMove(latch, chara) => {
                            proof {
                                assert(lock_wf(ilock0[li as int], ilat0));
                            }
                            if chara == id {
                                self.latches.set(latch);
                            } else {
                                kept2.push(Lock::WaitMove(latch, chara));
                                proof {
                                    assert(locks_view(kept2@) =~= k2prev.push(
                                        ilock0[li as int],
                                    ));
                                }
                            }
                        },
                        Lock::Wait(latch, remaining) => {
                            kept2.push(Lock::Wait(latch, remaining));
                            proof {
                                assert(locks_view(kept2@) =~= k2prev.push(ilock0[li as int]));
                            }
                        },
                    }
                    li += 1;
                }
                self.locks = kept2;
                proof {
                    lemma_waitmove_tick(ilock0, 0, id@, Seq::empty(), ilat0);
                }
            }
            ci += 1;
            proof {
                lemma_chara_tick_wf(entry0.1, dt);
            }
        }
        proof {
            assert(self@ =~= (SceneModel {
                charas: charas_tick(st0, 0, dt).charas,
                log: charas_tick(st0, 0, dt).log,
                locks: charas_tick(st0, 0, dt).locks,
                screens: bscreens,
                portrait: s0.portrait,
                latches: charas_tick(st0, 0, dt).latches,
            }));
        }
    }

    /// Drain the update log: the log is swapped with an empty one and the
    /// previous contents are returned, so a second consecutive call before
    /// any new update returns an empty sequence.
    pub fn get_and_clear_updates(&mut self) -> (r: Vec<Update>)
        ensures
            drained(old(self)@, final(self)@, log_view(r@)),
            log_view(r@) == old(self)@.log,
            final(self)@ == (SceneModel { log: Seq::empty(), ..old(self)@ }),
    {
        let mut replace: Vec<Update> = Vec::new();
        std::mem::swap(&mut self.updates, &mut replace);
        proof {
            assert(log_view(self.updates@) =~= Seq::<UpdateModel>::empty());
            assert(self@ =~= (SceneModel { log: Seq::empty(), ..old(self)@ }));
        }
        replace
    }
}

} // verus!
