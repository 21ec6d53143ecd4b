//! The cooperative task scheduler.
//!
//! Any number of independently-progressing script strands share one
//! execution context: each task owns the commands it has not run yet and a
//! block condition. The scheduler advances tasks in rounds until no task is
//! runnable; a task is runnable exactly when its block condition holds no
//! unset latch, a check re-evaluated every round and never cached.

use crate::fixmath::LIMIT;
use crate::gamedata::characters::scalar_ok;
use crate::gamedata::color::Color;
use crate::gamedata::facetype::FaceType;
use crate::gamedata::lock::LockModel;
use crate::gamedata::portrait::PortraitModel;
use crate::gamedata::scene::{scene_step, ApplyError, Scene, SceneModel};
use crate::gamedata::speed::Speed;
use crate::gamedata::update::UpdateModel;
use crate::gamedata::various::Time;
use crate::gamedata::vectors::{Vec2, Vec3};
use crate::latch::LatchStore;
use vstd::prelude::*;

verus! {

broadcast use vstd::seq::axiom_seq_index_decreases, vstd::seq::axiom_seq_subrange_decreases,
    vstd::std_specs::vec::axiom_vec_decreases_to_view;

/// The reason a task is blocked.
#[derive(Debug, Clone, Copy, PartialEq)]
pub enum LockReason {
    /// There is no reason for the task to be blocked.
    Unblocked,
    /// The task waits for the latch with this identity to be set.
    WaitAtomicBool(usize),
}

impl LockReason {
    /// A block condition on the given latch.
    pub fn new_abool(abool: usize) -> (r: LockReason)
        ensures
            r == LockReason::WaitAtomicBool(abool),
    {
        LockReason::WaitAtomicBool(abool)
    }

    /// Whether a task blocked for this reason may resume: always for an
    /// unblocked task, and exactly when the awaited latch is set otherwise.
    pub open spec fn can_continue_spec(self, latches: Seq<bool>) -> bool {
        match self {
            LockReason::Unblocked => true,
            LockReason::WaitAtomicBool(l) => l < latches.len() && latches[l as int],
        }
    }

    /// The latch this reason waits on, if any, exists in the store.
    pub open spec fn valid(self, latches: Seq<bool>) -> bool {
        match self {
            LockReason::Unblocked => true,
            LockReason::WaitAtomicBool(l) => l < latches.len(),
        }
    }

    /// Return `true` if the blocked task should resume execution.
    pub fn can_continue(&self, latches: &LatchStore) -> (b: bool)
        requires
            self.valid(latches@),
        ensures
            b == self.can_continue_spec(latches@),
    {
        match self {
            LockReason::Unblocked => true,
            LockReason::WaitAtomicBool(l) => latches.is_set(*l),
        }
    }
}

/// What a blocking command hands back when a task must interrupt its run
/// until an external event: the block condition to install.
#[derive(Debug, Clone, Copy, PartialEq)]
pub struct YieldResult {
    pub lock: LockReason,
}

impl YieldResult {
    /// A yield blocking on `lock`.
    pub fn new(lock: LockReason) -> (y: YieldResult)
        ensures
            y.lock == lock,
    {
        YieldResult { lock }
    }
}

/// One scripted operation of the command vocabulary. A task's computation
/// is the sequence of these it has not run yet.
#[derive(Debug)]
pub enum Command {
    /// Create a character: id, actor.
    DynamicLoad(String, String),
    /// Remove a character.
    DynamicRemove(String),
    /// Move a character exactly, aborting any walk.
    SetPosition(String, Vec3),
    /// Start a walk: id, destination, speed.
    WalkTo(String, Vec2, Speed),
    /// Block the task for a duration.
    Sleep(Time),
    /// Block the task until the character's movement completes.
    WaitMove(String),
    /// Fade a screen to black: screen id, duration, and whether to also
    /// block the task for the duration.
    FadeOut(u16, Time, bool),
    /// Show a portrait overlay: coordinate, actor, face tag.
    DrawFace(i64, i64, String, FaceType),
    /// Remove the portrait overlay.
    RemoveFace,
    /// Create a new cooperative task running the given commands.
    Fork(Vec<Command>),
}

/// Mathematical image of a [`Command`].
pub enum CommandModel {
    DynamicLoad { id: Seq<char>, actor: Seq<char> },
    DynamicRemove { id: Seq<char> },
    SetPosition { id: Seq<char>, position: Vec3 },
    WalkTo { id: Seq<char>, destination: Vec2, speed: Speed },
    Sleep { time: Time },
    WaitMove { id: Seq<char> },
    FadeOut { screen: u16, duration: Time, sleep_after: bool },
    DrawFace { x: i64, y: i64, actor: Seq<char>, facetype: FaceType },
    RemoveFace,
    Fork { body: Seq<CommandModel> },
}

/// The image of one command.
pub open spec fn command_model(c: Command) -> CommandModel
    decreases c,
{
    match c {
        Command::DynamicLoad(id, actor) => CommandModel::DynamicLoad { id: id@, actor: actor@ },
        Command::DynamicRemove(id) => CommandModel::DynamicRemove { id: id@ },
        Command::SetPosition(id, position) => CommandModel::SetPosition { id: id@, position },
        Command::WalkTo(id, destination, speed) => CommandModel::WalkTo {
            id: id@,
            destination,
            speed,
        },
        Command::Sleep(time) => CommandModel::Sleep { time },
        Command::WaitMove(id) => CommandModel::WaitMove { id: id@ },
        Command::FadeOut(screen, duration, sleep_after) => CommandModel::FadeOut {
            screen,
            duration,
            sleep_after,
        },
        Command::DrawFace(x, y, actor, facetype) => CommandModel::DrawFace {
            x,
            y,
            actor: actor@,
            facetype,
        },
        Command::RemoveFace => CommandModel::RemoveFace,
        Command::Fork(body) => CommandModel::Fork { body: commands_model(body@) },
    }
}

/// The images of a sequence of commands.
pub open spec fn commands_model(s: Seq<Command>) -> Seq<CommandModel>
    decreases s,
{
    if s.len() == 0 {
        Seq::empty()
    } else {
        commands_model(s.drop_last()).push(command_model(s.last()))
    }
}

/// `commands_model` maps elementwise.
pub proof fn lemma_commands_model(s: Seq<Command>)
    ensures
        commands_model(s).len() == s.len(),
        forall|i: int| 0 <= i < s.len() ==> commands_model(s)[i] == command_model(#[trigger] s[i]),
    decreases s.len(),
{
    if s.len() > 0 {
        lemma_commands_model(s.drop_last());
        assert forall|i: int| 0 <= i < s.len() implies commands_model(s)[i] == command_model(
            #[trigger] s[i],
        ) by {
            if i < s.len() - 1 {
                assert(s.drop_last()[i] == s[i]);
            }
        }
    }
}

/// The bounds a command's payload must observe so that every formula it
/// triggers stays exact: the machine limits of the fixed-point model.
pub open spec fn command_wf(c: CommandModel) -> bool
    decreases c,
{
    match c {
        CommandModel::SetPosition { position, .. } => scalar_ok(position.x) && scalar_ok(
            position.y,
        ) && scalar_ok(position.z),
        CommandModel::WalkTo { destination, speed, .. } => scalar_ok(destination.x) && scalar_ok(
            destination.y,
        ) && 0 <= speed.0 <= LIMIT,
        CommandModel::Sleep { time } => -LIMIT <= time.0 <= LIMIT,
        CommandModel::FadeOut { duration, .. } => -LIMIT <= duration.0 <= LIMIT,
        CommandModel::Fork { body } => commands_wf(body),
        _ => true,
    }
}

/// Every command of the sequence within bounds.
pub open spec fn commands_wf(s: Seq<CommandModel>) -> bool
    decreases s,
{
    s.len() == 0 || (command_wf(s.first()) && commands_wf(s.drop_first()))
}

/// `commands_wf` holds elementwise, and of every suffix.
pub proof fn lemma_commands_wf(s: Seq<CommandModel>)
    requires
        commands_wf(s),
    ensures
        forall|i: int| 0 <= i < s.len() ==> command_wf(#[trigger] s[i]),
        forall|i: int| 0 <= i <= s.len() ==> commands_wf(#[trigger] s.skip(i)),
    decreases s.len(),
{
    assert(s.skip(0) =~= s);
    if s.len() > 0 {
        lemma_commands_wf(s.drop_first());
        assert forall|i: int| 0 <= i < s.len() implies command_wf(#[trigger] s[i]) by {
            if i > 0 {
                assert(s.drop_first()[i - 1] == s[i]);
            }
        }
        assert forall|i: int| 0 <= i <= s.len() implies commands_wf(#[trigger] s.skip(i)) by {
            if i > 0 {
                assert(s.skip(i) =~= s.drop_first().skip(i - 1));
            }
        }
    }
}

/// The budget one command spends when run: one for itself, plus the whole
/// budget of the strand a fork creates. The total budget of all live tasks
/// strictly shrinks with every resumption, which is what bounds both the
/// scheduler's fixpoint loop and the task ids it can ever hand out.
pub open spec fn command_weight(c: CommandModel) -> nat
    decreases c,
{
    match c {
        CommandModel::Fork { body } => 2 + seq_weight(body),
        _ => 1,
    }
}

/// Total budget of a sequence of commands.
pub open spec fn seq_weight(s: Seq<CommandModel>) -> nat
    decreases s,
{
    if s.len() == 0 {
        0
    } else {
        command_weight(s.first()) + seq_weight(s.drop_first())
    }
}

/// One cooperatively-scheduled strand of script execution.
#[derive(Debug)]
pub struct Task {
    /// Identity, handed out in increasing order of creation.
    pub id: u64,
    /// The commands the task has not run yet, in order; the task finishes
    /// when none is left.
    pub program: Vec<Command>,
    /// The current block condition.
    pub lock: LockReason,
}

/// Mathematical image of a [`Task`].
pub struct TaskModel {
    pub id: u64,
    pub program: Seq<CommandModel>,
    pub lock: LockReason,
}

impl View for Task {
    type V = TaskModel;

    open spec fn view(&self) -> TaskModel {
        TaskModel { id: self.id, program: commands_model(self.program@), lock: self.lock }
    }
}

/// The images of a sequence of tasks.
pub open spec fn tasks_view(v: Seq<Task>) -> Seq<TaskModel> {
    Seq::new(v.len(), |i: int| v[i]@)
}

/// Budget of one task: one for finishing, plus its remaining commands.
pub open spec fn task_weight(t: TaskModel) -> nat {
    1 + seq_weight(t.program)
}

/// Total budget of a sequence of tasks.
pub open spec fn tasks_weight(ts: Seq<TaskModel>) -> nat
    decreases ts,
{
    if ts.len() == 0 {
        0
    } else {
        task_weight(ts.first()) + tasks_weight(ts.drop_first())
    }
}

/// Replacing one task exchanges exactly its budget.
pub proof fn lemma_tasks_weight_update(ts: Seq<TaskModel>, i: int, t2: TaskModel)
    requires
        0 <= i < ts.len(),
    ensures
        tasks_weight(ts.update(i, t2)) + task_weight(ts[i]) == tasks_weight(ts) + task_weight(t2),
    decreases ts.len(),
{
    if i == 0 {
        assert(ts.update(0, t2).drop_first() =~= ts.drop_first());
    } else {
        assert(ts.update(i, t2).drop_first() =~= ts.drop_first().update(i - 1, t2));
        assert(ts.drop_first()[i - 1] == ts[i]);
        lemma_tasks_weight_update(ts.drop_first(), i - 1, t2);
    }
}

/// Removing one task removes exactly its budget.
pub proof fn lemma_tasks_weight_remove(ts: Seq<TaskModel>, i: int)
    requires
        0 <= i < ts.len(),
    ensures
        tasks_weight(ts.remove(i)) + task_weight(ts[i]) == tasks_weight(ts),
    decreases ts.len(),
{
    if i == 0 {
        assert(ts.remove(0) =~= ts.drop_first());
    } else {
        assert(ts.remove(i).drop_first() =~= ts.drop_first().remove(i - 1));
        assert(ts.remove(i).first() == ts.first());
        assert(ts.drop_first()[i - 1] == ts[i]);
        lemma_tasks_weight_remove(ts.drop_first(), i - 1);
    }
}

/// Budgets add over concatenation.
pub proof fn lemma_tasks_weight_append(a: Seq<TaskModel>, b: Seq<TaskModel>)
    ensures
        tasks_weight(a + b) == tasks_weight(a) + tasks_weight(b),
    decreases a.len(),
{
    if a.len() == 0 {
        assert(a + b =~= b);
    } else {
        assert((a + b).first() == a.first());
        assert((a + b).drop_first() =~= a.drop_first() + b);
        lemma_tasks_weight_append(a.drop_first(), b);
    }
}

/// No task outweighs the whole.
pub proof fn lemma_tasks_weight_index(ts: Seq<TaskModel>, i: int)
    requires
        0 <= i < ts.len(),
    ensures
        task_weight(ts[i]) <= tasks_weight(ts),
{
    lemma_tasks_weight_remove(ts, i);
}

/// What one resumption produces: the scene afterwards, the task afterwards
/// (nothing when it finished), the tasks it forked, the next free task id,
/// and the fault that cut the run short, if any.
pub struct ResumeRes {
    pub scene: SceneModel,
    pub task: Option<TaskModel>,
    pub spawned: Seq<TaskModel>,
    pub next_task_id: u64,
    pub fault: Option<ApplyError>,
}

/// One resumption: run the task's commands in order until one of them
/// blocks the task, the commands run out, or a command faults. A blocking
/// command installs its lock and ends the resumption with the task blocked
/// on the fresh latch; a fault ends it at once, with the failing command
/// consumed and the scene exactly as the commands so far left it.
pub open spec fn resume_task(
    scene: SceneModel,
    t: TaskModel,
    next: u64,
    spawned: Seq<TaskModel>,
) -> ResumeRes
    decreases t.program.len(),
{
    if t.program.len() == 0 {
        ResumeRes { scene, task: Option::None, spawned, next_task_id: next, fault: Option::None }
    } else {
        let cmd = t.program.first();
        let rest = TaskModel { program: t.program.drop_first(), ..t };
        match cmd {
            CommandModel::DynamicLoad { id, actor } => resume_task(
                scene_step(scene, UpdateModel::AddChara { id, actor })->Ok_0,
                rest,
                next,
                spawned,
            ),
            CommandModel::DynamicRemove { id } => resume_task(
                scene_step(scene, UpdateModel::DelChara { id })->Ok_0,
                rest,
                next,
                spawned,
            ),
            CommandModel::SetPosition { id, position } => match scene_step(
                scene,
                UpdateModel::SetPosition { id, position },
            ) {
                Result::Ok(m) => resume_task(m, rest, next, spawned),
                Result::Err(e) => ResumeRes {
                    scene,
                    task: Option::Some(rest),
                    spawned,
                    next_task_id: next,
                    fault: Option::Some(e),
                },
            },
            CommandModel::WalkTo { id, destination, speed } => match scene_step(
                scene,
                UpdateModel::WalkTo { id, destination, speed },
            ) {
                Result::Ok(m) => resume_task(m, rest, next, spawned),
                Result::Err(e) => ResumeRes {
                    scene,
                    task: Option::Some(rest),
                    spawned,
                    next_task_id: next,
                    fault: Option::Some(e),
                },
            },
            CommandModel::Sleep { time } => {
                let l = scene.latches.len() as usize;
                let s2 = scene_step(
                    crate::command::with_fresh_latch(scene),
                    UpdateModel::AddLock { lock: LockModel::Wait { latch: l, remaining: time } },
                )->Ok_0;
                ResumeRes {
                    scene: s2,
                    task: Option::Some(
                        TaskModel { lock: LockReason::WaitAtomicBool(l), ..rest },
                    ),
                    spawned,
                    next_task_id: next,
                    fault: Option::None,
                }
            },
            CommandModel::WaitMove { id } => {
                let l = scene.latches.len() as usize;
                let s2 = scene_step(
                    crate::command::with_fresh_latch(scene),
                    UpdateModel::AddLock { lock: LockModel::WaitMove { latch: l, chara: id } },
                )->Ok_0;
                ResumeRes {
                    scene: s2,
                    task: Option::Some(
                        TaskModel { lock: LockReason::WaitAtomicBool(l), ..rest },
                    ),
                    spawned,
                    next_task_id: next,
                    fault: Option::None,
                }
            },
            CommandModel::FadeOut { screen, duration, sleep_after } => {
                let u1 = UpdateModel::SetScreenColor {
                    screen,
                    color: Color::transparent_spec(),
                };
                match scene_step(scene, u1) {
                    Result::Err(e) => ResumeRes {
                        scene,
                        task: Option::Some(rest),
                        spawned,
                        next_task_id: next,
                        fault: Option::Some(e),
                    },
                    Result::Ok(m1) => {
                        let m2 = scene_step(
                            m1,
                            UpdateModel::TransitionScreenColor {
                                screen,
                                duration,
                                color: Color::black_spec(),
                            },
                        )->Ok_0;
                        if sleep_after {
                            let l = m2.latches.len() as usize;
                            let s3 = scene_step(
                                crate::command::with_fresh_latch(m2),
                                UpdateModel::AddLock {
                                    lock: LockModel::Wait { latch: l, remaining: duration },
                                },
                            )->Ok_0;
                            ResumeRes {
                                scene: s3,
                                task: Option::Some(
                                    TaskModel { lock: LockReason::WaitAtomicBool(l), ..rest },
                                ),
                                spawned,
                                next_task_id: next,
                                fault: Option::None,
                            }
                        } else {
                            ResumeRes {
                                scene: m2,
                                task: Option::Some(
                                    TaskModel { lock: LockReason::Unblocked, ..rest },
                                ),
                                spawned,
                                next_task_id: next,
                                fault: Option::None,
                            }
                        }
                    },
                }
            },
            CommandModel::DrawFace { x, y, actor, facetype } => resume_task(
                scene_step(
                    scene,
                    UpdateModel::SetPortrait {
                        portrait: PortraitModel { coord: (x, y), actor, facetype },
                    },
                )->Ok_0,
                rest,
                next,
                spawned,
            ),
            CommandModel::RemoveFace => resume_task(
                scene_step(scene, UpdateModel::RemovePortrait)->Ok_0,
                rest,
                next,
                spawned,
            ),
            CommandModel::Fork { body } => resume_task(
                scene,
                rest,
                (next + 1) as u64,
                spawned.push(TaskModel { id: next, program: body, lock: LockReason::Unblocked }),
            ),
        }
    }
}

/// Budget of the task afterwards, if it survived.
pub open spec fn opt_task_weight(o: Option<TaskModel>) -> nat {
    match o {
        Option::None => 0,
        Option::Some(t) => task_weight(t),
    }
}

/// Every resumption strictly spends budget: what survives it — the task, if
/// unfinished, together with everything it forked — weighs strictly less
/// than what went in. This is a structural fact about the commands alone;
/// it is what bounds the scheduler's fixpoint loop.
pub proof fn lemma_resume_task_weight(
    scene: SceneModel,
    t: TaskModel,
    next: u64,
    spawned: Seq<TaskModel>,
)
    ensures
        ({
            let r = resume_task(scene, t, next, spawned);
            opt_task_weight(r.task) + tasks_weight(r.spawned) < task_weight(t) + tasks_weight(
                spawned,
            )
        }),
    decreases t.program.len(),
{
    if t.program.len() == 0 {
    } else {
        let cmd = t.program.first();
        let rest = TaskModel { program: t.program.drop_first(), ..t };
        assert(seq_weight(t.program) == command_weight(cmd) + seq_weight(rest.program));
        match cmd {
            CommandModel::DynamicLoad { id, actor } => {
                lemma_resume_task_weight(
                    scene_step(scene, UpdateModel::AddChara { id, actor })->Ok_0,
                    rest,
                    next,
                    spawned,
                );
            },
            CommandModel::DynamicRemove { id } => {
                lemma_resume_task_weight(
                    scene_step(scene, UpdateModel::DelChara { id })->Ok_0,
                    rest,
                    next,
                    spawned,
                );
            },
            CommandModel::SetPosition { id, position } => {
                if scene_step(scene, UpdateModel::SetPosition { id, position }) is Ok {
                    lemma_resume_task_weight(
                        scene_step(scene, UpdateModel::SetPosition { id, position })->Ok_0,
                        rest,
                        next,
                        spawned,
                    );
                }
            },
            CommandModel::WalkTo { id, destination, speed } => {
                if scene_step(scene, UpdateModel::WalkTo { id, destination, speed }) is Ok {
                    lemma_resume_task_weight(
                        scene_step(scene, UpdateModel::WalkTo { id, destination, speed })->Ok_0,
                        rest,
                        next,
                        spawned,
                    );
                }
            },
            CommandModel::Sleep { .. } => {},
            CommandModel::WaitMove { .. } => {},
            CommandModel::FadeOut { .. } => {},
            CommandModel::DrawFace { x, y, actor, facetype } => {
                lemma_resume_task_weight(
                    scene_step(
                        scene,
                        UpdateModel::SetPortrait {
                            portrait: PortraitModel { coord: (x, y), actor, facetype },
                        },
                    )->Ok_0,
                    rest,
                    next,
                    spawned,
                );
            },
            CommandModel::RemoveFace => {
                lemma_resume_task_weight(
                    scene_step(scene, UpdateModel::RemovePortrait)->Ok_0,
                    rest,
                    next,
                    spawned,
                );
            },
            CommandModel::Fork { body } => {
                let spawned2 = spawned.push(
                    TaskModel { id: next, program: body, lock: LockReason::Unblocked },
                );
                lemma_tasks_weight_append(
                    spawned,
                    seq![TaskModel { id: next, program: body, lock: LockReason::Unblocked }],
                );
                assert(spawned2 =~= spawned + seq![
                    TaskModel { id: next, program: body, lock: LockReason::Unblocked },
                ]);
                assert(tasks_weight(
                    seq![TaskModel { id: next, program: body, lock: LockReason::Unblocked }],
                ) == 1 + seq_weight(body)) by {
                    let single = seq![
                        TaskModel { id: next, program: body, lock: LockReason::Unblocked },
                    ];
                    assert(single.first() == TaskModel {
                        id: next,
                        program: body,
                        lock: LockReason::Unblocked,
                    });
                    assert(single.drop_first() =~= Seq::<TaskModel>::empty());
                    assert(tasks_weight(single.drop_first()) == 0);
                }
                lemma_resume_task_weight(scene, rest, (next + 1) as u64, spawned2);
            },
        }
    }
}

/// A resumption keeps everything in good standing: the scene stays
/// well-formed; latches are only ever added, never changed; the surviving
/// task keeps its id, its commands stay in bounds, and its block condition
/// names a latch of the scene; the forked tasks carry consecutive fresh ids
/// from `next` on, in order, unblocked, with commands in bounds; and the
/// id/budget ledger never exceeds what went in.
#[verifier::rlimit(60)]
pub proof fn lemma_resume_task_wf(
    scene: SceneModel,
    t: TaskModel,
    next: u64,
    spawned: Seq<TaskModel>,
)
    requires
        scene.wf(),
        commands_wf(t.program),
        t.lock.valid(scene.latches),
        next as int + task_weight(t) + tasks_weight(spawned) <= u64::MAX as int,
        scene.latches.len() as int + task_weight(t) + tasks_weight(spawned) <= usize::MAX as int,
    ensures
        ({
            let r = resume_task(scene, t, next, spawned);
            &&& r.scene.wf()
            &&& r.scene.latches.len() as int + opt_task_weight(r.task) + tasks_weight(r.spawned)
                <= scene.latches.len() as int + task_weight(t) + tasks_weight(spawned)
            &&& scene.latches.len() <= r.scene.latches.len()
            &&& forall|k: int|
                0 <= k < scene.latches.len() ==> r.scene.latches[k] == scene.latches[k]
            &&& next <= r.next_task_id
            &&& r.next_task_id as int + opt_task_weight(r.task) + tasks_weight(r.spawned)
                <= next as int + task_weight(t) + tasks_weight(spawned)
            &&& (r.task matches Option::Some(t2) ==> t2.id == t.id && commands_wf(t2.program)
                && t2.lock.valid(r.scene.latches))
            &&& r.spawned.len() >= spawned.len()
            &&& forall|j: int| 0 <= j < spawned.len() ==> r.spawned[j] == spawned[j]
            &&& forall|j: int|
                spawned.len() <= j < r.spawned.len() ==> (#[trigger] r.spawned[j]).id == next + (
                j - spawned.len()) && commands_wf(r.spawned[j].program) && r.spawned[j].lock
                    == LockReason::Unblocked
            &&& r.next_task_id == next + (r.spawned.len() - spawned.len())
        }),
    decreases t.program.len(),
{
    lemma_resume_task_weight(scene, t, next, spawned);
    if t.program.len() == 0 {
    } else {
        let cmd = t.program.first();
        let rest = TaskModel { program: t.program.drop_first(), ..t };
        lemma_commands_wf(t.program);
        assert(commands_wf(rest.program)) by {
            assert(t.program.skip(1) =~= t.program.drop_first());
        }
        assert(seq_weight(t.program) == command_weight(cmd) + seq_weight(rest.program));
        match cmd {
            CommandModel::DynamicLoad { id, actor } => {
                let u = UpdateModel::AddChara { id, actor };
                crate::gamedata::scene::lemma_scene_step_wf(scene, u);
                lemma_resume_task_wf(scene_step(scene, u)->Ok_0, rest, next, spawned);
            },
            CommandModel::DynamicRemove { id } => {
                let u = UpdateModel::DelChara { id };
                crate::gamedata::scene::lemma_scene_step_wf(scene, u);
                lemma_resume_task_wf(scene_step(scene, u)->Ok_0, rest, next, spawned);
            },
            CommandModel::SetPosition { id, position } => {
                let u = UpdateModel::SetPosition { id, position };
                crate::gamedata::scene::lemma_scene_step_wf(scene, u);
                if scene_step(scene, u) is Ok {
                    lemma_resume_task_wf(scene_step(scene, u)->Ok_0, rest, next, spawned);
                }
            },
            CommandModel::WalkTo { id, destination, speed } => {
                let u = UpdateModel::WalkTo { id, destination, speed };
                crate::gamedata::scene::lemma_scene_step_wf(scene, u);
                if scene_step(scene, u) is Ok {
                    lemma_resume_task_wf(scene_step(scene, u)->Ok_0, rest, next, spawned);
                }
            },
            CommandModel::Sleep { time } => {
                assert(command_weight(cmd) == 1);
                assert(scene.latches.len() < usize::MAX);
                let l = scene.latches.len() as usize;
                assert(l == scene.latches.len());
                let lk = LockModel::Wait { latch: l, remaining: time };
                crate::command::lemma_with_fresh_latch(scene, lk);
                let s1 = crate::command::with_fresh_latch(scene);
                let u = UpdateModel::AddLock { lock: lk };
                crate::gamedata::scene::lemma_scene_step_wf(s1, u);
            },
            CommandModel::WaitMove { id } => {
                assert(command_weight(cmd) == 1);
                assert(scene.latches.len() < usize::MAX);
                let l = scene.latches.len() as usize;
                assert(l == scene.latches.len());
                let lk = LockModel::WaitMove { latch: l, chara: id };
                crate::command::lemma_with_fresh_latch(scene, lk);
                let s1 = crate::command::with_fresh_latch(scene);
                let u = UpdateModel::AddLock { lock: lk };
                crate::gamedata::scene::lemma_scene_step_wf(s1, u);
            },
            CommandModel::FadeOut { screen, duration, sleep_after } => {
                let u1 = UpdateModel::SetScreenColor {
                    screen,
                    color: Color::transparent_spec(),
                };
                crate::gamedata::scene::lemma_scene_step_wf(scene, u1);
                if scene_step(scene, u1) is Ok {
                    let m1 = scene_step(scene, u1)->Ok_0;
                    let u2 = UpdateModel::TransitionScreenColor {
                        screen,
                        duration,
                        color: Color::black_spec(),
                    };
                    crate::gamedata::scene::lemma_scene_step_wf(m1, u2);
                    let m2 = scene_step(m1, u2)->Ok_0;
                    if sleep_after {
                        assert(command_weight(cmd) == 1);
                        assert(m2.latches == scene.latches);
                        assert(m2.latches.len() < usize::MAX);
                        let l = m2.latches.len() as usize;
                        assert(l == m2.latches.len());
                        let lk = LockModel::Wait { latch: l, remaining: duration };
                        crate::command::lemma_with_fresh_latch(m2, lk);
                        let s1 = crate::command::with_fresh_latch(m2);
                        crate::gamedata::scene::lemma_scene_step_wf(
                            s1,
                            UpdateModel::AddLock { lock: lk },
                        );
                    }
                }
            },
            CommandModel::DrawFace { x, y, actor, facetype } => {
                let u = UpdateModel::SetPortrait {
                    portrait: PortraitModel { coord: (x, y), actor, facetype },
                };
                crate::gamedata::scene::lemma_scene_step_wf(scene, u);
                lemma_resume_task_wf(scene_step(scene, u)->Ok_0, rest, next, spawned);
            },
            CommandModel::RemoveFace => {
                let u = UpdateModel::RemovePortrait;
                crate::gamedata::scene::lemma_scene_step_wf(scene, u);
                lemma_resume_task_wf(scene_step(scene, u)->Ok_0, rest, next, spawned);
            },
            CommandModel::Fork { body } => {
                let new_task = TaskModel { id: next, program: body, lock: LockReason::Unblocked };
                let spawned2 = spawned.push(new_task);
                lemma_tasks_weight_append(spawned, seq![new_task]);
                assert(spawned2 =~= spawned + seq![new_task]);
                assert(tasks_weight(seq![new_task]) == 1 + seq_weight(body)) by {
                    let single = seq![new_task];
                    assert(single.first() == new_task);
                    assert(single.drop_first() =~= Seq::<TaskModel>::empty());
                    assert(tasks_weight(single.drop_first()) == 0);
                }
                assert(command_weight(cmd) == 2 + seq_weight(body));
                assert(t.program[0] == cmd);
                assert(command_wf(cmd));
                assert(next + 1 <= u64::MAX);
                let next2 = (next + 1) as u64;
                assert(next2 == next + 1);
                lemma_resume_task_wf(scene, rest, next2, spawned2);
                let r = resume_task(scene, t, next, spawned);
                assert(r == resume_task(scene, rest, next2, spawned2));
                assert forall|j: int| 0 <= j < spawned.len() implies r.spawned[j] == spawned[j] by {
                    assert(r.spawned[j] == spawned2[j]);
                }
                assert forall|j: int|
                    spawned.len() <= j < r.spawned.len() implies (#[trigger] r.spawned[j]).id
                    == next + (j - spawned.len()) && commands_wf(r.spawned[j].program)
                    && r.spawned[j].lock == LockReason::Unblocked by {
                    if j == spawned.len() {
                        assert(r.spawned[j] == spawned2[j]);
                        assert(spawned2[j] == new_task);
                    } else {
                        assert(r.spawned[j].id == next2 + (j - spawned2.len()));
                    }
                }
            },
        }
    }
}

/// The task scheduler: the registry of cooperative tasks, each with the
/// commands it has not run yet and its current block condition, plus the
/// monotonically increasing id source.
#[derive(Debug)]
pub struct Scheduler {
    pub next_task_id: u64,
    pub tasks: Vec<Task>,
}

/// Mathematical image of a [`Scheduler`].
#[verifier::ext_equal]
pub struct SchedModel {
    pub next_task_id: u64,
    pub tasks: Seq<TaskModel>,
}

impl View for Scheduler {
    type V = SchedModel;

    open spec fn view(&self) -> SchedModel {
        SchedModel { next_task_id: self.next_task_id, tasks: tasks_view(self.tasks@) }
    }
}

/// Tasks in good standing: commands in bounds, ids strictly increasing in
/// creation order and all below the next free id.
pub open spec fn tasks_wf(ts: Seq<TaskModel>, next: u64) -> bool {
    &&& forall|i: int| 0 <= i < ts.len() ==> commands_wf((#[trigger] ts[i]).program)
    &&& forall|i: int, j: int| 0 <= i < j < ts.len() ==> ts[i].id < ts[j].id
    &&& forall|i: int| 0 <= i < ts.len() ==> (#[trigger] ts[i]).id < next
}

impl SchedModel {
    /// The scheduler invariant: tasks in good standing, and enough id space
    /// left for every strand the remaining commands could ever fork.
    pub open spec fn wf(self) -> bool {
        &&& tasks_wf(self.tasks, self.next_task_id)
        &&& self.next_task_id as int + tasks_weight(self.tasks) <= u64::MAX as int
    }

    /// Every block condition names a latch that exists in the store.
    pub open spec fn valid_for(self, latches: Seq<bool>) -> bool {
        forall|i: int|
            0 <= i < self.tasks.len() ==> (#[trigger] self.tasks[i]).lock.valid(latches)
    }
}

/// Enough latch space left for every latch the remaining commands could
/// ever create.
pub open spec fn latch_budget_ok(scene: SceneModel, sched: SchedModel) -> bool {
    scene.latches.len() as int + tasks_weight(sched.tasks) <= usize::MAX as int
}

/// The index of the first task with this id, or the length of the sequence
/// when no task carries it.
pub open spec fn find_task(ts: Seq<TaskModel>, id: u64) -> int
    decreases ts.len(),
{
    if ts.len() == 0 {
        0
    } else if ts.first().id == id {
        0
    } else {
        1 + find_task(ts.drop_first(), id)
    }
}

/// What [`find_task`] returns: an index within the sequence pointing at the
/// first task with the id, or the length when there is none.
pub proof fn lemma_find_task(ts: Seq<TaskModel>, id: u64)
    ensures
        0 <= find_task(ts, id) <= ts.len(),
        find_task(ts, id) < ts.len() ==> ts[find_task(ts, id)].id == id,
        forall|j: int| 0 <= j < find_task(ts, id) ==> (#[trigger] ts[j]).id != id,
        find_task(ts, id) == ts.len() ==> forall|j: int|
            0 <= j < ts.len() ==> (#[trigger] ts[j]).id != id,
    decreases ts.len(),
{
    if ts.len() == 0 {
    } else if ts.first().id == id {
    } else {
        lemma_find_task(ts.drop_first(), id);
        assert forall|j: int| 0 <= j < find_task(ts, id) implies (#[trigger] ts[j]).id != id by {
            if j > 0 {
                assert(ts.drop_first()[j - 1] == ts[j]);
            }
        }
    }
}

/// The ids of the tasks from index `i` on whose block condition currently
/// holds, in task order — which is ascending id order for a well-formed
/// scheduler.
pub open spec fn runnable_from(ts: Seq<TaskModel>, i: int, latches: Seq<bool>) -> Seq<u64>
    decreases ts.len() - i,
{
    if i < 0 || i >= ts.len() {
        Seq::empty()
    } else {
        let rest = runnable_from(ts, i + 1, latches);
        if ts[i].lock.can_continue_spec(latches) {
            seq![ts[i].id] + rest
        } else {
            rest
        }
    }
}

/// The set of tasks that may run this round: those whose block condition
/// currently evaluates true, re-checked from the latches themselves.
pub open spec fn runnable_ids(ts: Seq<TaskModel>, latches: Seq<bool>) -> Seq<u64> {
    runnable_from(ts, 0, latches)
}

/// The id of a task that is in the registry is found in the registry.
pub proof fn lemma_find_task_present(ts: Seq<TaskModel>, k: int)
    requires
        0 <= k < ts.len(),
    ensures
        find_task(ts, ts[k].id) < ts.len(),
    decreases ts.len(),
{
    if ts.first().id == ts[k].id {
    } else {
        assert(ts.drop_first()[k - 1] == ts[k]);
        lemma_find_task_present(ts.drop_first(), k - 1);
    }
}

/// Every listed id is found in the registry, and an empty list means no
/// task can run.
pub proof fn lemma_runnable_from(ts: Seq<TaskModel>, i: int, latches: Seq<bool>)
    requires
        0 <= i,
    ensures
        forall|j: int|
            0 <= j < runnable_from(ts, i, latches).len() ==> find_task(
                ts,
                #[trigger] runnable_from(ts, i, latches)[j],
            ) < ts.len(),
        runnable_from(ts, i, latches).len() == 0 ==> forall|k: int|
            i <= k < ts.len() ==> !(#[trigger] ts[k]).lock.can_continue_spec(latches),
    decreases ts.len() - i,
{
    if i < 0 || i >= ts.len() {
    } else {
        lemma_runnable_from(ts, i + 1, latches);
        let whole = runnable_from(ts, i, latches);
        let rest = runnable_from(ts, i + 1, latches);
        if ts[i].lock.can_continue_spec(latches) {
            assert forall|j: int| 0 <= j < whole.len() implies find_task(
                ts,
                #[trigger] whole[j],
            ) < ts.len() by {
                if j == 0 {
                    assert(whole[0] == ts[i].id);
                    lemma_find_task_present(ts, i);
                } else {
                    assert(whole[j] == rest[j - 1]);
                    assert(find_task(ts, rest[j - 1]) < ts.len());
                }
            }
        } else {
            assert(whole == rest);
            assert forall|j: int| 0 <= j < whole.len() implies find_task(
                ts,
                #[trigger] whole[j],
            ) < ts.len() by {
                assert(whole[j] == rest[j]);
                assert(find_task(ts, rest[j]) < ts.len());
            }
        }
    }
}

/// The scene and scheduler after part of a round, and the fault that
/// aborted it, if one did.
pub struct StepRes {
    pub scene: SceneModel,
    pub sched: SchedModel,
    pub fault: Option<ApplyError>,
}

/// The remainder of one round from position `k` of the id snapshot: resume
/// each listed task exactly once, in order; a finished task leaves the
/// registry, a blocked one keeps its place, forked tasks join at the end;
/// the first fault aborts the round — and with it the cycle — on the spot.
/// An id no longer present is skipped.
pub open spec fn run_ids(scene: SceneModel, sched: SchedModel, ids: Seq<u64>, k: int) -> StepRes
    decreases ids.len() - k,
{
    if k < 0 || k >= ids.len() {
        StepRes { scene, sched, fault: Option::None }
    } else {
        let f = find_task(sched.tasks, ids[k]);
        if f >= sched.tasks.len() {
            run_ids(scene, sched, ids, k + 1)
        } else {
            let r = resume_task(scene, sched.tasks[f], sched.next_task_id, Seq::empty());
            let tasks2 = match r.task {
                Option::Some(t2) => sched.tasks.update(f, t2),
                Option::None => sched.tasks.remove(f),
            };
            let sched2 = SchedModel { next_task_id: r.next_task_id, tasks: tasks2 + r.spawned };
            match r.fault {
                Option::Some(e) => StepRes { scene: r.scene, sched: sched2, fault: Option::Some(e) },
                Option::None => run_ids(r.scene, sched2, ids, k + 1),
            }
        }
    }
}

/// The scheduler and scene after one task of the round, as [`run_ids`]
/// builds them.
pub open spec fn apply_resume(scene: SceneModel, sched: SchedModel, f: int) -> (SceneModel, SchedModel) {
    let r = resume_task(scene, sched.tasks[f], sched.next_task_id, Seq::empty());
    let tasks2 = match r.task {
        Option::Some(t2) => sched.tasks.update(f, t2),
        Option::None => sched.tasks.remove(f),
    };
    (r.scene, SchedModel { next_task_id: r.next_task_id, tasks: tasks2 + r.spawned })
}

/// One resumption, applied to the registry, keeps everything in good
/// standing and strictly spends budget.
pub proof fn lemma_apply_resume(scene: SceneModel, sched: SchedModel, f: int)
    requires
        scene.wf(),
        sched.wf(),
        sched.valid_for(scene.latches),
        latch_budget_ok(scene, sched),
        0 <= f < sched.tasks.len(),
    ensures
        ({
            let (scene2, sched2) = apply_resume(scene, sched, f);
            &&& scene2.wf()
            &&& sched2.wf()
            &&& sched2.valid_for(scene2.latches)
            &&& latch_budget_ok(scene2, sched2)
            &&& tasks_weight(sched2.tasks) < tasks_weight(sched.tasks)
            &&& scene.latches.len() <= scene2.latches.len()
            &&& forall|k: int|
                0 <= k < scene.latches.len() ==> scene2.latches[k] == scene.latches[k]
        }),
{
    let t = sched.tasks[f];
    let next = sched.next_task_id;
    lemma_tasks_weight_index(sched.tasks, f);
    lemma_resume_task_wf(scene, t, next, Seq::empty());
    lemma_resume_task_weight(scene, t, next, Seq::empty());
    let r = resume_task(scene, t, next, Seq::empty());
    let tasks2 = match r.task {
        Option::Some(t2) => sched.tasks.update(f, t2),
        Option::None => sched.tasks.remove(f),
    };
    match r.task {
        Option::Some(t2) => {
            lemma_tasks_weight_update(sched.tasks, f, t2);
        },
        Option::None => {
            lemma_tasks_weight_remove(sched.tasks, f);
        },
    }
    lemma_tasks_weight_append(tasks2, r.spawned);
    let all = tasks2 + r.spawned;
    let sched2 = SchedModel { next_task_id: r.next_task_id, tasks: all };
    // every task of the new registry is in bounds, sorted, and below the
    // new id ceiling; its lock names a latch of the extended store
    assert forall|i: int| 0 <= i < all.len() implies commands_wf((#[trigger] all[i]).program)
        && all[i].id < sched2.next_task_id && all[i].lock.valid(r.scene.latches) by {
        if i < tasks2.len() {
            assert(all[i] == tasks2[i]);
            if r.task is Some && i == f {
            } else {
                let orig: int = if r.task is Some || i < f {
                    i
                } else {
                    i + 1
                };
                assert(tasks2[i] == sched.tasks[orig]);
                assert(sched.tasks[orig].lock.valid(scene.latches));
            }
        } else {
            assert(all[i] == r.spawned[i - tasks2.len()]);
        }
    }
    assert forall|i: int, j: int| 0 <= i < j < all.len() implies all[i].id < all[j].id by {
        let oi: int = if i < tasks2.len() && (r.task is Some || i < f) {
            i
        } else if i < tasks2.len() {
            i + 1
        } else {
            -1
        };
        let oj: int = if j < tasks2.len() && (r.task is Some || j < f) {
            j
        } else if j < tasks2.len() {
            j + 1
        } else {
            -1
        };
        if i < tasks2.len() {
            assert(all[i] == tasks2[i]);
            assert(tasks2[i].id == sched.tasks[oi].id);
        } else {
            assert(all[i] == r.spawned[i - tasks2.len()]);
        }
        if j < tasks2.len() {
            assert(all[j] == tasks2[j]);
            assert(tasks2[j].id == sched.tasks[oj].id);
        } else {
            assert(all[j] == r.spawned[j - tasks2.len()]);
        }
    }
}

/// A partial round never gains budget, and spends some as soon as the next
/// listed id is still present.
pub proof fn lemma_run_ids_weight(scene: SceneModel, sched: SchedModel, ids: Seq<u64>, k: int)
    ensures
        ({
            let r = run_ids(scene, sched, ids, k);
            &&& tasks_weight(r.sched.tasks) <= tasks_weight(sched.tasks)
            &&& (0 <= k < ids.len() && find_task(sched.tasks, ids[k]) < sched.tasks.len()
                ==> tasks_weight(r.sched.tasks) < tasks_weight(sched.tasks))
        }),
    decreases ids.len() - k,
{
    if k < 0 || k >= ids.len() {
    } else {
        let f = find_task(sched.tasks, ids[k]);
        lemma_find_task(sched.tasks, ids[k]);
        if f >= sched.tasks.len() {
            lemma_run_ids_weight(scene, sched, ids, k + 1);
        } else {
            let t = sched.tasks[f];
            let next = sched.next_task_id;
            lemma_resume_task_weight(scene, t, next, Seq::empty());
            let r = resume_task(scene, t, next, Seq::empty());
            let tasks2 = match r.task {
                Option::Some(t2) => sched.tasks.update(f, t2),
                Option::None => sched.tasks.remove(f),
            };
            match r.task {
                Option::Some(t2) => {
                    lemma_tasks_weight_update(sched.tasks, f, t2);
                },
                Option::None => {
                    lemma_tasks_weight_remove(sched.tasks, f);
                },
            }
            lemma_tasks_weight_append(tasks2, r.spawned);
            let sched2 = SchedModel { next_task_id: r.next_task_id, tasks: tasks2 + r.spawned };
            if r.fault is None {
                lemma_run_ids_weight(r.scene, sched2, ids, k + 1);
            }
        }
    }
}

/// A partial round keeps everything in good standing.
pub proof fn lemma_run_ids_wf(scene: SceneModel, sched: SchedModel, ids: Seq<u64>, k: int)
    requires
        scene.wf(),
        sched.wf(),
        sched.valid_for(scene.latches),
        latch_budget_ok(scene, sched),
    ensures
        ({
            let r = run_ids(scene, sched, ids, k);
            &&& r.scene.wf()
            &&& r.sched.wf()
            &&& r.sched.valid_for(r.scene.latches)
            &&& latch_budget_ok(r.scene, r.sched)
            &&& scene.latches.len() <= r.scene.latches.len()
            &&& forall|j: int|
                0 <= j < scene.latches.len() ==> r.scene.latches[j] == scene.latches[j]
        }),
    decreases ids.len() - k,
{
    if k < 0 || k >= ids.len() {
    } else {
        let f = find_task(sched.tasks, ids[k]);
        lemma_find_task(sched.tasks, ids[k]);
        if f >= sched.tasks.len() {
            lemma_run_ids_wf(scene, sched, ids, k + 1);
        } else {
            lemma_apply_resume(scene, sched, f);
            let r = resume_task(scene, sched.tasks[f], sched.next_task_id, Seq::empty());
            let (scene2, sched2) = apply_resume(scene, sched, f);
            if r.fault is None {
                lemma_run_ids_wf(scene2, sched2, ids, k + 1);
            }
        }
    }
}

/// The whole cycle's scheduling: rounds until no task is runnable — the
/// fixpoint — or until a fault aborts the cycle. Termination is by the
/// total budget of the live tasks, which every round strictly spends.
pub open spec fn run_to_fixpoint_spec(scene: SceneModel, sched: SchedModel) -> StepRes
    decreases tasks_weight(sched.tasks)
        via run_to_fixpoint_spec_decreases
{
    let ids = runnable_ids(sched.tasks, scene.latches);
    if ids.len() == 0 {
        StepRes { scene, sched, fault: Option::None }
    } else {
        let r = run_ids(scene, sched, ids, 0);
        if r.fault is Some {
            r
        } else {
            run_to_fixpoint_spec(r.scene, r.sched)
        }
    }
}

#[via_fn]
proof fn run_to_fixpoint_spec_decreases(scene: SceneModel, sched: SchedModel) {
    let ids = runnable_ids(sched.tasks, scene.latches);
    if ids.len() > 0 {
        lemma_runnable_from(sched.tasks, 0, scene.latches);
        assert(find_task(sched.tasks, ids[0]) < sched.tasks.len());
        lemma_run_ids_weight(scene, sched, ids, 0);
    }
}

/// The image of a finished-or-surviving task.
pub open spec fn opt_task_view(o: Option<Task>) -> Option<TaskModel> {
    match o {
        Option::None => Option::None,
        Option::Some(t) => Option::Some(t@),
    }
}

/// What one executed resumption hands back to the round: the surviving
/// task, the tasks it forked, the next free id, and the fault, if any.
pub struct TaskRun {
    pub task: Option<Task>,
    pub spawned: Vec<Task>,
    pub next: u64,
    pub fault: Option<ApplyError>,
}

/// Run one task until it blocks, finishes or faults, exactly as
/// [`resume_task`] says.
/// Run one task until it blocks, finishes or faults, exactly as
/// [`resume_task`] says. `spawned` carries the tasks forked so far.
#[verifier::rlimit(100)]
fn run_task_from(scene: &mut Scene, task: Task, nid: u64, spawned: Vec<Task>) -> (r: TaskRun)
    requires
        old(scene)@.wf(),
        commands_wf(task@.program),
        nid as int + task_weight(task@) + tasks_weight(tasks_view(spawned@)) <= u64::MAX as int,
        old(scene)@.latches.len() as int + task_weight(task@) <= usize::MAX as int,
    ensures
        ({
            let spec = resume_task(old(scene)@, task@, nid, tasks_view(spawned@));
            &&& final(scene)@ == spec.scene
            &&& opt_task_view(r.task) == spec.task
            &&& tasks_view(r.spawned@) == spec.spawned
            &&& r.next == spec.next_task_id
            &&& r.fault == spec.fault
        }),
    decreases task.program@.len(),
{
    let mut cur = task;
    proof {
        lemma_commands_model(cur.program@);
    }
    if cur.program.len() == 0 {
        return TaskRun { task: Option::None, spawned, next: nid, fault: Option::None };
    }
    let ghost prevvec = cur.program@;
    let ghost prevprog = commands_model(prevvec);
    let cmd = cur.program.remove(0);
    proof {
        lemma_commands_model(prevvec);
        lemma_commands_model(cur.program@);
        assert forall|i: int| 0 <= i < cur.program@.len() implies commands_model(
            cur.program@,
        )[i] == prevprog.drop_first()[i] by {
            assert(cur.program@[i] == prevvec[i + 1]);
            assert(commands_model(cur.program@)[i] == command_model(cur.program@[i]));
            assert(prevprog[i + 1] == command_model(prevvec[i + 1]));
        }
        assert(commands_model(cur.program@) =~= prevprog.drop_first());
        assert(cmd == prevvec[0]);
        assert(command_model(cmd) == prevprog.first());
        lemma_commands_wf(prevprog);
        assert(prevprog.skip(1) =~= prevprog.drop_first());
        assert(commands_wf(cur@.program));
        assert(command_wf(command_model(cmd)));
        assert(seq_weight(prevprog) == command_weight(prevprog.first()) + seq_weight(
            cur@.program,
        ));
    }
    match cmd {
        Command::DynamicLoad(id, actor) => {
            crate::command::dynamic_load(scene, id, actor);
            run_task_from(scene, cur, nid, spawned)
        },
        Command::DynamicRemove(id) => {
            crate::command::dynamic_remove(scene, id);
            run_task_from(scene, cur, nid, spawned)
        },
        Command::SetPosition(id, position) => {
            match crate::command::set_position(scene, id, position) {
                Result::Ok(_) => run_task_from(scene, cur, nid, spawned),
                Result::Err(e) => TaskRun {
                    task: Option::Some(cur),
                    spawned,
                    next: nid,
                    fault: Option::Some(e),
                },
            }
        },
        Command::WalkTo(id, destination, speed) => {
            match crate::command::walk_to(scene, id, destination, speed) {
                Result::Ok(_) => run_task_from(scene, cur, nid, spawned),
                Result::Err(e) => TaskRun {
                    task: Option::Some(cur),
                    spawned,
                    next: nid,
                    fault: Option::Some(e),
                },
            }
        },
        Command::Sleep(time) => {
            let y = crate::command::sleep(scene, time);
            cur.lock = y.lock;
            TaskRun { task: Option::Some(cur), spawned, next: nid, fault: Option::None }
        },
        Command::WaitMove(id) => {
            let y = crate::command::wait_move(scene, id);
            cur.lock = y.lock;
            TaskRun { task: Option::Some(cur), spawned, next: nid, fault: Option::None }
        },
        Command::FadeOut(screen, duration, sleep_after) => {
            match crate::command::fade_out(scene, screen, duration, sleep_after) {
                Result::Ok(y) => {
                    cur.lock = y.lock;
                    TaskRun { task: Option::Some(cur), spawned, next: nid, fault: Option::None }
                },
                Result::Err(e) => TaskRun {
                    task: Option::Some(cur),
                    spawned,
                    next: nid,
                    fault: Option::Some(e),
                },
            }
        },
        Command::DrawFace(x, y, actor, facetype) => {
            crate::command::draw_face(scene, x, y, actor, facetype);
            run_task_from(scene, cur, nid, spawned)
        },
        Command::RemoveFace => {
            crate::command::remove_face(scene);
            run_task_from(scene, cur, nid, spawned)
        },
        Command::Fork(body) => {
            proof {
                assert(command_weight(command_model(cmd)) == 2 + seq_weight(
                    commands_model(body@),
                ));
            }
            let ghost spawned_pre = tasks_view(spawned@);
            let new_task = Task { id: nid, program: body, lock: LockReason::Unblocked };
            let ghost new_model = new_task@;
            let mut spawned2 = spawned;
            spawned2.push(new_task);
            proof {
                assert(tasks_view(spawned2@) =~= spawned_pre.push(new_model));
                lemma_tasks_weight_append(spawned_pre, seq![new_model]);
                assert(tasks_view(spawned2@) =~= spawned_pre + seq![new_model]);
                assert(tasks_weight(seq![new_model]) == task_weight(new_model)) by {
                    assert(seq![new_model].first() == new_model);
                    assert(seq![new_model].drop_first() =~= Seq::<TaskModel>::empty());
                    assert(tasks_weight(seq![new_model].drop_first()) == 0);
                }
            }
            run_task_from(scene, cur, nid + 1, spawned2)
        },
    }
}

/// Run one task from scratch, as [`resume_task`] with nothing yet spawned.
fn run_task(scene: &mut Scene, task: Task, next: u64) -> (r: TaskRun)
    requires
        old(scene)@.wf(),
        commands_wf(task@.program),
        next as int + task_weight(task@) <= u64::MAX as int,
        old(scene)@.latches.len() as int + task_weight(task@) <= usize::MAX as int,
    ensures
        ({
            let spec = resume_task(old(scene)@, task@, next, Seq::empty());
            &&& final(scene)@ == spec.scene
            &&& opt_task_view(r.task) == spec.task
            &&& tasks_view(r.spawned@) == spec.spawned
            &&& r.next == spec.next_task_id
            &&& r.fault == spec.fault
        }),
{
    let spawned: Vec<Task> = Vec::new();
    proof {
        assert(tasks_view(spawned@) =~= Seq::<TaskModel>::empty());
    }
    run_task_from(scene, task, next, spawned)
}

impl Scheduler {
    /// A scheduler with no task yet.
    pub fn new() -> (s: Scheduler)
        ensures
            s@ == (SchedModel { next_task_id: 0, tasks: Seq::<TaskModel>::empty() }),
            s@.wf(),
    {
        let s = Scheduler { next_task_id: 0, tasks: Vec::new() };
        proof {
            assert(tasks_view(s.tasks@) =~= Seq::<TaskModel>::empty());
            assert(s@ =~= (SchedModel { next_task_id: 0, tasks: Seq::<TaskModel>::empty() }));
        }
        s
    }

    /// Register a new task in runnable state, running the given commands;
    /// its id is returned. A task spawned while a round is in progress is
    /// not resumed before the next round, so it cannot run before the
    /// statement that created it completes.
    pub fn add_running_thread(&mut self, program: Vec<Command>) -> (id: u64)
        requires
            old(self)@.wf(),
            commands_wf(commands_model(program@)),
            old(self)@.next_task_id as int + tasks_weight(old(self)@.tasks) + 2 + seq_weight(
                commands_model(program@),
            ) <= u64::MAX as int,
        ensures
            id == old(self)@.next_task_id,
            final(self)@ == (SchedModel {
                next_task_id: (old(self)@.next_task_id + 1) as u64,
                tasks: old(self)@.tasks.push(
                    TaskModel {
                        id: old(self)@.next_task_id,
                        program: commands_model(program@),
                        lock: LockReason::Unblocked,
                    },
                ),
            }),
            final(self)@.wf(),
    {
        let ghost ts0 = self@.tasks;
        let id = self.next_task_id;
        let task = Task { id, program, lock: LockReason::Unblocked };
        let ghost tm = task@;
        self.tasks.push(task);
        self.next_task_id = id + 1;
        proof {
            assert(tasks_view(self.tasks@) =~= ts0.push(tm));
            lemma_tasks_weight_append(ts0, seq![tm]);
            assert(ts0.push(tm) =~= ts0 + seq![tm]);
            assert(tasks_weight(seq![tm]) == task_weight(tm)) by {
                assert(seq![tm].first() == tm);
                assert(seq![tm].drop_first() =~= Seq::<TaskModel>::empty());
                assert(tasks_weight(seq![tm].drop_first()) == 0);
            }
            assert(self@ =~= (SchedModel { next_task_id: (id + 1) as u64, tasks: ts0.push(tm) }));
            let ts2 = ts0.push(tm);
            assert forall|i: int, j: int| 0 <= i < j < ts2.len() implies ts2[i].id < ts2[j].id by {
                assert(ts2[i] == ts0[i]);
                if j < ts0.len() {
                    assert(ts2[j] == ts0[j]);
                } else {
                    assert(ts2[j] == tm);
                }
            }
            assert forall|i: int| 0 <= i < ts2.len() implies commands_wf(
                (#[trigger] ts2[i]).program,
            ) && ts2[i].id < (id + 1) as u64 by {
                if i < ts0.len() {
                    assert(ts2[i] == ts0[i]);
                } else {
                    assert(ts2[i] == tm);
                }
            }
        }
        id
    }

    /// Record the block condition a resumed task yielded with.
    pub fn set_running_thread_lock(&mut self, id: u64, reason: LockReason)
        ensures
            ({
                let f = find_task(old(self)@.tasks, id);
                if f < old(self)@.tasks.len() {
                    final(self)@ == (SchedModel {
                        tasks: old(self)@.tasks.update(
                            f,
                            TaskModel { lock: reason, ..old(self)@.tasks[f] },
                        ),
                        ..old(self)@
                    })
                } else {
                    final(self)@ == old(self)@
                }
            }),
    {
        let ghost ts0 = self@.tasks;
        let f = self.find_task_index(id);
        if f < self.tasks.len() {
            let t = &mut self.tasks[f];
            t.lock = reason;
            proof {
                assert(tasks_view(self.tasks@) =~= ts0.update(
                    f as int,
                    TaskModel { lock: reason, ..ts0[f as int] },
                ));
                assert(self@ =~= (SchedModel {
                    tasks: ts0.update(f as int, TaskModel { lock: reason, ..ts0[f as int] }),
                    ..old(self)@
                }));
            }
        } else {
            proof {
                assert(self@ =~= old(self)@);
            }
        }
    }

    /// Remove a finished task from the registry.
    pub fn delete_running_thread(&mut self, id: u64)
        ensures
            ({
                let f = find_task(old(self)@.tasks, id);
                if f < old(self)@.tasks.len() {
                    final(self)@ == (SchedModel {
                        tasks: old(self)@.tasks.remove(f),
                        ..old(self)@
                    })
                } else {
                    final(self)@ == old(self)@
                }
            }),
    {
        let ghost ts0 = self@.tasks;
        let f = self.find_task_index(id);
        if f < self.tasks.len() {
            self.tasks.remove(f);
            proof {
                assert(tasks_view(self.tasks@) =~= ts0.remove(f as int));
                assert(self@ =~= (SchedModel { tasks: ts0.remove(f as int), ..old(self)@ }));
            }
        } else {
            proof {
                assert(self@ =~= old(self)@);
            }
        }
    }

    /// The position of the task with this id, or the number of tasks when
    /// there is none.
    fn find_task_index(&self, id: u64) -> (f: usize)
        ensures
            f as int == find_task(self@.tasks, id),
    {
        proof {
            lemma_find_task(self@.tasks, id);
        }
        let n = self.tasks.len();
        let mut i: usize = 0;
        while i < n
            invariant
                n == self.tasks@.len(),
                0 <= i <= n,
                forall|j: int| 0 <= j < i ==> (#[trigger] tasks_view(self.tasks@)[j]).id != id,
            decreases n - i,
        {
            if self.tasks[i].id == id {
                proof {
                    let ts = self@.tasks;
                    let fs = find_task(ts, id);
                    lemma_find_task(ts, id);
                    assert(ts[i as int] == self.tasks@[i as int]@);
                    assert(ts[i as int].id == id);
                    if fs < i {
                        assert(tasks_view(self.tasks@)[fs].id != id);
                    }
                }
                return i;
            }
            i += 1;
        }
        proof {
            let ts = self@.tasks;
            let fs = find_task(ts, id);
            lemma_find_task(ts, id);
            if fs < ts.len() {
                assert(tasks_view(self.tasks@)[fs].id != id);
            }
        }
        n
    }

    /// The ids of the tasks whose block condition currently evaluates true,
    /// in registry order — ascending id order for a well-formed scheduler.
    /// The check reads the latches themselves; nothing is cached.
    pub fn list_run_possibility(&self, latches: &LatchStore) -> (ids: Vec<u64>)
        requires
            self@.valid_for(latches@),
        ensures
            ids@ == runnable_ids(self@.tasks, latches@),
    {
        let mut ids: Vec<u64> = Vec::new();
        let n = self.tasks.len();
        let mut i: usize = 0;
        while i < n
            invariant
                n == self.tasks@.len(),
                0 <= i <= n,
                self@.valid_for(latches@),
                runnable_from(self@.tasks, 0, latches@) == ids@ + runnable_from(
                    self@.tasks,
                    i as int,
                    latches@,
                ),
            decreases n - i,
        {
            let ghost ids_pre = ids@;
            proof {
                assert(self@.tasks[i as int].lock.valid(latches@));
                assert(self.tasks@[i as int]@ == self@.tasks[i as int]);
            }
            if self.tasks[i].lock.can_continue(latches) {
                ids.push(self.tasks[i].id);
                proof {
                    assert(ids@ =~= ids_pre.push(self@.tasks[i as int].id));
                    assert(ids_pre + (seq![self@.tasks[i as int].id] + runnable_from(
                        self@.tasks,
                        i + 1,
                        latches@,
                    )) =~= ids@ + runnable_from(self@.tasks, i + 1, latches@));
                }
            }
            i += 1;
        }
        proof {
            assert(ids@ + runnable_from(self@.tasks, n as int, latches@) =~= ids@);
        }
        ids
    }

    /// Resume the task with this id once: run its computation until it
    /// yields a new block condition, finishes, or faults, and record the
    /// outcome. An id no longer in the registry is skipped. A fault is
    /// passed up, fatal for the cycle.
    pub fn continue_running_thread(&mut self, scene: &mut Scene, id: u64) -> (r: Result<
        (),
        ApplyError,
    >)
        requires
            old(scene)@.wf(),
            old(self)@.wf(),
            old(self)@.valid_for(old(scene)@.latches),
            latch_budget_ok(old(scene)@, old(self)@),
        ensures
            ({
                let f = find_task(old(self)@.tasks, id);
                &&& (f == old(self)@.tasks.len() ==> final(self)@ == old(self)@ && final(scene)@
                    == old(scene)@ && r is Ok)
                &&& (f < old(self)@.tasks.len() ==> {
                    let res = resume_task(
                        old(scene)@,
                        old(self)@.tasks[f],
                        old(self)@.next_task_id,
                        Seq::empty(),
                    );
                    let applied = apply_resume(old(scene)@, old(self)@, f);
                    &&& final(scene)@ == applied.0
                    &&& final(self)@ == applied.1
                    &&& (res.fault is None ==> r is Ok)
                    &&& (res.fault matches Option::Some(e) ==> r == Result::<(), ApplyError>::Err(
                        e,
                    ))
                    &&& tasks_weight(final(self)@.tasks) < tasks_weight(old(self)@.tasks)
                })
                &&& final(scene)@.wf()
                &&& final(self)@.wf()
                &&& final(self)@.valid_for(final(scene)@.latches)
                &&& latch_budget_ok(final(scene)@, final(self)@)
                &&& tasks_weight(final(self)@.tasks) <= tasks_weight(old(self)@.tasks)
                &&& old(scene)@.latches.len() <= final(scene)@.latches.len()
                &&& forall|k: int|
                    0 <= k < old(scene)@.latches.len() ==> final(scene)@.latches[k] == old(
                        scene,
                    )@.latches[k]
            }),
    {
        let ghost sch0 = self@;
        let ghost s0 = scene@;
        let f = self.find_task_index(id);
        if f == self.tasks.len() {
            return Result::Ok(());
        }
        proof {
            lemma_find_task(sch0.tasks, id);
            lemma_tasks_weight_index(sch0.tasks, f as int);
            lemma_apply_resume(s0, sch0, f as int);
        }
        let task = self.tasks.remove(f);
        let run = crate::sched::run_task(scene, task, self.next_task_id);
        let ghost res = resume_task(s0, sch0.tasks[f as int], sch0.next_task_id, Seq::empty());
        let mut run_spawned = run.spawned;
        match run.task {
            Option::Some(t2) => {
                self.tasks.insert(f, t2);
                proof {
                    assert(tasks_view(self.tasks@) =~= sch0.tasks.update(
                        f as int,
                        res.task->Some_0,
                    ));
                }
            },
            Option::None => {
                proof {
                    assert(tasks_view(self.tasks@) =~= sch0.tasks.remove(f as int));
                }
            },
        }
        let ghost mid_tasks = tasks_view(self.tasks@);
        self.tasks.append(&mut run_spawned);
        self.next_task_id = run.next;
        proof {
            assert(tasks_view(self.tasks@) =~= mid_tasks + res.spawned);
            assert(self@ =~= apply_resume(s0, sch0, f as int).1);
        }
        match run.fault {
            Option::Some(e) => Result::Err(e),
            Option::None => Result::Ok(()),
        }
    }

    /// One scheduling round: snapshot the set of runnable tasks, then
    /// resume each exactly once, in ascending id order. Returns whether any
    /// task was resumed — `false` means the fixpoint is reached — or the
    /// first fault.
    #[verifier::rlimit(100)]
    pub fn step(&mut self, scene: &mut Scene) -> (r: Result<bool, ApplyError>)
        requires
            old(scene)@.wf(),
            old(self)@.wf(),
            old(self)@.valid_for(old(scene)@.latches),
            latch_budget_ok(old(scene)@, old(self)@),
        ensures
            ({
                let ids = runnable_ids(old(self)@.tasks, old(scene)@.latches);
                let res = run_ids(old(scene)@, old(self)@, ids, 0);
                &&& (ids.len() == 0 ==> r == Result::<bool, ApplyError>::Ok(false)
                    && final(self)@ == old(self)@ && final(scene)@ == old(scene)@)
                &&& (ids.len() > 0 ==> final(scene)@ == res.scene && final(self)@ == res.sched
                    && (res.fault is None ==> r == Result::<bool, ApplyError>::Ok(true)
                    && tasks_weight(final(self)@.tasks) < tasks_weight(old(self)@.tasks)) && (
                res.fault matches Option::Some(e) ==> r == Result::<bool, ApplyError>::Err(e)))
                &&& final(scene)@.wf()
                &&& final(self)@.wf()
                &&& final(self)@.valid_for(final(scene)@.latches)
                &&& latch_budget_ok(final(scene)@, final(self)@)
            }),
    {
        let ghost s0 = scene@;
        let ghost sch0 = self@;
        let ids = self.list_run_possibility(&scene.latches);
        if ids.len() == 0 {
            return Result::Ok(false);
        }
        let n = ids.len();
        let mut k: usize = 0;
        while k < n
            invariant
                n == ids@.len(),
                0 < n,
                0 <= k <= n,
                s0 == old(scene)@,
                sch0 == old(self)@,
                ids@ == runnable_ids(sch0.tasks, s0.latches),
                scene@.wf(),
                self@.wf(),
                self@.valid_for(scene@.latches),
                latch_budget_ok(scene@, self@),
                run_ids(s0, sch0, ids@, 0) == run_ids(scene@, self@, ids@, k as int),
                tasks_weight(self@.tasks) <= tasks_weight(sch0.tasks),
            decreases n - k,
        {
            let ghost sc_pre = scene@;
            let ghost sch_pre = self@;
            proof {
                lemma_find_task(self@.tasks, ids@[k as int]);
            }
            match self.continue_running_thread(scene, ids[k]) {
                Result::Ok(_) => {
                    proof {
                        let f = find_task(sch_pre.tasks, ids@[k as int]);
                        if f < sch_pre.tasks.len() {
                            assert(run_ids(sc_pre, sch_pre, ids@, k as int) == run_ids(
                                scene@,
                                self@,
                                ids@,
                                k as int + 1,
                            ));
                        } else {
                            assert(run_ids(sc_pre, sch_pre, ids@, k as int) == run_ids(
                                scene@,
                                self@,
                                ids@,
                                k as int + 1,
                            ));
                        }
                    }
                },
                Result::Err(e) => {
                    proof {
                        let f = find_task(sch_pre.tasks, ids@[k as int]);
                        let res = resume_task(
                            sc_pre,
                            sch_pre.tasks[f],
                            sch_pre.next_task_id,
                            Seq::empty(),
                        );
                        assert(run_ids(sc_pre, sch_pre, ids@, k as int) == StepRes {
                            scene: scene@,
                            sched: self@,
                            fault: Option::Some(e),
                        });
                    }
                    return Result::Err(e);
                },
            }
            k += 1;
        }
        proof {
            lemma_runnable_from(sch0.tasks, 0, s0.latches);
            lemma_run_ids_weight(s0, sch0, ids@, 0);
        }
        Result::Ok(true)
    }

    /// Run the scheduler to its fixpoint: rounds of resumptions until no
    /// task is runnable. Blocked tasks stay registered; a fault aborts the
    /// cycle at once, with every effect so far kept and every blocked task
    /// still blocked.
    #[verifier::rlimit(100)]
    pub fn execute(&mut self, scene: &mut Scene) -> (r: Result<(), ApplyError>)
        requires
            old(scene)@.wf(),
            old(self)@.wf(),
            old(self)@.valid_for(old(scene)@.latches),
            latch_budget_ok(old(scene)@, old(self)@),
        ensures
            ({
                let res = run_to_fixpoint_spec(old(scene)@, old(self)@);
                &&& final(scene)@ == res.scene
                &&& final(self)@ == res.sched
                &&& (res.fault is None <==> r is Ok)
                &&& (res.fault matches Option::Some(e) ==> r == Result::<(), ApplyError>::Err(e))
                &&& (r is Ok ==> runnable_ids(final(self)@.tasks, final(scene)@.latches).len()
                    == 0)
                &&& final(scene)@.wf()
                &&& final(self)@.wf()
                &&& final(self)@.valid_for(final(scene)@.latches)
                &&& latch_budget_ok(final(scene)@, final(self)@)
            }),
    {
        let ghost s0 = scene@;
        let ghost sch0 = self@;
        loop
            invariant
                s0 == old(scene)@,
                sch0 == old(self)@,
                scene@.wf(),
                self@.wf(),
                self@.valid_for(scene@.latches),
                latch_budget_ok(scene@, self@),
                run_to_fixpoint_spec(s0, sch0) == run_to_fixpoint_spec(scene@, self@),
            decreases tasks_weight(self@.tasks),
        {
            let ghost sc_pre = scene@;
            let ghost sch_pre = self@;
            match self.step(scene) {
                Result::Err(e) => {
                    proof {
                        let ids = runnable_ids(sch_pre.tasks, sc_pre.latches);
                        let res = run_ids(sc_pre, sch_pre, ids, 0);
                        assert(run_to_fixpoint_spec(sc_pre, sch_pre) == res);
                    }
                    return Result::Err(e);
                },
                Result::Ok(false) => {
                    proof {
                        assert(run_to_fixpoint_spec(sc_pre, sch_pre) == StepRes {
                            scene: sc_pre,
                            sched: sch_pre,
                            fault: Option::None,
                        });
                    }
                    return Result::Ok(());
                },
                Result::Ok(true) => {
                    proof {
                        let ids = runnable_ids(sch_pre.tasks, sc_pre.latches);
                        let res = run_ids(sc_pre, sch_pre, ids, 0);
                        assert(run_to_fixpoint_spec(sc_pre, sch_pre) == run_to_fixpoint_spec(
                            res.scene,
                            res.sched,
                        ));
                    }
                },
            }
        }
    }
}

} // verus!
