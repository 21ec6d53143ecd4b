//! The simulation driver: everything of the library that is not rendering.
//!
//! Once per cycle the driver feeds a time delta into the scene — which
//! burns it off the pending locks and advances character and screen state —
//! and then runs the scheduler to its fixpoint, so that every task whose
//! latch was set this cycle makes all the progress it can.

use crate::fixmath::LIMIT;
use crate::gamedata::scene::{scene_step, ApplyError, Scene, SceneModel};
use crate::gamedata::update::{Update, UpdateModel};
use crate::input::Input;
use crate::sched::{
    commands_model, commands_wf, latch_budget_ok, run_to_fixpoint_spec, runnable_ids, seq_weight,
    Command, LockReason, Scheduler, TaskModel,
};
use vstd::prelude::*;

verus! {

/// The logic of the library: the authoritative scene and the cooperative
/// scheduler driving the script strands that mutate it.
pub struct Logic {
    pub scene: Scene,
    pub scheduler: Scheduler,
}

impl Logic {
    /// The driver invariant: scene and scheduler each in good standing,
    /// every block condition naming a latch of the scene, and enough id and
    /// latch space left for everything the remaining commands can do.
    pub open spec fn wf(self) -> bool {
        &&& self.scene@.wf()
        &&& self.scheduler@.wf()
        &&& self.scheduler@.valid_for(self.scene@.latches)
        &&& latch_budget_ok(self.scene@, self.scheduler@)
    }

    /// A fresh driver that will run the given script program as its main
    /// task.
    pub fn new(program: Vec<Command>) -> (l: Logic)
        requires
            commands_wf(commands_model(program@)),
            3 + seq_weight(commands_model(program@)) <= u64::MAX as int,
            1 + seq_weight(commands_model(program@)) <= usize::MAX as int,
        ensures
            l.scene@ == SceneModel::init(),
            l.scheduler@.next_task_id == 1,
            l.scheduler@.tasks == seq![
                TaskModel {
                    id: 0,
                    program: commands_model(program@),
                    lock: LockReason::Unblocked,
                },
            ],
            l.wf(),
    {
        let scene = Scene::default();
        let mut scheduler = Scheduler::new();
        let _ = scheduler.add_running_thread(program);
        proof {
            let tm = TaskModel {
                id: 0,
                program: commands_model(program@),
                lock: LockReason::Unblocked,
            };
            assert(scheduler@.tasks =~= seq![tm]);
            assert(crate::sched::tasks_weight(seq![tm]) == 1 + seq_weight(
                commands_model(program@),
            )) by {
                assert(seq![tm].first() == tm);
                assert(seq![tm].drop_first() =~= Seq::<TaskModel>::empty());
                assert(crate::sched::tasks_weight(seq![tm].drop_first()) == 0);
            }
        }
        Logic { scene, scheduler }
    }

    /// One simulation cycle: apply the time delta to the scene, then run
    /// the scheduler to its fixpoint. A task fault is fatal for the cycle
    /// and surfaces here; everything applied up to the fault is kept, and
    /// blocked tasks remain blocked.
    pub fn execute(&mut self, input: Input) -> (r: Result<(), ApplyError>)
        requires
            old(self).wf(),
            0 <= input.time_elapsed.0 <= LIMIT,
        ensures
            ({
                let mid = scene_step(
                    old(self).scene@,
                    UpdateModel::TimeSpent { dt: input.time_elapsed },
                )->Ok_0;
                let res = run_to_fixpoint_spec(mid, old(self).scheduler@);
                &&& final(self).scene@ == res.scene
                &&& final(self).scheduler@ == res.sched
                &&& (res.fault is None <==> r is Ok)
                &&& (res.fault matches Option::Some(e) ==> r == Result::<(), ApplyError>::Err(e))
                &&& (r is Ok ==> runnable_ids(
                    final(self).scheduler@.tasks,
                    final(self).scene@.latches,
                ).len() == 0)
                &&& final(self).wf()
            }),
    {
        let ghost s0 = self.scene@;
        let dt = input.time_elapsed;
        let _ = self.scene.update(Update::TimeSpent(dt));
        proof {
            crate::gamedata::scene::lemma_time_step_latches(s0, dt);
        }
        self.scheduler.execute(&mut self.scene)
    }

    /// Return the updates applied since the last call, draining the log.
    /// The second of two consecutive calls returns an empty sequence.
    pub fn get_and_clear_updates(&mut self) -> (r: Vec<Update>)
        ensures
            crate::gamedata::scene::drained(
                old(self).scene@,
                final(self).scene@,
                crate::gamedata::scene::log_view(r@),
            ),
            final(self).scheduler@ == old(self).scheduler@,
            old(self).wf() ==> final(self).wf(),
    {
        self.scene.get_and_clear_updates()
    }
}

} // verus!
