use pmd3d_script_runner::gamedata::characters::OngoingMovement;
use pmd3d_script_runner::gamedata::scene::ApplyError;
use pmd3d_script_runner::gamedata::{Scene, Speed, Time, Update, Vec2, Vec3};
use pmd3d_script_runner::{Command, Input, LockReason, Logic, Scheduler};

#[test]
fn test_logic() {
    let mut logic = Logic::new(vec![Command::DynamicLoad(
        "HERO".to_string(),
        "KIBAGO".to_string(),
    )]);
    logic.execute(Input::default()).unwrap();

    match &logic.get_and_clear_updates()[0] {
        Update::AddChara(id, specie) => {
            assert_eq!(&*id, "HERO");
            assert_eq!(&*specie, "KIBAGO");
        }
        _ => (),
    };

    assert!(logic.get_and_clear_updates().is_empty());
}

#[test]
fn two_forked_sleepers_wake_in_the_same_cycle_in_id_order() {
    let mut scene = Scene::default();
    let mut sched = Scheduler::new();
    let main_id = sched.add_running_thread(vec![
        Command::Fork(vec![Command::Sleep(Time::new(2000))]),
        Command::Fork(vec![Command::Sleep(Time::new(2000))]),
    ]);
    assert_eq!(main_id, 0);
    sched.execute(&mut scene).unwrap();
    // the main task finished; both forked tasks are blocked on their waits
    assert_eq!(sched.tasks.len(), 2);
    assert_eq!(sched.tasks[0].id, 1);
    assert_eq!(sched.tasks[1].id, 2);
    assert!(matches!(sched.tasks[0].lock, LockReason::WaitAtomicBool(_)));
    assert!(matches!(sched.tasks[1].lock, LockReason::WaitAtomicBool(_)));
    assert_eq!(scene.locks.len(), 2);
    assert!(sched.list_run_possibility(&scene.latches).is_empty());

    // one time step covering both durations resolves both locks at once
    scene.update(Update::TimeSpent(Time::new(2000))).unwrap();
    assert!(scene.locks.is_empty());
    let runnable = sched.list_run_possibility(&scene.latches);
    assert_eq!(runnable, vec![1, 2]);

    // and the same cycle's fixpoint loop resumes both, in id order
    sched.execute(&mut scene).unwrap();
    assert!(sched.tasks.is_empty());
}

#[test]
fn forked_task_runs_only_from_the_next_round() {
    let mut scene = Scene::default();
    let mut sched = Scheduler::new();
    sched.add_running_thread(vec![Command::Fork(vec![Command::DynamicLoad(
        "HERO".to_string(),
        "KIBAGO".to_string(),
    )])]);
    let first_round = sched.list_run_possibility(&scene.latches);
    assert_eq!(first_round, vec![0]);
    sched.continue_running_thread(&mut scene, 0).unwrap();
    // the fork happened, but the child was not resumed within this round
    assert!(scene.charas.is_empty());
    assert_eq!(sched.tasks.len(), 1);
    sched.execute(&mut scene).unwrap();
    assert_eq!(scene.charas.len(), 1);
    assert!(sched.tasks.is_empty());
}

#[test]
fn a_task_fault_aborts_the_cycle() {
    let mut logic = Logic::new(vec![
        Command::DynamicLoad("HERO".to_string(), "KIBAGO".to_string()),
        Command::SetPosition("GHOST".to_string(), Vec3::new(0, 0, 0)),
        Command::DynamicLoad("NEVER".to_string(), "KIBAGO".to_string()),
    ]);
    let r = logic.execute(Input::default());
    assert_eq!(r, Err(ApplyError::LookupError));
    // everything applied before the fault is kept; nothing after it ran
    assert_eq!(logic.scene.charas.len(), 1);
    assert_eq!(logic.scene.charas[0].id, "HERO");
}

#[test]
fn registry_bookkeeping_follows_locks_and_latches() {
    let mut scene = Scene::default();
    let mut sched = Scheduler::new();
    let a = sched.add_running_thread(vec![Command::RemoveFace]);
    let b = sched.add_running_thread(vec![Command::RemoveFace]);
    assert_eq!((a, b), (0, 1));
    let latch = scene.latches.new_latch();
    sched.set_running_thread_lock(a, LockReason::WaitAtomicBool(latch));
    assert_eq!(sched.list_run_possibility(&scene.latches), vec![b]);
    scene.latches.set(latch);
    assert_eq!(sched.list_run_possibility(&scene.latches), vec![a, b]);
    sched.delete_running_thread(b);
    assert_eq!(sched.list_run_possibility(&scene.latches), vec![a]);
}

#[test]
fn scripted_walk_round_trip() {
    let mut logic = Logic::new(vec![
        Command::DynamicLoad("PARTNER".to_string(), "TSUTAAJA".to_string()),
        Command::SetPosition("PARTNER".to_string(), Vec3::new(0, 0, 0)),
        Command::WalkTo("PARTNER".to_string(), Vec2::new(0, 2000), Speed::new(1000)),
        Command::WaitMove("PARTNER".to_string()),
        Command::DrawFace(20_000, 88_000, "PARTNER".to_string(), pmd3d_script_runner::gamedata::FaceType::NORMAL),
    ]);
    logic.execute(Input::new(Time::new(0))).unwrap();
    // blocked on the movement
    assert!(logic.scene.portrait.is_none());
    logic.execute(Input::new(Time::new(1000))).unwrap();
    assert_eq!(logic.scene.charas[0].chara.position, Vec3::new(0, 1000, 0));
    assert!(logic.scene.portrait.is_none());
    logic.execute(Input::new(Time::new(1000))).unwrap();
    // the walk completed: the movement lock resolved within the same
    // mutation and the task ran on to its end
    assert_eq!(logic.scene.charas[0].chara.position, Vec3::new(0, 2000, 0));
    assert!(matches!(
        logic.scene.charas[0].chara.ongoing_movement,
        OngoingMovement::Idle
    ));
    assert!(logic.scene.portrait.is_some());
    assert!(logic.scheduler.tasks.is_empty());
}
