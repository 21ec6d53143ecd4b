use pmd3d_script_runner::gamedata::characters::OngoingMovement;
use pmd3d_script_runner::gamedata::scene::ApplyError;
use pmd3d_script_runner::gamedata::{Color, Lock, Scene, Speed, Time, Update, Vec2, Vec3};
use pmd3d_script_runner::command;

#[test]
fn test_scene_get_updates() {
    let mut scene = Scene::default();
    let update = Update::AddChara("HERO".to_string(), "KIBAGO".to_string());
    scene.update(update).unwrap();
    assert!(!scene.get_and_clear_updates().is_empty());
    assert!(scene.get_and_clear_updates().is_empty());
}

#[test]
fn test_time() {
    let mut time = Time::new(2000);
    time = time.minus(Time::new(3000));
    assert_eq!(time.get_time(), 2000 - 3000);
}

#[test]
fn test_vec3_math() {
    let vec1 = Vec3::new(500, 1000, 2000);
    let vec2 = Vec3::new(1000, 500, 2000);
    assert_eq!(vec1.add(vec2), Vec3::new(500 + 1000, 1000 + 500, 2000 + 2000));
    assert_eq!(vec1.sub(vec2), Vec3::new(500 - 1000, 1000 - 500, 2000 - 2000));
    assert_eq!(vec1.div(vec2), Vec3::new(500, 2000, 1000));
    assert_eq!(vec1.mul(vec2), Vec3::new(500, 500, 4000));
}

#[test]
fn test_vec2_math() {
    let vec1 = Vec2::new(500, 1000);
    let vec2 = Vec2::new(1000, 500);
    assert_eq!(vec1.add(vec2), Vec2::new(500 + 1000, 1000 + 500));
    assert_eq!(vec1.sub(vec2), Vec2::new(500 - 1000, 1000 - 500));
    assert_eq!(vec1.div(vec2), Vec2::new(500, 2000));
    assert_eq!(vec1.mul(vec2), Vec2::new(500, 500));
}

#[test]
fn vector_distance_and_direction() {
    let origin = Vec2::new(0, 0);
    let p = Vec2::new(3000, 4000);
    assert_eq!(p.distance(&origin), 5000);
    assert_eq!(origin.distance(&p), 5000);
    // taxicab direction, in thousandths
    let d = Vec2::new(3000, -1000).normalize();
    assert_eq!(d, Vec2::new(750, -250));
    assert_eq!(Vec3::new(1, 2, 3).to_vec2(), Vec2::new(1, 2));
    assert_eq!(Vec2::new(1, 2).to_vec3(7), Vec3::new(1, 2, 7));
}

#[test]
fn time_can_be_set_and_accumulated() {
    let mut t = Time::new(250);
    t.set_time(500);
    assert_eq!(t.get_time(), 500);
    assert_eq!(t.plus(Time::new(250)).get_time(), 750);
}

#[test]
fn add_chara_is_logged_and_starts_at_origin() {
    let mut scene = Scene::default();
    scene
        .update(Update::AddChara("HERO".to_string(), "KIBAGO".to_string()))
        .unwrap();
    let drained = scene.get_and_clear_updates();
    assert_eq!(drained.len(), 1);
    match &drained[0] {
        Update::AddChara(id, actor) => {
            assert_eq!(id, "HERO");
            assert_eq!(actor, "KIBAGO");
        }
        other => panic!("unexpected update: {:?}", other),
    }
    assert_eq!(scene.charas.len(), 1);
    assert_eq!(scene.charas[0].id, "HERO");
    assert_eq!(scene.charas[0].chara.position, Vec3::new(0, 0, 0));
    assert!(matches!(
        scene.charas[0].chara.ongoing_movement,
        OngoingMovement::Idle
    ));
}

#[test]
fn drain_twice_is_empty() {
    let mut scene = Scene::default();
    scene
        .update(Update::AddChara("HERO".to_string(), "KIBAGO".to_string()))
        .unwrap();
    scene.update(Update::TimeSpent(Time::new(500))).unwrap();
    assert_eq!(scene.get_and_clear_updates().len(), 2);
    assert!(scene.get_and_clear_updates().is_empty());
}

#[test]
fn walk_to_moves_then_snaps_and_resolves_move_locks() {
    let mut scene = Scene::default();
    scene
        .update(Update::AddChara("HERO".to_string(), "KIBAGO".to_string()))
        .unwrap();
    scene
        .update(Update::SetPosition("HERO".to_string(), Vec3::new(0, 0, 0)))
        .unwrap();
    scene
        .update(Update::WalkTo(
            "HERO".to_string(),
            Vec2::new(3000, 0),
            Speed::new(1000),
        ))
        .unwrap();
    // a movement lock watching HERO, resolved when the walk completes
    let y = command::wait_move(&mut scene, "HERO".to_string());
    let latch = match y.lock {
        pmd3d_script_runner::LockReason::WaitAtomicBool(l) => l,
        other => panic!("unexpected lock reason: {:?}", other),
    };
    scene.get_and_clear_updates();

    scene.update(Update::TimeSpent(Time::new(1000))).unwrap();
    assert_eq!(scene.charas[0].chara.position, Vec3::new(1000, 0, 0));
    // facing straight along the positive first axis: angle zero
    assert_eq!(scene.charas[0].chara.facing, Vec2::new(3000, 0));
    assert!(matches!(
        scene.charas[0].chara.ongoing_movement,
        OngoingMovement::WalkTo(_)
    ));
    assert!(!scene.latches.is_set(latch));
    let mid = scene.get_and_clear_updates();
    assert!(mid.iter().all(|u| !matches!(u, Update::StartIDLE(_))));

    scene.update(Update::TimeSpent(Time::new(5000))).unwrap();
    assert_eq!(scene.charas[0].chara.position, Vec3::new(3000, 0, 0));
    assert!(matches!(
        scene.charas[0].chara.ongoing_movement,
        OngoingMovement::Idle
    ));
    assert!(scene.latches.is_set(latch));
    let after = scene.get_and_clear_updates();
    assert!(after
        .iter()
        .any(|u| matches!(u, Update::StartIDLE(id) if id == "HERO")));
}

#[test]
fn set_position_aborts_walk() {
    let mut scene = Scene::default();
    scene
        .update(Update::AddChara("HERO".to_string(), "KIBAGO".to_string()))
        .unwrap();
    scene
        .update(Update::WalkTo(
            "HERO".to_string(),
            Vec2::new(3000, 0),
            Speed::new(1000),
        ))
        .unwrap();
    scene.update(Update::TimeSpent(Time::new(1000))).unwrap();
    assert!(matches!(
        scene.charas[0].chara.ongoing_movement,
        OngoingMovement::WalkTo(_)
    ));
    scene
        .update(Update::SetPosition(
            "HERO".to_string(),
            Vec3::new(5000, 5000, 0),
        ))
        .unwrap();
    assert_eq!(scene.charas[0].chara.position, Vec3::new(5000, 5000, 0));
    assert!(matches!(
        scene.charas[0].chara.ongoing_movement,
        OngoingMovement::Idle
    ));
    scene.get_and_clear_updates();
    // no further automatic movement
    scene.update(Update::TimeSpent(Time::new(1000))).unwrap();
    assert_eq!(scene.charas[0].chara.position, Vec3::new(5000, 5000, 0));
    let after = scene.get_and_clear_updates();
    assert!(after.iter().all(|u| !matches!(u, Update::StartIDLE(_))));
}

#[test]
fn screen_transition_hits_midpoint_then_ends_exactly() {
    let mut scene = Scene::default();
    scene
        .update(Update::SetScreenColor(0, Color::transparent()))
        .unwrap();
    scene
        .update(Update::TransitionScreenColor(
            0,
            Time::new(2000),
            Color::black(),
        ))
        .unwrap();
    scene.update(Update::TimeSpent(Time::new(1000))).unwrap();
    let midpoint = Color { r: 0, g: 0, b: 0, a: 500 };
    assert_eq!(scene.screens[0].actual_color, midpoint);
    assert!(scene.screens[0].ongoing_transition.is_some());
    scene.update(Update::TimeSpent(Time::new(1000))).unwrap();
    assert_eq!(scene.screens[0].actual_color, Color::black());
    assert!(scene.screens[0].ongoing_transition.is_none());
}

#[test]
fn unknown_entity_is_a_lookup_error() {
    let mut scene = Scene::default();
    let r = scene.update(Update::SetPosition("GHOST".to_string(), Vec3::new(0, 0, 0)));
    assert_eq!(r, Err(ApplyError::LookupError));
    let r = scene.update(Update::WalkTo(
        "GHOST".to_string(),
        Vec2::new(0, 0),
        Speed::new(0),
    ));
    assert_eq!(r, Err(ApplyError::LookupError));
    // a rejected update is not logged
    assert!(scene.get_and_clear_updates().is_empty());
}

#[test]
fn bad_screen_id_is_an_index_error() {
    let mut scene = Scene::default();
    let r = scene.update(Update::SetScreenColor(2, Color::black()));
    assert_eq!(r, Err(ApplyError::IndexError));
    let r = scene.update(Update::TransitionScreenColor(7, Time::new(1000), Color::black()));
    assert_eq!(r, Err(ApplyError::IndexError));
    assert!(scene.get_and_clear_updates().is_empty());
}

#[test]
fn wait_lock_burns_exactly_the_elapsed_time() {
    let mut scene = Scene::default();
    let y = command::sleep(&mut scene, Time::new(2000));
    let latch = match y.lock {
        pmd3d_script_runner::LockReason::WaitAtomicBool(l) => l,
        other => panic!("unexpected lock reason: {:?}", other),
    };
    scene.update(Update::TimeSpent(Time::new(1500))).unwrap();
    assert!(!scene.latches.is_set(latch));
    assert!(matches!(scene.locks[0], Lock::Wait(_, Time(500))));
    scene.update(Update::TimeSpent(Time::new(400))).unwrap();
    assert!(!scene.latches.is_set(latch));
    scene.update(Update::TimeSpent(Time::new(100))).unwrap();
    assert!(scene.latches.is_set(latch));
    assert!(scene.locks.is_empty());
}

#[test]
fn del_chara_removes_and_tolerates_unknown_ids() {
    let mut scene = Scene::default();
    scene
        .update(Update::AddChara("HERO".to_string(), "KIBAGO".to_string()))
        .unwrap();
    scene.update(Update::DelChara("GHOST".to_string())).unwrap();
    assert_eq!(scene.charas.len(), 1);
    scene.update(Update::DelChara("HERO".to_string())).unwrap();
    assert!(scene.charas.is_empty());
}

#[test]
fn latch_is_one_shot() {
    let mut latches = pmd3d_script_runner::LatchStore::new();
    let a = latches.new_latch();
    let b = latches.new_latch();
    assert!(!latches.is_set(a));
    assert!(!latches.is_set(b));
    latches.set(a);
    assert!(latches.is_set(a));
    assert!(!latches.is_set(b));
    latches.set(a);
    assert!(latches.is_set(a));
}

#[test]
fn fade_out_starts_transition_and_can_sleep() {
    let mut scene = Scene::default();
    let y = command::fade_out(&mut scene, 1, Time::new(2000), true).unwrap();
    assert!(matches!(
        y.lock,
        pmd3d_script_runner::LockReason::WaitAtomicBool(_)
    ));
    assert_eq!(scene.screens[1].actual_color, Color::transparent());
    assert!(scene.screens[1].ongoing_transition.is_some());
    assert_eq!(scene.locks.len(), 1);
    let r = command::fade_out(&mut scene, 9, Time::new(2000), false);
    assert_eq!(r, Err(ApplyError::IndexError));
}
