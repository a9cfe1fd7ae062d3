use rustlike::{
    delete_the_dead, CombatStats, DamageSystem, MeleeCombatSystem, PlayerInput, RunState, State,
    World,
};

fn stats(hp: i32, defense: i32, power: i32) -> Option<CombatStats> {
    Some(CombatStats { max_hp: hp, hp, defense, power })
}

fn hp_of(w: &World, id: u64) -> i32 {
    w.stats_of(id).unwrap().hp
}

fn queue_of(w: &World, id: u64) -> Vec<i32> {
    w.entities[w.index_of(id).unwrap()].suffer_damage.clone()
}

fn log_of(w: &World) -> Vec<String> {
    w.log.clone()
}

#[test]
fn melee_then_damage_then_sweep_kills_defender() {
    let mut w = World::new("Welcome".to_string());
    let a = w.create_entity(Some("A".to_string()), false, true, true, stats(10, 0, 5));
    let b = w.create_entity(Some("B".to_string()), false, true, true, stats(3, 2, 1));
    assert!(w.set_wants_to_melee(a, b));
    MeleeCombatSystem {}.run(&mut w);
    assert_eq!(queue_of(&w, b), vec![3]);
    assert_eq!(hp_of(&w, b), 3);
    DamageSystem {}.run(&mut w);
    assert_eq!(hp_of(&w, b), 0);
    assert!(queue_of(&w, b).is_empty());
    let game_over = delete_the_dead(&mut w);
    assert!(!game_over);
    assert!(!w.contains(b));
    assert!(w.contains(a));
    assert_eq!(log_of(&w)[0], "B is dead");
    assert_eq!(log_of(&w), vec!["B is dead".to_string(), "Welcome".to_string()]);
}

#[test]
fn player_below_one_hp_stays_and_signals_once() {
    let mut w = World::new("Welcome".to_string());
    let p = w.create_entity(Some("Player".to_string()), true, false, false, stats(1, 0, 5));
    assert!(w.inflict_damage(p, 5));
    DamageSystem {}.run(&mut w);
    assert_eq!(hp_of(&w, p), -4);
    assert!(delete_the_dead(&mut w));
    assert!(w.contains(p));
    assert_eq!(log_of(&w), vec!["Welcome".to_string()]);
}

#[test]
fn damage_resolution_subtracts_queue_sum() {
    let mut w = World::new(String::new());
    let a = w.create_entity(None, false, true, false, stats(20, 0, 0));
    let b = w.create_entity(None, false, true, false, stats(7, 0, 0));
    assert!(w.inflict_damage(a, 3));
    assert!(w.inflict_damage(a, 4));
    assert!(w.inflict_damage(a, 0));
    DamageSystem {}.run(&mut w);
    assert_eq!(hp_of(&w, a), 13);
    assert_eq!(hp_of(&w, b), 7);
    assert!(queue_of(&w, a).is_empty());
    assert!(queue_of(&w, b).is_empty());
}

#[test]
fn damage_resolution_clears_queue_without_stats() {
    let mut w = World::new(String::new());
    let a = w.create_entity(Some("Rock".to_string()), false, false, true, None);
    assert!(w.inflict_damage(a, 9));
    DamageSystem {}.run(&mut w);
    assert!(queue_of(&w, a).is_empty());
    assert!(w.stats_of(a).is_none());
}

#[test]
fn damage_resolution_twice_changes_nothing() {
    let mut w = World::new(String::new());
    let a = w.create_entity(None, false, true, false, stats(10, 0, 0));
    assert!(w.inflict_damage(a, 6));
    DamageSystem {}.run(&mut w);
    assert_eq!(hp_of(&w, a), 4);
    DamageSystem {}.run(&mut w);
    assert_eq!(hp_of(&w, a), 4);
}

#[test]
fn sweep_removes_dead_monsters_and_logs_named_ones() {
    let mut w = World::new("Welcome".to_string());
    let g = w.create_entity(Some("Goblin #1".to_string()), false, true, true, stats(0, 0, 0));
    let o = w.create_entity(Some("Orc #2".to_string()), false, true, true, stats(-3, 0, 0));
    let u = w.create_entity(None, false, true, true, stats(0, 0, 0));
    let alive = w.create_entity(Some("Orc #3".to_string()), false, true, true, stats(1, 0, 0));
    let rock = w.create_entity(Some("Rock".to_string()), false, false, true, None);
    assert!(!delete_the_dead(&mut w));
    assert!(!w.contains(g));
    assert!(!w.contains(o));
    assert!(!w.contains(u));
    assert!(w.contains(alive));
    assert!(w.contains(rock));
    assert_eq!(
        log_of(&w),
        vec!["Orc #2 is dead".to_string(), "Goblin #1 is dead".to_string(), "Welcome".to_string()]
    );
}

#[test]
fn sweep_never_removes_the_player() {
    let mut w = World::new(String::new());
    let p = w.create_entity(Some("Player".to_string()), true, false, false, stats(-100, 0, 0));
    let m = w.create_entity(Some("Orc".to_string()), false, true, true, stats(0, 0, 0));
    assert!(delete_the_dead(&mut w));
    assert!(w.contains(p));
    assert!(!w.contains(m));
    assert!(delete_the_dead(&mut w));
    assert!(w.contains(p));
}

#[test]
fn melee_damage_has_floor_zero() {
    let mut w = World::new(String::new());
    let a = w.create_entity(Some("Rat".to_string()), false, true, false, stats(5, 0, 1));
    let b = w.create_entity(Some("Knight".to_string()), false, true, false, stats(5, 4, 1));
    assert!(w.set_wants_to_melee(a, b));
    assert!(w.set_wants_to_melee(b, a));
    MeleeCombatSystem {}.run(&mut w);
    assert_eq!(queue_of(&w, b), vec![0]);
    assert_eq!(queue_of(&w, a), vec![1]);
    assert!(w.entities.iter().all(|e| e.wants_to_melee.is_none()));
}

#[test]
fn melee_on_missing_target_queues_nothing() {
    let mut w = World::new(String::new());
    let a = w.create_entity(None, false, true, false, stats(5, 0, 3));
    assert!(w.set_wants_to_melee(a, 99));
    MeleeCombatSystem {}.run(&mut w);
    assert!(queue_of(&w, a).is_empty());
    assert!(w.entities[0].wants_to_melee.is_none());
}

#[test]
fn two_attackers_queue_in_order() {
    let mut w = World::new(String::new());
    let t = w.create_entity(None, false, true, false, stats(20, 1, 0));
    let a = w.create_entity(None, false, true, false, stats(5, 0, 3));
    let b = w.create_entity(None, false, true, false, stats(5, 0, 6));
    assert!(w.set_wants_to_melee(a, t));
    assert!(w.set_wants_to_melee(b, t));
    MeleeCombatSystem {}.run(&mut w);
    assert_eq!(queue_of(&w, t), vec![2, 5]);
    DamageSystem {}.run(&mut w);
    assert_eq!(hp_of(&w, t), 13);
}

#[test]
fn delete_entity_twice_is_an_error() {
    let mut w = World::new(String::new());
    let a = w.create_entity(None, false, true, false, None);
    assert_eq!(w.delete_entity(a), Ok(()));
    assert!(!w.contains(a));
    assert_eq!(w.delete_entity(a), Err(()));
}

#[test]
fn create_entity_gives_fresh_ids() {
    let mut w = World::new(String::new());
    let a = w.create_entity(None, false, false, false, None);
    let b = w.create_entity(None, false, false, false, None);
    assert_ne!(a, b);
    assert_eq!(w.entities.len(), 2);
    assert_eq!(w.runstate, RunState::PreRun);
}

fn game() -> (State, u64, u64) {
    let mut w = World::new("Welcome to Rustlike".to_string());
    let p = w.create_entity(Some("Player".to_string()), true, false, false, stats(30, 2, 5));
    let g = w.create_entity(Some("Goblin #0".to_string()), false, true, true, stats(3, 1, 4));
    (State { ecs: w, player: p }, p, g)
}

#[test]
fn tick_from_prerun_runs_passes_and_awaits_input() {
    let (mut gs, _p, g) = game();
    assert!(gs.ecs.inflict_damage(g, 1));
    let r = gs.tick(PlayerInput::Nothing);
    assert_eq!(r.sequences_run, 1);
    assert!(!r.game_over);
    assert_eq!(gs.ecs.runstate, RunState::AwaitingInput);
    assert_eq!(hp_of(&gs.ecs, g), 2);
}

#[test]
fn tick_awaiting_without_input_stays_and_runs_nothing() {
    let (mut gs, _p, g) = game();
    gs.ecs.runstate = RunState::AwaitingInput;
    assert!(gs.ecs.inflict_damage(g, 1));
    let r = gs.tick(PlayerInput::Nothing);
    assert_eq!(r.sequences_run, 0);
    assert_eq!(gs.ecs.runstate, RunState::AwaitingInput);
    assert_eq!(hp_of(&gs.ecs, g), 3);
    assert_eq!(queue_of(&gs.ecs, g), vec![1]);
}

#[test]
fn tick_awaiting_with_action_moves_to_player_turn() {
    let (mut gs, _p, _g) = game();
    gs.ecs.runstate = RunState::AwaitingInput;
    let r = gs.tick(PlayerInput::Act);
    assert_eq!(r.sequences_run, 0);
    assert_eq!(gs.ecs.runstate, RunState::PlayerTurn);
}

#[test]
fn full_turn_with_attack_kills_goblin() {
    let (mut gs, p, g) = game();
    assert_eq!(gs.tick(PlayerInput::Nothing).sequences_run, 1);
    assert_eq!(gs.ecs.runstate, RunState::AwaitingInput);
    let r = gs.tick(PlayerInput::Attack(g));
    assert_eq!(r.sequences_run, 0);
    assert_eq!(gs.ecs.runstate, RunState::PlayerTurn);
    assert!(gs.ecs.contains(g));
    let r = gs.tick(PlayerInput::Nothing);
    assert_eq!(r.sequences_run, 1);
    assert_eq!(gs.ecs.runstate, RunState::MonsterTurn);
    assert!(!gs.ecs.contains(g));
    assert!(gs.ecs.contains(p));
    assert_eq!(log_of(&gs.ecs)[0], "Goblin #0 is dead");
    let r = gs.tick(PlayerInput::Nothing);
    assert_eq!(r.sequences_run, 1);
    assert_eq!(gs.ecs.runstate, RunState::AwaitingInput);
}

#[test]
fn attack_without_player_takes_no_turn() {
    let (mut gs, p, g) = game();
    gs.ecs.runstate = RunState::AwaitingInput;
    assert_eq!(gs.ecs.delete_entity(p), Ok(()));
    gs.tick(PlayerInput::Attack(g));
    assert_eq!(gs.ecs.runstate, RunState::AwaitingInput);
}

#[test]
fn player_death_in_tick_raises_game_over() {
    let (mut gs, p, g) = game();
    gs.ecs.runstate = RunState::MonsterTurn;
    assert!(gs.ecs.inflict_damage(p, 30));
    assert!(gs.ecs.set_wants_to_melee(g, p));
    let r = gs.tick(PlayerInput::Nothing);
    assert!(r.game_over);
    assert_eq!(hp_of(&gs.ecs, p), -2);
    assert!(gs.ecs.contains(p));
    assert_eq!(gs.ecs.runstate, RunState::AwaitingInput);
}
