use tower_defense::actions::{try_perform_builder_action, try_queue_mercenary, BuilderAction};
use tower_defense::combat::{enemies_attack, mercenaries_attack, towers_attack};
use tower_defense::entities::{ENEMY_ATTACK_POWER, MERCENARY_ATTACK_POWER, PLAYER_BASE_INITIAL_HP};
use tower_defense::errors::GameError;
use tower_defense::game::{GameState, SpawnerFromMapfile};
use tower_defense::turn::{
    builder_shop_phase, init_phase, mercenary_shop_phase, next_phase, tower_shop_phase,
    world_update_phase, Phase,
};
use tower_defense::types::{EntityKey, EntityType, Position, TeamColor};
use tower_defense::world::{move_enemies, move_mercenaries, pop_mercenaries};

fn pos(x: i32, y: i32) -> Position {
    Position { x, y }
}

fn corridor() -> GameState {
    GameState::new(vec!["rOOOb".to_string()], pos(0, 0), pos(4, 0), Vec::new()).unwrap()
}

fn base_hp(g: &GameState, team: TeamColor) -> u32 {
    g.player(team).base.as_ref().unwrap().hp
}

/// Every entity of every table is in the index at its position under its
/// key, and the index holds nothing else.
fn index_matches_tables(g: &GameState, width: i32, height: i32) {
    let mut expected: Vec<(Position, EntityKey)> = Vec::new();
    for team in [TeamColor::Red, TeamColor::Blue] {
        let p = g.player(team);
        for t in &p.towers {
            expected.push((t.position, EntityKey { uid: t.uid, entity_type: EntityType::Tower }));
        }
        for m in &p.mercenaries {
            expected.push((m.position, EntityKey { uid: m.uid, entity_type: EntityType::Mercenary }));
        }
        if let Some(b) = &p.base {
            expected.push((b.position, EntityKey { uid: b.uid, entity_type: EntityType::PlayerBase }));
        }
    }
    for e in g.enemies() {
        expected.push((e.position, EntityKey { uid: e.uid, entity_type: EntityType::Enemy }));
    }
    for s in g.enemy_spawners() {
        expected.push((s.position, EntityKey { uid: s.uid, entity_type: EntityType::EnemySpawner }));
    }
    for (p, k) in &expected {
        assert_eq!(g.occupant(*p), Some(*k));
    }
    let mut occupied = 0;
    for y in 0..height {
        for x in 0..width {
            if g.occupant(pos(x, y)).is_some() {
                occupied += 1;
            }
        }
    }
    assert_eq!(occupied, expected.len());
}

#[test]
fn phases_cycle() {
    assert_eq!(next_phase(Phase::Init), Phase::BuilderShop);
    assert_eq!(next_phase(Phase::BuilderShop), Phase::TowerShop);
    assert_eq!(next_phase(Phase::TowerShop), Phase::MercenaryShop);
    assert_eq!(next_phase(Phase::MercenaryShop), Phase::WorldUpdate);
    assert_eq!(next_phase(Phase::WorldUpdate), Phase::BuilderShop);
}

#[test]
fn init_names_both_teams() {
    let mut g = corridor();
    init_phase(&mut g, "Ants".to_string(), "Bees".to_string());
    assert_eq!(g.player(TeamColor::Red).team_name, "Ants");
    assert_eq!(g.player(TeamColor::Blue).team_name, "Bees");
}

#[test]
fn shop_phases_report_each_team() {
    let mut g = corridor();
    let (r, b) = builder_shop_phase(&mut g, true, false);
    assert_eq!(r, Err(GameError::InsufficientFunds { required: 4, available: 3 }));
    assert_eq!(b, Ok(()));
    let build = BuilderAction {
        action_type: "build".to_string(),
        target_x: Some(0),
        target_y: Some(0),
        tower_type: Some("crossbow".to_string()),
    };
    let (r, b) = tower_shop_phase(&mut g, None, Some(build));
    assert_eq!(r, Ok(()));
    assert_eq!(b, Err(GameError::WrongTerritory));
    let (r, b) = mercenary_shop_phase(&mut g, Some("E".to_string()), None);
    assert_eq!(r, Ok(()));
    assert_eq!(b, Ok(()));
    assert_eq!(g.player(TeamColor::Red).money, 0);
}

#[test]
fn mercenary_at_the_gate_strikes_the_base() {
    let mut g = corridor();
    assert_eq!(try_queue_mercenary(&mut g, "E".to_string(), TeamColor::Red), Ok(()));
    assert_eq!(pop_mercenaries(&mut g), Ok(()));
    move_mercenaries(&mut g);
    move_mercenaries(&mut g);
    assert_eq!(g.player(TeamColor::Red).mercenaries[0].position, pos(3, 0));
    mercenaries_attack(&mut g);
    assert_eq!(base_hp(&g, TeamColor::Blue), PLAYER_BASE_INITIAL_HP - MERCENARY_ATTACK_POWER);
    assert_eq!(base_hp(&g, TeamColor::Red), PLAYER_BASE_INITIAL_HP);
    for _ in 0..19 {
        mercenaries_attack(&mut g);
    }
    assert_eq!(base_hp(&g, TeamColor::Blue), 0);
    assert_eq!(g.victory(), Some(TeamColor::Red));
    mercenaries_attack(&mut g);
    assert_eq!(base_hp(&g, TeamColor::Blue), 0);
    assert_eq!(g.victory(), Some(TeamColor::Red));
}

#[test]
fn enemy_at_the_gate_strikes_its_target() {
    let mut g = corridor();
    assert_eq!(g.add_enemy(pos(3, 0), TeamColor::Red), Ok(()));
    enemies_attack(&mut g);
    assert_eq!(base_hp(&g, TeamColor::Red), PLAYER_BASE_INITIAL_HP);
    move_enemies(&mut g);
    move_enemies(&mut g);
    assert_eq!(g.enemies()[0].position, pos(1, 0));
    enemies_attack(&mut g);
    assert_eq!(base_hp(&g, TeamColor::Red), PLAYER_BASE_INITIAL_HP - ENEMY_ATTACK_POWER);
    assert_eq!(base_hp(&g, TeamColor::Blue), PLAYER_BASE_INITIAL_HP);
}

#[test]
fn towers_shoot_enemies_in_range_and_remove_the_fallen() {
    let mut g = GameState::new(vec!["rOOOOb".to_string(), "rrOOOb".to_string()], pos(0, 0), pos(5, 0), Vec::new())
        .unwrap();
    let build = BuilderAction {
        action_type: "build".to_string(),
        target_x: Some(1),
        target_y: Some(1),
        tower_type: Some("crossbow".to_string()),
    };
    assert_eq!(try_perform_builder_action(&mut g, build, TeamColor::Red), Ok(()));
    assert_eq!(g.add_enemy(pos(3, 1), TeamColor::Red), Ok(()));
    assert_eq!(g.add_enemy(pos(4, 1), TeamColor::Red), Ok(()));
    towers_attack(&mut g);
    // the crossbow reaches two cells: (3, 1) but not (4, 1)
    assert_eq!(g.enemies()[0].hp, 70 - 3);
    assert_eq!(g.enemies()[1].hp, 70);
    assert_eq!(g.player(TeamColor::Red).towers[0].reload_turns_left, 2);
    towers_attack(&mut g);
    assert_eq!(g.player(TeamColor::Red).towers[0].reload_turns_left, 1);
    assert_eq!(g.enemies()[0].hp, 70 - 3);
    towers_attack(&mut g);
    towers_attack(&mut g);
    assert_eq!(g.enemies()[0].hp, 70 - 6);
    let mut turns = 0;
    while g.enemies().len() == 2 && turns < 200 {
        towers_attack(&mut g);
        turns += 1;
    }
    assert_eq!(g.enemies().len(), 1);
    assert_eq!(g.enemies()[0].position, pos(4, 1));
    assert_eq!(g.occupant(pos(3, 1)), None);
}

#[test]
fn world_update_counts_the_turn() {
    let sp = vec![SpawnerFromMapfile { x: 2, y: 0, target: "r".to_string(), switch_target: false }];
    let mut g = GameState::new(vec!["rOOOb".to_string(), "rOOOb".to_string()], pos(0, 0), pos(4, 0), sp).unwrap();
    for turn in 1..=25 {
        assert_eq!(world_update_phase(&mut g), Ok(()));
        assert_eq!(g.turns_progressed(), turn);
        index_matches_tables(&g, 5, 2);
    }
    assert!(!g.enemies().is_empty());
}

#[test]
fn index_stays_consistent_over_a_random_match() {
    let mut g = GameState::new(
        vec!["rrOOOObb".to_string(), "rrObbObb".to_string(), "rrOOOObb".to_string()],
        pos(1, 1),
        pos(6, 1),
        vec![SpawnerFromMapfile { x: 4, y: 0, target: "b".to_string(), switch_target: true }],
    )
    .unwrap();
    let mut seed: u64 = 12345;
    for _ in 0..300 {
        seed = seed.wrapping_mul(6364136223846793005).wrapping_add(1442695040888963407);
        let r = (seed >> 33) as u32;
        let team = if r % 2 == 0 { TeamColor::Red } else { TeamColor::Blue };
        let x = ((r / 2) % 8) as i32;
        let y = ((r / 16) % 3) as i32;
        match (r / 48) % 6 {
            0 => {
                let kinds = ["crossbow", "cannon", "minigun", "house"];
                let _ = g.add_tower(kinds[(r % 4) as usize].to_string(), pos(x, y), team);
            }
            1 => {
                if let Some(k) = g.occupant(pos(x, y)) {
                    let _ = g.remove_tower(k);
                    let _ = g.remove_mercenary(k);
                    let _ = g.remove_enemy(k);
                }
            }
            2 => {
                let _ = g.add_mercenary(team, pos(x, y));
            }
            3 => {
                let _ = g.add_enemy(pos(x, y), team);
            }
            4 => move_mercenaries(&mut g),
            _ => {
                let _ = world_update_phase(&mut g);
            }
        }
        index_matches_tables(&g, 8, 3);
    }
}
