use std::collections::VecDeque;
use tower_defense::actions::{
    try_buy_builder, try_perform_builder_action, try_queue_mercenary, try_set_team_name,
    BuilderAction,
};
use tower_defense::entities::{
    parse_direction, Mercenary, PlayerState, Tower, TowerKind, INITIAL_MONEY, MERCENARY_PRICE,
};
use tower_defense::errors::GameError;
use tower_defense::game::{GameState, SpawnerFromMapfile};
use tower_defense::pathfinder::{compute_path_to_enemy, PathError};
use tower_defense::types::{parse_team_color, EntityKey, EntityType, FloorTile, Position, TeamColor};
use tower_defense::world::{move_mercenaries, pop_enemies, pop_mercenaries};

fn pos(x: i32, y: i32) -> Position {
    Position { x, y }
}

fn rows(lines: &[&str]) -> Vec<String> {
    lines.iter().map(|l| l.to_string()).collect()
}

/// Red territory on the left, blue on the right, a ring of path between.
fn small_map() -> Vec<String> {
    rows(&["rrOOObb", "rrObObb", "rrOOObb"])
}

fn new_game() -> GameState {
    GameState::new(small_map(), pos(1, 1), pos(5, 1), Vec::new()).unwrap()
}

fn action(kind: &str, x: Option<i32>, y: Option<i32>, tower: Option<&str>) -> BuilderAction {
    BuilderAction {
        action_type: kind.to_string(),
        target_x: x,
        target_y: y,
        tower_type: tower.map(|t| t.to_string()),
    }
}

fn adjacent(a: Position, b: Position) -> bool {
    (a.x - b.x).abs() + (a.y - b.y).abs() == 1
}

#[test]
fn new_game_places_bases_and_players() {
    let g = new_game();
    assert_eq!(g.turns_progressed(), 0);
    assert_eq!(g.victory(), None);
    for team in [TeamColor::Red, TeamColor::Blue] {
        let p = g.player(team);
        assert_eq!(p.team_name, "NO TEAM NAME SET");
        assert_eq!(p.builder_count, 1);
        assert_eq!(p.money, INITIAL_MONEY);
        assert!(p.towers.is_empty());
        assert!(p.mercenaries.is_empty());
    }
    assert_eq!(g.player(TeamColor::Red).base.as_ref().unwrap().position, pos(1, 1));
    assert_eq!(g.player(TeamColor::Blue).base.as_ref().unwrap().position, pos(5, 1));
    assert_eq!(g.occupant(pos(1, 1)).unwrap().entity_type, EntityType::PlayerBase);
    assert_eq!(g.occupant(pos(5, 1)).unwrap().entity_type, EntityType::PlayerBase);
    assert_eq!(g.tile(pos(0, 0)), Some(FloorTile::RedTerritory));
    assert_eq!(g.tile(pos(3, 1)), Some(FloorTile::BlueTerritory));
    assert_eq!(g.tile(pos(2, 2)), Some(FloorTile::Path));
    assert_eq!(g.tile(pos(7, 0)), None);
}

#[test]
fn new_game_rejects_bad_maps() {
    assert_eq!(
        GameState::new(rows(&["rrO", "rr"]), pos(0, 0), pos(1, 0), Vec::new()).err(),
        Some(GameError::UnevenRows { row: 1 })
    );
    assert_eq!(
        GameState::new(rows(&["rxO"]), pos(0, 0), pos(2, 0), Vec::new()).err(),
        Some(GameError::InvalidTile { column: 1, row: 0 })
    );
    assert_eq!(
        GameState::new(small_map(), pos(9, 1), pos(5, 1), Vec::new()).err(),
        Some(GameError::OutOfBounds)
    );
    let bad_team = vec![SpawnerFromMapfile { x: 3, y: 0, target: "g".to_string(), switch_target: false }];
    assert_eq!(
        GameState::new(small_map(), pos(1, 1), pos(5, 1), bad_team).err(),
        Some(GameError::UnknownTeam)
    );
    let on_base = vec![SpawnerFromMapfile { x: 1, y: 1, target: "b".to_string(), switch_target: false }];
    assert_eq!(
        GameState::new(small_map(), pos(1, 1), pos(5, 1), on_base).err(),
        Some(GameError::Occupied { x: 1, y: 1 })
    );
}

#[test]
fn spawners_are_loaded_in_order() {
    let sp = vec![
        SpawnerFromMapfile { x: 3, y: 0, target: "b".to_string(), switch_target: true },
        SpawnerFromMapfile { x: 3, y: 2, target: "r".to_string(), switch_target: false },
    ];
    let g = GameState::new(small_map(), pos(1, 1), pos(5, 1), sp).unwrap();
    let s = g.enemy_spawners();
    assert_eq!(s.len(), 2);
    assert_eq!(s[0].position, pos(3, 0));
    assert_eq!(s[0].target, TeamColor::Blue);
    assert!(s[0].switch_target);
    assert_eq!(s[0].reload_time_left, 10);
    assert_eq!(s[1].target, TeamColor::Red);
    assert_eq!(g.occupant(pos(3, 2)).unwrap().entity_type, EntityType::EnemySpawner);
}

#[test]
fn path_is_shortest_and_adjacent() {
    let g = new_game();
    let route = compute_path_to_enemy(pos(2, 1), g.floor_tiles(), pos(5, 1)).unwrap();
    assert_eq!(route.len(), 6);
    assert_eq!(route[0], pos(2, 1));
    assert_eq!(route[route.len() - 1], pos(5, 1));
    for i in 0..route.len() - 1 {
        assert!(adjacent(route[i], route[i + 1]));
    }
    for i in 1..route.len() - 1 {
        assert_eq!(g.tile(route[i]), Some(FloorTile::Path));
    }
}

#[test]
fn path_takes_the_first_neighbour_south_east_north_west_back_from_the_goal() {
    let g = new_game();
    let route = compute_path_to_enemy(pos(2, 1), g.floor_tiles(), pos(5, 1)).unwrap();
    let cells: Vec<Position> = route.iter().copied().collect();
    assert_eq!(cells, vec![pos(2, 1), pos(2, 2), pos(3, 2), pos(4, 2), pos(4, 1), pos(5, 1)]);
}

#[test]
fn path_to_itself_is_one_cell() {
    let g = new_game();
    let route = compute_path_to_enemy(pos(2, 1), g.floor_tiles(), pos(2, 1)).unwrap();
    assert_eq!(route, VecDeque::from(vec![pos(2, 1)]));
}

#[test]
fn disconnected_board_has_no_path() {
    let g = GameState::new(rows(&["rOrOb"]), pos(0, 0), pos(4, 0), Vec::new()).unwrap();
    assert_eq!(
        compute_path_to_enemy(pos(1, 0), g.floor_tiles(), pos(4, 0)),
        Err(PathError::NoPath)
    );
    assert_eq!(
        compute_path_to_enemy(pos(-1, 0), g.floor_tiles(), pos(4, 0)),
        Err(PathError::NoPath)
    );
}

#[test]
fn directions_give_offsets() {
    let from = pos(4, 7);
    assert_eq!(parse_direction("N".to_string(), from), Ok(pos(4, 6)));
    assert_eq!(parse_direction("NE".to_string(), from), Ok(pos(5, 6)));
    assert_eq!(parse_direction("E".to_string(), from), Ok(pos(5, 7)));
    assert_eq!(parse_direction("SE".to_string(), from), Ok(pos(5, 8)));
    assert_eq!(parse_direction("S".to_string(), from), Ok(pos(4, 8)));
    assert_eq!(parse_direction("SW".to_string(), from), Ok(pos(3, 8)));
    assert_eq!(parse_direction("W".to_string(), from), Ok(pos(3, 7)));
    assert_eq!(parse_direction("NW".to_string(), from), Ok(pos(3, 6)));
    assert_eq!(parse_direction("X".to_string(), from), Ok(pos(4, 7)));
    assert_eq!(parse_direction("up".to_string(), from), Err(GameError::InvalidDirection));
    assert_eq!(parse_direction("n".to_string(), from), Err(GameError::InvalidDirection));
}

#[test]
fn team_tokens() {
    assert_eq!(parse_team_color("r".to_string()), Some(TeamColor::Red));
    assert_eq!(parse_team_color("b".to_string()), Some(TeamColor::Blue));
    assert_eq!(parse_team_color("red".to_string()), None);
    assert_eq!(parse_team_color("".to_string()), None);
}

#[test]
fn tower_catalog() {
    let t = Tower::new(7, pos(1, 2), TeamColor::Blue, "cannon".to_string()).unwrap();
    assert_eq!(t.uid, 7);
    assert_eq!(t.stats.kind, TowerKind::Cannon);
    assert_eq!(t.stats.damage, 20);
    assert_eq!(t.stats.cost, 5);
    assert_eq!(t.stats.reload_turns, 4);
    assert_eq!(t.reload_turns_left, 0);
    assert_eq!(TowerKind::parse("crossbow").unwrap().stats().cost, 2);
    assert_eq!(TowerKind::parse("minigun").unwrap().stats().cost, 4);
    assert_eq!(TowerKind::parse("house").unwrap().stats().damage, 0);
    assert_eq!(
        Tower::new(7, pos(1, 2), TeamColor::Blue, "laser".to_string()).err(),
        Some(GameError::UnknownTowerType)
    );
}

#[test]
fn desired_position_follows_route() {
    let path = VecDeque::from(vec![pos(2, 1), pos(2, 0), pos(3, 0)]);
    let m = Mercenary::new(1, pos(2, 1), TeamColor::Red, path);
    assert_eq!(m.get_desired_position(), pos(2, 0));
    let last = Mercenary::new(2, pos(4, 1), TeamColor::Red, VecDeque::from(vec![pos(4, 1), pos(5, 1)]));
    assert_eq!(last.get_desired_position(), pos(4, 1));
}

#[test]
fn player_state_starts_empty() {
    let p = PlayerState::new(TeamColor::Blue);
    assert_eq!(p.team_color, TeamColor::Blue);
    assert_eq!(p.money, 3);
    assert!(p.base.is_none());
}

#[test]
fn set_team_name_renames() {
    let mut g = new_game();
    assert_eq!(try_set_team_name(&mut g, TeamColor::Red, "Crimson".to_string()), Ok(()));
    assert_eq!(g.player(TeamColor::Red).team_name, "Crimson");
    assert_eq!(g.player(TeamColor::Blue).team_name, "NO TEAM NAME SET");
}

#[test]
fn buy_builder_needs_the_price() {
    let mut g = new_game();
    // the second builder costs 4; a team starts with 3
    assert_eq!(
        try_buy_builder(&mut g, TeamColor::Red),
        Err(GameError::InsufficientFunds { required: 4, available: 3 })
    );
    assert_eq!(g.player(TeamColor::Red).builder_count, 1);
    assert_eq!(g.player(TeamColor::Red).money, 3);
}

#[test]
fn build_outside_territory_is_rejected() {
    let mut g = new_game();
    let r = try_perform_builder_action(&mut g, action("build", Some(6), Some(0), Some("crossbow")), TeamColor::Red);
    assert_eq!(r, Err(GameError::WrongTerritory));
    let r = try_perform_builder_action(&mut g, action("build", Some(2), Some(0), Some("crossbow")), TeamColor::Red);
    assert_eq!(r, Err(GameError::WrongTerritory));
    assert_eq!(g.player(TeamColor::Red).money, 3);
    assert!(g.player(TeamColor::Red).towers.is_empty());
    assert_eq!(g.occupant(pos(6, 0)), None);
    assert_eq!(g.occupant(pos(2, 0)), None);
}

#[test]
fn builder_action_errors() {
    let mut g = new_game();
    let red = TeamColor::Red;
    assert_eq!(try_perform_builder_action(&mut g, action("dance", None, None, None), red), Err(GameError::UnknownActionType));
    assert_eq!(try_perform_builder_action(&mut g, action("nothing", None, None, None), red), Ok(()));
    assert_eq!(try_perform_builder_action(&mut g, action("build", None, None, None), red), Err(GameError::MissingTarget));
    assert_eq!(try_perform_builder_action(&mut g, action("build", None, Some(0), None), red), Err(GameError::MissingTargetX));
    assert_eq!(try_perform_builder_action(&mut g, action("build", Some(0), None, None), red), Err(GameError::MissingTargetY));
    assert_eq!(try_perform_builder_action(&mut g, action("build", Some(0), Some(9), None), red), Err(GameError::OutOfBounds));
    assert_eq!(try_perform_builder_action(&mut g, action("build", Some(0), Some(0), None), red), Err(GameError::MissingTowerType));
    assert_eq!(try_perform_builder_action(&mut g, action("build", Some(0), Some(0), Some("laser")), red), Err(GameError::UnknownTowerType));
    assert_eq!(
        try_perform_builder_action(&mut g, action("build", Some(0), Some(0), Some("cannon")), red),
        Err(GameError::InsufficientFunds { required: 5, available: 3 })
    );
    assert_eq!(
        try_perform_builder_action(&mut g, action("build", Some(1), Some(1), Some("crossbow")), red),
        Err(GameError::Occupied { x: 1, y: 1 })
    );
    assert_eq!(
        try_perform_builder_action(&mut g, action("recycle_tower", Some(0), Some(0), None), red),
        Err(GameError::NothingToRecycle { x: 0, y: 0 })
    );
    assert_eq!(
        try_perform_builder_action(&mut g, action("recycle_tower", Some(1), Some(1), None), red),
        Err(GameError::NotATower { x: 1, y: 1 })
    );
    assert_eq!(g.player(red).money, 3);
}

#[test]
fn build_then_recycle_refunds_half() {
    let mut g = new_game();
    let red = TeamColor::Red;
    assert_eq!(try_perform_builder_action(&mut g, action("build", Some(0), Some(2), Some("crossbow")), red), Ok(()));
    assert_eq!(g.player(red).money, 1);
    assert_eq!(g.player(red).towers.len(), 1);
    let key = g.occupant(pos(0, 2)).unwrap();
    assert_eq!(key.entity_type, EntityType::Tower);
    assert_eq!(key.uid, g.player(red).towers[0].uid);
    assert_eq!(try_perform_builder_action(&mut g, action("recycle_tower", Some(0), Some(2), None), red), Ok(()));
    assert_eq!(g.player(red).money, 2);
    assert!(g.player(red).towers.is_empty());
    assert_eq!(g.occupant(pos(0, 2)), None);
}

#[test]
fn red_builds_then_blue_is_refused_the_cell() {
    let mut g = new_game();
    let red = TeamColor::Red;
    let blue = TeamColor::Blue;
    assert_eq!(try_perform_builder_action(&mut g, action("build", Some(0), Some(0), Some("crossbow")), red), Ok(()));
    assert_eq!(g.player(red).money, INITIAL_MONEY - 2);
    assert_eq!(g.player(red).towers.len(), 1);
    assert_eq!(g.player(red).towers[0].position, pos(0, 0));
    let key = g.occupant(pos(0, 0)).unwrap();
    assert_eq!(key, EntityKey { uid: g.player(red).towers[0].uid, entity_type: EntityType::Tower });
    let r = try_perform_builder_action(&mut g, action("build", Some(0), Some(0), Some("crossbow")), blue);
    assert_eq!(r, Err(GameError::WrongTerritory));
    assert_eq!(g.player(red).money, 1);
    assert_eq!(g.player(blue).money, 3);
    assert_eq!(g.player(red).towers.len(), 1);
    assert!(g.player(blue).towers.is_empty());
    assert_eq!(g.occupant(pos(0, 0)), Some(key));
}

#[test]
fn blue_is_refused_an_occupied_cell_in_its_territory() {
    let mut g = new_game();
    let blue = TeamColor::Blue;
    assert_eq!(try_perform_builder_action(&mut g, action("build", Some(6), Some(0), Some("crossbow")), blue), Ok(()));
    let before = g.occupant(pos(6, 0));
    let r = try_perform_builder_action(&mut g, action("build", Some(6), Some(0), Some("crossbow")), blue);
    assert_eq!(r, Err(GameError::Occupied { x: 6, y: 0 }));
    assert_eq!(g.player(blue).money, 1);
    assert_eq!(g.player(blue).towers.len(), 1);
    assert_eq!(g.occupant(pos(6, 0)), before);
}

#[test]
fn queue_mercenary_stay_without_money_is_rejected() {
    let mut g = new_game();
    let red = TeamColor::Red;
    assert_eq!(try_perform_builder_action(&mut g, action("build", Some(0), Some(0), Some("crossbow")), red), Ok(()));
    assert!(g.player(red).money < MERCENARY_PRICE);
    assert!(try_queue_mercenary(&mut g, "X".to_string(), red).is_err());
    assert_eq!(g.player(red).money, 1);
    assert!(g.player(red).base.as_ref().unwrap().mercenaries_queued.is_empty());
}

#[test]
fn queue_mercenary_errors_and_success() {
    let mut g = new_game();
    let red = TeamColor::Red;
    assert_eq!(try_queue_mercenary(&mut g, "Q".to_string(), red), Err(GameError::InvalidDirection));
    assert_eq!(try_queue_mercenary(&mut g, "W".to_string(), red), Err(GameError::NotAPathTile));
    assert_eq!(try_queue_mercenary(&mut g, "X".to_string(), red), Err(GameError::NotAPathTile));
    assert_eq!(try_queue_mercenary(&mut g, "E".to_string(), red), Ok(()));
    assert_eq!(g.player(red).money, 0);
    let q: Vec<Position> = g.player(red).base.as_ref().unwrap().mercenaries_queued.iter().copied().collect();
    assert_eq!(q, vec![pos(2, 1)]);
    assert_eq!(
        try_queue_mercenary(&mut g, "E".to_string(), red),
        Err(GameError::InsufficientFunds { required: 3, available: 0 })
    );
    let mut far = GameState::new(rows(&["Orb"]), pos(1, 0), pos(2, 0), Vec::new()).unwrap();
    assert_eq!(try_queue_mercenary(&mut far, "N".to_string(), red), Err(GameError::OutOfBounds));
}

#[test]
fn queued_mercenary_appears_and_walks() {
    let mut g = new_game();
    let red = TeamColor::Red;
    assert_eq!(try_queue_mercenary(&mut g, "E".to_string(), red), Ok(()));
    assert_eq!(pop_mercenaries(&mut g), Ok(()));
    assert!(g.player(red).base.as_ref().unwrap().mercenaries_queued.is_empty());
    assert_eq!(g.player(red).mercenaries.len(), 1);
    let m = &g.player(red).mercenaries[0];
    assert_eq!(m.position, pos(2, 1));
    assert_eq!(m.path_to_enemy.len(), 6);
    assert_eq!(m.path_to_enemy[5], pos(5, 1));
    let uid = m.uid;
    assert_eq!(g.occupant(pos(2, 1)), Some(EntityKey { uid, entity_type: EntityType::Mercenary }));
    let next = m.get_desired_position();
    move_mercenaries(&mut g);
    let m = &g.player(red).mercenaries[0];
    assert_eq!(m.position, next);
    assert_eq!(m.path_to_enemy.len(), 5);
    assert_eq!(g.occupant(pos(2, 1)), None);
    assert_eq!(g.occupant(next), Some(EntityKey { uid, entity_type: EntityType::Mercenary }));
    for _ in 0..10 {
        move_mercenaries(&mut g);
    }
    let m = &g.player(red).mercenaries[0];
    assert_eq!(m.position, pos(4, 1));
    assert_eq!(m.path_to_enemy.len(), 2);
}

#[test]
fn contested_cell_keeps_both_mercenaries_in_place() {
    // a single corridor: the red and the blue mercenary both want (2, 0)
    let mut g = GameState::new(rows(&["rOOOb"]), pos(0, 0), pos(4, 0), Vec::new()).unwrap();
    assert_eq!(try_queue_mercenary(&mut g, "E".to_string(), TeamColor::Red), Ok(()));
    assert_eq!(try_queue_mercenary(&mut g, "W".to_string(), TeamColor::Blue), Ok(()));
    assert_eq!(pop_mercenaries(&mut g), Ok(()));
    assert_eq!(g.player(TeamColor::Red).mercenaries[0].position, pos(1, 0));
    assert_eq!(g.player(TeamColor::Blue).mercenaries[0].position, pos(3, 0));
    assert_eq!(g.player(TeamColor::Red).mercenaries[0].get_desired_position(), pos(2, 0));
    assert_eq!(g.player(TeamColor::Blue).mercenaries[0].get_desired_position(), pos(2, 0));
    move_mercenaries(&mut g);
    assert_eq!(g.player(TeamColor::Red).mercenaries[0].position, pos(1, 0));
    assert_eq!(g.player(TeamColor::Blue).mercenaries[0].position, pos(3, 0));
    assert_eq!(g.occupant(pos(2, 0)), None);
}

#[test]
fn mercenary_waits_while_its_cell_is_taken() {
    let mut g = GameState::new(rows(&["rOOOb"]), pos(0, 0), pos(4, 0), Vec::new()).unwrap();
    assert_eq!(g.add_enemy(pos(1, 0), TeamColor::Blue), Ok(()));
    assert_eq!(try_queue_mercenary(&mut g, "E".to_string(), TeamColor::Red), Ok(()));
    assert_eq!(pop_mercenaries(&mut g), Ok(()));
    assert!(g.player(TeamColor::Red).mercenaries.is_empty());
    assert_eq!(g.player(TeamColor::Red).base.as_ref().unwrap().mercenaries_queued.len(), 1);
}

#[test]
fn spawner_counts_down_and_releases_an_enemy() {
    let sp = vec![SpawnerFromMapfile { x: 3, y: 0, target: "r".to_string(), switch_target: true }];
    let mut g = GameState::new(small_map(), pos(1, 1), pos(5, 1), sp).unwrap();
    for turn in 1..10 {
        assert_eq!(pop_enemies(&mut g), Ok(()));
        assert_eq!(g.enemy_spawners()[0].reload_time_left, 10 - turn);
        assert!(g.enemies().is_empty());
    }
    assert_eq!(pop_enemies(&mut g), Ok(()));
    let s = g.enemy_spawners()[0];
    assert_eq!(s.reload_time_left, 10);
    assert_eq!(s.enemies_queued, 0);
    assert_eq!(s.target, TeamColor::Blue);
    assert_eq!(g.enemies().len(), 1);
    let e = &g.enemies()[0];
    assert_eq!(e.target, TeamColor::Red);
    assert!(adjacent(e.position, pos(3, 0)));
    assert_eq!(g.occupant(e.position).unwrap().entity_type, EntityType::Enemy);
}

#[test]
fn spawner_without_a_route_stops_the_update() {
    let sp = vec![SpawnerFromMapfile { x: 2, y: 0, target: "r".to_string(), switch_target: false }];
    let mut g = GameState::new(rows(&["rbOb"]), pos(0, 0), pos(3, 0), sp).unwrap();
    for _ in 1..10 {
        assert_eq!(pop_enemies(&mut g), Ok(()));
    }
    assert_eq!(pop_enemies(&mut g), Err(GameError::NoPath));
    assert_eq!(g.enemy_spawners()[0].reload_time_left, 10);
    assert_eq!(g.enemy_spawners()[0].enemies_queued, 1);
    assert!(g.enemies().is_empty());
}

#[test]
fn removing_entities_by_key() {
    let mut g = new_game();
    let red = TeamColor::Red;
    assert_eq!(g.add_tower("house".to_string(), pos(0, 0), red), Ok(()));
    let key = g.occupant(pos(0, 0)).unwrap();
    assert_eq!(g.remove_enemy(key), Err(GameError::MissingEntity { uid: key.uid }));
    assert_eq!(g.remove_mercenary(key), Err(GameError::MissingEntity { uid: key.uid }));
    assert_eq!(g.remove_tower(key), Ok(()));
    assert_eq!(g.remove_tower(key), Err(GameError::MissingEntity { uid: key.uid }));
    assert_eq!(g.occupant(pos(0, 0)), None);
    assert_eq!(g.add_enemy(pos(2, 1), red), Ok(()));
    let e = g.occupant(pos(2, 1)).unwrap();
    assert_eq!(e.entity_type, EntityType::Enemy);
    assert_eq!(g.enemies()[0].path_to_target.len(), 2);
    assert_eq!(g.remove_enemy(e), Ok(()));
    assert!(g.enemies().is_empty());
    assert_eq!(g.add_mercenary(TeamColor::Blue, pos(4, 1)), Ok(()));
    let m = g.occupant(pos(4, 1)).unwrap();
    assert_eq!(g.remove_mercenary(m), Ok(()));
    assert_eq!(g.occupant(pos(4, 1)), None);
}

#[test]
fn errors_tell_internal_faults_apart() {
    assert!(GameError::DanglingTower { uid: 1 }.is_internal());
    assert!(GameError::IdsExhausted.is_internal());
    assert!(GameError::NoPath.is_internal());
    assert!(!GameError::WrongTerritory.is_internal());
    assert!(!GameError::InsufficientFunds { required: 1, available: 0 }.is_internal());
}
