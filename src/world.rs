use vstd::prelude::*;
use crate::entities::{
    desired_position, Enemy, EnemySpawner, Mercenary, ENEMY_INITIAL_HP, ENEMY_SPAWNER_RELOAD_TURNS,
    MERCENARY_INITIAL_HP,
};
use crate::errors::GameError;
use crate::game::{same_but_queue, stepped, GameState, GameView, PlayerView};
use crate::pathfinder::{compute_path_to_enemy, is_route, shortest_route};
use crate::types::{Position, TeamColor};

verus! {

/// The cell that each mercenary of `team` wants to enter this tick.
pub open spec fn mercenary_desires(v: GameView, team: TeamColor) -> Seq<Position> {
    v.player(team).mercenaries.map_values(
        |m: Mercenary| desired_position(m.position, m.path_to_enemy@),
    )
}

/// Whether no mercenary but number `j` of `team` wants to enter `d`.
pub open spec fn sole_claim(v: GameView, team: TeamColor, j: int, d: Position) -> bool {
    &&& forall|k: int|
        0 <= k < mercenary_desires(v, TeamColor::Red).len() && !(team == TeamColor::Red && k == j)
            ==> #[trigger] mercenary_desires(v, TeamColor::Red)[k] != d
    &&& forall|k: int|
        0 <= k < mercenary_desires(v, TeamColor::Blue).len() && !(team == TeamColor::Blue && k
            == j) ==> #[trigger] mercenary_desires(v, TeamColor::Blue)[k] != d
}

/// Whether mercenary `j` of `team` steps this tick: it wants to leave its
/// cell for one that is free at the start of the tick and that no other
/// mercenary, of either team, wants.
pub open spec fn mercenary_moves(v: GameView, team: TeamColor, j: int) -> bool {
    let m = v.player(team).mercenaries[j];
    let d = desired_position(m.position, m.path_to_enemy@);
    &&& d != m.position
    &&& !v.entity_position.contains_key(d)
    &&& sole_claim(v, team, j, d)
}

/// Mercenary `j` of `team` in `v1` is mercenary `j` in `v0` after the tick:
/// one step further when it moves, unchanged otherwise.
pub open spec fn mercenary_after_tick(v0: GameView, v1: GameView, team: TeamColor, j: int) -> bool {
    let m0 = v0.player(team).mercenaries[j];
    let m1 = v1.player(team).mercenaries[j];
    if mercenary_moves(v0, team, j) {
        &&& stepped(m0.position, m0.path_to_enemy@, m1.position, m1.path_to_enemy@)
        &&& m1.uid == m0.uid
        &&& m1.hp == m0.hp
        &&& m1.team_color == m0.team_color
    } else {
        m1 == m0
    }
}

/// The desired cells of the mercenaries of `team`.
fn desires_of(game_state: &GameState, team: TeamColor) -> (r: Vec<Position>)
    ensures
        r@ == mercenary_desires(game_state@, team),
{
    let ms = &game_state.player(team).mercenaries;
    let mut r: Vec<Position> = Vec::new();
    let mut i: usize = 0;
    while i < ms.len()
        invariant
            ms@ == game_state@.player(team).mercenaries,
            i <= ms@.len(),
            r@ =~= mercenary_desires(game_state@, team).subrange(0, i as int),
        decreases ms@.len() - i,
    {
        r.push(ms[i].get_desired_position());
        i = i + 1;
    }
    r
}

/// For each cell of `ds`, whether it was free when the tick began.
fn free_cells(game_state: &GameState, ds: &Vec<Position>) -> (r: Vec<bool>)
    requires
        game_state.wf(),
    ensures
        r@.len() == ds@.len(),
        forall|k: int| 0 <= k < ds@.len() ==> #[trigger] r@[k] == !game_state@.entity_position.contains_key(ds@[k]),
{
    let mut r: Vec<bool> = Vec::new();
    let mut k: usize = 0;
    while k < ds.len()
        invariant
            game_state.wf(),
            k <= ds@.len(),
            r@.len() == k,
            forall|j: int| 0 <= j < k ==> #[trigger] r@[j] == !game_state@.entity_position.contains_key(ds@[j]),
        decreases ds@.len() - k,
    {
        r.push(game_state.occupant(ds[k]).is_none());
        k = k + 1;
    }
    r
}

/// Whether `d` appears in `ds` anywhere but at `skip` (when given).
fn claimed_elsewhere(ds: &Vec<Position>, skip: Option<usize>, d: Position) -> (r: bool)
    ensures
        r == exists|k: int|
            0 <= k < ds@.len() && skip != Some(k as usize) && #[trigger] ds@[k] == d,
{
    let mut k: usize = 0;
    while k < ds.len()
        invariant
            k <= ds@.len(),
            forall|j: int| 0 <= j < k && skip != Some(j as usize) ==> #[trigger] ds@[j] != d,
        decreases ds@.len() - k,
    {
        if ds[k] == d && skip != Some(k) {
            return true;
        }
        k = k + 1;
    }
    false
}

/// The mercenaries after a tick of movement (see `move_mercenaries`).
pub open spec fn mercenaries_moved(v0: GameView, v1: GameView) -> bool {
    &&& forall|team: TeamColor| #[trigger]
        v1.player(team).mercenaries.len() == v0.player(team).mercenaries.len()
    &&& forall|team: TeamColor, j: int|
        0 <= j < v0.player(team).mercenaries.len() ==> #[trigger] mercenary_after_tick(
            v0,
            v1,
            team,
            j,
        )
    &&& v1 == (GameView {
        red: PlayerView { mercenaries: v1.red.mercenaries, ..v0.red },
        blue: PlayerView { mercenaries: v1.blue.mercenaries, ..v0.blue },
        entity_position: v1.entity_position,
        ..v0
    })
}

/// Moves every mercenary whose step this tick is uncontested (see
/// `mercenary_moves`); the others stay. Whether a mercenary moves depends
/// only on the state at the start of the tick, so the order in which the
/// tables are walked does not matter.
pub fn move_mercenaries(game_state: &mut GameState)
    requires
        old(game_state).wf(),
    ensures
        final(game_state).wf(),
        mercenaries_moved(old(game_state)@, final(game_state)@),
{
    let ghost v0 = game_state@;
    let red_d = desires_of(game_state, TeamColor::Red);
    let blue_d = desires_of(game_state, TeamColor::Blue);
    let red_free = free_cells(game_state, &red_d);
    let blue_free = free_cells(game_state, &blue_d);
    let ghost v0 = game_state@;
    let mut pass: usize = 0;
    while pass < 2
        invariant
            game_state.wf(),
            pass <= 2,
            v0 == old(game_state)@,
            red_d@ == mercenary_desires(v0, TeamColor::Red),
            blue_d@ == mercenary_desires(v0, TeamColor::Blue),
            red_free@.len() == red_d@.len(),
            blue_free@.len() == blue_d@.len(),
            forall|k: int| 0 <= k < red_d@.len() ==> #[trigger] red_free@[k] == !v0.entity_position.contains_key(red_d@[k]),
            forall|k: int| 0 <= k < blue_d@.len() ==> #[trigger] blue_free@[k] == !v0.entity_position.contains_key(blue_d@[k]),
            forall|team: TeamColor| #[trigger]
                game_state@.player(team).mercenaries.len() == v0.player(team).mercenaries.len(),
            forall|team: TeamColor, j: int|
                0 <= j < v0.player(team).mercenaries.len() ==> (if (pass >= 1 && team == TeamColor::Red) || pass >= 2 {
                    mercenary_after_tick(v0, game_state@, team, j)
                } else {
                    #[trigger] game_state@.player(team).mercenaries[j] == v0.player(team).mercenaries[j]
                }),
            forall|team: TeamColor, j: int|
                0 <= j < v0.player(team).mercenaries.len() && !((pass >= 1 && team == TeamColor::Red) || pass >= 2)
                    && #[trigger] mercenary_moves(v0, team, j) ==> !game_state@.entity_position.contains_key(
                    mercenary_desires(v0, team)[j],
                ),
            game_state@ == (GameView {
                red: PlayerView { mercenaries: game_state@.red.mercenaries, ..v0.red },
                blue: PlayerView { mercenaries: game_state@.blue.mercenaries, ..v0.blue },
                entity_position: game_state@.entity_position,
                ..v0
            }),
        decreases 2 - pass,
    {
        let team = if pass == 0 {
            TeamColor::Red
        } else {
            TeamColor::Blue
        };
        let n = game_state.player(team).mercenaries.len();
        let mut i: usize = 0;
        while i < n
            invariant
                game_state.wf(),
                pass < 2,
                team == (if pass == 0 { TeamColor::Red } else { TeamColor::Blue }),
                n == v0.player(team).mercenaries.len(),
                i <= n,
                v0 == old(game_state)@,
                red_d@ == mercenary_desires(v0, TeamColor::Red),
                blue_d@ == mercenary_desires(v0, TeamColor::Blue),
                red_free@.len() == red_d@.len(),
                blue_free@.len() == blue_d@.len(),
                forall|k: int| 0 <= k < red_d@.len() ==> #[trigger] red_free@[k] == !v0.entity_position.contains_key(red_d@[k]),
                forall|k: int| 0 <= k < blue_d@.len() ==> #[trigger] blue_free@[k] == !v0.entity_position.contains_key(blue_d@[k]),
                forall|t: TeamColor| #[trigger]
                    game_state@.player(t).mercenaries.len() == v0.player(t).mercenaries.len(),
                forall|t: TeamColor, j: int|
                    0 <= j < v0.player(t).mercenaries.len() ==> (if (pass >= 1 && t == TeamColor::Red) || (t == team && j < i) {
                        mercenary_after_tick(v0, game_state@, t, j)
                    } else {
                        #[trigger] game_state@.player(t).mercenaries[j] == v0.player(t).mercenaries[j]
                    }),
                forall|t: TeamColor, j: int|
                    0 <= j < v0.player(t).mercenaries.len() && !((pass >= 1 && t == TeamColor::Red) || (t == team && j < i))
                        && #[trigger] mercenary_moves(v0, t, j) ==> !game_state@.entity_position.contains_key(
                        mercenary_desires(v0, t)[j],
                    ),
                game_state@ == (GameView {
                    red: PlayerView { mercenaries: game_state@.red.mercenaries, ..v0.red },
                    blue: PlayerView { mercenaries: game_state@.blue.mercenaries, ..v0.blue },
                    entity_position: game_state@.entity_position,
                    ..v0
                }),
            decreases n - i,
        {
            let ghost before = game_state@;
            let (ds, skip_red, skip_blue) = if pass == 0 {
                (&red_d, Some(i), None)
            } else {
                (&blue_d, None, Some(i))
            };
            let d = ds[i];
            let m = &game_state.player(team).mercenaries[i];
            let pos = m.position;
            let free = if pass == 0 {
                red_free[i]
            } else {
                blue_free[i]
            };
            let ghost m0 = v0.player(team).mercenaries[i as int];
            proof {
                assert(m0 == before.player(team).mercenaries[i as int]);
                assert(mercenary_desires(v0, team)[i as int] == desired_position(m0.position, m0.path_to_enemy@));
            }
            let contested = claimed_elsewhere(&red_d, skip_red, d) || claimed_elsewhere(&blue_d, skip_blue, d);
            let ghost moves = mercenary_moves(v0, team, i as int);
            proof {
                if moves {
                    assert(!before.entity_position.contains_key(d));
                }
            }
            if d != pos && free && !contested {
                proof {
                    assert(sole_claim(v0, team, i as int, d));
                    assert(moves);
                    assert(!v0.entity_position.contains_key(d));
                }
                proof {
                    assert(!before.entity_position.contains_key(d));
                }
                let r = game_state.move_mercenary(team, i);
                proof {
                    let v1 = game_state@;
                    assert forall|t: TeamColor| #[trigger] v1.player(t).mercenaries.len() == v0.player(t).mercenaries.len() by {
                        assert(before.player(t).mercenaries.len() == v0.player(t).mercenaries.len());
                    }
                    assert forall|t: TeamColor, j: int|
                        0 <= j < v0.player(t).mercenaries.len() && !((pass >= 1 && t == TeamColor::Red) || (t == team && j < i + 1))
                            && #[trigger] mercenary_moves(v0, t, j) implies !v1.entity_position.contains_key(
                            mercenary_desires(v0, t)[j],
                        ) by {
                        let dj = mercenary_desires(v0, t)[j];
                        assert(!before.entity_position.contains_key(dj));
                        assert(dj != d);
                    }
                    assert forall|t: TeamColor, j: int|
                        0 <= j < v0.player(t).mercenaries.len() implies (if (pass >= 1 && t == TeamColor::Red) || (t == team && j < i + 1) {
                            mercenary_after_tick(v0, v1, t, j)
                        } else {
                            #[trigger] v1.player(t).mercenaries[j] == v0.player(t).mercenaries[j]
                        }) by {
                        if t != team || j != i {
                            assert(v1.player(t).mercenaries[j] == before.player(t).mercenaries[j]);
                        }
                    }
                }
            } else {
                proof {
                    if moves {
                        assert(sole_claim(v0, team, i as int, d));
                        if team == TeamColor::Red {
                            assert(forall|k: int| 0 <= k < red_d@.len() && skip_red != Some(k as usize) ==> #[trigger] red_d@[k] != d);
                            assert(forall|k: int| 0 <= k < blue_d@.len() && skip_blue != Some(k as usize) ==> #[trigger] blue_d@[k] != d);
                        } else {
                            assert(forall|k: int| 0 <= k < red_d@.len() && skip_red != Some(k as usize) ==> #[trigger] red_d@[k] != d);
                            assert(forall|k: int| 0 <= k < blue_d@.len() && skip_blue != Some(k as usize) ==> #[trigger] blue_d@[k] != d);
                        }
                    }
                    assert(!moves);
                }
            }
            i = i + 1;
        }
        pass = pass + 1;
    }
}

/// The cell that each enemy wants to enter this step.
pub open spec fn enemy_desires(v: GameView) -> Seq<Position> {
    v.enemies.map_values(|e: Enemy| desired_position(e.position, e.path_to_target@))
}

/// Whether enemy `j` steps: it wants to leave its cell for one that is free
/// at the start of the step and that no other enemy wants.
pub open spec fn enemy_moves(v: GameView, j: int) -> bool {
    let e = v.enemies[j];
    let d = desired_position(e.position, e.path_to_target@);
    &&& d != e.position
    &&& !v.entity_position.contains_key(d)
    &&& forall|k: int| 0 <= k < v.enemies.len() && k != j ==> #[trigger] enemy_desires(v)[k] != d
}

/// Enemy `j` in `v1` is enemy `j` of `v0` after the step.
pub open spec fn enemy_after_step(v0: GameView, v1: GameView, j: int) -> bool {
    let e0 = v0.enemies[j];
    let e1 = v1.enemies[j];
    if enemy_moves(v0, j) {
        &&& stepped(e0.position, e0.path_to_target@, e1.position, e1.path_to_target@)
        &&& e1.uid == e0.uid
        &&& e1.hp == e0.hp
        &&& e1.target == e0.target
    } else {
        e1 == e0
    }
}

/// The enemies after a step of movement (see `move_enemies`).
pub open spec fn enemies_moved(v0: GameView, v1: GameView) -> bool {
    &&& v1.enemies.len() == v0.enemies.len()
    &&& forall|j: int| 0 <= j < v0.enemies.len() ==> #[trigger] enemy_after_step(v0, v1, j)
    &&& v1 == (GameView {
        enemies: v1.enemies,
        entity_position: v1.entity_position,
        ..v0
    })
}

/// Moves every enemy whose step is uncontested (see `enemy_moves`); the
/// others stay. As with mercenaries, the outcome does not depend on the
/// order of the table.
pub fn move_enemies(game_state: &mut GameState)
    requires
        old(game_state).wf(),
    ensures
        final(game_state).wf(),
        enemies_moved(old(game_state)@, final(game_state)@),
{
    let ghost v0 = game_state@;
    let mut ds: Vec<Position> = Vec::new();
    let mut k: usize = 0;
    while k < game_state.enemies().len()
        invariant
            game_state@ == v0,
            k <= v0.enemies.len(),
            ds@ =~= enemy_desires(v0).subrange(0, k as int),
        decreases v0.enemies.len() - k,
    {
        ds.push(game_state.enemies()[k].get_desired_position());
        k = k + 1;
    }
    proof {
        assert(ds@ =~= enemy_desires(v0));
    }
    let free = free_cells(game_state, &ds);
    let n = game_state.enemies().len();
    let mut i: usize = 0;
    while i < n
        invariant
            game_state.wf(),
            n == v0.enemies.len(),
            i <= n,
            ds@ == enemy_desires(v0),
            free@.len() == ds@.len(),
            forall|k: int| 0 <= k < ds@.len() ==> #[trigger] free@[k] == !v0.entity_position.contains_key(ds@[k]),
            game_state@.enemies.len() == n,
            forall|j: int|
                0 <= j < n ==> (if j < i {
                    enemy_after_step(v0, game_state@, j)
                } else {
                    #[trigger] game_state@.enemies[j] == v0.enemies[j]
                }),
            forall|j: int|
                i <= j < n && #[trigger] enemy_moves(v0, j) ==> !game_state@.entity_position.contains_key(
                    enemy_desires(v0)[j],
                ),
            game_state@ == (GameView {
                enemies: game_state@.enemies,
                entity_position: game_state@.entity_position,
                ..v0
            }),
        decreases n - i,
    {
        let ghost before = game_state@;
        let d = ds[i];
        let pos = game_state.enemies()[i].position;
        let ghost e0 = v0.enemies[i as int];
        proof {
            assert(e0 == before.enemies[i as int]);
            assert(enemy_desires(v0)[i as int] == desired_position(e0.position, e0.path_to_target@));
        }
        let contested = claimed_elsewhere(&ds, Some(i), d);
        if d != pos && free[i] && !contested {
            proof {
                assert(enemy_moves(v0, i as int));
                assert(!before.entity_position.contains_key(d));
            }
            let _ = game_state.move_enemy(i);
            proof {
                let v1 = game_state@;
                assert forall|j: int|
                    i + 1 <= j < n && #[trigger] enemy_moves(v0, j) implies !v1.entity_position.contains_key(
                        enemy_desires(v0)[j],
                    ) by {
                    let dj = enemy_desires(v0)[j];
                    assert(!before.entity_position.contains_key(dj));
                    assert(dj != d);
                }
                assert forall|j: int| 0 <= j < n implies (if j < i + 1 {
                    enemy_after_step(v0, v1, j)
                } else {
                    #[trigger] v1.enemies[j] == v0.enemies[j]
                }) by {
                    if j != i {
                        assert(v1.enemies[j] == before.enemies[j]);
                    }
                }
            }
        } else {
            proof {
                if enemy_moves(v0, i as int) {
                    assert(forall|k: int| 0 <= k < ds@.len() && Some(i) != Some(k as usize) ==> #[trigger] ds@[k] != d);
                }
                assert(!enemy_moves(v0, i as int));
            }
        }
        i = i + 1;
    }
}

/// The countdown and the queue of a spawner after one tick: the countdown
/// falls by one; on reaching zero it starts again and one more enemy is due.
pub open spec fn spawner_tick(s: EnemySpawner) -> (u32, u32) {
    if s.reload_time_left <= 1 {
        (
            ENEMY_SPAWNER_RELOAD_TURNS,
            if s.enemies_queued == u32::MAX {
                u32::MAX
            } else {
                (s.enemies_queued + 1) as u32
            },
        )
    } else {
        ((s.reload_time_left - 1) as u32, s.enemies_queued)
    }
}

/// The target of a spawner after it released an enemy.
pub open spec fn next_target(s: EnemySpawner) -> TeamColor {
    if s.switch_target {
        s.target.spec_opponent()
    } else {
        s.target
    }
}

/// Spawner `i` after one tick, when it released an enemy (`released`) or not.
pub open spec fn spawner_after(s: EnemySpawner, released: bool) -> EnemySpawner {
    let (reload, queued) = spawner_tick(s);
    if released {
        EnemySpawner {
            reload_time_left: reload,
            enemies_queued: (queued - 1) as u32,
            target: next_target(s),
            ..s
        }
    } else {
        EnemySpawner { reload_time_left: reload, enemies_queued: queued, ..s }
    }
}

/// What a tick of spawner `s` answers: whether an enemy appeared, or why the
/// update stops. An enemy is due when the countdown (see `spawner_tick`)
/// leaves one queued; it appears on the second cell of the route from the
/// spawner to its target base (see `shortest_route`), unless that cell is
/// taken, in which case it stays due.
pub open spec fn release_result(v: GameView, s: EnemySpawner) -> Result<bool, GameError> {
    if spawner_tick(s).1 == 0 {
        Ok(false)
    } else {
        match v.base_position(s.target) {
            None => Err(GameError::NoBase),
            Some(goal) => if !exists|q: Seq<Position>| is_route(v.floor_tiles, s.position, goal, q) {
                Err(GameError::NoPath)
            } else {
                let q = shortest_route(v.floor_tiles, s.position, goal);
                if q.len() < 2 {
                    Ok(false)
                } else {
                    match v.enemy_spawn_check(q[1], s.target) {
                        Ok(_) => Ok(true),
                        Err(GameError::Occupied { .. }) => Ok(false),
                        Err(e) => Err(e),
                    }
                }
            },
        }
    }
}

/// What `pop_enemy` does to spawner `i` of `v0`: `r` and `v1` are its result
/// and the match after it. The countdown always runs; when an enemy appears
/// it joins the enemy table and the index, the spawner's queue shrinks by
/// one and its target switches if it should.
pub open spec fn pop_enemy_rel(v0: GameView, i: int, r: Result<bool, GameError>, v1: GameView) -> bool {
    let s0 = v0.enemy_spawners[i];
    let goal = v0.base_position(s0.target)->Some_0;
    let cell = shortest_route(v0.floor_tiles, s0.position, goal)[1];
    let e = v1.enemies.last();
    &&& 0 <= i < v0.enemy_spawners.len()
    &&& r == release_result(v0, s0)
    &&& r != Ok::<bool, GameError>(true) ==> v1 == (GameView {
        enemy_spawners: v0.enemy_spawners.update(i, spawner_after(s0, false)),
        ..v0
    })
    &&& r == Ok::<bool, GameError>(true) ==> {
        &&& v1 == (GameView {
            enemy_spawners: v0.enemy_spawners.update(i, spawner_after(s0, true)),
            ..v0.with_enemy(e)
        })
        &&& e.uid == v0.next_uid
        &&& e.position == cell
        &&& e.hp == ENEMY_INITIAL_HP
        &&& e.target == s0.target
        &&& e.path_to_target@ == shortest_route(v0.floor_tiles, cell, goal)
    }
}

/// Runs the countdown of spawner `i` and, when an enemy is due, releases it
/// (see `release_result`). Answers whether an enemy appeared.
pub fn pop_enemy(game_state: &mut GameState, i: usize) -> (r: Result<bool, GameError>)
    requires
        old(game_state).wf(),
        i < old(game_state)@.enemy_spawners.len(),
    ensures
        final(game_state).wf(),
        pop_enemy_rel(old(game_state)@, i as int, r, final(game_state)@),
{
    let ghost v0 = game_state@;
    let s = game_state.enemy_spawners()[i];
    let (reload, queued) = if s.reload_time_left <= 1 {
        (ENEMY_SPAWNER_RELOAD_TURNS, s.enemies_queued.saturating_add(1))
    } else {
        (s.reload_time_left - 1, s.enemies_queued)
    };
    game_state.set_spawner_state(i, reload, queued, s.target);
    proof {
        assert(s == v0.enemy_spawners[i as int]);
        assert(spawner_tick(s) == (reload, queued));
        assert(game_state@ == (GameView {
            enemy_spawners: v0.enemy_spawners.update(i as int, spawner_after(s, false)),
            ..v0
        }));
    }
    if queued == 0 {
        return Ok(false);
    }
    let target = match &game_state.player(s.target).base {
        Some(b) => b.position,
        None => {
            return Err(GameError::NoBase);
        },
    };
    proof {
        assert(v0.base_position(s.target) == Some(target));
    }
    let route = match compute_path_to_enemy(s.position, game_state.floor_tiles(), target) {
        Ok(route) => route,
        Err(_) => {
            return Err(GameError::NoPath);
        },
    };
    proof {
        assert(exists|q: Seq<Position>| is_route(v0.floor_tiles, s.position, target, q));
    }
    if route.len() < 2 {
        return Ok(false);
    }
    let cell = route[1];
    let ghost mid = game_state@;
    proof {
        assert(cell == shortest_route(v0.floor_tiles, s.position, target)[1]);
        assert(mid.enemy_spawn_check(cell, s.target) == v0.enemy_spawn_check(cell, s.target));
    }
    match game_state.add_enemy(cell, s.target) {
        Ok(()) => {},
        Err(e) => {
            match e {
                GameError::Occupied { .. } => {
                    return Ok(false);
                },
                _ => {
                    return Err(e);
                },
            }
        },
    }
    let ghost added = game_state@;
    let next = if s.switch_target {
        s.target.opponent()
    } else {
        s.target
    };
    game_state.set_spawner_state(i, reload, queued - 1, next);
    proof {
        let e = added.enemies.last();
        assert(added == mid.with_enemy(e));
        assert(game_state@.enemies.last() == e);
        assert(game_state@.enemy_spawners =~= v0.enemy_spawners.update(i as int, spawner_after(s, true)));
    }
    Ok(true)
}

/// A run of the spawners from `v0`: `vs` are the states before each
/// spawner's tick (and after the last), `rs` whether each released an
/// enemy; on an error the run stops at the spawner that raised it.
pub open spec fn spawner_run(
    v0: GameView,
    vs: Seq<GameView>,
    rs: Seq<bool>,
    r: Result<(), GameError>,
    v1: GameView,
) -> bool {
    &&& vs.len() == rs.len() + 1
    &&& vs[0] == v0
    &&& forall|j: int|
        0 <= j < rs.len() ==> pop_enemy_rel(vs[j], j, Ok::<bool, GameError>(#[trigger] rs[j]), vs[j + 1])
    &&& match r {
        Ok(()) => rs.len() == v0.enemy_spawners.len() && v1 == vs.last(),
        Err(e) => rs.len() < v0.enemy_spawners.len() && pop_enemy_rel(
            vs.last(),
            rs.len() as int,
            Err::<bool, GameError>(e),
            v1,
        ),
    }
}

/// The spawners after a tick (see `pop_enemies`): each in table order runs
/// its countdown and releases what is due, as `pop_enemy` states.
pub open spec fn spawners_ran(v0: GameView, r: Result<(), GameError>, v1: GameView) -> bool {
    exists|vs: Seq<GameView>, rs: Seq<bool>| #[trigger] spawner_run(v0, vs, rs, r, v1)
}

/// Runs every spawner for one tick, in table order (see `pop_enemy`); stops
/// at the first spawner whose due enemy cannot be placed for a reason other
/// than a taken cell.
pub fn pop_enemies(game_state: &mut GameState) -> (r: Result<(), GameError>)
    requires
        old(game_state).wf(),
    ensures
        final(game_state).wf(),
        spawners_ran(old(game_state)@, r, final(game_state)@),
{
    let ghost v0 = game_state@;
    let ghost mut vs: Seq<GameView> = seq![v0];
    let ghost mut rs: Seq<bool> = Seq::empty();
    let n = game_state.enemy_spawners().len();
    let mut i: usize = 0;
    while i < n
        invariant
            game_state.wf(),
            v0 == old(game_state)@,
            n == v0.enemy_spawners.len(),
            i <= n,
            game_state@.enemy_spawners.len() == n,
            vs.len() == i + 1,
            rs.len() == i,
            vs[0] == v0,
            vs.last() == game_state@,
            forall|j: int|
                0 <= j < rs.len() ==> pop_enemy_rel(vs[j], j, Ok::<bool, GameError>(#[trigger] rs[j]), vs[j + 1]),
        decreases n - i,
    {
        let ghost before = game_state@;
        match pop_enemy(game_state, i) {
            Ok(b) => {
                proof {
                    let vs2 = vs.push(game_state@);
                    let rs2 = rs.push(b);
                    assert forall|j: int| 0 <= j < rs2.len() implies pop_enemy_rel(vs2[j], j, Ok::<bool, GameError>(#[trigger] rs2[j]), vs2[j + 1]) by {
                        if j < rs.len() {
                            assert(vs2[j] == vs[j] && vs2[j + 1] == vs[j + 1] && rs2[j] == rs[j]);
                        } else {
                            assert(vs2[j] == before && vs2[j + 1] == game_state@);
                        }
                    }
                    vs = vs2;
                    rs = rs2;
                }
            },
            Err(e) => {
                proof {
                    assert(spawner_run(v0, vs, rs, Err(e), game_state@));
                }
                return Err(e);
            },
        }
        i = i + 1;
    }
    proof {
        assert(spawner_run(v0, vs, rs, Ok(()), game_state@));
    }
    Ok(())
}

/// The first pending mercenary of `team` left the queue of its base and
/// stands on the board as `m`, routed along a shortest route.
pub open spec fn spawned(v0: GameView, team: TeamColor, v1: GameView) -> bool {
    let m = v1.player(team).mercenaries.last();
    let mid = v0.with_mercenary(m);
    let b0 = v0.player(team).base->Some_0;
    let b1 = v1.player(team).base->Some_0;
    let p = b0.mercenaries_queued@[0];
    let target = v0.base_position(team.spec_opponent())->Some_0;
    &&& v1.player(team).base is Some
    &&& same_but_queue(b0, b1)
    &&& b1.mercenaries_queued@ == b0.mercenaries_queued@.drop_first()
    &&& v1 == mid.with_player(team, PlayerView { base: Some(b1), ..mid.player(team) })
    &&& m.uid == v0.next_uid
    &&& m.position == p
    &&& m.hp == MERCENARY_INITIAL_HP
    &&& m.team_color == team
    &&& m.path_to_enemy@ == shortest_route(v0.floor_tiles, p, target)
    &&& is_route(v0.floor_tiles, p, target, m.path_to_enemy@)
    &&& forall|q: Seq<Position>|
        is_route(v0.floor_tiles, p, target, q) ==> m.path_to_enemy@.len() <= q.len()
}

/// The outcome of bringing the first pending mercenary of `team` onto the
/// board: it appears when it may (see `spawn_check`); it stays queued while
/// its cell is taken; any other obstacle is an error.
pub open spec fn popped(v0: GameView, team: TeamColor, v1: GameView, r: Result<bool, GameError>) -> bool {
    match v0.player(team).base {
        None => r == Err::<bool, GameError>(GameError::NoBase) && v1 == v0,
        Some(b) => {
            let q = b.mercenaries_queued@;
            if q.len() == 0 {
                r == Ok::<bool, GameError>(false) && v1 == v0
            } else {
                match v0.spawn_check(team, q[0]) {
                    Ok(_) => r == Ok::<bool, GameError>(true) && spawned(v0, team, v1),
                    Err(GameError::Occupied { .. }) => r == Ok::<bool, GameError>(false) && v1 == v0,
                    Err(e) => r == Err::<bool, GameError>(e) && v1 == v0,
                }
            }
        },
    }
}

/// Brings the first pending mercenary of `team` onto the board, if it may
/// appear; answers whether one did.
pub fn pop_mercenary(game_state: &mut GameState, team: TeamColor) -> (r: Result<bool, GameError>)
    requires
        old(game_state).wf(),
    ensures
        final(game_state).wf(),
        popped(old(game_state)@, team, final(game_state)@, r),
{
    let p = match &game_state.player(team).base {
        None => {
            return Err(GameError::NoBase);
        },
        Some(b) => {
            if b.mercenaries_queued.len() == 0 {
                return Ok(false);
            }
            b.mercenaries_queued[0]
        },
    };
    match game_state.add_mercenary(team, p) {
        Ok(()) => {},
        Err(GameError::Occupied { .. }) => {
            return Ok(false);
        },
        Err(e) => {
            return Err(e);
        },
    }
    let ghost mid = game_state@;
    let ghost m = mid.player(team).mercenaries.last();
    let _ = game_state.dequeue_mercenary(team);
    proof {
        let v1 = game_state@;
        assert(v1.player(team).mercenaries.last() == m);
    }
    Ok(true)
}

/// The outcome of `pop_mercenaries`: the blue base, then the red one,
/// brings out its first pending mercenary (see `popped`).
pub open spec fn mercenaries_popped(v0: GameView, r: Result<(), GameError>, v1: GameView) -> bool {
    match r {
        Ok(()) => exists|mid: GameView, a: bool, b: bool|
            popped(v0, TeamColor::Blue, mid, Ok(a)) && popped(
                mid,
                TeamColor::Red,
                v1,
                Ok(b),
            ),
        Err(e) => popped(v0, TeamColor::Blue, v1, Err(e))
            || exists|mid: GameView, a: bool|
            popped(v0, TeamColor::Blue, mid, Ok(a)) && popped(
                mid,
                TeamColor::Red,
                v1,
                Err(e),
            ),
    }
}

/// Brings one pending mercenary of each team onto the board where one may
/// appear, blue first, then red (see `pop_mercenary`).
pub fn pop_mercenaries(game_state: &mut GameState) -> (r: Result<(), GameError>)
    requires
        old(game_state).wf(),
    ensures
        final(game_state).wf(),
        mercenaries_popped(old(game_state)@, r, final(game_state)@),
{
    let a = match pop_mercenary(game_state, TeamColor::Blue) {
        Ok(a) => a,
        Err(e) => {
            return Err(e);
        },
    };
    let ghost mid = game_state@;
    match pop_mercenary(game_state, TeamColor::Red) {
        Ok(b) => {
            assert(popped(mid, TeamColor::Red, game_state@, Ok(b)));
            Ok(())
        },
        Err(e) => {
            assert(popped(mid, TeamColor::Red, game_state@, Err(e)));
            Err(e)
        },
    }
}

} // verus!
