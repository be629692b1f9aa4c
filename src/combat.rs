use vstd::prelude::*;
use crate::entities::{Enemy, Mercenary, Tower, ENEMY_ATTACK_POWER, MERCENARY_ATTACK_POWER};
use crate::game::{GameState, GameView, PlayerView};
use crate::grid::count_in;
use crate::types::{Position, TeamColor};

verus! {

/// A unit whose route holds only its own cell and its target's: it stands
/// next to the base it marches on, and strikes it each tick.
pub open spec fn at_target(path: Seq<Position>) -> bool {
    path.len() <= 2
}

/// How many mercenaries of `team` strike the other base this tick.
pub open spec fn mercenary_strikers(v: GameView, team: TeamColor) -> nat {
    count_in(v.player(team).mercenaries, |m: Mercenary| at_target(m.path_to_enemy@))
}

/// How many enemies strike the base of `team` this tick.
pub open spec fn enemy_strikers(v: GameView, team: TeamColor) -> nat {
    count_in(v.enemies, |e: Enemy| e.target == team && at_target(e.path_to_target@))
}

/// The damage that `n` strikes of `power` deal together, capped at the
/// largest amount.
pub open spec fn volley(n: nat, power: u32) -> u32 {
    if n * power > u32::MAX {
        u32::MAX
    } else {
        (n * power) as u32
    }
}

fn volley_of(n: usize, power: u32) -> (r: u32)
    requires
        power > 0,
    ensures
        r == volley(n as nat, power),
{
    if n > (u32::MAX / power) as usize {
        proof {
            assert(n * power > u32::MAX) by (nonlinear_arith)
                requires
                    n > u32::MAX / power,
                    power > 0,
            ;
        }
        u32::MAX
    } else {
        proof {
            assert(n * power <= u32::MAX) by (nonlinear_arith)
                requires
                    n <= u32::MAX / power,
                    power > 0,
            ;
        }
        (n as u32) * power
    }
}

proof fn lemma_count_prefix<T>(s: Seq<T>, f: spec_fn(T) -> bool, i: int)
    requires
        0 <= i < s.len(),
    ensures
        count_in(s.subrange(0, i + 1), f) == count_in(s.subrange(0, i), f) + if f(s[i]) {
            1nat
        } else {
            0nat
        },
{
    assert(s.subrange(0, i + 1).drop_last() =~= s.subrange(0, i));
}

fn count_mercenary_strikers(game_state: &GameState, team: TeamColor) -> (r: usize)
    ensures
        r == mercenary_strikers(game_state@, team),
{
    let ms = &game_state.player(team).mercenaries;
    let ghost f = |m: Mercenary| at_target(m.path_to_enemy@);
    let mut n: usize = 0;
    let mut i: usize = 0;
    while i < ms.len()
        invariant
            ms@ == game_state@.player(team).mercenaries,
            forall|m: Mercenary| #[trigger] f(m) == at_target(m.path_to_enemy@),
            i <= ms@.len(),
            n == count_in(ms@.subrange(0, i as int), f),
            n <= i,
        decreases ms@.len() - i,
    {
        proof {
            lemma_count_prefix(ms@, f, i as int);
        }
        if ms[i].path_to_enemy.len() <= 2 {
            n = n + 1;
        }
        i = i + 1;
    }
    proof {
        assert(ms@.subrange(0, ms@.len() as int) =~= ms@);
    }
    n
}

fn count_enemy_strikers(game_state: &GameState, team: TeamColor) -> (r: usize)
    ensures
        r == enemy_strikers(game_state@, team),
{
    let es = game_state.enemies();
    let ghost f = |e: Enemy| e.target == team && at_target(e.path_to_target@);
    let mut n: usize = 0;
    let mut i: usize = 0;
    while i < es.len()
        invariant
            es@ == game_state@.enemies,
            forall|e: Enemy| #[trigger] f(e) == (e.target == team && at_target(e.path_to_target@)),
            i <= es@.len(),
            n == count_in(es@.subrange(0, i as int), f),
            n <= i,
        decreases es@.len() - i,
    {
        proof {
            lemma_count_prefix(es@, f, i as int);
        }
        if es[i].target == team && es[i].path_to_target.len() <= 2 {
            n = n + 1;
        }
        i = i + 1;
    }
    proof {
        assert(es@.subrange(0, es@.len() as int) =~= es@);
    }
    n
}

/// The match after the mercenaries' strikes (see `mercenaries_attack`).
pub open spec fn mercenary_hits(v: GameView) -> GameView {
    let to_blue = volley(mercenary_strikers(v, TeamColor::Red), MERCENARY_ATTACK_POWER);
    let to_red = volley(mercenary_strikers(v, TeamColor::Blue), MERCENARY_ATTACK_POWER);
    v.after_hit(TeamColor::Blue, to_blue).after_hit(TeamColor::Red, to_red)
}

/// The match after the enemies' strikes (see `enemies_attack`).
pub open spec fn enemy_hits(v: GameView) -> GameView {
    let to_red = volley(enemy_strikers(v, TeamColor::Red), ENEMY_ATTACK_POWER);
    let to_blue = volley(enemy_strikers(v, TeamColor::Blue), ENEMY_ATTACK_POWER);
    v.after_hit(TeamColor::Red, to_red).after_hit(TeamColor::Blue, to_blue)
}

/// Every mercenary next to the base it marches on strikes it. The strikes
/// of each team are counted on the state at the start of the step and land
/// together: first on the blue base, then on the red one.
pub fn mercenaries_attack(game_state: &mut GameState)
    requires
        old(game_state).wf(),
    ensures
        final(game_state).wf(),
        final(game_state)@ == mercenary_hits(old(game_state)@),
{
    let red = count_mercenary_strikers(game_state, TeamColor::Red);
    let blue = count_mercenary_strikers(game_state, TeamColor::Blue);
    let to_blue = volley_of(red, MERCENARY_ATTACK_POWER);
    let to_red = volley_of(blue, MERCENARY_ATTACK_POWER);
    game_state.damage_base(TeamColor::Blue, to_blue);
    game_state.damage_base(TeamColor::Red, to_red);
}

/// Every enemy next to the base it targets strikes it; the strikes are
/// counted on the state at the start of the step and land together, first
/// on the red base, then on the blue one.
pub fn enemies_attack(game_state: &mut GameState)
    requires
        old(game_state).wf(),
    ensures
        final(game_state).wf(),
        final(game_state)@ == enemy_hits(old(game_state)@),
{
    let red = count_enemy_strikers(game_state, TeamColor::Red);
    let blue = count_enemy_strikers(game_state, TeamColor::Blue);
    let to_red = volley_of(red, ENEMY_ATTACK_POWER);
    let to_blue = volley_of(blue, ENEMY_ATTACK_POWER);
    game_state.damage_base(TeamColor::Red, to_red);
    game_state.damage_base(TeamColor::Blue, to_blue);
}

/// Whether `b` lies within `range` cells of `a`, diagonals counting as one.
pub open spec fn in_range(a: Position, b: Position, range: u32) -> bool {
    &&& a.x - b.x <= range
    &&& b.x - a.x <= range
    &&& a.y - b.y <= range
    &&& b.y - a.y <= range
}

fn within(a: Position, b: Position, range: u32) -> (r: bool)
    ensures
        r == in_range(a, b, range),
{
    let dx = a.x as i64 - b.x as i64;
    let dy = a.y as i64 - b.y as i64;
    let r = range as i64;
    -r <= dx && dx <= r && -r <= dy && dy <= r
}

/// Whether a tower of `team` at `p` with the given range has something to
/// shoot at in `v`: an enemy, or a mercenary of the other team.
pub open spec fn has_target(v: GameView, team: TeamColor, p: Position, range: u32) -> bool {
    ||| exists|j: int| 0 <= j < v.enemies.len() && in_range(p, #[trigger] v.enemies[j].position, range)
    ||| exists|j: int|
        0 <= j < v.player(team.spec_opponent()).mercenaries.len() && in_range(
            p,
            #[trigger] v.player(team.spec_opponent()).mercenaries[j].position,
            range,
        )
}

/// Tower `t0` of `team` after one tick: a tower still reloading gets one
/// tick closer; a ready one that deals damage and has a target in `v`
/// fires and starts reloading; any other stays ready.
pub open spec fn tower_ticked(v: GameView, team: TeamColor, t0: Tower, t1: Tower) -> bool {
    &&& t1 == (Tower { reload_turns_left: t1.reload_turns_left, ..t0 })
    &&& t1.reload_turns_left == if t0.reload_turns_left > 0 {
        (t0.reload_turns_left - 1) as u32
    } else if t0.stats.damage > 0 && has_target(v, team, t0.position, t0.stats.range) {
        t0.stats.reload_turns
    } else {
        0
    }
}

/// The units of `v1` stand where those of `v0` stood.
pub open spec fn units_in_place(v0: GameView, v1: GameView) -> bool {
    &&& v1.enemies.len() == v0.enemies.len()
    &&& forall|j: int| 0 <= j < v0.enemies.len() ==> #[trigger] v1.enemies[j].position == v0.enemies[j].position
    &&& forall|team: TeamColor| #[trigger] v1.player(team).mercenaries.len() == v0.player(team).mercenaries.len()
    &&& forall|team: TeamColor, j: int|
        0 <= j < v0.player(team).mercenaries.len() ==> #[trigger] v1.player(team).mercenaries[j].position
            == v0.player(team).mercenaries[j].position
}

/// Whether `j` is the first index of `ps` within `range` of `p`.
pub open spec fn first_in_range(ps: Seq<Position>, p: Position, range: u32, j: int) -> bool {
    &&& 0 <= j < ps.len()
    &&& in_range(p, ps[j], range)
    &&& forall|k: int| 0 <= k < j ==> !in_range(p, #[trigger] ps[k], range)
}

pub open spec fn enemy_cells(v: GameView) -> Seq<Position> {
    v.enemies.map_values(|e: Enemy| e.position)
}

pub open spec fn mercenary_cells(v: GameView, team: TeamColor) -> Seq<Position> {
    v.player(team).mercenaries.map_values(|m: Mercenary| m.position)
}

/// Whether tower `t` fires at enemy `j` of `v`: it is ready, deals damage,
/// and `j` is the first enemy within its range.
pub open spec fn fires_at_enemy(v: GameView, t: Tower, j: int) -> bool {
    &&& t.reload_turns_left == 0
    &&& t.stats.damage > 0
    &&& first_in_range(enemy_cells(v), t.position, t.stats.range, j)
}

/// Whether tower `t` of `team` fires at mercenary `j` of the other team:
/// it is ready, deals damage, no enemy is within its range, and `j` is the
/// first such mercenary within it.
pub open spec fn fires_at_mercenary(v: GameView, team: TeamColor, t: Tower, j: int) -> bool {
    &&& t.reload_turns_left == 0
    &&& t.stats.damage > 0
    &&& forall|k: int|
        0 <= k < v.enemies.len() ==> !in_range(t.position, #[trigger] v.enemies[k].position, t.stats.range)
    &&& first_in_range(mercenary_cells(v, team.spec_opponent()), t.position, t.stats.range, j)
}

/// The damage that the towers `ts` deal to enemy `j` of `v`.
pub open spec fn damage_to_enemy(v: GameView, ts: Seq<Tower>, j: int) -> nat
    decreases ts.len(),
{
    if ts.len() == 0 {
        0
    } else {
        damage_to_enemy(v, ts.drop_last(), j) + if fires_at_enemy(v, ts.last(), j) {
            ts.last().stats.damage as nat
        } else {
            0nat
        }
    }
}

/// The damage that the towers `ts` of `team` deal to mercenary `j` of the
/// other team.
pub open spec fn damage_to_mercenary(v: GameView, ts: Seq<Tower>, team: TeamColor, j: int) -> nat
    decreases ts.len(),
{
    if ts.len() == 0 {
        0
    } else {
        damage_to_mercenary(v, ts.drop_last(), team, j) + if fires_at_mercenary(v, team, ts.last(), j) {
            ts.last().stats.damage as nat
        } else {
            0nat
        }
    }
}

/// Hit points left after taking `d` damage, down to zero.
pub open spec fn worn(hp: u32, d: nat) -> u32 {
    if d >= hp {
        0
    } else {
        (hp - d) as u32
    }
}

/// Enemy `j` of `v` after the towers of both teams fired.
pub open spec fn enemy_after_fire(v: GameView, j: int) -> Enemy {
    let d = damage_to_enemy(v, v.red.towers, j) + damage_to_enemy(v, v.blue.towers, j);
    Enemy { hp: worn(v.enemies[j].hp, d), ..v.enemies[j] }
}

/// Mercenary `j` of `team` after the towers of the other team fired.
pub open spec fn mercenary_after_fire(v: GameView, team: TeamColor, j: int) -> Mercenary {
    let foe = team.spec_opponent();
    let d = damage_to_mercenary(v, v.player(foe).towers, foe, j);
    Mercenary { hp: worn(v.player(team).mercenaries[j].hp, d), ..v.player(team).mercenaries[j] }
}

pub open spec fn enemy_alive() -> spec_fn(Enemy) -> bool {
    |e: Enemy| e.hp > 0
}

pub open spec fn mercenary_alive() -> spec_fn(Mercenary) -> bool {
    |m: Mercenary| m.hp > 0
}

proof fn lemma_damage_prefix(v: GameView, ts: Seq<Tower>, team: TeamColor, i: int, j: int)
    requires
        0 <= i < ts.len(),
    ensures
        damage_to_enemy(v, ts.subrange(0, i + 1), j) == damage_to_enemy(v, ts.subrange(0, i), j)
            + if fires_at_enemy(v, ts[i], j) {
            ts[i].stats.damage as nat
        } else {
            0nat
        },
        damage_to_mercenary(v, ts.subrange(0, i + 1), team, j) == damage_to_mercenary(
            v,
            ts.subrange(0, i),
            team,
            j,
        ) + if fires_at_mercenary(v, team, ts[i], j) {
            ts[i].stats.damage as nat
        } else {
            0nat
        },
{
    assert(ts.subrange(0, i + 1).drop_last() =~= ts.subrange(0, i));
}

/// Whether a search result names index `j`.
pub open spec fn hit_at(h: Option<usize>, j: int) -> bool {
    match h {
        Some(k) => k as int == j,
        None => false,
    }
}

/// Two first indices are one.
proof fn lemma_first_unique(ps: Seq<Position>, p: Position, range: u32, a: int, b: int)
    requires
        first_in_range(ps, p, range, a),
        first_in_range(ps, p, range, b),
    ensures
        a == b,
{
    if a < b {
        assert(!in_range(p, ps[a], range));
    } else if b < a {
        assert(!in_range(p, ps[b], range));
    }
}

/// What tower `t` of `team` aims at in `v`, given what the searches found:
/// `he` among the enemies, `hm` among the mercenaries of the other team.
proof fn lemma_aim(v: GameView, team: TeamColor, t: Tower, he: Option<usize>, hm: Option<usize>)
    requires
        he is Some ==> fires_at_enemy(v, t, he->Some_0 as int),
        hm is Some ==> he is None && fires_at_mercenary(v, team, t, hm->Some_0 as int),
        he is None && t.reload_turns_left == 0 && t.stats.damage > 0 ==> forall|k: int|
            0 <= k < v.enemies.len() ==> !in_range(t.position, #[trigger] v.enemies[k].position, t.stats.range),
        he is None && hm is None && t.reload_turns_left == 0 && t.stats.damage > 0 ==> !has_target(
            v,
            team,
            t.position,
            t.stats.range,
        ),
    ensures
        forall|j: int|
            0 <= j < v.enemies.len() ==> #[trigger] fires_at_enemy(v, t, j) == hit_at(he, j),
        forall|j: int|
            0 <= j < v.player(team.spec_opponent()).mercenaries.len() ==> #[trigger] fires_at_mercenary(
                v,
                team,
                t,
                j,
            ) == hit_at(hm, j),
{
    let foe = team.spec_opponent();
    assert forall|j: int| 0 <= j < v.enemies.len() implies #[trigger] fires_at_enemy(v, t, j) == hit_at(he, j) by {
        if fires_at_enemy(v, t, j) {
            assert(enemy_cells(v)[j] == v.enemies[j].position);
            if he is Some {
                lemma_first_unique(enemy_cells(v), t.position, t.stats.range, j, he->Some_0 as int);
            }
        }
    }
    assert forall|j: int| 0 <= j < v.player(foe).mercenaries.len() implies #[trigger] fires_at_mercenary(v, team, t, j) == hit_at(hm, j) by {
        if fires_at_mercenary(v, team, t, j) {
            assert(mercenary_cells(v, foe)[j] == v.player(foe).mercenaries[j].position);
            if hm is Some {
                lemma_first_unique(mercenary_cells(v, foe), t.position, t.stats.range, j, hm->Some_0 as int);
            } else if he is Some {
                let h = he->Some_0 as int;
                assert(enemy_cells(v)[h] == v.enemies[h].position);
            }
        }
    }
}

proof fn lemma_worn_twice(hp: u32, a: nat, d: nat)
    ensures
        worn(worn(hp, a), d) == worn(hp, a + d),
{
}

/// One more tower of `team` (number `i`) fired at what it aims at.
proof fn lemma_fire_step(
    v0: GameView,
    before: GameView,
    v1: GameView,
    team: TeamColor,
    i: int,
    rd: int,
    bd: int,
    t: Tower,
    he: Option<usize>,
    hm: Option<usize>,
)
    requires
        fired_so_far(v0, before, rd, bd),
        0 <= rd <= v0.red.towers.len(),
        0 <= bd <= v0.blue.towers.len(),
        0 <= i < v0.player(team).towers.len(),
        team == TeamColor::Red ==> rd == i,
        team == TeamColor::Blue ==> bd == i,
        t == v0.player(team).towers[i],
        he is Some ==> he->Some_0 < v0.enemies.len(),
        hm is Some ==> hm->Some_0 < v0.player(team.spec_opponent()).mercenaries.len(),
        forall|j: int|
            0 <= j < v0.enemies.len() ==> #[trigger] fires_at_enemy(v0, t, j) == hit_at(he, j),
        forall|j: int|
            0 <= j < v0.player(team.spec_opponent()).mercenaries.len() ==> #[trigger] fires_at_mercenary(
                v0,
                team,
                t,
                j,
            ) == hit_at(hm, j),
        v1.enemies == (match he {
            Some(h) => before.enemies.update(
                h as int,
                Enemy { hp: worn(before.enemies[h as int].hp, t.stats.damage as nat), ..before.enemies[h as int] },
            ),
            None => before.enemies,
        }),
        v1.player(team.spec_opponent()).mercenaries == (match hm {
            Some(h) => before.player(team.spec_opponent()).mercenaries.update(
                h as int,
                Mercenary {
                    hp: worn(before.player(team.spec_opponent()).mercenaries[h as int].hp, t.stats.damage as nat),
                    ..before.player(team.spec_opponent()).mercenaries[h as int]
                },
            ),
            None => before.player(team.spec_opponent()).mercenaries,
        }),
        v1.player(team).mercenaries == before.player(team).mercenaries,
    ensures
        fired_so_far(
            v0,
            v1,
            if team == TeamColor::Red { rd + 1 } else { rd },
            if team == TeamColor::Blue { bd + 1 } else { bd },
        ),
{
    let ts = v0.player(team).towers;
    let foe = team.spec_opponent();
    let rd1 = if team == TeamColor::Red { rd + 1 } else { rd };
    let bd1 = if team == TeamColor::Blue { bd + 1 } else { bd };
    assert forall|j: int| 0 <= j < v0.enemies.len() implies #[trigger] v1.enemies[j] == (Enemy {
        hp: worn(
            v0.enemies[j].hp,
            damage_to_enemy(v0, v0.red.towers.subrange(0, rd1), j) + damage_to_enemy(v0, v0.blue.towers.subrange(0, bd1), j),
        ),
        ..v0.enemies[j]
    }) by {
        lemma_damage_prefix(v0, ts, team, i, j);
        let a = damage_to_enemy(v0, v0.red.towers.subrange(0, rd), j) + damage_to_enemy(v0, v0.blue.towers.subrange(0, bd), j);
        let d = if fires_at_enemy(v0, t, j) { t.stats.damage as nat } else { 0nat };
        if team == TeamColor::Red {
            assert(damage_to_enemy(v0, v0.red.towers.subrange(0, rd1), j) == damage_to_enemy(v0, v0.red.towers.subrange(0, rd), j) + d);
        } else {
            assert(damage_to_enemy(v0, v0.blue.towers.subrange(0, bd1), j) == damage_to_enemy(v0, v0.blue.towers.subrange(0, bd), j) + d);
        }
        assert(before.enemies[j] == (Enemy { hp: worn(v0.enemies[j].hp, a), ..v0.enemies[j] }));
        lemma_worn_twice(v0.enemies[j].hp, a, t.stats.damage as nat);
        if hit_at(he, j) {
            assert(v1.enemies[j] == (Enemy { hp: worn(before.enemies[j].hp, t.stats.damage as nat), ..before.enemies[j] }));
        } else {
            assert(v1.enemies[j] == before.enemies[j]);
        }
    }
    assert forall|j: int| 0 <= j < v0.player(foe).mercenaries.len() implies {
        let own = if foe == TeamColor::Red { v0.blue.towers.subrange(0, bd1) } else { v0.red.towers.subrange(0, rd1) };
        #[trigger] v1.player(foe).mercenaries[j] == (Mercenary {
            hp: worn(v0.player(foe).mercenaries[j].hp, damage_to_mercenary(v0, own, team, j)),
            ..v0.player(foe).mercenaries[j]
        })
    } by {
        lemma_damage_prefix(v0, ts, team, i, j);
        let own0 = if foe == TeamColor::Red { v0.blue.towers.subrange(0, bd) } else { v0.red.towers.subrange(0, rd) };
        let own1 = if foe == TeamColor::Red { v0.blue.towers.subrange(0, bd1) } else { v0.red.towers.subrange(0, rd1) };
        let a = damage_to_mercenary(v0, own0, team, j);
        let d = if fires_at_mercenary(v0, team, t, j) { t.stats.damage as nat } else { 0nat };
        if team == TeamColor::Red {
            assert(own1 == ts.subrange(0, i + 1) && own0 == ts.subrange(0, i));
        } else {
            assert(own1 == ts.subrange(0, i + 1) && own0 == ts.subrange(0, i));
        }
        assert(damage_to_mercenary(v0, own1, team, j) == a + d);
        assert(before.player(foe).mercenaries[j] == (Mercenary { hp: worn(v0.player(foe).mercenaries[j].hp, a), ..v0.player(foe).mercenaries[j] })) by {
            if foe == TeamColor::Red {
                assert(before.red.mercenaries[j] == (Mercenary { hp: worn(v0.red.mercenaries[j].hp, a), ..v0.red.mercenaries[j] }));
            } else {
                assert(before.blue.mercenaries[j] == (Mercenary { hp: worn(v0.blue.mercenaries[j].hp, a), ..v0.blue.mercenaries[j] }));
            }
        }
        lemma_worn_twice(v0.player(foe).mercenaries[j].hp, a, t.stats.damage as nat);
        if hit_at(hm, j) {
            assert(v1.player(foe).mercenaries[j] == (Mercenary {
                hp: worn(before.player(foe).mercenaries[j].hp, t.stats.damage as nat),
                ..before.player(foe).mercenaries[j]
            }));
        } else {
            assert(v1.player(foe).mercenaries[j] == before.player(foe).mercenaries[j]);
        }
    }
    assert forall|j: int| 0 <= j < v0.player(team).mercenaries.len() implies {
        let own = if team == TeamColor::Red { v0.blue.towers.subrange(0, bd1) } else { v0.red.towers.subrange(0, rd1) };
        #[trigger] v1.player(team).mercenaries[j] == (Mercenary {
            hp: worn(v0.player(team).mercenaries[j].hp, damage_to_mercenary(v0, own, foe, j)),
            ..v0.player(team).mercenaries[j]
        })
    } by {
        if team == TeamColor::Red {
            assert(before.red.mercenaries[j] == v1.red.mercenaries[j]);
        } else {
            assert(before.blue.mercenaries[j] == v1.blue.mercenaries[j]);
        }
    }
    assert(units_in_place(v0, v1)) by {
        assert forall|tt: TeamColor| #[trigger] v1.player(tt).mercenaries.len() == v0.player(tt).mercenaries.len() by {
            assert(before.player(tt).mercenaries.len() == v0.player(tt).mercenaries.len());
            if tt != team {
                assert(tt == foe);
            }
        }
        assert forall|tt: TeamColor, j: int|
            0 <= j < v0.player(tt).mercenaries.len() implies #[trigger] v1.player(tt).mercenaries[j].position
                == v0.player(tt).mercenaries[j].position by {
            assert(before.player(tt).mercenaries[j].position == v0.player(tt).mercenaries[j].position);
            if tt != team {
                assert(tt == foe);
            }
        }
        assert forall|j: int| 0 <= j < v0.enemies.len() implies #[trigger] v1.enemies[j].position == v0.enemies[j].position by {
            assert(before.enemies[j].position == v0.enemies[j].position);
        }
    }
}

/// The first enemy within `range` of `p`.
fn first_enemy_in_range(game_state: &GameState, p: Position, range: u32) -> (r: Option<usize>)
    ensures
        match r {
            Some(j) => first_in_range(enemy_cells(game_state@), p, range, j as int),
            None => forall|j: int|
                0 <= j < game_state@.enemies.len() ==> !in_range(p, #[trigger] game_state@.enemies[j].position, range),
        },
{
    let es = game_state.enemies();
    let mut j: usize = 0;
    while j < es.len()
        invariant
            es@ == game_state@.enemies,
            j <= es@.len(),
            forall|k: int| 0 <= k < j ==> !in_range(p, #[trigger] es@[k].position, range),
        decreases es@.len() - j,
    {
        if within(p, es[j].position, range) {
            proof {
                let cells = enemy_cells(game_state@);
                assert forall|k: int| 0 <= k < j implies !in_range(p, #[trigger] cells[k], range) by {
                    assert(cells[k] == es@[k].position);
                }
            }
            return Some(j);
        }
        j = j + 1;
    }
    None
}

/// The first mercenary of `team` within `range` of `p`.
fn first_mercenary_in_range(game_state: &GameState, team: TeamColor, p: Position, range: u32) -> (r:
    Option<usize>)
    ensures
        match r {
            Some(j) => first_in_range(mercenary_cells(game_state@, team), p, range, j as int),
            None => forall|j: int|
                0 <= j < game_state@.player(team).mercenaries.len() ==> !in_range(
                    p,
                    #[trigger] game_state@.player(team).mercenaries[j].position,
                    range,
                ),
        },
{
    let ms = &game_state.player(team).mercenaries;
    let mut j: usize = 0;
    while j < ms.len()
        invariant
            ms@ == game_state@.player(team).mercenaries,
            j <= ms@.len(),
            forall|k: int| 0 <= k < j ==> !in_range(p, #[trigger] ms@[k].position, range),
        decreases ms@.len() - j,
    {
        if within(p, ms[j].position, range) {
            proof {
                let cells = mercenary_cells(game_state@, team);
                assert forall|k: int| 0 <= k < j implies !in_range(p, #[trigger] cells[k], range) by {
                    assert(cells[k] == ms@[k].position);
                }
            }
            return Some(j);
        }
        j = j + 1;
    }
    None
}

/// The parts of a match that the towers' fire leaves alone.
pub open spec fn fire_frame(v0: GameView, v1: GameView) -> bool {
    &&& v1 == (GameView {
        red: PlayerView {
            towers: v1.red.towers,
            mercenaries: v1.red.mercenaries,
            ..v0.red
        },
        blue: PlayerView {
            towers: v1.blue.towers,
            mercenaries: v1.blue.mercenaries,
            ..v0.blue
        },
        enemies: v1.enemies,
        entity_position: v1.entity_position,
        ..v0
    })
}

/// The units of `v` after the first `rd` red towers and the first `bd`
/// blue towers of `v0` fired.
pub open spec fn fired_so_far(v0: GameView, v: GameView, rd: int, bd: int) -> bool {
    let reds = v0.red.towers.subrange(0, rd);
    let blues = v0.blue.towers.subrange(0, bd);
    &&& units_in_place(v0, v)
    &&& forall|j: int|
        0 <= j < v0.enemies.len() ==> #[trigger] v.enemies[j] == (Enemy {
            hp: worn(
                v0.enemies[j].hp,
                damage_to_enemy(v0, reds, j) + damage_to_enemy(v0, blues, j),
            ),
            ..v0.enemies[j]
        })
    &&& forall|j: int|
        0 <= j < v0.red.mercenaries.len() ==> #[trigger] v.red.mercenaries[j] == (Mercenary {
            hp: worn(v0.red.mercenaries[j].hp, damage_to_mercenary(v0, blues, TeamColor::Blue, j)),
            ..v0.red.mercenaries[j]
        })
    &&& forall|j: int|
        0 <= j < v0.blue.mercenaries.len() ==> #[trigger] v.blue.mercenaries[j] == (Mercenary {
            hp: worn(v0.blue.mercenaries[j].hp, damage_to_mercenary(v0, reds, TeamColor::Red, j)),
            ..v0.blue.mercenaries[j]
        })
}

/// The match after the towers fired and the fallen were removed (see
/// `towers_attack`).
pub open spec fn towers_fired(v0: GameView, v1: GameView) -> bool {
    &&& fire_frame(v0, v1)
    &&& forall|team: TeamColor| #[trigger]
        v1.player(team).towers.len() == v0.player(team).towers.len()
    &&& forall|team: TeamColor, i: int|
        0 <= i < v0.player(team).towers.len() ==> tower_ticked(
            v0,
            team,
            v0.player(team).towers[i],
            #[trigger] v1.player(team).towers[i],
        )
    &&& v1.enemies == Seq::new(v0.enemies.len(), |j: int| enemy_after_fire(v0, j)).filter(
        enemy_alive(),
    )
    &&& forall|team: TeamColor| #[trigger]
        v1.player(team).mercenaries == Seq::new(
            v0.player(team).mercenaries.len(),
            |j: int| mercenary_after_fire(v0, team, j),
        ).filter(mercenary_alive())
}

/// Each ready tower that deals damage fires at the first enemy within its
/// range, or else at the first mercenary of the other team within it, and
/// starts reloading; towers still reloading count down. Targets are picked
/// by position alone and damage adds up, so the order of firing does not
/// change the outcome. Enemies and mercenaries left without hit points are
/// then removed.
pub fn towers_attack(game_state: &mut GameState)
    requires
        old(game_state).wf(),
    ensures
        final(game_state).wf(),
        towers_fired(old(game_state)@, final(game_state)@),
{
    let ghost v0 = game_state@;
    let ghost nr = v0.red.towers.len() as int;
    let ghost nb = v0.blue.towers.len() as int;
    proof {
        assert(v0.red.towers.subrange(0, 0) =~= Seq::<Tower>::empty());
        assert(v0.blue.towers.subrange(0, 0) =~= Seq::<Tower>::empty());
        assert(fired_so_far(v0, game_state@, 0, 0));
    }
    let mut pass: usize = 0;
    while pass < 2
        invariant
            game_state.wf(),
            pass <= 2,
            v0 == old(game_state)@,
            nr == v0.red.towers.len(),
            nb == v0.blue.towers.len(),
            fire_frame(v0, game_state@),
            fired_so_far(v0, game_state@, if pass >= 1 { nr } else { 0 }, if pass >= 2 { nb } else { 0 }),
            forall|team: TeamColor| #[trigger]
                game_state@.player(team).towers.len() == v0.player(team).towers.len(),
            forall|team: TeamColor, i: int|
                0 <= i < v0.player(team).towers.len() ==> if (pass >= 1 && team == TeamColor::Red) || pass >= 2 {
                    tower_ticked(v0, team, v0.player(team).towers[i], #[trigger] game_state@.player(team).towers[i])
                } else {
                    #[trigger] game_state@.player(team).towers[i] == v0.player(team).towers[i]
                },
        decreases 2 - pass,
    {
        let team = if pass == 0 {
            TeamColor::Red
        } else {
            TeamColor::Blue
        };
        let n = game_state.player(team).towers.len();
        let mut i: usize = 0;
        while i < n
            invariant
                game_state.wf(),
                pass < 2,
                team == (if pass == 0 { TeamColor::Red } else { TeamColor::Blue }),
                n == v0.player(team).towers.len(),
                i <= n,
                v0 == old(game_state)@,
                nr == v0.red.towers.len(),
                nb == v0.blue.towers.len(),
                fire_frame(v0, game_state@),
                fired_so_far(v0, game_state@, if pass == 0 { i as int } else { nr }, if pass == 1 { i as int } else { 0 }),
                forall|t: TeamColor| #[trigger]
                    game_state@.player(t).towers.len() == v0.player(t).towers.len(),
                forall|t: TeamColor, k: int|
                    0 <= k < v0.player(t).towers.len() ==> if (pass >= 1 && t == TeamColor::Red) || (t == team && k < i) {
                        tower_ticked(v0, t, v0.player(t).towers[k], #[trigger] game_state@.player(t).towers[k])
                    } else {
                        #[trigger] game_state@.player(t).towers[k] == v0.player(t).towers[k]
                    },
            decreases n - i,
        {
            let ghost before = game_state@;
            let ghost rd = if pass == 0 { i as int } else { nr };
            let ghost bd = if pass == 1 { i as int } else { 0 };
            let ghost rd1 = if pass == 0 { i + 1 } else { nr };
            let ghost bd1 = if pass == 1 { i + 1 } else { 0 };
            let t = game_state.player(team).towers[i];
            let foe = team.opponent();
            proof {
                assert(t == v0.player(team).towers[i as int]);
                assert(enemy_cells(before) =~= enemy_cells(v0));
                assert(mercenary_cells(before, foe) =~= mercenary_cells(v0, foe));
            }
            // which unit, if any, this tower hits
            let mut hit_enemy: Option<usize> = None;
            let mut hit_mercenary: Option<usize> = None;
            if t.reload_turns_left > 0 {
                game_state.set_tower_reload(team, i, t.reload_turns_left - 1);
            } else if t.stats.damage > 0 {
                match first_enemy_in_range(game_state, t.position, t.stats.range) {
                    Some(j) => {
                        proof {
                            assert(fires_at_enemy(v0, t, j as int));
                        }
                        let hp = game_state.enemies()[j].hp.saturating_sub(t.stats.damage);
                        game_state.set_enemy_hp(j, hp);
                        game_state.set_tower_reload(team, i, t.stats.reload_turns);
                        hit_enemy = Some(j);
                    },
                    None => {
                        proof {
                            assert forall|k: int| 0 <= k < v0.enemies.len() implies !in_range(t.position, #[trigger] v0.enemies[k].position, t.stats.range) by {
                                assert(before.enemies[k].position == v0.enemies[k].position);
                            }
                        }
                        match first_mercenary_in_range(game_state, foe, t.position, t.stats.range) {
                            Some(j) => {
                                proof {
                                    assert(fires_at_mercenary(v0, team, t, j as int));
                                }
                                let hp = game_state.player(foe).mercenaries[j].hp.saturating_sub(
                                    t.stats.damage,
                                );
                                game_state.set_mercenary_hp(foe, j, hp);
                                game_state.set_tower_reload(team, i, t.stats.reload_turns);
                                hit_mercenary = Some(j);
                            },
                            None => {
                                proof {
                                    assert(!has_target(v0, team, t.position, t.stats.range)) by {
                                        assert forall|j: int| 0 <= j < v0.enemies.len() implies !in_range(t.position, #[trigger] v0.enemies[j].position, t.stats.range) by {
                                            assert(before.enemies[j].position == v0.enemies[j].position);
                                        }
                                        assert forall|j: int| 0 <= j < v0.player(foe).mercenaries.len() implies !in_range(t.position, #[trigger] v0.player(foe).mercenaries[j].position, t.stats.range) by {
                                            assert(before.player(foe).mercenaries[j].position == v0.player(foe).mercenaries[j].position);
                                        }
                                    }
                                }
                            },
                        }
                    },
                }
            }
            proof {
                let v1 = game_state@;
                lemma_aim(v0, team, t, hit_enemy, hit_mercenary);
                lemma_fire_step(v0, before, v1, team, i as int, rd, bd, t, hit_enemy, hit_mercenary);
                assert forall|tt: TeamColor| #[trigger] v1.player(tt).towers.len() == v0.player(tt).towers.len() by {
                    assert(before.player(tt).towers.len() == v0.player(tt).towers.len());
                }
                assert forall|tt: TeamColor, k: int|
                    0 <= k < v0.player(tt).towers.len() implies if (pass >= 1 && tt == TeamColor::Red) || (tt == team && k < i + 1) {
                        tower_ticked(v0, tt, v0.player(tt).towers[k], #[trigger] v1.player(tt).towers[k])
                    } else {
                        #[trigger] v1.player(tt).towers[k] == v0.player(tt).towers[k]
                    } by {
                    if tt != team || k != i {
                        assert(v1.player(tt).towers[k] == before.player(tt).towers[k]);
                    }
                }
            }
            i = i + 1;
        }
        proof {
            assert(v0.player(team).towers.subrange(0, n as int) =~= v0.player(team).towers);
        }
        pass = pass + 1;
    }
    proof {
        assert(v0.red.towers.subrange(0, nr) =~= v0.red.towers);
        assert(v0.blue.towers.subrange(0, nb) =~= v0.blue.towers);
        let v = game_state@;
        assert(v.enemies =~= Seq::new(v0.enemies.len(), |j: int| enemy_after_fire(v0, j)));
        assert forall|j: int| 0 <= j < v0.red.mercenaries.len() implies #[trigger] v.red.mercenaries[j] == mercenary_after_fire(v0, TeamColor::Red, j) by {
            assert(v.red.mercenaries[j] == (Mercenary {
                hp: worn(v0.red.mercenaries[j].hp, damage_to_mercenary(v0, v0.blue.towers.subrange(0, nb), TeamColor::Blue, j)),
                ..v0.red.mercenaries[j]
            }));
        }
        assert forall|j: int| 0 <= j < v0.blue.mercenaries.len() implies #[trigger] v.blue.mercenaries[j] == mercenary_after_fire(v0, TeamColor::Blue, j) by {
            assert(v.blue.mercenaries[j] == (Mercenary {
                hp: worn(v0.blue.mercenaries[j].hp, damage_to_mercenary(v0, v0.red.towers.subrange(0, nr), TeamColor::Red, j)),
                ..v0.blue.mercenaries[j]
            }));
        }
        assert(v.player(TeamColor::Red).mercenaries.len() == v0.player(TeamColor::Red).mercenaries.len());
        assert(v.player(TeamColor::Blue).mercenaries.len() == v0.player(TeamColor::Blue).mercenaries.len());
        assert(v.red.mercenaries =~= Seq::new(v0.red.mercenaries.len(), |j: int| mercenary_after_fire(v0, TeamColor::Red, j)));
        assert(v.blue.mercenaries =~= Seq::new(v0.blue.mercenaries.len(), |j: int| mercenary_after_fire(v0, TeamColor::Blue, j)));
    }
    let ghost fired = game_state@;
    remove_fallen(game_state);
    proof {
        let v = game_state@;
        assert forall|team: TeamColor| #[trigger] v.player(team).mercenaries == Seq::new(
            v0.player(team).mercenaries.len(),
            |j: int| mercenary_after_fire(v0, team, j),
        ).filter(mercenary_alive()) by {
            assert(v.player(team).mercenaries == fired.player(team).mercenaries.filter(mercenary_alive()));
        }
    }
}

/// Removes every enemy and mercenary left without hit points, keeping the
/// order of the others.
fn remove_fallen(game_state: &mut GameState)
    requires
        old(game_state).wf(),
    ensures
        final(game_state).wf(),
        ({
            let v0 = old(game_state)@;
            let v1 = final(game_state)@;
            &&& fire_frame(v0, v1)
            &&& forall|team: TeamColor| #[trigger] v1.player(team).towers == v0.player(team).towers
            &&& v1.enemies == v0.enemies.filter(enemy_alive())
            &&& forall|team: TeamColor| #[trigger]
                v1.player(team).mercenaries == v0.player(team).mercenaries.filter(mercenary_alive())
        }),
{
    let ghost v0 = game_state@;
    let ghost n = v0.enemies.len() as int;
    let mut j = game_state.enemies().len();
    proof {
        assert(v0.enemies.subrange(n, n).filter(enemy_alive()) =~= Seq::<Enemy>::empty()) by {
            reveal(Seq::filter);
        }
        assert(v0.enemies =~= v0.enemies.subrange(0, n) + v0.enemies.subrange(n, n).filter(enemy_alive()));
    }
    while j > 0
        invariant
            game_state.wf(),
            v0 == old(game_state)@,
            n == v0.enemies.len(),
            j <= n,
            game_state@.enemies == v0.enemies.subrange(0, j as int) + v0.enemies.subrange(j as int, n).filter(enemy_alive()),
            fire_frame(v0, game_state@),
            forall|team: TeamColor| #[trigger] game_state@.player(team).towers == v0.player(team).towers,
            forall|team: TeamColor| #[trigger] game_state@.player(team).mercenaries == v0.player(team).mercenaries,
        decreases j,
    {
        let ghost before = game_state@;
        let ghost x = v0.enemies[j - 1];
        let ghost rest = v0.enemies.subrange(j as int, n).filter(enemy_alive());
        proof {
            assert(v0.enemies.subrange(j - 1, n) =~= seq![x] + v0.enemies.subrange(j as int, n));
            v0.enemies.subrange(j as int, n).lemma_filter_prepend(x, enemy_alive());
            assert(before.enemies[j - 1] == x);
        }
        if game_state.enemies()[j - 1].hp == 0 {
            game_state.remove_enemy_at(j - 1);
            proof {
                assert(game_state@.enemies =~= v0.enemies.subrange(0, j - 1) + rest);
            }
        } else {
            proof {
                assert(game_state@.enemies =~= v0.enemies.subrange(0, j - 1) + (seq![x] + rest));
            }
        }
        proof {
            let v1 = game_state@;
            assert forall|t: TeamColor| #[trigger] v1.player(t).towers == v0.player(t).towers by {
                assert(before.player(t).towers == v0.player(t).towers);
            }
            assert forall|t: TeamColor| #[trigger] v1.player(t).mercenaries == v0.player(t).mercenaries by {
                assert(before.player(t).mercenaries == v0.player(t).mercenaries);
            }
        }
        j = j - 1;
    }
    proof {
        assert(v0.enemies.subrange(0, 0) + v0.enemies.subrange(0, n).filter(enemy_alive()) =~= v0.enemies.filter(enemy_alive())) by {
            assert(v0.enemies.subrange(0, n) =~= v0.enemies);
        }
    }
    let mut pass: usize = 0;
    while pass < 2
        invariant
            game_state.wf(),
            v0 == old(game_state)@,
            pass <= 2,
            fire_frame(v0, game_state@),
            forall|team: TeamColor| #[trigger] game_state@.player(team).towers == v0.player(team).towers,
            game_state@.enemies == v0.enemies.filter(enemy_alive()),
            forall|team: TeamColor| #[trigger] game_state@.player(team).mercenaries == if (pass >= 1 && team == TeamColor::Red) || pass >= 2 {
                v0.player(team).mercenaries.filter(mercenary_alive())
            } else {
                v0.player(team).mercenaries
            },
        decreases 2 - pass,
    {
        let team = if pass == 0 {
            TeamColor::Red
        } else {
            TeamColor::Blue
        };
        let ghost ms = v0.player(team).mercenaries;
        let ghost m = ms.len() as int;
        let mut j = game_state.player(team).mercenaries.len();
        proof {
            assert(ms.subrange(m, m).filter(mercenary_alive()) =~= Seq::<Mercenary>::empty()) by {
                reveal(Seq::filter);
            }
            assert(ms =~= ms.subrange(0, m) + ms.subrange(m, m).filter(mercenary_alive()));
        }
        while j > 0
            invariant
                game_state.wf(),
                v0 == old(game_state)@,
                pass < 2,
                team == (if pass == 0 { TeamColor::Red } else { TeamColor::Blue }),
                ms == v0.player(team).mercenaries,
                m == ms.len(),
                j <= m,
                game_state@.player(team).mercenaries == ms.subrange(0, j as int) + ms.subrange(j as int, m).filter(mercenary_alive()),
                fire_frame(v0, game_state@),
                forall|t: TeamColor| #[trigger] game_state@.player(t).towers == v0.player(t).towers,
                game_state@.enemies == v0.enemies.filter(enemy_alive()),
                forall|t: TeamColor| t != team ==> #[trigger] game_state@.player(t).mercenaries == if (pass >= 1 && t == TeamColor::Red) || pass >= 2 {
                    v0.player(t).mercenaries.filter(mercenary_alive())
                } else {
                    v0.player(t).mercenaries
                },
            decreases j,
        {
            let ghost before = game_state@;
            let ghost x = ms[j - 1];
            let ghost rest = ms.subrange(j as int, m).filter(mercenary_alive());
            proof {
                assert(ms.subrange(j - 1, m) =~= seq![x] + ms.subrange(j as int, m));
                ms.subrange(j as int, m).lemma_filter_prepend(x, mercenary_alive());
                assert(before.player(team).mercenaries[j - 1] == x);
            }
            if game_state.player(team).mercenaries[j - 1].hp == 0 {
                game_state.remove_mercenary_at(team, j - 1);
                proof {
                    assert(game_state@.player(team).mercenaries =~= ms.subrange(0, j - 1) + rest);
                }
            } else {
                proof {
                    assert(game_state@.player(team).mercenaries =~= ms.subrange(0, j - 1) + (seq![x] + rest));
                }
            }
            proof {
                let v1 = game_state@;
                assert forall|t: TeamColor| #[trigger] v1.player(t).towers == v0.player(t).towers by {
                    assert(before.player(t).towers == v0.player(t).towers);
                }
                assert forall|t: TeamColor| t != team implies #[trigger] v1.player(t).mercenaries == before.player(t).mercenaries by {}
            }
            j = j - 1;
        }
        proof {
            assert(ms.subrange(0, 0) + ms.subrange(0, m).filter(mercenary_alive()) =~= ms.filter(mercenary_alive())) by {
                assert(ms.subrange(0, m) =~= ms);
            }
        }
        pass = pass + 1;
    }
}

} // verus!
