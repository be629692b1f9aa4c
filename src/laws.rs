use vstd::prelude::*;
use crate::actions::{
    builder_action_outcome, buy_builder_outcome, queue_check, tower_of_team_at,
};
use crate::entities::{builder_price, stats_of, TowerKind, MAX_BUILDERS, MERCENARY_PRICE};
use crate::errors::GameError;
use crate::game::{GameState, GameView};
use crate::placement::{entry_has_row, key_of, lemma_one_row_per_position, Table};
use crate::types::{territory_of, Position, TeamColor};
use crate::world::mercenaries_moved;

verus! {

/// In every well-formed match, whatever operations built it: each row of
/// each entity table is indexed once, at its position and under its key;
/// each index entry stands for a row; and no two rows share a position.
pub proof fn lemma_index_bijection(g: &GameState)
    requires
        g.wf(),
    ensures
        forall|t: Table, i: int|
            #![trigger g@.rows()(t)[i]]
            0 <= i < g@.rows()(t).len() ==> g@.entity_position.contains_key(g@.rows()(t)[i].1)
                && g@.entity_position[g@.rows()(t)[i].1] == key_of(t, g@.rows()(t)[i].0),
        forall|p: Position| #[trigger]
            g@.entity_position.contains_key(p) ==> entry_has_row(g@.rows(), g@.entity_position, p),
        forall|t1: Table, i: int, t2: Table, j: int|
            #![trigger g@.rows()(t1)[i], g@.rows()(t2)[j]]
            0 <= i < g@.rows()(t1).len() && 0 <= j < g@.rows()(t2).len() && (t1, i) != (t2, j)
                ==> g@.rows()(t1)[i].1 != g@.rows()(t2)[j].1,
{
    let v = g@;
    assert forall|t1: Table, i: int, t2: Table, j: int|
        #![trigger v.rows()(t1)[i], v.rows()(t2)[j]]
        0 <= i < v.rows()(t1).len() && 0 <= j < v.rows()(t2).len() && (t1, i) != (t2, j) implies v.rows()(
        t1,
    )[i].1 != v.rows()(t2)[j].1 by {
        if v.rows()(t1)[i].1 == v.rows()(t2)[j].1 {
            lemma_one_row_per_position(v.rows(), v.entity_position, v.next_uid, t1, i, t2, j);
        }
    }
}

/// A team that owns every builder of the price list cannot buy another,
/// and nothing changes; a team whose money equals the next price buys the
/// builder and is left with no money.
pub proof fn lemma_buy_builder_limits(v: GameView, team: TeamColor)
    requires
        v.inv(),
    ensures
        v.player(team).builder_count == MAX_BUILDERS ==> buy_builder_outcome(v, team) == (
            Err::<(), GameError>(GameError::MaxBuildersReached { max: MAX_BUILDERS }),
            v,
        ),
        builder_price(v.player(team).builder_count) == Some(v.player(team).money) ==> {
            let (r, v1) = buy_builder_outcome(v, team);
            &&& r is Ok
            &&& v1.player(team).money == 0
            &&& v1.player(team).builder_count == v.player(team).builder_count + 1
        },
{
}

/// Building on a cell of the board outside the team's territory is always
/// rejected as such, whatever the tower, and changes nothing.
pub proof fn lemma_build_outside_territory(
    v: GameView,
    team: TeamColor,
    x: i32,
    y: i32,
    tower_type: Option<Seq<char>>,
)
    requires
        v.floor_tiles.contains_key(Position { x, y }),
        v.floor_tiles[Position { x, y }] != territory_of(team),
    ensures
        builder_action_outcome(v, team, "build"@, Some(x), Some(y), tower_type) == (
            Err::<(), GameError>(GameError::WrongTerritory),
            v,
        ),
{
}

/// Building a crossbow and then recycling it gives back half of its cost of
/// 2, and leaves the team's tower table and the index as they were before
/// the build.
pub proof fn lemma_build_then_recycle(v: GameView, team: TeamColor, x: i32, y: i32)
    requires
        v.inv(),
        builder_action_outcome(v, team, "build"@, Some(x), Some(y), Some("crossbow"@)).0 is Ok,
    ensures
        ({
            let v1 = builder_action_outcome(v, team, "build"@, Some(x), Some(y), Some("crossbow"@)).1;
            let (r2, v2) = builder_action_outcome(v1, team, "recycle_tower"@, Some(x), Some(y), None);
            &&& stats_of(TowerKind::Crossbow).cost == 2
            &&& v1.player(team).money == v.player(team).money - 2
            &&& r2 is Ok
            &&& v2.player(team).money == v1.player(team).money + 1
            &&& v2.player(team).towers == v.player(team).towers
            &&& v2.entity_position == v.entity_position
            &&& !v2.entity_position.contains_key(Position { x, y })
        }),
{
    reveal_strlit("build");
    reveal_strlit("recycle_tower");
    reveal_strlit("crossbow");
    let p = Position { x, y };
    let (r1, v1) = builder_action_outcome(v, team, "build"@, Some(x), Some(y), Some("crossbow"@));
    let ts = v.player(team).towers;
    let n = ts.len() as int;
    assert(v1.player(team).towers[n].position == p);
    assert(tower_of_team_at(v1, team, n, p));
    let i = choose|i: int| tower_of_team_at(v1, team, i, p);
    if i < n {
        assert(v1.player(team).towers[i] == ts[i]);
        let t0 = match team {
            TeamColor::Red => Table::RedTowers,
            TeamColor::Blue => Table::BlueTowers,
        };
        assert(v.rows()(t0)[i] == (ts[i].uid, ts[i].position));
    }
    assert(i == n);
    assert(crate::actions::recycle_check(v1, team, Some(x), Some(y)) == Ok::<Position, GameError>(p));
    let tw = v1.player(team).towers[n];
    assert(v1.player(team).towers == ts.push(tw));
    assert(ts.push(tw).remove(n) =~= ts);
    assert("recycle_tower"@.len() != "build"@.len());
    assert(crate::actions::builder_action_type_of("recycle_tower"@) == Some(crate::actions::BuilderActionType::RecycleTower));
    let o = builder_action_outcome(v1, team, "recycle_tower"@, Some(x), Some(y), None);
    let m1 = v1.player(team).money;
    let v2 = v1.with_money(team, crate::actions::refunded(m1, tw.stats.cost)).without_tower(team, n);
    assert(o.1 == v2);
    assert(v2.player(team).towers =~= ts);
    assert(v2.entity_position =~= v.entity_position);
}

/// A team with less money than a mercenary costs cannot queue one, in any
/// direction; the rejection leaves its queue and its money as they were.
pub proof fn lemma_queue_mercenary_unaffordable(v: GameView, team: TeamColor, direction: Seq<char>)
    requires
        v.player(team).money < MERCENARY_PRICE,
    ensures
        queue_check(v, team, direction) is Err,
{
}

/// Movement does not depend on the order in which mercenaries are taken:
/// any two outcomes of one tick from the same match put every mercenary on
/// the same cell, with the same route ahead and the same hit points.
pub proof fn lemma_movement_is_order_free(v0: GameView, v1: GameView, v2: GameView)
    requires
        mercenaries_moved(v0, v1),
        mercenaries_moved(v0, v2),
    ensures
        forall|team: TeamColor| #[trigger]
            v1.player(team).mercenaries.len() == v2.player(team).mercenaries.len(),
        forall|team: TeamColor, j: int|
            0 <= j < v1.player(team).mercenaries.len() ==> {
                let m1 = #[trigger] v1.player(team).mercenaries[j];
                let m2 = v2.player(team).mercenaries[j];
                &&& m1.uid == m2.uid
                &&& m1.position == m2.position
                &&& m1.path_to_enemy@ == m2.path_to_enemy@
                &&& m1.hp == m2.hp
            },
{
    assert forall|team: TeamColor, j: int| 0 <= j < v1.player(team).mercenaries.len() implies {
        let m1 = #[trigger] v1.player(team).mercenaries[j];
        let m2 = v2.player(team).mercenaries[j];
        &&& m1.uid == m2.uid
        &&& m1.position == m2.position
        &&& m1.path_to_enemy@ == m2.path_to_enemy@
        &&& m1.hp == m2.hp
    } by {
        assert(crate::world::mercenary_after_tick(v0, v1, team, j));
        assert(crate::world::mercenary_after_tick(v0, v2, team, j));
    }
}

} // verus!
