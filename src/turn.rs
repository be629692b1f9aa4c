use vstd::prelude::*;
use crate::actions::{
    builder_action_outcome, buy_builder_outcome, option_view, queue_outcome, try_buy_builder,
    try_perform_builder_action, try_queue_mercenary, try_set_team_name, BuilderAction,
};
use crate::combat::{
    enemies_attack, enemy_hits, mercenaries_attack, mercenary_hits, towers_attack, towers_fired,
};
use crate::errors::GameError;
use crate::game::{GameState, GameView, PlayerView};
use crate::types::TeamColor;
use crate::world::{
    enemies_moved, mercenaries_moved, mercenaries_popped, move_enemies, move_mercenaries,
    pop_enemies, pop_mercenaries, spawner_run, spawners_ran,
};

verus! {

/// The phases of a match. `Init` comes once; the four others repeat, one
/// round per turn, until the match is decided.
#[derive(PartialEq, Eq, Structural, Clone, Copy, Debug)]
pub enum Phase {
    Init,
    BuilderShop,
    TowerShop,
    MercenaryShop,
    WorldUpdate,
}

pub open spec fn spec_next_phase(p: Phase) -> Phase {
    match p {
        Phase::Init => Phase::BuilderShop,
        Phase::BuilderShop => Phase::TowerShop,
        Phase::TowerShop => Phase::MercenaryShop,
        Phase::MercenaryShop => Phase::WorldUpdate,
        Phase::WorldUpdate => Phase::BuilderShop,
    }
}

/// The phase that follows `p`.
pub fn next_phase(p: Phase) -> (r: Phase)
    ensures
        r == spec_next_phase(p),
{
    match p {
        Phase::Init => Phase::BuilderShop,
        Phase::BuilderShop => Phase::TowerShop,
        Phase::TowerShop => Phase::MercenaryShop,
        Phase::MercenaryShop => Phase::WorldUpdate,
        Phase::WorldUpdate => Phase::BuilderShop,
    }
}

/// Names both teams.
pub fn init_phase(game_state: &mut GameState, red_name: String, blue_name: String)
    requires
        old(game_state).wf(),
    ensures
        final(game_state).wf(),
        ({
            let v = old(game_state)@;
            let mid = v.with_player(
                TeamColor::Red,
                PlayerView { team_name: red_name@, ..v.player(TeamColor::Red) },
            );
            final(game_state)@ == mid.with_player(
                TeamColor::Blue,
                PlayerView { team_name: blue_name@, ..mid.player(TeamColor::Blue) },
            )
        }),
{
    let _ = try_set_team_name(game_state, TeamColor::Red, red_name);
    let _ = try_set_team_name(game_state, TeamColor::Blue, blue_name);
}

/// Each team that asks for one tries to buy a builder, red first. A team
/// that asks for none, or whose request did not arrive, passes.
pub fn builder_shop_phase(game_state: &mut GameState, red_buys: bool, blue_buys: bool) -> (r: (
    Result<(), GameError>,
    Result<(), GameError>,
))
    requires
        old(game_state).wf(),
    ensures
        final(game_state).wf(),
        ({
            let v = old(game_state)@;
            let (ra, mid) = if red_buys {
                buy_builder_outcome(v, TeamColor::Red)
            } else {
                (Ok(()), v)
            };
            let (rb, end) = if blue_buys {
                buy_builder_outcome(mid, TeamColor::Blue)
            } else {
                (Ok(()), mid)
            };
            r == (ra, rb) && final(game_state)@ == end
        }),
{
    let ra = if red_buys {
        try_buy_builder(game_state, TeamColor::Red)
    } else {
        Ok(())
    };
    let rb = if blue_buys {
        try_buy_builder(game_state, TeamColor::Blue)
    } else {
        Ok(())
    };
    (ra, rb)
}

/// What a team's builder action, if one arrived, does to `v`.
pub open spec fn tower_shop_step(v: GameView, team: TeamColor, action: Option<BuilderAction>) -> (
    Result<(), GameError>,
    GameView,
) {
    match action {
        None => (Ok(()), v),
        Some(a) => builder_action_outcome(
            v,
            team,
            a.action_type@,
            a.target_x,
            a.target_y,
            option_view(a.tower_type),
        ),
    }
}

/// Carries out the builder action of each team, red first. A missing
/// action counts as doing nothing.
pub fn tower_shop_phase(
    game_state: &mut GameState,
    red: Option<BuilderAction>,
    blue: Option<BuilderAction>,
) -> (r: (Result<(), GameError>, Result<(), GameError>))
    requires
        old(game_state).wf(),
    ensures
        final(game_state).wf(),
        ({
            let (ra, mid) = tower_shop_step(old(game_state)@, TeamColor::Red, red);
            let (rb, end) = tower_shop_step(mid, TeamColor::Blue, blue);
            r == (ra, rb) && final(game_state)@ == end
        }),
{
    let ra = match red {
        Some(a) => try_perform_builder_action(game_state, a, TeamColor::Red),
        None => Ok(()),
    };
    let rb = match blue {
        Some(a) => try_perform_builder_action(game_state, a, TeamColor::Blue),
        None => Ok(()),
    };
    (ra, rb)
}

/// What a team's mercenary order, if one arrived, does to `v`.
pub open spec fn mercenary_shop_step(
    v: GameView,
    team: TeamColor,
    order: Option<String>,
    r: Result<(), GameError>,
    v1: GameView,
) -> bool {
    match order {
        None => r is Ok && v1 == v,
        Some(d) => queue_outcome(v, team, d@, r, v1),
    }
}

/// Queues the mercenary that each team orders, red first. A missing order
/// buys nothing. A rejected order changes nothing.
pub fn mercenary_shop_phase(game_state: &mut GameState, red: Option<String>, blue: Option<String>) -> (r:
    (Result<(), GameError>, Result<(), GameError>))
    requires
        old(game_state).wf(),
    ensures
        final(game_state).wf(),
        exists|mid: GameView|
            #[trigger] mercenary_shop_step(old(game_state)@, TeamColor::Red, red, r.0, mid)
                && mercenary_shop_step(mid, TeamColor::Blue, blue, r.1, final(game_state)@),
{
    let ra = match red {
        Some(d) => try_queue_mercenary(game_state, d, TeamColor::Red),
        None => Ok(()),
    };
    let ghost mid = game_state@;
    let rb = match blue {
        Some(d) => try_queue_mercenary(game_state, d, TeamColor::Blue),
        None => Ok(()),
    };
    let r = (ra, rb);
    assert(mercenary_shop_step(old(game_state)@, TeamColor::Red, red, r.0, mid));
    assert(mercenary_shop_step(mid, TeamColor::Blue, blue, r.1, game_state@));
    r
}

/// The count of turns after one more, up to the largest count.
pub open spec fn next_count(n: u32) -> u32 {
    if n == u32::MAX {
        u32::MAX
    } else {
        (n + 1) as u32
    }
}

/// A world update that went through, from `v0` to `end`, by way of the
/// states after each step: mercenaries move (`v1`), pending ones appear
/// (`v2`), enemies move (`v3`), spawners run (`v4`), mercenaries and then
/// enemies strike the bases, towers fire (`v5`), and the turn is counted.
pub open spec fn world_updated(
    v0: GameView,
    v1: GameView,
    v2: GameView,
    v3: GameView,
    v4: GameView,
    v5: GameView,
    end: GameView,
) -> bool {
    &&& mercenaries_moved(v0, v1)
    &&& mercenaries_popped(v1, Ok(()), v2)
    &&& enemies_moved(v2, v3)
    &&& spawners_ran(v3, Ok(()), v4)
    &&& towers_fired(enemy_hits(mercenary_hits(v4)), v5)
    &&& end == (GameView { turns_progressed: next_count(v5.turns_progressed), ..v5 })
}

/// A world update that stopped on an internal fault: mercenaries moved
/// (`v1`), and either bringing out pending mercenaries failed, or that went
/// through (`v2`), enemies moved (`v3`), and a spawner failed.
pub open spec fn world_update_stopped(
    v0: GameView,
    v1: GameView,
    v2: GameView,
    v3: GameView,
    r: Result<(), GameError>,
    end: GameView,
) -> bool {
    &&& mercenaries_moved(v0, v1)
    &&& {
        ||| mercenaries_popped(v1, r, end)
        ||| mercenaries_popped(v1, Ok(()), v2) && enemies_moved(v2, v3) && spawners_ran(v3, r, end)
    }
}

/// The end of a turn: mercenaries move, then queued ones appear, then
/// enemies move and spawners run, then mercenaries, enemies and towers
/// strike, in that order; then the turn is counted. An internal fault stops
/// the update where it arose.
pub fn world_update_phase(game_state: &mut GameState) -> (r: Result<(), GameError>)
    requires
        old(game_state).wf(),
    ensures
        final(game_state).wf(),
        r is Ok ==> exists|v1: GameView, v2: GameView, v3: GameView, v4: GameView, v5: GameView|
            #[trigger] world_updated(old(game_state)@, v1, v2, v3, v4, v5, final(game_state)@),
        r is Err ==> exists|v1: GameView, v2: GameView, v3: GameView|
            #[trigger] world_update_stopped(old(game_state)@, v1, v2, v3, r, final(game_state)@),
{
    move_mercenaries(game_state);
    let ghost v1 = game_state@;
    match pop_mercenaries(game_state) {
        Ok(()) => {},
        Err(e) => {
            assert(world_update_stopped(old(game_state)@, v1, v1, v1, Err(e), game_state@));
            return Err(e);
        },
    }
    let ghost v2 = game_state@;
    move_enemies(game_state);
    let ghost v3 = game_state@;
    let spawned = pop_enemies(game_state);
    match spawned {
        Ok(()) => {},
        Err(e) => {
            assert(world_update_stopped(old(game_state)@, v1, v2, v3, Err(e), game_state@));
            return Err(e);
        },
    }
    let ghost v4 = game_state@;
    assert(spawners_ran(v3, Ok(()), v4)) by {
        let (vs, rs) = choose|vs: Seq<GameView>, rs: Seq<bool>| spawner_run(v3, vs, rs, spawned, v4);
        assert(spawner_run(v3, vs, rs, Ok(()), v4));
    }
    mercenaries_attack(game_state);
    enemies_attack(game_state);
    towers_attack(game_state);
    let ghost v5 = game_state@;
    game_state.advance_turn();
    assert(world_updated(old(game_state)@, v1, v2, v3, v4, v5, game_state@));
    Ok(())
}

} // verus!
