use vstd::prelude::*;
use crate::entities::{
    builder_price, direction_offset, parse_direction, stats_of, tower_kind_of, TowerKind, Tower,
    BUILDER_PRICE_STEP, MAX_BUILDERS, MERCENARY_PRICE,
};
use crate::errors::GameError;
use crate::game::{
    lemma_same_tower, lemma_tower_indexed, same_but_queue, GameState, GameView, PlayerView,
};
use crate::types::{territory, territory_of, text_is, EntityType, FloorTile, Position, TeamColor};

verus! {

/// A builder's action as a team submits it: `action_type` is "build",
/// "recycle_tower" or "nothing"; the target and the tower name are needed
/// by the actions that use them.
pub struct BuilderAction {
    pub action_type: String,
    pub target_x: Option<i32>,
    pub target_y: Option<i32>,
    pub tower_type: Option<String>,
}

#[derive(PartialEq, Eq, Structural, Clone, Copy, Debug)]
pub enum BuilderActionType {
    Build,
    RecycleTower,
    Nothing,
}

pub open spec fn builder_action_type_of(s: Seq<char>) -> Option<BuilderActionType> {
    if s == "build"@ {
        Some(BuilderActionType::Build)
    } else if s == "recycle_tower"@ {
        Some(BuilderActionType::RecycleTower)
    } else if s == "nothing"@ {
        Some(BuilderActionType::Nothing)
    } else {
        None
    }
}

/// The target cell of an action, or why it has none.
pub open spec fn target_of(x: Option<i32>, y: Option<i32>) -> Result<Position, GameError> {
    match (x, y) {
        (Some(x), Some(y)) => Ok(Position { x, y }),
        (None, None) => Err(GameError::MissingTarget),
        (None, Some(_)) => Err(GameError::MissingTargetX),
        (Some(_), None) => Err(GameError::MissingTargetY),
    }
}

/// Whether `team` may act on `p`: `p` is on the board, in its territory.
pub open spec fn territory_check(v: GameView, team: TeamColor, p: Position) -> Result<(), GameError> {
    if !v.floor_tiles.contains_key(p) {
        Err(GameError::OutOfBounds)
    } else if v.floor_tiles[p] != territory_of(team) {
        Err(GameError::WrongTerritory)
    } else {
        Ok(())
    }
}

/// The outcome of a build: the kind and cell of the new tower, or why
/// there is none.
pub open spec fn build_check(
    v: GameView,
    team: TeamColor,
    x: Option<i32>,
    y: Option<i32>,
    tower_type: Option<Seq<char>>,
) -> Result<(TowerKind, Position), GameError> {
    match target_of(x, y) {
        Err(e) => Err(e),
        Ok(p) => match territory_check(v, team, p) {
            Err(e) => Err(e),
            Ok(_) => if v.entity_position.contains_key(p) {
                Err(GameError::Occupied { x: p.x, y: p.y })
            } else {
                match tower_type {
                    None => Err(GameError::MissingTowerType),
                    Some(s) => match tower_kind_of(s) {
                        None => Err(GameError::UnknownTowerType),
                        Some(kind) => {
                            let money = v.player(team).money;
                            let cost = stats_of(kind).cost;
                            if money < cost {
                                Err(GameError::InsufficientFunds { required: cost, available: money })
                            } else if v.next_uid == u64::MAX {
                                Err(GameError::IdsExhausted)
                            } else {
                                Ok((kind, p))
                            }
                        },
                    },
                }
            },
        },
    }
}

/// Whether tower `i` of `team` stands at `p`.
pub open spec fn tower_of_team_at(v: GameView, team: TeamColor, i: int, p: Position) -> bool {
    0 <= i < v.player(team).towers.len() && v.player(team).towers[i].position == p
}

/// The outcome of a recycle: the cell of a tower of the team, or why
/// there is none.
pub open spec fn recycle_check(v: GameView, team: TeamColor, x: Option<i32>, y: Option<i32>) -> Result<
    Position,
    GameError,
> {
    match target_of(x, y) {
        Err(e) => Err(e),
        Ok(p) => match territory_check(v, team, p) {
            Err(e) => Err(e),
            Ok(_) => if !v.entity_position.contains_key(p) {
                Err(GameError::NothingToRecycle { x: p.x, y: p.y })
            } else if v.entity_position[p].entity_type != EntityType::Tower {
                Err(GameError::NotATower { x: p.x, y: p.y })
            } else if !exists|i: int| tower_of_team_at(v, team, i, p) {
                Err(GameError::DanglingTower { uid: v.entity_position[p].uid })
            } else {
                Ok(p)
            },
        },
    }
}

pub open spec fn option_view(o: Option<String>) -> Option<Seq<char>> {
    match o {
        Some(s) => Some(s@),
        None => None,
    }
}

/// What a team may do with its money when recycling a tower that cost
/// `cost`: get half of it back, rounded down, up to the largest amount.
pub open spec fn refunded(money: u32, cost: u32) -> u32 {
    if money + cost / 2 > u32::MAX {
        u32::MAX
    } else {
        (money + cost / 2) as u32
    }
}

/// Where a mercenary bought by `team` with the given direction token would
/// be queued to appear, or why it may not be bought.
pub open spec fn queue_check(v: GameView, team: TeamColor, direction: Seq<char>) -> Result<
    Position,
    GameError,
> {
    let ps = v.player(team);
    match ps.base {
        None => Err(GameError::NoBase),
        Some(b) => match direction_offset(direction) {
            None => Err(GameError::InvalidDirection),
            Some((dx, dy)) => {
                let p = Position { x: (b.position.x + dx) as i32, y: (b.position.y + dy) as i32 };
                if !v.floor_tiles.contains_key(p) {
                    Err(GameError::OutOfBounds)
                } else if v.floor_tiles[p] != FloorTile::Path {
                    Err(GameError::NotAPathTile)
                } else if ps.money < MERCENARY_PRICE {
                    Err(GameError::InsufficientFunds { required: MERCENARY_PRICE, available: ps.money })
                } else {
                    Ok(p)
                }
            },
        },
    }
}

/// What buying a builder does: the result, and the match after it.
pub open spec fn buy_builder_outcome(v: GameView, team: TeamColor) -> (Result<(), GameError>, GameView) {
    let ps = v.player(team);
    match builder_price(ps.builder_count) {
        None => (Err(GameError::MaxBuildersReached { max: MAX_BUILDERS }), v),
        Some(price) => if ps.money >= price {
            (
                Ok(()),
                v.with_player(
                    team,
                    PlayerView {
                        builder_count: (ps.builder_count + 1) as u32,
                        money: (ps.money - price) as u32,
                        ..ps
                    },
                ),
            )
        } else {
            (Err(GameError::InsufficientFunds { required: price, available: ps.money }), v)
        },
    }
}

/// What a builder's action does: the result, and the match after it.
pub open spec fn builder_action_outcome(
    v: GameView,
    team: TeamColor,
    action_type: Seq<char>,
    x: Option<i32>,
    y: Option<i32>,
    tower_type: Option<Seq<char>>,
) -> (Result<(), GameError>, GameView) {
    let money = v.player(team).money;
    match builder_action_type_of(action_type) {
        None => (Err(GameError::UnknownActionType), v),
        Some(BuilderActionType::Nothing) => (Ok(()), v),
        Some(BuilderActionType::Build) => match build_check(v, team, x, y, tower_type) {
            Err(e) => (Err(e), v),
            Ok((kind, p)) => (
                Ok(()),
                v.with_tower(
                    Tower {
                        uid: v.next_uid,
                        position: p,
                        stats: stats_of(kind),
                        reload_turns_left: 0,
                        team_color: team,
                    },
                ).with_money(team, (money - stats_of(kind).cost) as u32),
            ),
        },
        Some(BuilderActionType::RecycleTower) => match recycle_check(v, team, x, y) {
            Err(e) => (Err(e), v),
            Ok(p) => {
                let i = choose|i: int| tower_of_team_at(v, team, i, p);
                (
                    Ok(()),
                    v.with_money(team, refunded(money, v.player(team).towers[i].stats.cost)).without_tower(
                        team,
                        i,
                    ),
                )
            },
        },
    }
}

/// What queueing a mercenary does: `r` and `v1` are the result and the
/// match after it. A rejection changes nothing; a purchase takes the price
/// and appends the cell to the queue of the team's base.
pub open spec fn queue_outcome(
    v: GameView,
    team: TeamColor,
    direction: Seq<char>,
    r: Result<(), GameError>,
    v1: GameView,
) -> bool {
    let ps = v.player(team);
    match queue_check(v, team, direction) {
        Err(e) => r == Err::<(), GameError>(e) && v1 == v,
        Ok(p) => {
            let b0 = ps.base->Some_0;
            let b1 = v1.player(team).base->Some_0;
            &&& r is Ok
            &&& v1.player(team).base is Some
            &&& same_but_queue(b0, b1)
            &&& b1.mercenaries_queued@ == b0.mercenaries_queued@.push(p)
            &&& v1 == v.with_player(
                team,
                PlayerView { money: (ps.money - MERCENARY_PRICE) as u32, base: Some(b1), ..ps },
            )
        },
    }
}

/// Sets the name of `team`.
pub fn try_set_team_name(game_state: &mut GameState, team_color: TeamColor, team_name: String) -> (r:
    Result<(), GameError>)
    requires
        old(game_state).wf(),
    ensures
        final(game_state).wf(),
        r is Ok,
        final(game_state)@ == old(game_state)@.with_player(
            team_color,
            PlayerView { team_name: team_name@, ..old(game_state)@.player(team_color) },
        ),
{
    game_state.set_team_name(team_color, team_name);
    Ok(())
}

/// Buys the next builder of `team_color` at its price in the price list.
pub fn try_buy_builder(game_state: &mut GameState, team_color: TeamColor) -> (r: Result<(), GameError>)
    requires
        old(game_state).wf(),
    ensures
        final(game_state).wf(),
        (r, final(game_state)@) == buy_builder_outcome(old(game_state)@, team_color),
{
    let ps = game_state.player(team_color);
    let count = ps.builder_count;
    let money = ps.money;
    if count >= MAX_BUILDERS {
        return Err(GameError::MaxBuildersReached { max: MAX_BUILDERS });
    }
    let price = count * BUILDER_PRICE_STEP;
    if money < price {
        return Err(GameError::InsufficientFunds { required: price, available: money });
    }
    game_state.set_builder_count(team_color, count + 1);
    game_state.set_money(team_color, money - price);
    proof {
        let v = old(game_state)@;
        let ps0 = v.player(team_color);
        assert(game_state@.player(team_color) == (PlayerView {
            builder_count: (ps0.builder_count + 1) as u32,
            money: (ps0.money - price) as u32,
            ..ps0
        }));
        assert(game_state@ == v.with_player(team_color, game_state@.player(team_color)));
    }
    Ok(())
}

/// Carries out a builder's action for `team_color`, or rejects it and
/// changes nothing.
pub fn try_perform_builder_action(
    game_state: &mut GameState,
    builder_action: BuilderAction,
    team_color: TeamColor,
) -> (r: Result<(), GameError>)
    requires
        old(game_state).wf(),
    ensures
        final(game_state).wf(),
        (r, final(game_state)@) == builder_action_outcome(
            old(game_state)@,
            team_color,
            builder_action.action_type@,
            builder_action.target_x,
            builder_action.target_y,
            option_view(builder_action.tower_type),
        ),
{
    let ghost v = game_state@;
    let action = builder_action.action_type.as_str();
    let build = text_is(action, "build");
    let recycle = text_is(action, "recycle_tower");
    if !build && !recycle {
        if text_is(action, "nothing") {
            return Ok(());
        } else {
            return Err(GameError::UnknownActionType);
        }
    }
    let p = match (builder_action.target_x, builder_action.target_y) {
        (Some(x), Some(y)) => Position { x, y },
        (None, None) => {
            return Err(GameError::MissingTarget);
        },
        (None, Some(_)) => {
            return Err(GameError::MissingTargetX);
        },
        (Some(_), None) => {
            return Err(GameError::MissingTargetY);
        },
    };
    match game_state.tile(p) {
        None => {
            return Err(GameError::OutOfBounds);
        },
        Some(t) => {
            if t != territory(team_color) {
                return Err(GameError::WrongTerritory);
            }
        },
    }
    let occupant = game_state.occupant(p);
    let money = game_state.player(team_color).money;
    if build {
        if occupant.is_some() {
            return Err(GameError::Occupied { x: p.x, y: p.y });
        }
        let tower_type = match builder_action.tower_type {
            Some(s) => s,
            None => {
                return Err(GameError::MissingTowerType);
            },
        };
        let kind = match TowerKind::parse(tower_type.as_str()) {
            Some(k) => k,
            None => {
                return Err(GameError::UnknownTowerType);
            },
        };
        let cost = kind.stats().cost;
        if money < cost {
            return Err(GameError::InsufficientFunds { required: cost, available: money });
        }
        match game_state.add_tower(tower_type, p, team_color) {
            Err(e) => {
                return Err(e);
            },
            Ok(()) => {},
        }
        game_state.set_money(team_color, money - cost);
        Ok(())
    } else {
        let key = match occupant {
            None => {
                return Err(GameError::NothingToRecycle { x: p.x, y: p.y });
            },
            Some(k) => k,
        };
        if key.entity_type != EntityType::Tower {
            return Err(GameError::NotATower { x: p.x, y: p.y });
        }
        match game_state.find_tower(team_color, key.uid) {
            None => {
                proof {
                    assert forall|i: int| !tower_of_team_at(v, team_color, i, p) by {
                        if 0 <= i < v.player(team_color).towers.len() {
                            lemma_tower_indexed(v, team_color, i, p);
                        }
                    }
                }
                Err(GameError::DanglingTower { uid: key.uid })
            },
            Some(i) => {
                let cost = game_state.player(team_color).towers[i].stats.cost;
                proof {
                    lemma_tower_indexed(v, team_color, i as int, p);
                    assert(tower_of_team_at(v, team_color, i as int, p));
                    let c = choose|c: int| tower_of_team_at(v, team_color, c, p);
                    lemma_tower_indexed(v, team_color, c, p);
                    lemma_same_tower(v, team_color, i as int, c);
                }
                game_state.set_money(team_color, money.saturating_add(cost / 2));
                game_state.remove_tower_at(team_color, i);
                proof {
                    assert(game_state@ == v.with_money(
                        team_color,
                        refunded(money, v.player(team_color).towers[i as int].stats.cost),
                    ).without_tower(team_color, i as int));
                }
                Ok(())
            },
        }
    }
}

/// Buys a mercenary for `team_color` and queues it to appear next to its
/// base in the given direction, or rejects the purchase and changes nothing.
pub fn try_queue_mercenary(game_state: &mut GameState, oct_direction: String, team_color: TeamColor) -> (r:
    Result<(), GameError>)
    requires
        old(game_state).wf(),
    ensures
        final(game_state).wf(),
        queue_outcome(old(game_state)@, team_color, oct_direction@, r, final(game_state)@),
{
    let ghost v = game_state@;
    let base_position = match &game_state.player(team_color).base {
        Some(b) => b.position,
        None => {
            return Err(GameError::NoBase);
        },
    };
    proof {
        game_state.lemma_base_on_board(team_color);
        game_state.lemma_board_coords(base_position);
    }
    let p = match parse_direction(oct_direction, base_position) {
        Ok(p) => p,
        Err(e) => {
            return Err(e);
        },
    };
    match game_state.tile(p) {
        None => {
            return Err(GameError::OutOfBounds);
        },
        Some(t) => {
            if t != FloorTile::Path {
                return Err(GameError::NotAPathTile);
            }
        },
    }
    let money = game_state.player(team_color).money;
    if money < MERCENARY_PRICE {
        return Err(GameError::InsufficientFunds { required: MERCENARY_PRICE, available: money });
    }
    game_state.set_money(team_color, money - MERCENARY_PRICE);
    game_state.enqueue_mercenary(team_color, p);
    Ok(())
}

} // verus!
