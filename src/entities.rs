use vstd::prelude::*;
use std::collections::VecDeque;
use crate::errors::GameError;
use crate::types::{text_is, Position, TeamColor};

verus! {

pub const INITIAL_MONEY: u32 = 3;
pub const ENEMY_INITIAL_HP: u32 = 70;
pub const ENEMY_ATTACK_POWER: u32 = 10;
pub const MERCENARY_INITIAL_HP: u32 = 70;
pub const MERCENARY_ATTACK_POWER: u32 = 10;
pub const MERCENARY_PRICE: u32 = 3;
pub const ENEMY_SPAWNER_RELOAD_TURNS: u32 = 10;
pub const PLAYER_BASE_INITIAL_HP: u32 = 200;
/// The number of builders a team may own; the price list has one entry per builder.
pub const MAX_BUILDERS: u32 = 6;
/// Builder `n` (counting from zero) costs `n` times this much.
pub const BUILDER_PRICE_STEP: u32 = 4;

/// The price of the builder that a team owning `count` builders buys next,
/// if it may buy one: 0, 4, 8, 12, 16, 20.
pub open spec fn builder_price(count: u32) -> Option<u32> {
    if count < MAX_BUILDERS {
        Some((count * BUILDER_PRICE_STEP) as u32)
    } else {
        None
    }
}

/// The offset that a direction token names: a compass point, or "X" to stay.
pub open spec fn direction_offset(d: Seq<char>) -> Option<(int, int)> {
    if d == "N"@ {
        Some((0, -1))
    } else if d == "NE"@ {
        Some((1, -1))
    } else if d == "E"@ {
        Some((1, 0))
    } else if d == "SE"@ {
        Some((1, 1))
    } else if d == "S"@ {
        Some((0, 1))
    } else if d == "SW"@ {
        Some((-1, 1))
    } else if d == "W"@ {
        Some((-1, 0))
    } else if d == "NW"@ {
        Some((-1, -1))
    } else if d == "X"@ {
        Some((0, 0))
    } else {
        None
    }
}

/// The cell one step from `from` in the given direction.
pub fn parse_direction(direction: String, from: Position) -> (r: Result<Position, GameError>)
    requires
        i32::MIN < from.x < i32::MAX,
        i32::MIN < from.y < i32::MAX,
    ensures
        match direction_offset(direction@) {
            Some((dx, dy)) => r == Ok::<Position, GameError>(
                Position { x: (from.x + dx) as i32, y: (from.y + dy) as i32 },
            ),
            None => r == Err::<Position, GameError>(GameError::InvalidDirection),
        },
{
    let d = direction.as_str();
    if text_is(d, "N") {
        Ok(Position { x: from.x, y: from.y - 1 })
    } else if text_is(d, "NE") {
        Ok(Position { x: from.x + 1, y: from.y - 1 })
    } else if text_is(d, "E") {
        Ok(Position { x: from.x + 1, y: from.y })
    } else if text_is(d, "SE") {
        Ok(Position { x: from.x + 1, y: from.y + 1 })
    } else if text_is(d, "S") {
        Ok(Position { x: from.x, y: from.y + 1 })
    } else if text_is(d, "SW") {
        Ok(Position { x: from.x - 1, y: from.y + 1 })
    } else if text_is(d, "W") {
        Ok(Position { x: from.x - 1, y: from.y })
    } else if text_is(d, "NW") {
        Ok(Position { x: from.x - 1, y: from.y - 1 })
    } else if text_is(d, "X") {
        Ok(Position { x: from.x, y: from.y })
    } else {
        Err(GameError::InvalidDirection)
    }
}

/// The fixed catalog of towers.
#[derive(PartialEq, Eq, Structural, Clone, Copy, Debug)]
pub enum TowerKind {
    Crossbow,
    Cannon,
    Minigun,
    House,
}

/// The kind that a tower name denotes.
pub open spec fn tower_kind_of(s: Seq<char>) -> Option<TowerKind> {
    if s == "crossbow"@ {
        Some(TowerKind::Crossbow)
    } else if s == "cannon"@ {
        Some(TowerKind::Cannon)
    } else if s == "minigun"@ {
        Some(TowerKind::Minigun)
    } else if s == "house"@ {
        Some(TowerKind::House)
    } else {
        None
    }
}

#[derive(PartialEq, Eq, Structural, Clone, Copy, Debug)]
pub struct TowerStats {
    pub kind: TowerKind,
    pub damage: u32,
    pub cost: u32,
    pub range: u32,
    pub reload_turns: u32,
    pub initial_hp: u32,
}

/// The fixed profile of each tower kind.
pub open spec fn stats_of(kind: TowerKind) -> TowerStats {
    match kind {
        TowerKind::Crossbow => TowerStats {
            kind,
            damage: 3,
            cost: 2,
            range: 2,
            reload_turns: 2,
            initial_hp: 100,
        },
        TowerKind::Cannon => TowerStats {
            kind,
            damage: 20,
            cost: 5,
            range: 2,
            reload_turns: 4,
            initial_hp: 100,
        },
        TowerKind::Minigun => TowerStats {
            kind,
            damage: 1,
            cost: 4,
            range: 2,
            reload_turns: 1,
            initial_hp: 100,
        },
        TowerKind::House => TowerStats {
            kind,
            damage: 0,
            cost: 3,
            range: 0,
            reload_turns: 6,
            initial_hp: 100,
        },
    }
}

impl TowerKind {
    /// The kind that a tower name denotes, if any.
    pub fn parse(s: &str) -> (r: Option<TowerKind>)
        ensures
            r == tower_kind_of(s@),
    {
        if text_is(s, "crossbow") {
            Some(TowerKind::Crossbow)
        } else if text_is(s, "cannon") {
            Some(TowerKind::Cannon)
        } else if text_is(s, "minigun") {
            Some(TowerKind::Minigun)
        } else if text_is(s, "house") {
            Some(TowerKind::House)
        } else {
            None
        }
    }

    pub fn stats(self) -> (r: TowerStats)
        ensures
            r == stats_of(self),
    {
        match self {
            TowerKind::Crossbow => TowerStats {
                kind: self,
                damage: 3,
                cost: 2,
                range: 2,
                reload_turns: 2,
                initial_hp: 100,
            },
            TowerKind::Cannon => TowerStats {
                kind: self,
                damage: 20,
                cost: 5,
                range: 2,
                reload_turns: 4,
                initial_hp: 100,
            },
            TowerKind::Minigun => TowerStats {
                kind: self,
                damage: 1,
                cost: 4,
                range: 2,
                reload_turns: 1,
                initial_hp: 100,
            },
            TowerKind::House => TowerStats {
                kind: self,
                damage: 0,
                cost: 3,
                range: 0,
                reload_turns: 6,
                initial_hp: 100,
            },
        }
    }
}

#[derive(PartialEq, Eq, Structural, Clone, Copy, Debug)]
pub struct Tower {
    pub uid: u64,
    pub position: Position,
    pub stats: TowerStats,
    pub reload_turns_left: u32,
    pub team_color: TeamColor,
}

impl Tower {
    /// A ready tower of the named kind; fails on a name outside the catalog.
    pub fn new(uid: u64, position: Position, team_color: TeamColor, tower_type: String) -> (r:
        Result<Tower, GameError>)
        ensures
            match tower_kind_of(tower_type@) {
                Some(kind) => r == Ok::<Tower, GameError>(
                    Tower {
                        uid,
                        position,
                        stats: stats_of(kind),
                        reload_turns_left: 0,
                        team_color,
                    },
                ),
                None => r == Err::<Tower, GameError>(GameError::UnknownTowerType),
            },
    {
        match TowerKind::parse(tower_type.as_str()) {
            Some(kind) => Ok(
                Tower { uid, position, stats: kind.stats(), reload_turns_left: 0, team_color },
            ),
            None => Err(GameError::UnknownTowerType),
        }
    }
}

pub struct PlayerBase {
    pub uid: u64,
    pub position: Position,
    pub hp: u32,
    /// Spawn cells of the mercenaries bought but not yet on the board, oldest first.
    pub mercenaries_queued: VecDeque<Position>,
    pub team_color: TeamColor,
}

impl PlayerBase {
    pub fn new(uid: u64, position: Position, team_color: TeamColor) -> (r: PlayerBase)
        ensures
            r.uid == uid,
            r.position == position,
            r.hp == PLAYER_BASE_INITIAL_HP,
            r.mercenaries_queued@ == Seq::<Position>::empty(),
            r.team_color == team_color,
    {
        PlayerBase {
            uid,
            position,
            hp: PLAYER_BASE_INITIAL_HP,
            mercenaries_queued: VecDeque::new(),
            team_color,
        }
    }
}

/// Where a unit that follows `path` (which starts at its own cell `position`)
/// wants to be after its next step: the next cell of the path, or its own cell
/// once only the target is left ahead.
pub open spec fn desired_position(position: Position, path: Seq<Position>) -> Position {
    if path.len() > 2 {
        path[1]
    } else {
        position
    }
}

pub struct Mercenary {
    pub uid: u64,
    pub position: Position,
    pub hp: u32,
    pub team_color: TeamColor,
    /// The route still ahead, from the mercenary's own cell to the enemy base.
    pub path_to_enemy: VecDeque<Position>,
}

impl Mercenary {
    pub fn new(
        uid: u64,
        position: Position,
        team_color: TeamColor,
        path_to_enemy: VecDeque<Position>,
    ) -> (r: Mercenary)
        ensures
            r.uid == uid,
            r.position == position,
            r.hp == MERCENARY_INITIAL_HP,
            r.team_color == team_color,
            r.path_to_enemy@ == path_to_enemy@,
    {
        Mercenary { uid, position, hp: MERCENARY_INITIAL_HP, team_color, path_to_enemy }
    }

    pub fn get_desired_position(&self) -> (r: Position)
        ensures
            r == desired_position(self.position, self.path_to_enemy@),
    {
        if self.path_to_enemy.len() > 2 {
            self.path_to_enemy[1]
        } else {
            self.position
        }
    }
}

pub struct Enemy {
    pub uid: u64,
    pub position: Position,
    pub hp: u32,
    pub target: TeamColor,
    /// The route still ahead, from the enemy's own cell to the target base.
    pub path_to_target: VecDeque<Position>,
}

impl Enemy {
    pub fn new(uid: u64, position: Position, target: TeamColor, path_to_target: VecDeque<Position>) -> (r:
        Enemy)
        ensures
            r.uid == uid,
            r.position == position,
            r.hp == ENEMY_INITIAL_HP,
            r.target == target,
            r.path_to_target@ == path_to_target@,
    {
        Enemy { uid, position, hp: ENEMY_INITIAL_HP, target, path_to_target }
    }

    pub fn get_desired_position(&self) -> (r: Position)
        ensures
            r == desired_position(self.position, self.path_to_target@),
    {
        if self.path_to_target.len() > 2 {
            self.path_to_target[1]
        } else {
            self.position
        }
    }
}

#[derive(PartialEq, Eq, Structural, Clone, Copy, Debug)]
pub struct EnemySpawner {
    pub uid: u64,
    pub position: Position,
    pub reload_time_left: u32,
    pub enemies_queued: u32,
    pub target: TeamColor,
    pub switch_target: bool,
}

impl EnemySpawner {
    pub fn new(uid: u64, position: Position, target: TeamColor, switch_target: bool) -> (r:
        EnemySpawner)
        ensures
            r == (EnemySpawner {
                uid,
                position,
                reload_time_left: ENEMY_SPAWNER_RELOAD_TURNS,
                enemies_queued: 0,
                target,
                switch_target,
            }),
    {
        EnemySpawner {
            uid,
            position,
            reload_time_left: ENEMY_SPAWNER_RELOAD_TURNS,
            enemies_queued: 0,
            target,
            switch_target,
        }
    }
}

pub struct PlayerState {
    pub team_color: TeamColor,
    pub team_name: String,
    pub builder_count: u32,
    pub money: u32,
    pub mercenaries: Vec<Mercenary>,
    pub towers: Vec<Tower>,
    pub base: Option<PlayerBase>,
}

impl PlayerState {
    pub fn new(team_color: TeamColor) -> (r: PlayerState)
        ensures
            r.team_color == team_color,
            r.team_name@ == "NO TEAM NAME SET"@,
            r.builder_count == 1,
            r.money == INITIAL_MONEY,
            r.mercenaries@ == Seq::<Mercenary>::empty(),
            r.towers@ == Seq::<Tower>::empty(),
            r.base is None,
    {
        PlayerState {
            team_color,
            team_name: String::from_str("NO TEAM NAME SET"),
            builder_count: 1,
            money: INITIAL_MONEY,
            mercenaries: Vec::new(),
            towers: Vec::new(),
            base: None,
        }
    }
}

} // verus!
