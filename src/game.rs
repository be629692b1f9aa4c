use vstd::prelude::*;
use crate::entities::{
    desired_position, stats_of, tower_kind_of, Enemy, EnemySpawner, Mercenary, PlayerBase,
    PlayerState, Tower, ENEMY_INITIAL_HP, ENEMY_SPAWNER_RELOAD_TURNS, INITIAL_MONEY, MAX_BUILDERS,
    MERCENARY_INITIAL_HP, PLAYER_BASE_INITIAL_HP,
};
use crate::errors::GameError;
use crate::grid::{in_rect, Grid};
use crate::pathfinder::{compute_path_to_enemy, is_route, lemma_route_tail, shortest_route};
use crate::placement::{
    key_of, lemma_place, lemma_relocate, lemma_unplace, placement_inv, uids_below, Table,
};
use crate::types::{
    parse_team_color, parse_tile, team_color_of, tile_of, EntityKey, EntityType, FloorTile, Position, TeamColor,
};

verus! {

/// What a team owns and has, as plain values.
pub struct PlayerView {
    pub team_color: TeamColor,
    pub team_name: Seq<char>,
    pub builder_count: u32,
    pub money: u32,
    pub mercenaries: Seq<Mercenary>,
    pub towers: Seq<Tower>,
    pub base: Option<PlayerBase>,
}

impl PlayerState {
    pub open spec fn view(&self) -> PlayerView {
        PlayerView {
            team_color: self.team_color,
            team_name: self.team_name@,
            builder_count: self.builder_count,
            money: self.money,
            mercenaries: self.mercenaries@,
            towers: self.towers@,
            base: self.base,
        }
    }
}

/// A match as plain values: the board, the spatial index, and the tables.
pub struct GameView {
    pub turns_progressed: u32,
    pub victory: Option<TeamColor>,
    pub red: PlayerView,
    pub blue: PlayerView,
    pub floor_tiles: Map<Position, FloorTile>,
    pub entity_position: Map<Position, EntityKey>,
    pub enemies: Seq<Enemy>,
    pub enemy_spawners: Seq<EnemySpawner>,
    pub next_uid: u64,
}

pub open spec fn tower_rows(s: Seq<Tower>) -> Seq<(u64, Position)> {
    s.map_values(|t: Tower| (t.uid, t.position))
}

pub open spec fn mercenary_rows(s: Seq<Mercenary>) -> Seq<(u64, Position)> {
    s.map_values(|m: Mercenary| (m.uid, m.position))
}

pub open spec fn enemy_rows(s: Seq<Enemy>) -> Seq<(u64, Position)> {
    s.map_values(|e: Enemy| (e.uid, e.position))
}

pub open spec fn spawner_rows(s: Seq<EnemySpawner>) -> Seq<(u64, Position)> {
    s.map_values(|e: EnemySpawner| (e.uid, e.position))
}

pub open spec fn base_rows(b: Option<PlayerBase>) -> Seq<(u64, Position)> {
    match b {
        Some(b) => seq![(b.uid, b.position)],
        None => Seq::empty(),
    }
}

pub open spec fn towers_table(team: TeamColor) -> Table {
    match team {
        TeamColor::Red => Table::RedTowers,
        TeamColor::Blue => Table::BlueTowers,
    }
}

pub open spec fn mercenaries_table(team: TeamColor) -> Table {
    match team {
        TeamColor::Red => Table::RedMercenaries,
        TeamColor::Blue => Table::BlueMercenaries,
    }
}

impl GameView {
    pub open spec fn player(self, team: TeamColor) -> PlayerView {
        match team {
            TeamColor::Red => self.red,
            TeamColor::Blue => self.blue,
        }
    }

    pub open spec fn with_player(self, team: TeamColor, ps: PlayerView) -> GameView {
        match team {
            TeamColor::Red => GameView { red: ps, ..self },
            TeamColor::Blue => GameView { blue: ps, ..self },
        }
    }

    /// Every table of the match as rows of (uid, position).
    pub open spec fn rows(self) -> spec_fn(Table) -> Seq<(u64, Position)> {
        |t: Table|
            match t {
                Table::RedTowers => tower_rows(self.red.towers),
                Table::BlueTowers => tower_rows(self.blue.towers),
                Table::RedMercenaries => mercenary_rows(self.red.mercenaries),
                Table::BlueMercenaries => mercenary_rows(self.blue.mercenaries),
                Table::Enemies => enemy_rows(self.enemies),
                Table::Spawners => spawner_rows(self.enemy_spawners),
                Table::RedBase => base_rows(self.red.base),
                Table::BlueBase => base_rows(self.blue.base),
            }
    }

    /// The position of the base of `team`, if it has one.
    pub open spec fn base_position(self, team: TeamColor) -> Option<Position> {
        match self.player(team).base {
            Some(b) => Some(b.position),
            None => None,
        }
    }

    /// Whether a new entity may be placed at `p`: `p` is on the board and
    /// free, and an id is left to hand out.
    pub open spec fn place_check(self, p: Position) -> Result<(), GameError> {
        if !self.floor_tiles.contains_key(p) {
            Err(GameError::OutOfBounds)
        } else if self.entity_position.contains_key(p) {
            Err(GameError::Occupied { x: p.x, y: p.y })
        } else if self.next_uid == u64::MAX {
            Err(GameError::IdsExhausted)
        } else {
            Ok(())
        }
    }

    pub open spec fn with_money(self, team: TeamColor, money: u32) -> GameView {
        self.with_player(team, PlayerView { money, ..self.player(team) })
    }

    /// Whether a mercenary of `team` may appear at `p`: the other base
    /// exists, `p` is free (see `place_check`), and a route leads from `p`
    /// to that base.
    pub open spec fn spawn_check(self, team: TeamColor, p: Position) -> Result<(), GameError> {
        match self.base_position(team.spec_opponent()) {
            None => Err(GameError::NoBase),
            Some(target) => match self.place_check(p) {
                Err(e) => Err(e),
                Ok(_) => if exists|q: Seq<Position>| is_route(self.floor_tiles, p, target, q) {
                    Ok(())
                } else {
                    Err(GameError::NoPath)
                },
            },
        }
    }

    /// The match after the base of `team` loses `amount` hit points, down to
    /// zero; a base at zero decides the match for the other team, unless it
    /// is decided already.
    pub open spec fn after_hit(self, team: TeamColor, amount: u32) -> GameView {
        match self.player(team).base {
            None => self,
            Some(b0) => {
                let hp = if amount >= b0.hp {
                    0
                } else {
                    (b0.hp - amount) as u32
                };
                GameView {
                    victory: if hp == 0 && self.victory is None {
                        Some(team.spec_opponent())
                    } else {
                        self.victory
                    },
                    ..self.with_player(
                        team,
                        PlayerView { base: Some(PlayerBase { hp, ..b0 }), ..self.player(team) },
                    )
                }
            },
        }
    }

    /// Whether an enemy bound for the base of `target` may appear at `p`:
    /// that base exists, `p` is free (see `place_check`), and a route leads
    /// from `p` to that base.
    pub open spec fn enemy_spawn_check(self, p: Position, target: TeamColor) -> Result<(), GameError> {
        match self.base_position(target) {
            None => Err(GameError::NoBase),
            Some(goal) => match self.place_check(p) {
                Err(e) => Err(e),
                Ok(_) => if exists|q: Seq<Position>| is_route(self.floor_tiles, p, goal, q) {
                    Ok(())
                } else {
                    Err(GameError::NoPath)
                },
            },
        }
    }

    /// The match after `t` joins its team's tower table and the index.
    pub open spec fn with_tower(self, t: Tower) -> GameView {
        let ps = self.player(t.team_color);
        GameView {
            entity_position: self.entity_position.insert(
                t.position,
                EntityKey { uid: t.uid, entity_type: EntityType::Tower },
            ),
            next_uid: (self.next_uid + 1) as u64,
            ..self.with_player(t.team_color, PlayerView { towers: ps.towers.push(t), ..ps })
        }
    }

    /// The match after tower `i` of `team` leaves its table and the index.
    pub open spec fn without_tower(self, team: TeamColor, i: int) -> GameView {
        let ps = self.player(team);
        GameView {
            entity_position: self.entity_position.remove(ps.towers[i].position),
            ..self.with_player(team, PlayerView { towers: ps.towers.remove(i), ..ps })
        }
    }

    pub open spec fn with_mercenaries(self, team: TeamColor, ms: Seq<Mercenary>) -> GameView {
        let ps = self.player(team);
        self.with_player(team, PlayerView { mercenaries: ms, ..ps })
    }

    /// The match after `m` joins its team's mercenary table and the index.
    pub open spec fn with_mercenary(self, m: Mercenary) -> GameView {
        GameView {
            entity_position: self.entity_position.insert(
                m.position,
                EntityKey { uid: m.uid, entity_type: EntityType::Mercenary },
            ),
            next_uid: (self.next_uid + 1) as u64,
            ..self.with_mercenaries(m.team_color, self.player(m.team_color).mercenaries.push(m))
        }
    }

    /// The match after mercenary `i` of `team` leaves its table and the index.
    pub open spec fn without_mercenary(self, team: TeamColor, i: int) -> GameView {
        let ms = self.player(team).mercenaries;
        GameView {
            entity_position: self.entity_position.remove(ms[i].position),
            ..self.with_mercenaries(team, ms.remove(i))
        }
    }

    /// The match after `e` joins the enemy table and the index.
    pub open spec fn with_enemy(self, e: Enemy) -> GameView {
        GameView {
            entity_position: self.entity_position.insert(
                e.position,
                EntityKey { uid: e.uid, entity_type: EntityType::Enemy },
            ),
            next_uid: (self.next_uid + 1) as u64,
            enemies: self.enemies.push(e),
            ..self
        }
    }

    /// The match after enemy `i` leaves its table and the index.
    pub open spec fn without_enemy(self, i: int) -> GameView {
        GameView {
            entity_position: self.entity_position.remove(self.enemies[i].position),
            enemies: self.enemies.remove(i),
            ..self
        }
    }

    /// The match after `s` joins the spawner table and the index.
    pub open spec fn with_spawner(self, s: EnemySpawner) -> GameView {
        GameView {
            entity_position: self.entity_position.insert(
                s.position,
                EntityKey { uid: s.uid, entity_type: EntityType::EnemySpawner },
            ),
            next_uid: (self.next_uid + 1) as u64,
            enemy_spawners: self.enemy_spawners.push(s),
            ..self
        }
    }

    /// The match after `b` becomes the base of its team and joins the index.
    pub open spec fn with_base(self, b: PlayerBase) -> GameView {
        let ps = self.player(b.team_color);
        GameView {
            entity_position: self.entity_position.insert(
                b.position,
                EntityKey { uid: b.uid, entity_type: EntityType::PlayerBase },
            ),
            next_uid: (self.next_uid + 1) as u64,
            ..self.with_player(b.team_color, PlayerView { base: Some(b), ..ps })
        }
    }

    /// A unit at `position` following `path` marches on the base of `target`:
    /// that base exists and `path` is a route to it (see `is_route`).
    pub open spec fn on_route(self, position: Position, path: Seq<Position>, target: TeamColor) -> bool {
        &&& self.base_position(target) is Some
        &&& is_route(self.floor_tiles, position, self.base_position(target)->Some_0, path)
    }

    /// The invariants of a match.
    pub open spec fn inv(self) -> bool {
        &&& placement_inv(self.rows(), self.entity_position, self.next_uid)
        &&& forall|p: Position| #[trigger]
            self.entity_position.contains_key(p) ==> self.floor_tiles.contains_key(p)
        &&& self.red.team_color == TeamColor::Red
        &&& self.blue.team_color == TeamColor::Blue
        &&& self.red.builder_count <= MAX_BUILDERS
        &&& self.blue.builder_count <= MAX_BUILDERS
        &&& forall|i: int| 0 <= i < self.red.mercenaries.len() ==> {
            let m = #[trigger] self.red.mercenaries[i];
            &&& m.team_color == TeamColor::Red
            &&& self.on_route(m.position, m.path_to_enemy@, TeamColor::Blue)
        }
        &&& forall|i: int| 0 <= i < self.blue.mercenaries.len() ==> {
            let m = #[trigger] self.blue.mercenaries[i];
            &&& m.team_color == TeamColor::Blue
            &&& self.on_route(m.position, m.path_to_enemy@, TeamColor::Red)
        }
        &&& forall|i: int| 0 <= i < self.enemies.len() ==> {
            let e = #[trigger] self.enemies[i];
            self.on_route(e.position, e.path_to_target@, e.target)
        }
    }
}

/// A unit that moved one step along its route: `after` stands on the second
/// cell of the route of `before`, and its route lost its first cell.
pub open spec fn stepped(
    before_pos: Position,
    before_path: Seq<Position>,
    after_pos: Position,
    after_path: Seq<Position>,
) -> bool {
    &&& after_pos == desired_position(before_pos, before_path)
    &&& after_path == before_path.drop_first()
}

/// Two bases that differ at most in their queue of pending mercenaries.
pub open spec fn same_but_queue(a: PlayerBase, b: PlayerBase) -> bool {
    a.uid == b.uid && a.position == b.position && a.hp == b.hp && a.team_color == b.team_color
}

/// The index names tower `i` of `team` at `p` exactly when it stands there.
pub proof fn lemma_tower_indexed(v: GameView, team: TeamColor, i: int, p: Position)
    requires
        v.inv(),
        0 <= i < v.player(team).towers.len(),
    ensures
        (v.entity_position.contains_key(p) && v.entity_position[p] == EntityKey {
            uid: v.player(team).towers[i].uid,
            entity_type: EntityType::Tower,
        }) <==> v.player(team).towers[i].position == p,
{
    let t0 = towers_table(team);
    let tw = v.player(team).towers[i];
    assert(v.rows()(t0)[i] == (tw.uid, tw.position));
    if v.entity_position.contains_key(p) && v.entity_position[p] == (EntityKey {
        uid: tw.uid,
        entity_type: EntityType::Tower,
    }) {
        assert(crate::placement::entry_has_row(v.rows(), v.entity_position, p));
        let (t, k) = choose|t: Table, k: int|
            #![trigger v.rows()(t)[k]]
            0 <= k < v.rows()(t).len() && crate::placement::table_kind(t)
                == v.entity_position[p].entity_type && v.rows()(t)[k] == (
                v.entity_position[p].uid,
                p,
            );
        assert(t == t0 && k == i);
    }
}

/// Two towers of one team with one id are one tower.
pub proof fn lemma_same_tower(v: GameView, team: TeamColor, i: int, j: int)
    requires
        v.inv(),
        0 <= i < v.player(team).towers.len(),
        0 <= j < v.player(team).towers.len(),
        v.player(team).towers[i].uid == v.player(team).towers[j].uid,
    ensures
        i == j,
{
    let t0 = towers_table(team);
    assert(v.rows()(t0)[i] == (v.player(team).towers[i].uid, v.player(team).towers[i].position));
    assert(v.rows()(t0)[j] == (v.player(team).towers[j].uid, v.player(team).towers[j].position));
}

/// The entries of an occupancy grid that hold an entity.
pub open spec fn occupied(g: Map<Position, Option<EntityKey>>) -> Map<Position, EntityKey> {
    Map::new(|p: Position| g.contains_key(p) && g[p] is Some, |p: Position| g[p]->Some_0)
}

/// Whether the rows of a map form a board: all as long as the first, every
/// character a tile, and both sides within `i32`.
pub open spec fn rows_form_board(rows: Seq<Seq<char>>) -> bool {
    let w = if rows.len() == 0 {
        0
    } else {
        rows[0].len()
    };
    &&& rows.len() <= i32::MAX
    &&& w <= i32::MAX
    &&& rows.len() * w <= usize::MAX
    &&& forall|y: int| 0 <= y < rows.len() ==> #[trigger] rows[y].len() == w
    &&& forall|y: int, x: int|
        0 <= y < rows.len() && 0 <= x < rows[y].len() ==> (#[trigger] tile_of(rows[y][x])) is Some
}

/// The board that the rows of a map describe, row `y` holding the tiles of
/// the cells `(x, y)`.
pub open spec fn board_of(rows: Seq<Seq<char>>) -> Map<Position, FloorTile> {
    Map::new(
        |p: Position| 0 <= p.y < rows.len() && 0 <= p.x < rows[p.y as int].len(),
        |p: Position| tile_of(rows[p.y as int][p.x as int])->Some_0,
    )
}

/// Whether a map describes a match: its rows form a board, both bases stand
/// on it apart, and every spawner names a team and stands on a cell of the
/// board that no base and no other spawner takes.
pub open spec fn map_valid(
    rows: Seq<Seq<char>>,
    red_base: Position,
    blue_base: Position,
    spawners: Seq<SpawnerFromMapfile>,
) -> bool {
    let board = board_of(rows);
    &&& rows_form_board(rows)
    &&& board.contains_key(red_base)
    &&& board.contains_key(blue_base)
    &&& red_base != blue_base
    &&& spawners.len() + 2 < u64::MAX
    &&& forall|i: int|
        0 <= i < spawners.len() ==> {
            let s = #[trigger] spawners[i];
            let p = Position { x: s.x, y: s.y };
            &&& team_color_of(s.target@) is Some
            &&& board.contains_key(p)
            &&& p != red_base
            &&& p != blue_base
        }
    &&& forall|i: int, j: int|
        0 <= i < j < spawners.len() ==> (#[trigger] spawners[i]).x != (#[trigger] spawners[j]).x
            || spawners[i].y != spawners[j].y
}

/// A spawner as a map describes it: its cell, the token of the team it
/// targets ("r" or "b"), and whether it alternates targets.
pub struct SpawnerFromMapfile {
    pub x: i32,
    pub y: i32,
    pub target: String,
    pub switch_target: bool,
}

/// The state of a match.
pub struct GameState {
    turns_progressed: u32,
    victory: Option<TeamColor>,
    player_state_red: PlayerState,
    player_state_blue: PlayerState,
    floor_tiles: Grid<FloorTile>,
    entity_position: Grid<Option<EntityKey>>,
    enemies: Vec<Enemy>,
    enemy_spawners: Vec<EnemySpawner>,
    next_uid: u64,
}

impl View for GameState {
    type V = GameView;

    closed spec fn view(&self) -> GameView {
        GameView {
            turns_progressed: self.turns_progressed,
            victory: self.victory,
            red: self.player_state_red.view(),
            blue: self.player_state_blue.view(),
            floor_tiles: self.floor_tiles@,
            entity_position: occupied(self.entity_position@),
            enemies: self.enemies@,
            enemy_spawners: self.enemy_spawners@,
            next_uid: self.next_uid,
        }
    }
}

/// Writes `v` into the occupancy grid at `p`.
fn put(g: &mut Grid<Option<EntityKey>>, p: Position, v: Option<EntityKey>)
    requires
        old(g).wf(),
        old(g)@.contains_key(p),
    ensures
        final(g).wf(),
        final(g).spec_width() == old(g).spec_width(),
        final(g).spec_height() == old(g).spec_height(),
        final(g)@.dom() == old(g)@.dom(),
        occupied(final(g)@) == (match v {
            Some(k) => occupied(old(g)@).insert(p, k),
            None => occupied(old(g)@).remove(p),
        }),
{
    g.set(p, v);
    proof {
        assert(final(g)@.dom() =~= old(g)@.dom());
        match v {
            Some(k) => {
                assert(occupied(g@) =~= occupied(old(g)@).insert(p, k));
            },
            None => {
                assert(occupied(g@) =~= occupied(old(g)@).remove(p));
            },
        }
    }
}

/// Builds the board from the rows of a map.
pub fn parse_board(rows: &Vec<String>) -> (r: Result<Grid<FloorTile>, GameError>)
    ensures
        match r {
            Ok(g) => rows_form_board(rows@.map_values(|s: String| s@)) && g.wf() && g@ == board_of(
                rows@.map_values(|s: String| s@),
            ),
            Err(_) => !rows_form_board(rows@.map_values(|s: String| s@)),
        },
{
    let ghost cs = rows@.map_values(|s: String| s@);
    let h = rows.len();
    let w = if h == 0 {
        0
    } else {
        rows[0].as_str().unicode_len()
    };
    if h > 2147483647 || w > 2147483647 || (w > 0 && h > usize::MAX / w) {
        proof {
            if w > 0 && h > usize::MAX / w {
                assert(h * w > usize::MAX) by (nonlinear_arith)
                    requires
                        w > 0,
                        h > usize::MAX / w,
                ;
            }
        }
        return Err(GameError::BoardTooLarge);
    }
    proof {
        if w > 0 {
            assert(h * w <= usize::MAX) by (nonlinear_arith)
                requires
                    w > 0,
                    h <= usize::MAX / w,
            ;
        }
    }
    let mut g = Grid::filled(w, h, FloorTile::Path);
    let mut y: usize = 0;
    while y < h
        invariant
            cs == rows@.map_values(|s: String| s@),
            h == cs.len(),
            h <= i32::MAX,
            w <= i32::MAX,
            h * w <= usize::MAX,
            h > 0 ==> w == cs[0].len(),
            g.wf(),
            g.spec_width() == w,
            g.spec_height() == h,
            y <= h,
            forall|p: Position| #[trigger] g@.contains_key(p) <==> in_rect(w as int, h as int, p),
            forall|j: int| 0 <= j < y ==> #[trigger] cs[j].len() == w,
            forall|j: int, x: int| 0 <= j < y && 0 <= x < w ==> (#[trigger] tile_of(cs[j][x])) is Some,
            forall|p: Position| #[trigger] g@.contains_key(p) && p.y < y ==> g@[p] == tile_of(cs[p.y as int][p.x as int])->Some_0,
        decreases h - y,
    {
        let line = rows[y].as_str();
        if line.unicode_len() != w {
            return Err(GameError::UnevenRows { row: y });
        }
        let mut x: usize = 0;
        while x < w
            invariant
                cs == rows@.map_values(|s: String| s@),
                h == cs.len(),
                h <= i32::MAX,
                w <= i32::MAX,
                line@ == cs[y as int],
                line@.len() == w,
                g.wf(),
                g.spec_width() == w,
                g.spec_height() == h,
                y < h,
                x <= w,
                forall|p: Position| #[trigger] g@.contains_key(p) <==> in_rect(w as int, h as int, p),
                forall|j: int, k: int| 0 <= j < y && 0 <= k < w ==> (#[trigger] tile_of(cs[j][k])) is Some,
                forall|k: int| 0 <= k < x ==> (#[trigger] tile_of(cs[y as int][k])) is Some,
                forall|p: Position| #[trigger] g@.contains_key(p) && (p.y < y || (p.y == y && p.x < x)) ==> g@[p] == tile_of(cs[p.y as int][p.x as int])->Some_0,
            decreases w - x,
        {
            let c = line.get_char(x);
            match parse_tile(c) {
                Some(t) => {
                    g.set(Position { x: x as i32, y: y as i32 }, t);
                },
                None => {
                    return Err(GameError::InvalidTile { column: x, row: y });
                },
            }
            x = x + 1;
        }
        y = y + 1;
    }
    proof {
        assert forall|y: int, x: int| 0 <= y < cs.len() && 0 <= x < cs[y].len() implies (#[trigger] tile_of(cs[y][x])) is Some by {
            assert(cs[y].len() == w);
        }
        assert forall|p: Position| #[trigger] g@.contains_key(p) <==> board_of(cs).contains_key(p) by {
            if 0 <= p.y < cs.len() {
                assert(cs[p.y as int].len() == w);
            }
        }
        assert(g@ =~= board_of(cs));
    }
    Ok(g)
}

impl GameState {
    /// The board and the occupancy grid have one shape, and the grid
    /// holds only positions of the board.
    pub closed spec fn shape_ok(&self) -> bool {
        &&& self.floor_tiles.wf()
        &&& self.entity_position.wf()
        &&& self.entity_position.spec_width() == self.floor_tiles.spec_width()
        &&& self.entity_position.spec_height() == self.floor_tiles.spec_height()
        &&& self.entity_position@.dom() == self.floor_tiles@.dom()
    }

    pub open spec fn wf(&self) -> bool {
        self.shape_ok() && self@.inv()
    }

    /// A match at its start: the board that `floor_tiles` describes, each
    /// team with its base and nothing else, and the spawners of the map in
    /// its order. Ids go to the blue base, the red base, then the spawners.
    pub fn new(
        floor_tiles: Vec<String>,
        red_base: Position,
        blue_base: Position,
        spawners: Vec<SpawnerFromMapfile>,
    ) -> (r: Result<GameState, GameError>)
        ensures
            ({
                let rows = floor_tiles@.map_values(|s: String| s@);
                match r {
                    Ok(g) => {
                        let v = g@;
                        &&& map_valid(rows, red_base, blue_base, spawners@)
                        &&& g.wf()
                        &&& v.turns_progressed == 0
                        &&& v.victory is None
                        &&& v.floor_tiles == board_of(rows)
                        &&& v.enemies.len() == 0
                        &&& v.next_uid == spawners@.len() + 2
                        &&& forall|team: TeamColor| {
                            let ps = #[trigger] v.player(team);
                            &&& ps.team_name == "NO TEAM NAME SET"@
                            &&& ps.builder_count == 1
                            &&& ps.money == INITIAL_MONEY
                            &&& ps.mercenaries.len() == 0
                            &&& ps.towers.len() == 0
                            &&& ps.base is Some
                            &&& ps.base->Some_0.hp == PLAYER_BASE_INITIAL_HP
                            &&& ps.base->Some_0.mercenaries_queued@.len() == 0
                        }
                        &&& v.base_position(TeamColor::Red) == Some(red_base)
                        &&& v.base_position(TeamColor::Blue) == Some(blue_base)
                        &&& v.enemy_spawners.len() == spawners@.len()
                        &&& forall|i: int|
                            0 <= i < spawners@.len() ==> #[trigger] v.enemy_spawners[i] == (
                            EnemySpawner {
                                uid: (i + 2) as u64,
                                position: Position { x: spawners@[i].x, y: spawners@[i].y },
                                reload_time_left: ENEMY_SPAWNER_RELOAD_TURNS,
                                enemies_queued: 0,
                                target: team_color_of(spawners@[i].target@)->Some_0,
                                switch_target: spawners@[i].switch_target,
                            })
                    },
                    Err(_) => !map_valid(rows, red_base, blue_base, spawners@),
                }
            }),
    {
        let ghost rows = floor_tiles@.map_values(|s: String| s@);
        let ghost sp = spawners@;
        let board = match parse_board(&floor_tiles) {
            Ok(b) => b,
            Err(e) => {
                return Err(e);
            },
        };
        let w = board.width();
        let h = board.height();
        proof {
            board.lemma_dims();
            board.lemma_dom();
        }
        let occupancy: Grid<Option<EntityKey>> = Grid::filled(w, h, None);
        proof {
            assert(occupancy@.dom() =~= board@.dom());
            assert(occupied(occupancy@) =~= Map::empty());
        }
        let mut g = GameState {
            turns_progressed: 0,
            victory: None,
            player_state_red: PlayerState::new(TeamColor::Red),
            player_state_blue: PlayerState::new(TeamColor::Blue),
            floor_tiles: board,
            entity_position: occupancy,
            enemies: Vec::new(),
            enemy_spawners: Vec::new(),
            next_uid: 0,
        };
        proof {
            let v = g@;
            assert forall|t: Table| #[trigger] v.rows()(t) =~= Seq::<(u64, Position)>::empty() by {}
        }
        if spawners.len() as u64 >= u64::MAX - 2 {
            return Err(GameError::IdsExhausted);
        }
        match g.place_base(TeamColor::Blue, blue_base) {
            Err(e) => {
                return Err(e);
            },
            Ok(()) => {},
        }
        proof {
            assert(g@.entity_position.dom() =~= set![blue_base]);
        }
        match g.place_base(TeamColor::Red, red_base) {
            Err(e) => {
                return Err(e);
            },
            Ok(()) => {},
        }
        proof {
            assert(g@.entity_position.dom() =~= set![blue_base, red_base]);
        }
        let n = spawners.len();
        let mut i: usize = 0;
        while i < n
            invariant
                g.wf(),
                sp.len() == n,
                sp == spawners@,
                rows == floor_tiles@.map_values(|s: String| s@),
                i <= n,
                g@.floor_tiles == board_of(rows),
                rows_form_board(rows),
                n + 2 < u64::MAX,
                g@.turns_progressed == 0,
                g@.victory is None,
                g@.enemies.len() == 0,
                g@.next_uid == i + 2,
                g@.enemy_spawners.len() == i,
                red_base != blue_base,
                board_of(rows).contains_key(red_base),
                board_of(rows).contains_key(blue_base),
                forall|team: TeamColor| {
                    let ps = #[trigger] g@.player(team);
                    &&& ps.team_name == "NO TEAM NAME SET"@
                    &&& ps.builder_count == 1
                    &&& ps.money == INITIAL_MONEY
                    &&& ps.mercenaries.len() == 0
                    &&& ps.towers.len() == 0
                    &&& ps.base is Some
                    &&& ps.base->Some_0.hp == PLAYER_BASE_INITIAL_HP
                    &&& ps.base->Some_0.mercenaries_queued@.len() == 0
                },
                g@.base_position(TeamColor::Red) == Some(red_base),
                g@.base_position(TeamColor::Blue) == Some(blue_base),
                forall|k: int|
                    0 <= k < i ==> #[trigger] g@.enemy_spawners[k] == (EnemySpawner {
                        uid: (k + 2) as u64,
                        position: Position { x: sp[k].x, y: sp[k].y },
                        reload_time_left: ENEMY_SPAWNER_RELOAD_TURNS,
                        enemies_queued: 0,
                        target: team_color_of(sp[k].target@)->Some_0,
                        switch_target: sp[k].switch_target,
                    }),
                forall|k: int|
                    0 <= k < i ==> {
                        let s = #[trigger] sp[k];
                        let p = Position { x: s.x, y: s.y };
                        &&& team_color_of(s.target@) is Some
                        &&& board_of(rows).contains_key(p)
                        &&& p != red_base
                        &&& p != blue_base
                    },
                forall|a: int, b: int|
                    0 <= a < b < i ==> (#[trigger] sp[a]).x != (#[trigger] sp[b]).x || sp[a].y
                        != sp[b].y,
            decreases n - i,
        {
            let from_map = &spawners[i];
            let ghost fm = sp[i as int];
            let ghost before = g@;
            proof {
                let rp = before.player(TeamColor::Red);
                let bp = before.player(TeamColor::Blue);
                assert(rp.towers.len() == 0 && rp.mercenaries.len() == 0);
                assert(bp.towers.len() == 0 && bp.mercenaries.len() == 0);
                assert(before.rows()(Table::RedBase)[0] == (rp.base->Some_0.uid, red_base));
                assert(before.rows()(Table::BlueBase)[0] == (bp.base->Some_0.uid, blue_base));
                assert(before.entity_position.contains_key(red_base));
                assert(before.entity_position.contains_key(blue_base));
            }
            let p = Position { x: from_map.x, y: from_map.y };
            match g.add_enemy_spawner(from_map) {
                Err(e) => {
                    proof {
                        if team_color_of(fm.target@) is Some && board_of(rows).contains_key(p) {
                            // the cell is taken: by a base or an earlier spawner
                            let v = before;
                            assert(v.entity_position.contains_key(p));
                            assert(crate::placement::entry_has_row(v.rows(), v.entity_position, p));
                            let (t, k) = choose|t: Table, k: int|
                                #![trigger v.rows()(t)[k]]
                                0 <= k < v.rows()(t).len() && crate::placement::table_kind(t)
                                    == v.entity_position[p].entity_type && v.rows()(t)[k] == (
                                    v.entity_position[p].uid,
                                    p,
                                );
                            match t {
                                Table::Spawners => {
                                    assert(v.enemy_spawners[k].position == p);
                                    assert(sp[k].x == sp[i as int].x && sp[k].y == sp[i as int].y);
                                    assert(k < i);
                                },
                                Table::RedBase => {
                                    assert(p == red_base);
                                },
                                Table::BlueBase => {
                                    assert(p == blue_base);
                                },
                                _ => {
                                    assert(v.rows()(t).len() == 0);
                                },
                            }
                        }
                        assert(!map_valid(rows, red_base, blue_base, sp));
                    }
                    return Err(e);
                },
                Ok(()) => {},
            }
            proof {
                let v = g@;
                assert(v.enemy_spawners == before.enemy_spawners.push(v.enemy_spawners[i as int]));
                assert forall|k: int| 0 <= k < i implies (#[trigger] sp[k]).x != sp[i as int].x || sp[k].y != sp[i as int].y by {
                    let q = before.enemy_spawners[k].position;
                    assert(before.rows()(Table::Spawners)[k] == (before.enemy_spawners[k].uid, q));
                }
                assert(team_color_of(fm.target@) is Some);
            }
            i = i + 1;
        }
        proof {
            assert(sp =~= spawners@);
        }
        Ok(g)
    }

    fn place_base(&mut self, team: TeamColor, position: Position) -> (r: Result<(), GameError>)
        requires
            old(self).wf(),
            old(self)@.player(team).base is None,
        ensures
            final(self).wf(),
            r == old(self)@.place_check(position),
            r is Ok ==> final(self)@ == old(self)@.with_base(
                PlayerBase {
                    uid: old(self)@.next_uid,
                    position,
                    hp: PLAYER_BASE_INITIAL_HP,
                    mercenaries_queued: final(self)@.player(team).base->Some_0.mercenaries_queued,
                    team_color: team,
                },
            ),
            r is Ok ==> final(self)@.player(team).base->Some_0.mercenaries_queued@.len() == 0,
            r is Err ==> final(self)@ == old(self)@,
    {
        match self.check_free(position) {
            Err(e) => {
                return Err(e);
            },
            Ok(()) => {},
        }
        let uid = self.next_uid;
        let base = PlayerBase::new(uid, position, team);
        let key = EntityKey { uid, entity_type: EntityType::PlayerBase };
        put(&mut self.entity_position, position, Some(key));
        match team {
            TeamColor::Red => self.player_state_red.base = Some(base),
            TeamColor::Blue => self.player_state_blue.base = Some(base),
        }
        self.next_uid = uid + 1;
        proof {
            let v = old(self)@;
            let t0 = match team {
                TeamColor::Red => Table::RedBase,
                TeamColor::Blue => Table::BlueBase,
            };
            assert(self@ == v.with_base(base));
            assert(v.rows()(t0).push((uid, position)) =~= self@.rows()(t0));
            assert forall|t: Table| t != t0 implies #[trigger] self@.rows()(t) == v.rows()(t) by {}
            lemma_place(v.rows(), self@.rows(), v.entity_position, uid, t0, position);
            assert(key_of(t0, uid) == key);
        }
        Ok(())
    }

    /// Cells of the board have coordinates within `0..i32::MAX`.
    pub proof fn lemma_board_coords(&self, p: Position)
        requires
            self.wf(),
            self@.floor_tiles.contains_key(p),
        ensures
            0 <= p.x < i32::MAX,
            0 <= p.y < i32::MAX,
    {
        self.floor_tiles.lemma_dom();
        self.floor_tiles.lemma_dims();
    }

    /// A base stands on the board.
    pub proof fn lemma_base_on_board(&self, team: TeamColor)
        requires
            self.wf(),
            self@.player(team).base is Some,
        ensures
            self@.floor_tiles.contains_key(self@.player(team).base->Some_0.position),
    {
        let v = self@;
        let t0 = match team {
            TeamColor::Red => Table::RedBase,
            TeamColor::Blue => Table::BlueBase,
        };
        let b = v.player(team).base->Some_0;
        assert(v.rows()(t0)[0] == (b.uid, b.position));
    }

    pub fn player(&self, team: TeamColor) -> (r: &PlayerState)
        ensures
            r.view() == self@.player(team),
    {
        match team {
            TeamColor::Red => &self.player_state_red,
            TeamColor::Blue => &self.player_state_blue,
        }
    }

    /// The entity that occupies `p`, if any.
    pub fn occupant(&self, p: Position) -> (r: Option<EntityKey>)
        requires
            self.wf(),
        ensures
            r == (if self@.entity_position.contains_key(p) {
                Some(self@.entity_position[p])
            } else {
                None
            }),
    {
        match self.entity_position.get(p) {
            Some(k) => *k,
            None => None,
        }
    }

    /// The tile at `p`, if `p` lies on the board.
    pub fn tile(&self, p: Position) -> (r: Option<FloorTile>)
        requires
            self.wf(),
        ensures
            r == (if self@.floor_tiles.contains_key(p) {
                Some(self@.floor_tiles[p])
            } else {
                None
            }),
    {
        match self.floor_tiles.get(p) {
            Some(t) => Some(*t),
            None => None,
        }
    }

    pub fn floor_tiles(&self) -> (r: &Grid<FloorTile>)
        requires
            self.wf(),
        ensures
            r.wf(),
            r@ == self@.floor_tiles,
    {
        &self.floor_tiles
    }

    pub fn enemies(&self) -> (r: &Vec<Enemy>)
        ensures
            r@ == self@.enemies,
    {
        &self.enemies
    }

    pub fn enemy_spawners(&self) -> (r: &Vec<EnemySpawner>)
        ensures
            r@ == self@.enemy_spawners,
    {
        &self.enemy_spawners
    }

    pub fn turns_progressed(&self) -> (r: u32)
        ensures
            r == self@.turns_progressed,
    {
        self.turns_progressed
    }

    pub fn victory(&self) -> (r: Option<TeamColor>)
        ensures
            r == self@.victory,
    {
        self.victory
    }

    pub(crate) fn set_money(&mut self, team: TeamColor, money: u32)
        requires
            old(self).wf(),
        ensures
            final(self).wf(),
            final(self)@ == old(self)@.with_player(
                team,
                PlayerView { money, ..old(self)@.player(team) },
            ),
    {
        match team {
            TeamColor::Red => self.player_state_red.money = money,
            TeamColor::Blue => self.player_state_blue.money = money,
        }
    }

    pub(crate) fn set_builder_count(&mut self, team: TeamColor, builder_count: u32)
        requires
            old(self).wf(),
            builder_count <= MAX_BUILDERS,
        ensures
            final(self).wf(),
            final(self)@ == old(self)@.with_player(
                team,
                PlayerView { builder_count, ..old(self)@.player(team) },
            ),
    {
        match team {
            TeamColor::Red => self.player_state_red.builder_count = builder_count,
            TeamColor::Blue => self.player_state_blue.builder_count = builder_count,
        }
    }

    pub(crate) fn set_team_name(&mut self, team: TeamColor, team_name: String)
        requires
            old(self).wf(),
        ensures
            final(self).wf(),
            final(self)@ == old(self)@.with_player(
                team,
                PlayerView { team_name: team_name@, ..old(self)@.player(team) },
            ),
    {
        match team {
            TeamColor::Red => self.player_state_red.team_name = team_name,
            TeamColor::Blue => self.player_state_blue.team_name = team_name,
        }
    }

    /// Takes `amount` hit points off the base of `team`, down to zero; a base
    /// brought to zero ends the match, won by the other team, unless it is
    /// already decided.
    pub(crate) fn damage_base(&mut self, team: TeamColor, amount: u32)
        requires
            old(self).wf(),
        ensures
            final(self).wf(),
            final(self)@ == old(self)@.after_hit(team, amount),
    {
        let base = match team {
            TeamColor::Red => &mut self.player_state_red.base,
            TeamColor::Blue => &mut self.player_state_blue.base,
        };
        let destroyed = match base {
            Some(b) => {
                b.hp = b.hp.saturating_sub(amount);
                b.hp == 0
            },
            None => false,
        };
        if destroyed && self.victory.is_none() {
            self.victory = Some(team.opponent());
        }
        proof {
            let v = old(self)@;
            assert forall|t: Table| #[trigger] self@.rows()(t) == v.rows()(t) by {}
            assert(self@.rows() =~= v.rows());
        }
    }

    /// Sets the reload countdown of tower `i` of `team`.
    pub(crate) fn set_tower_reload(&mut self, team: TeamColor, i: usize, reload_turns_left: u32)
        requires
            old(self).wf(),
            i < old(self)@.player(team).towers.len(),
        ensures
            final(self).wf(),
            final(self)@ == old(self)@.with_player(
                team,
                PlayerView {
                    towers: old(self)@.player(team).towers.update(
                        i as int,
                        Tower { reload_turns_left, ..old(self)@.player(team).towers[i as int] },
                    ),
                    ..old(self)@.player(team)
                },
            ),
    {
        let towers = match team {
            TeamColor::Red => &mut self.player_state_red.towers,
            TeamColor::Blue => &mut self.player_state_blue.towers,
        };
        let t = towers[i];
        towers.set(i, Tower { reload_turns_left, ..t });
        proof {
            let v = old(self)@;
            assert(self@.rows()(towers_table(team)) =~= v.rows()(towers_table(team)));
            assert forall|t: Table| #[trigger] self@.rows()(t) == v.rows()(t) by {}
            assert(self@.rows() =~= v.rows());
        }
    }

    /// Sets the hit points of enemy `i`.
    pub(crate) fn set_enemy_hp(&mut self, i: usize, hp: u32)
        requires
            old(self).wf(),
            i < old(self)@.enemies.len(),
        ensures
            final(self).wf(),
            final(self)@ == (GameView {
                enemies: old(self)@.enemies.update(
                    i as int,
                    Enemy { hp, ..old(self)@.enemies[i as int] },
                ),
                ..old(self)@
            }),
    {
        let ghost v = self@;
        let mut e = self.enemies.remove(i);
        e.hp = hp;
        self.enemies.insert(i, e);
        proof {
            assert(self@.enemies =~= v.enemies.update(i as int, e));
            assert(self@.rows()(Table::Enemies) =~= v.rows()(Table::Enemies));
            assert forall|t: Table| #[trigger] self@.rows()(t) == v.rows()(t) by {}
            assert(self@.rows() =~= v.rows());
            assert forall|j: int| 0 <= j < self@.enemies.len() implies {
                let ee = #[trigger] self@.enemies[j];
                self@.on_route(ee.position, ee.path_to_target@, ee.target)
            } by {
                assert(self@.enemies[j].position == v.enemies[j].position);
                assert(self@.enemies[j].path_to_target == v.enemies[j].path_to_target);
            }
        }
    }

    /// Sets the hit points of mercenary `i` of `team`.
    pub(crate) fn set_mercenary_hp(&mut self, team: TeamColor, i: usize, hp: u32)
        requires
            old(self).wf(),
            i < old(self)@.player(team).mercenaries.len(),
        ensures
            final(self).wf(),
            final(self)@ == old(self)@.with_mercenaries(
                team,
                old(self)@.player(team).mercenaries.update(
                    i as int,
                    Mercenary { hp, ..old(self)@.player(team).mercenaries[i as int] },
                ),
            ),
    {
        let ghost v = self@;
        let mut m = match team {
            TeamColor::Red => self.player_state_red.mercenaries.remove(i),
            TeamColor::Blue => self.player_state_blue.mercenaries.remove(i),
        };
        m.hp = hp;
        match team {
            TeamColor::Red => self.player_state_red.mercenaries.insert(i, m),
            TeamColor::Blue => self.player_state_blue.mercenaries.insert(i, m),
        }
        proof {
            let t0 = mercenaries_table(team);
            let ms1 = self@.player(team).mercenaries;
            assert(ms1 =~= v.player(team).mercenaries.update(i as int, m));
            assert(self@.rows()(t0) =~= v.rows()(t0));
            assert forall|t: Table| #[trigger] self@.rows()(t) == v.rows()(t) by {}
            assert(self@.rows() =~= v.rows());
            assert forall|j: int| 0 <= j < ms1.len() implies {
                let mm = #[trigger] ms1[j];
                &&& mm.team_color == team
                &&& self@.on_route(mm.position, mm.path_to_enemy@, team.spec_opponent())
            } by {
                assert(ms1[j].position == v.player(team).mercenaries[j].position);
                assert(ms1[j].path_to_enemy == v.player(team).mercenaries[j].path_to_enemy);
            }
        }
    }

    /// Counts one more turn, up to the largest count.
    pub(crate) fn advance_turn(&mut self)
        requires
            old(self).wf(),
        ensures
            final(self).wf(),
            final(self)@ == (GameView {
                turns_progressed: if old(self)@.turns_progressed == u32::MAX {
                    u32::MAX
                } else {
                    (old(self)@.turns_progressed + 1) as u32
                },
                ..old(self)@
            }),
    {
        self.turns_progressed = self.turns_progressed.saturating_add(1);
    }

    /// Replaces the countdown, queue and target of spawner `i`.
    pub(crate) fn set_spawner_state(
        &mut self,
        i: usize,
        reload_time_left: u32,
        enemies_queued: u32,
        target: TeamColor,
    )
        requires
            old(self).wf(),
            i < old(self)@.enemy_spawners.len(),
        ensures
            final(self).wf(),
            final(self)@ == (GameView {
                enemy_spawners: old(self)@.enemy_spawners.update(
                    i as int,
                    EnemySpawner {
                        reload_time_left,
                        enemies_queued,
                        target,
                        ..old(self)@.enemy_spawners[i as int]
                    },
                ),
                ..old(self)@
            }),
    {
        let s = self.enemy_spawners[i];
        self.enemy_spawners.set(
            i,
            EnemySpawner { reload_time_left, enemies_queued, target, ..s },
        );
        proof {
            let v = old(self)@;
            assert(self@.rows()(Table::Spawners) =~= v.rows()(Table::Spawners));
            assert forall|t: Table| #[trigger] self@.rows()(t) == v.rows()(t) by {}
            assert(self@.rows() =~= v.rows());
        }
    }

    /// Appends `p` to the queue of pending mercenaries of the base of `team`.
    pub(crate) fn enqueue_mercenary(&mut self, team: TeamColor, p: Position)
        requires
            old(self).wf(),
            old(self)@.player(team).base is Some,
        ensures
            final(self).wf(),
            ({
                let b0 = old(self)@.player(team).base->Some_0;
                let b1 = final(self)@.player(team).base->Some_0;
                &&& final(self)@.player(team).base is Some
                &&& same_but_queue(b0, b1)
                &&& b1.mercenaries_queued@ == b0.mercenaries_queued@.push(p)
                &&& final(self)@ == old(self)@.with_player(
                    team,
                    PlayerView { base: Some(b1), ..old(self)@.player(team) },
                )
            }),
    {
        let base = match team {
            TeamColor::Red => &mut self.player_state_red.base,
            TeamColor::Blue => &mut self.player_state_blue.base,
        };
        match base {
            Some(b) => b.mercenaries_queued.push_back(p),
            None => {},
        }
        proof {
            let v = old(self)@;
            let t0 = match team {
                TeamColor::Red => Table::RedBase,
                TeamColor::Blue => Table::BlueBase,
            };
            assert forall|t: Table| #[trigger] self@.rows()(t) == v.rows()(t) by {}
            assert(self@.rows() =~= v.rows());
        }
    }

    /// Takes the oldest pending mercenary of the base of `team` off its queue.
    pub(crate) fn dequeue_mercenary(&mut self, team: TeamColor) -> (r: Option<Position>)
        requires
            old(self).wf(),
            old(self)@.player(team).base is Some,
        ensures
            final(self).wf(),
            ({
                let b0 = old(self)@.player(team).base->Some_0;
                let b1 = final(self)@.player(team).base->Some_0;
                let q0 = b0.mercenaries_queued@;
                &&& final(self)@.player(team).base is Some
                &&& same_but_queue(b0, b1)
                &&& q0.len() == 0 ==> r is None && b1.mercenaries_queued@ == q0
                &&& q0.len() > 0 ==> r == Some(q0[0]) && b1.mercenaries_queued@ == q0.drop_first()
                &&& final(self)@ == old(self)@.with_player(
                    team,
                    PlayerView { base: Some(b1), ..old(self)@.player(team) },
                )
            }),
    {
        let base = match team {
            TeamColor::Red => &mut self.player_state_red.base,
            TeamColor::Blue => &mut self.player_state_blue.base,
        };
        let r = match base {
            Some(b) => b.mercenaries_queued.pop_front(),
            None => None,
        };
        proof {
            let v = old(self)@;
            assert forall|t: Table| #[trigger] self@.rows()(t) == v.rows()(t) by {}
            assert(self@.rows() =~= v.rows());
        }
        r
    }

    /// Hands out the next id.
    pub fn generate_uid(&mut self) -> (r: Result<u64, GameError>)
        requires
            old(self).wf(),
        ensures
            final(self).wf(),
            old(self)@.next_uid < u64::MAX ==> r == Ok::<u64, GameError>(old(self)@.next_uid)
                && final(self)@ == (GameView { next_uid: (old(self)@.next_uid + 1) as u64, ..old(self)@ }),
            old(self)@.next_uid == u64::MAX ==> r == Err::<u64, GameError>(GameError::IdsExhausted)
                && final(self)@ == old(self)@,
    {
        if self.next_uid == u64::MAX {
            return Err(GameError::IdsExhausted);
        }
        let uid = self.next_uid;
        self.next_uid = self.next_uid + 1;
        proof {
            let v = old(self)@;
            assert(uids_below(v.rows(), self.next_uid));
        }
        Ok(uid)
    }

    fn check_free(&self, p: Position) -> (r: Result<(), GameError>)
        requires
            self.wf(),
        ensures
            r == self@.place_check(p),
    {
        if !self.floor_tiles.contains(p) {
            return Err(GameError::OutOfBounds);
        }
        match self.entity_position.get(p) {
            Some(Some(_)) => {
                return Err(GameError::Occupied { x: p.x, y: p.y });
            },
            _ => {},
        }
        if self.next_uid == u64::MAX {
            return Err(GameError::IdsExhausted);
        }
        Ok(())
    }

    /// Places a new tower of the named kind for `team_color` at `position`.
    /// Fails, changing nothing, on an unknown kind, a position off the board
    /// or already taken, or when no id is left.
    pub fn add_tower(&mut self, tower_type: String, position: Position, team_color: TeamColor) -> (r:
        Result<(), GameError>)
        requires
            old(self).wf(),
        ensures
            final(self).wf(),
            r == (match tower_kind_of(tower_type@) {
                None => Err(GameError::UnknownTowerType),
                Some(_) => old(self)@.place_check(position),
            }),
            r is Ok ==> final(self)@ == old(self)@.with_tower(
                Tower {
                    uid: old(self)@.next_uid,
                    position,
                    stats: stats_of(tower_kind_of(tower_type@)->Some_0),
                    reload_turns_left: 0,
                    team_color,
                },
            ),
            r is Err ==> final(self)@ == old(self)@,
    {
        let uid = self.next_uid;
        let tower = match Tower::new(uid, position, team_color, tower_type) {
            Ok(t) => t,
            Err(e) => {
                return Err(e);
            },
        };
        match self.check_free(position) {
            Err(e) => {
                return Err(e);
            },
            Ok(()) => {},
        }
        let key = EntityKey { uid, entity_type: EntityType::Tower };
        put(&mut self.entity_position, position, Some(key));
        match team_color {
            TeamColor::Red => self.player_state_red.towers.push(tower),
            TeamColor::Blue => self.player_state_blue.towers.push(tower),
        }
        self.next_uid = uid + 1;
        proof {
            let v = old(self)@;
            let t0 = towers_table(team_color);
            assert(self@ == v.with_tower(tower));
            assert(v.rows()(t0).push((uid, position)) =~= self@.rows()(t0));
            assert forall|t: Table| t != t0 implies #[trigger] self@.rows()(t) == v.rows()(t) by {}
            lemma_place(v.rows(), self@.rows(), v.entity_position, uid, t0, position);
            assert(key_of(t0, uid) == key);
        }
        Ok(())
    }

    /// The index in the tower table of `team` of the tower with id `uid`.
    pub fn find_tower(&self, team: TeamColor, uid: u64) -> (r: Option<usize>)
        requires
            self.wf(),
        ensures
            match r {
                Some(i) => i < self@.player(team).towers.len() && self@.player(team).towers[i as int].uid
                    == uid,
                None => forall|i: int|
                    0 <= i < self@.player(team).towers.len() ==> #[trigger] self@.player(
                        team,
                    ).towers[i].uid != uid,
            },
    {
        let towers = match team {
            TeamColor::Red => &self.player_state_red.towers,
            TeamColor::Blue => &self.player_state_blue.towers,
        };
        let mut i: usize = 0;
        while i < towers.len()
            invariant
                towers@ == self@.player(team).towers,
                i <= towers@.len(),
                forall|j: int| 0 <= j < i ==> #[trigger] towers@[j].uid != uid,
            decreases towers@.len() - i,
        {
            if towers[i].uid == uid {
                return Some(i);
            }
            i = i + 1;
        }
        None
    }

    pub(crate) fn remove_tower_at(&mut self, team: TeamColor, i: usize)
        requires
            old(self).wf(),
            i < old(self)@.player(team).towers.len(),
        ensures
            final(self).wf(),
            final(self)@ == old(self)@.without_tower(team, i as int),
    {
        let p = match team {
            TeamColor::Red => self.player_state_red.towers[i].position,
            TeamColor::Blue => self.player_state_blue.towers[i].position,
        };
        proof {
            let v = old(self)@;
            let t0 = towers_table(team);
            assert(v.rows()(t0)[i as int] == (v.player(team).towers[i as int].uid, p));
            assert(v.entity_position.contains_key(p));
        }
        put(&mut self.entity_position, p, None);
        match team {
            TeamColor::Red => {
                self.player_state_red.towers.remove(i);
            },
            TeamColor::Blue => {
                self.player_state_blue.towers.remove(i);
            },
        }
        proof {
            let v = old(self)@;
            let t0 = towers_table(team);
            assert(self@ == v.without_tower(team, i as int));
            assert(v.rows()(t0).remove(i as int) =~= self@.rows()(t0));
            assert forall|t: Table| t != t0 implies #[trigger] self@.rows()(t) == v.rows()(t) by {}
            lemma_unplace(v.rows(), self@.rows(), v.entity_position, v.next_uid, t0, i as int);
        }
    }

    /// Places a new mercenary of `team_color` at `position`, routed along a
    /// shortest route to the base of the other team. Fails, changing
    /// nothing, when that base is missing, when `position` is off the board
    /// or taken or no id is left, or when no route exists.
    pub fn add_mercenary(&mut self, team_color: TeamColor, position: Position) -> (r: Result<
        (),
        GameError,
    >)
        requires
            old(self).wf(),
        ensures
            final(self).wf(),
            r == old(self)@.spawn_check(team_color, position),
            r is Ok ==> {
                let m = final(self)@.player(team_color).mercenaries.last();
                let target = old(self)@.base_position(team_color.spec_opponent())->Some_0;
                &&& final(self)@ == old(self)@.with_mercenary(m)
                &&& m.uid == old(self)@.next_uid
                &&& m.position == position
                &&& m.hp == MERCENARY_INITIAL_HP
                &&& m.team_color == team_color
                &&& m.path_to_enemy@ == shortest_route(old(self)@.floor_tiles, position, target)
                &&& is_route(old(self)@.floor_tiles, position, target, m.path_to_enemy@)
                &&& forall|q: Seq<Position>|
                    is_route(old(self)@.floor_tiles, position, target, q)
                        ==> m.path_to_enemy@.len() <= q.len()
            },
            r is Err ==> final(self)@ == old(self)@,
    {
        let target = match team_color {
            TeamColor::Red => &self.player_state_blue.base,
            TeamColor::Blue => &self.player_state_red.base,
        };
        let target = match target {
            Some(b) => b.position,
            None => {
                return Err(GameError::NoBase);
            },
        };
        match self.check_free(position) {
            Err(e) => {
                return Err(e);
            },
            Ok(()) => {},
        }
        let path = match compute_path_to_enemy(position, &self.floor_tiles, target) {
            Ok(path) => path,
            Err(_) => {
                return Err(GameError::NoPath);
            },
        };
        let uid = self.next_uid;
        let merc = Mercenary::new(uid, position, team_color, path);
        let key = EntityKey { uid, entity_type: EntityType::Mercenary };
        put(&mut self.entity_position, position, Some(key));
        match team_color {
            TeamColor::Red => self.player_state_red.mercenaries.push(merc),
            TeamColor::Blue => self.player_state_blue.mercenaries.push(merc),
        }
        self.next_uid = uid + 1;
        proof {
            let v = old(self)@;
            let t0 = mercenaries_table(team_color);
            assert(self@ == v.with_mercenary(merc));
            assert(v.rows()(t0).push((uid, position)) =~= self@.rows()(t0));
            assert forall|t: Table| t != t0 implies #[trigger] self@.rows()(t) == v.rows()(t) by {}
            lemma_place(v.rows(), self@.rows(), v.entity_position, uid, t0, position);
            assert(key_of(t0, uid) == key);
            assert(forall|i: int| 0 < i < merc.path_to_enemy@.len() ==> crate::pathfinder::walkable(v.floor_tiles, target, #[trigger] merc.path_to_enemy@[i]));
            assert(is_route(v.floor_tiles, position, target, merc.path_to_enemy@));
            assert(exists|q: Seq<Position>| is_route(v.floor_tiles, position, target, q));
            assert(old(self)@.base_position(team_color.spec_opponent())->Some_0 == target);
            assert(exists|q: Seq<Position>| is_route(old(self)@.floor_tiles, position, old(self)@.base_position(team_color.spec_opponent())->Some_0, q));
        }
        Ok(())
    }

    /// The index in the mercenary table of `team` of the mercenary with id `uid`.
    pub fn find_mercenary(&self, team: TeamColor, uid: u64) -> (r: Option<usize>)
        requires
            self.wf(),
        ensures
            match r {
                Some(i) => i < self@.player(team).mercenaries.len()
                    && self@.player(team).mercenaries[i as int].uid == uid,
                None => forall|i: int|
                    0 <= i < self@.player(team).mercenaries.len() ==> #[trigger] self@.player(
                        team,
                    ).mercenaries[i].uid != uid,
            },
    {
        let ms = match team {
            TeamColor::Red => &self.player_state_red.mercenaries,
            TeamColor::Blue => &self.player_state_blue.mercenaries,
        };
        let mut i: usize = 0;
        while i < ms.len()
            invariant
                ms@ == self@.player(team).mercenaries,
                i <= ms@.len(),
                forall|j: int| 0 <= j < i ==> #[trigger] ms@[j].uid != uid,
            decreases ms@.len() - i,
        {
            if ms[i].uid == uid {
                return Some(i);
            }
            i = i + 1;
        }
        None
    }

    /// Advances mercenary `i` of `team` one step along its route, unless it
    /// has reached the last cell before the target. Fails, changing nothing,
    /// when the cell ahead is taken.
    pub fn move_mercenary(&mut self, team: TeamColor, i: usize) -> (r: Result<(), GameError>)
        requires
            old(self).wf(),
            i < old(self)@.player(team).mercenaries.len(),
        ensures
            final(self).wf(),
            ({
                let m = old(self)@.player(team).mercenaries[i as int];
                let d = desired_position(m.position, m.path_to_enemy@);
                let ms2 = final(self)@.player(team).mercenaries;
                if d == m.position {
                    r is Ok && final(self)@ == old(self)@
                } else if old(self)@.entity_position.contains_key(d) {
                    r == Err::<(), GameError>(GameError::Occupied { x: d.x, y: d.y })
                        && final(self)@ == old(self)@
                } else {
                    &&& r is Ok
                    &&& ms2 == old(self)@.player(team).mercenaries.update(i as int, ms2[i as int])
                    &&& stepped(m.position, m.path_to_enemy@, ms2[i as int].position, ms2[i as int].path_to_enemy@)
                    &&& ms2[i as int].uid == m.uid
                    &&& ms2[i as int].hp == m.hp
                    &&& ms2[i as int].team_color == m.team_color
                    &&& final(self)@ == (GameView {
                        entity_position: old(self)@.entity_position.remove(m.position).insert(
                            d,
                            old(self)@.entity_position[m.position],
                        ),
                        ..old(self)@.with_mercenaries(team, ms2)
                    })
                }
            }),
    {
        let ghost v = self@;
        let m = match team {
            TeamColor::Red => self.player_state_red.mercenaries.remove(i),
            TeamColor::Blue => self.player_state_blue.mercenaries.remove(i),
        };
        let desired = m.get_desired_position();
        let free = match self.entity_position.get(desired) {
            Some(Some(_)) => false,
            _ => true,
        };
        let stays = desired == m.position;
        if stays || !free {
            match team {
                TeamColor::Red => self.player_state_red.mercenaries.insert(i, m),
                TeamColor::Blue => self.player_state_blue.mercenaries.insert(i, m),
            }
            proof {
                assert(v.player(team).mercenaries.remove(i as int).insert(i as int, m) =~= v.player(team).mercenaries);
                assert(self@ == v);
            }
            if stays {
                return Ok(());
            } else {
                return Err(GameError::Occupied { x: desired.x, y: desired.y });
            }
        }
        let mut m = m;
        let old_pos = m.position;
        proof {
            assert(m == v.player(team).mercenaries[i as int]);
            assert(v.floor_tiles.contains_key(m.path_to_enemy@[1]));
            assert(v.rows()(mercenaries_table(team))[i as int] == (m.uid, old_pos));
        }
        put(&mut self.entity_position, old_pos, None);
        put(&mut self.entity_position, desired, Some(EntityKey { uid: m.uid, entity_type: EntityType::Mercenary }));
        m.path_to_enemy.pop_front();
        m.position = desired;
        match team {
            TeamColor::Red => self.player_state_red.mercenaries.insert(i, m),
            TeamColor::Blue => self.player_state_blue.mercenaries.insert(i, m),
        }
        proof {
            let t0 = mercenaries_table(team);
            let ms2 = self@.player(team).mercenaries;
            assert(ms2 =~= v.player(team).mercenaries.update(i as int, m));
            assert(v.rows()(t0).update(i as int, (m.uid, desired)) =~= self@.rows()(t0));
            assert forall|t: Table| t != t0 implies #[trigger] self@.rows()(t) == v.rows()(t) by {}
            lemma_relocate(v.rows(), self@.rows(), v.entity_position, v.next_uid, t0, i as int, desired);
            assert(self@.entity_position == v.entity_position.remove(old_pos).insert(desired, v.entity_position[old_pos]));
            assert(self@ == (GameView {
                entity_position: v.entity_position.remove(old_pos).insert(desired, v.entity_position[old_pos]),
                ..v.with_mercenaries(team, ms2)
            }));
            let other = team.spec_opponent();
            assert forall|j: int| 0 <= j < ms2.len() implies {
                let mm = #[trigger] ms2[j];
                &&& mm.team_color == team
                &&& self@.on_route(mm.position, mm.path_to_enemy@, team.spec_opponent())
            } by {
                if j != i {
                    assert(ms2[j] == v.player(team).mercenaries[j]);
                } else {
                    let m0 = v.player(team).mercenaries[i as int];
                    let target = v.base_position(team.spec_opponent())->Some_0;
                    assert(v.on_route(m0.position, m0.path_to_enemy@, team.spec_opponent()));
                    lemma_route_tail(v.floor_tiles, m0.position, target, m0.path_to_enemy@);
                }
            }
        }
        Ok(())
    }

    pub(crate) fn remove_mercenary_at(&mut self, team: TeamColor, i: usize)
        requires
            old(self).wf(),
            i < old(self)@.player(team).mercenaries.len(),
        ensures
            final(self).wf(),
            final(self)@ == old(self)@.without_mercenary(team, i as int),
    {
        let ghost v = self@;
        let m = match team {
            TeamColor::Red => self.player_state_red.mercenaries.remove(i),
            TeamColor::Blue => self.player_state_blue.mercenaries.remove(i),
        };
        proof {
            let t0 = mercenaries_table(team);
            assert(m == v.player(team).mercenaries[i as int]);
            assert(v.rows()(t0)[i as int] == (m.uid, m.position));
        }
        put(&mut self.entity_position, m.position, None);
        proof {
            let t0 = mercenaries_table(team);
            assert(self@ == v.without_mercenary(team, i as int));
            assert(v.rows()(t0).remove(i as int) =~= self@.rows()(t0));
            assert forall|t: Table| t != t0 implies #[trigger] self@.rows()(t) == v.rows()(t) by {}
            lemma_unplace(v.rows(), self@.rows(), v.entity_position, v.next_uid, t0, i as int);
            let ms2 = self@.player(team).mercenaries;
            assert forall|j: int| 0 <= j < ms2.len() implies {
                let mm = #[trigger] ms2[j];
                &&& mm.team_color == team
                &&& self@.on_route(mm.position, mm.path_to_enemy@, team.spec_opponent())
            } by {
                if j < i {
                    assert(ms2[j] == v.player(team).mercenaries[j]);
                } else {
                    assert(ms2[j] == v.player(team).mercenaries[j + 1]);
                }
            }
        }
    }

    /// Removes the mercenary with the key's id from whichever team owns it,
    /// together with its index entry. A key of another kind, or one that no
    /// mercenary has, is an internal fault and changes nothing.
    pub fn remove_mercenary(&mut self, key: EntityKey) -> (r: Result<(), GameError>)
        requires
            old(self).wf(),
        ensures
            final(self).wf(),
            r is Ok <==> key.entity_type == EntityType::Mercenary && exists|team: TeamColor, i: int|
                0 <= i < old(self)@.player(team).mercenaries.len() && #[trigger] old(self)@.player(
                    team,
                ).mercenaries[i].uid == key.uid,
            r is Ok ==> exists|team: TeamColor, i: int|
                0 <= i < old(self)@.player(team).mercenaries.len() && #[trigger] old(self)@.player(
                    team,
                ).mercenaries[i].uid == key.uid && final(self)@ == old(self)@.without_mercenary(
                    team,
                    i,
                ),
            r is Err ==> r == Err::<(), GameError>(GameError::MissingEntity { uid: key.uid })
                && final(self)@ == old(self)@,
    {
        if key.entity_type != EntityType::Mercenary {
            return Err(GameError::MissingEntity { uid: key.uid });
        }
        match self.find_mercenary(TeamColor::Red, key.uid) {
            Some(i) => {
                self.remove_mercenary_at(TeamColor::Red, i);
                return Ok(());
            },
            None => {},
        }
        match self.find_mercenary(TeamColor::Blue, key.uid) {
            Some(i) => {
                self.remove_mercenary_at(TeamColor::Blue, i);
                Ok(())
            },
            None => {
                proof {
                    assert forall|team: TeamColor, i: int|
                        0 <= i < old(self)@.player(team).mercenaries.len() implies #[trigger] old(
                        self,
                    )@.player(team).mercenaries[i].uid != key.uid by {
                        match team {
                            TeamColor::Red => {},
                            TeamColor::Blue => {},
                        }
                    }
                }
                Err(GameError::MissingEntity { uid: key.uid })
            },
        }
    }

    /// Places a new enemy at `position`, routed along a shortest route to the
    /// base of `target_team`. Fails, changing nothing, when that base is
    /// missing, when `position` is off the board or taken or no id is left,
    /// or when no route exists.
    pub fn add_enemy(&mut self, position: Position, target_team: TeamColor) -> (r: Result<
        (),
        GameError,
    >)
        requires
            old(self).wf(),
        ensures
            final(self).wf(),
            r == old(self)@.enemy_spawn_check(position, target_team),
            r is Ok ==> {
                let e = final(self)@.enemies.last();
                let target = old(self)@.base_position(target_team)->Some_0;
                &&& final(self)@ == old(self)@.with_enemy(e)
                &&& e.uid == old(self)@.next_uid
                &&& e.position == position
                &&& e.hp == ENEMY_INITIAL_HP
                &&& e.target == target_team
                &&& e.path_to_target@ == shortest_route(old(self)@.floor_tiles, position, target)
                &&& is_route(old(self)@.floor_tiles, position, target, e.path_to_target@)
                &&& forall|q: Seq<Position>|
                    is_route(old(self)@.floor_tiles, position, target, q)
                        ==> e.path_to_target@.len() <= q.len()
            },
            r is Err ==> final(self)@ == old(self)@,
    {
        let target = match target_team {
            TeamColor::Red => &self.player_state_red.base,
            TeamColor::Blue => &self.player_state_blue.base,
        };
        let target = match target {
            Some(b) => b.position,
            None => {
                return Err(GameError::NoBase);
            },
        };
        match self.check_free(position) {
            Err(e) => {
                return Err(e);
            },
            Ok(()) => {},
        }
        let path = match compute_path_to_enemy(position, &self.floor_tiles, target) {
            Ok(path) => path,
            Err(_) => {
                return Err(GameError::NoPath);
            },
        };
        let uid = self.next_uid;
        let enemy = Enemy::new(uid, position, target_team, path);
        let key = EntityKey { uid, entity_type: EntityType::Enemy };
        put(&mut self.entity_position, position, Some(key));
        self.enemies.push(enemy);
        self.next_uid = uid + 1;
        proof {
            let v = old(self)@;
            let t0 = Table::Enemies;
            assert(self@ == v.with_enemy(enemy));
            assert(v.rows()(t0).push((uid, position)) =~= self@.rows()(t0));
            assert forall|t: Table| t != t0 implies #[trigger] self@.rows()(t) == v.rows()(t) by {}
            lemma_place(v.rows(), self@.rows(), v.entity_position, uid, t0, position);
            assert(key_of(t0, uid) == key);
            assert(forall|i: int| 0 < i < enemy.path_to_target@.len() ==> crate::pathfinder::walkable(v.floor_tiles, target, #[trigger] enemy.path_to_target@[i]));
            assert(is_route(v.floor_tiles, position, target, enemy.path_to_target@));
            assert(exists|q: Seq<Position>| is_route(v.floor_tiles, position, target, q));
            assert(old(self)@.base_position(target_team)->Some_0 == target);
            assert(exists|q: Seq<Position>| is_route(old(self)@.floor_tiles, position, old(self)@.base_position(target_team)->Some_0, q));
        }
        Ok(())
    }

    /// The index in the enemy table of the enemy with id `uid`.
    pub fn find_enemy(&self, uid: u64) -> (r: Option<usize>)
        requires
            self.wf(),
        ensures
            match r {
                Some(i) => i < self@.enemies.len() && self@.enemies[i as int].uid == uid,
                None => forall|i: int|
                    0 <= i < self@.enemies.len() ==> #[trigger] self@.enemies[i].uid != uid,
            },
    {
        let mut i: usize = 0;
        while i < self.enemies.len()
            invariant
                i <= self@.enemies.len(),
                forall|j: int| 0 <= j < i ==> #[trigger] self@.enemies[j].uid != uid,
            decreases self@.enemies.len() - i,
        {
            if self.enemies[i].uid == uid {
                return Some(i);
            }
            i = i + 1;
        }
        None
    }

    /// Advances enemy `i` one step along its route, unless it has reached
    /// the last cell before its target. Fails, changing nothing, when the
    /// cell ahead is taken.
    pub fn move_enemy(&mut self, i: usize) -> (r: Result<(), GameError>)
        requires
            old(self).wf(),
            i < old(self)@.enemies.len(),
        ensures
            final(self).wf(),
            ({
                let e = old(self)@.enemies[i as int];
                let d = desired_position(e.position, e.path_to_target@);
                let es2 = final(self)@.enemies;
                if d == e.position {
                    r is Ok && final(self)@ == old(self)@
                } else if old(self)@.entity_position.contains_key(d) {
                    r == Err::<(), GameError>(GameError::Occupied { x: d.x, y: d.y })
                        && final(self)@ == old(self)@
                } else {
                    &&& r is Ok
                    &&& es2 == old(self)@.enemies.update(i as int, es2[i as int])
                    &&& stepped(e.position, e.path_to_target@, es2[i as int].position, es2[i as int].path_to_target@)
                    &&& es2[i as int].uid == e.uid
                    &&& es2[i as int].hp == e.hp
                    &&& es2[i as int].target == e.target
                    &&& final(self)@ == (GameView {
                        entity_position: old(self)@.entity_position.remove(e.position).insert(
                            d,
                            old(self)@.entity_position[e.position],
                        ),
                        enemies: es2,
                        ..old(self)@
                    })
                }
            }),
    {
        let ghost v = self@;
        let e = self.enemies.remove(i);
        let desired = e.get_desired_position();
        let free = match self.entity_position.get(desired) {
            Some(Some(_)) => false,
            _ => true,
        };
        let stays = desired == e.position;
        if stays || !free {
            self.enemies.insert(i, e);
            proof {
                assert(v.enemies.remove(i as int).insert(i as int, e) =~= v.enemies);
                assert(self@ == v);
            }
            if stays {
                return Ok(());
            } else {
                return Err(GameError::Occupied { x: desired.x, y: desired.y });
            }
        }
        let mut e = e;
        let old_pos = e.position;
        proof {
            assert(e == v.enemies[i as int]);
            assert(v.floor_tiles.contains_key(e.path_to_target@[1]));
            assert(v.rows()(Table::Enemies)[i as int] == (e.uid, old_pos));
        }
        put(&mut self.entity_position, old_pos, None);
        put(&mut self.entity_position, desired, Some(EntityKey { uid: e.uid, entity_type: EntityType::Enemy }));
        e.path_to_target.pop_front();
        e.position = desired;
        self.enemies.insert(i, e);
        proof {
            let t0 = Table::Enemies;
            let es2 = self@.enemies;
            assert(es2 =~= v.enemies.update(i as int, e));
            assert(v.rows()(t0).update(i as int, (e.uid, desired)) =~= self@.rows()(t0));
            assert forall|t: Table| t != t0 implies #[trigger] self@.rows()(t) == v.rows()(t) by {}
            lemma_relocate(v.rows(), self@.rows(), v.entity_position, v.next_uid, t0, i as int, desired);
            assert(self@.entity_position == v.entity_position.remove(old_pos).insert(desired, v.entity_position[old_pos]));
            assert forall|j: int| 0 <= j < es2.len() implies {
                let ee = #[trigger] es2[j];
                self@.on_route(ee.position, ee.path_to_target@, ee.target)
            } by {
                if j != i {
                    assert(es2[j] == v.enemies[j]);
                } else {
                    let e0 = v.enemies[i as int];
                    let target = v.base_position(e0.target)->Some_0;
                    assert(v.on_route(e0.position, e0.path_to_target@, e0.target));
                    lemma_route_tail(v.floor_tiles, e0.position, target, e0.path_to_target@);
                }
            }
        }
        Ok(())
    }

    pub(crate) fn remove_enemy_at(&mut self, i: usize)
        requires
            old(self).wf(),
            i < old(self)@.enemies.len(),
        ensures
            final(self).wf(),
            final(self)@ == old(self)@.without_enemy(i as int),
    {
        let ghost v = self@;
        let e = self.enemies.remove(i);
        proof {
            assert(e == v.enemies[i as int]);
            assert(v.rows()(Table::Enemies)[i as int] == (e.uid, e.position));
        }
        put(&mut self.entity_position, e.position, None);
        proof {
            let t0 = Table::Enemies;
            assert(self@ == v.without_enemy(i as int));
            assert(v.rows()(t0).remove(i as int) =~= self@.rows()(t0));
            assert forall|t: Table| t != t0 implies #[trigger] self@.rows()(t) == v.rows()(t) by {}
            lemma_unplace(v.rows(), self@.rows(), v.entity_position, v.next_uid, t0, i as int);
            let es2 = self@.enemies;
            assert forall|j: int| 0 <= j < es2.len() implies {
                let ee = #[trigger] es2[j];
                self@.on_route(ee.position, ee.path_to_target@, ee.target)
            } by {
                if j < i {
                    assert(es2[j] == v.enemies[j]);
                } else {
                    assert(es2[j] == v.enemies[j + 1]);
                }
            }
        }
    }

    /// Removes the enemy with the key's id, together with its index entry.
    /// A key of another kind, or one that no enemy has, is an internal fault
    /// and changes nothing.
    pub fn remove_enemy(&mut self, key: EntityKey) -> (r: Result<(), GameError>)
        requires
            old(self).wf(),
        ensures
            final(self).wf(),
            r is Ok <==> key.entity_type == EntityType::Enemy && exists|i: int|
                0 <= i < old(self)@.enemies.len() && #[trigger] old(self)@.enemies[i].uid == key.uid,
            r is Ok ==> exists|i: int|
                0 <= i < old(self)@.enemies.len() && #[trigger] old(self)@.enemies[i].uid == key.uid
                    && final(self)@ == old(self)@.without_enemy(i),
            r is Err ==> r == Err::<(), GameError>(GameError::MissingEntity { uid: key.uid })
                && final(self)@ == old(self)@,
    {
        if key.entity_type != EntityType::Enemy {
            return Err(GameError::MissingEntity { uid: key.uid });
        }
        match self.find_enemy(key.uid) {
            Some(i) => {
                self.remove_enemy_at(i);
                Ok(())
            },
            None => Err(GameError::MissingEntity { uid: key.uid }),
        }
    }

    /// Places a spawner described by the map. Fails, changing nothing, when
    /// its target token names no team, when its cell is off the board or
    /// taken, or when no id is left.
    pub fn add_enemy_spawner(&mut self, from_map: &SpawnerFromMapfile) -> (r: Result<(), GameError>)
        requires
            old(self).wf(),
        ensures
            final(self).wf(),
            ({
                let p = Position { x: from_map.x, y: from_map.y };
                &&& team_color_of(from_map.target@) is None ==> r == Err::<(), GameError>(GameError::UnknownTeam)
                &&& team_color_of(from_map.target@) is Some ==> r == old(self)@.place_check(p)
                &&& r is Ok ==> final(self)@ == old(self)@.with_spawner(
                    EnemySpawner {
                        uid: old(self)@.next_uid,
                        position: p,
                        reload_time_left: ENEMY_SPAWNER_RELOAD_TURNS,
                        enemies_queued: 0,
                        target: team_color_of(from_map.target@)->Some_0,
                        switch_target: from_map.switch_target,
                    },
                )
            }),
            r is Err ==> final(self)@ == old(self)@,
    {
        let target = match parse_team_color(from_map.target.clone()) {
            Some(tc) => tc,
            None => {
                return Err(GameError::UnknownTeam);
            },
        };
        let position = Position { x: from_map.x, y: from_map.y };
        match self.check_free(position) {
            Err(e) => {
                return Err(e);
            },
            Ok(()) => {},
        }
        let uid = self.next_uid;
        let spawner = EnemySpawner::new(uid, position, target, from_map.switch_target);
        let key = EntityKey { uid, entity_type: EntityType::EnemySpawner };
        put(&mut self.entity_position, position, Some(key));
        self.enemy_spawners.push(spawner);
        self.next_uid = uid + 1;
        proof {
            let v = old(self)@;
            let t0 = Table::Spawners;
            assert(self@ == v.with_spawner(spawner));
            assert(v.rows()(t0).push((uid, position)) =~= self@.rows()(t0));
            assert forall|t: Table| t != t0 implies #[trigger] self@.rows()(t) == v.rows()(t) by {}
            lemma_place(v.rows(), self@.rows(), v.entity_position, uid, t0, position);
            assert(key_of(t0, uid) == key);
        }
        Ok(())
    }

    /// Removes the tower with the key's id from whichever team owns it,
    /// together with its index entry. A key of another kind, or one that
    /// no tower has, is an internal fault and changes nothing.
    pub fn remove_tower(&mut self, key: EntityKey) -> (r: Result<(), GameError>)
        requires
            old(self).wf(),
        ensures
            final(self).wf(),
            r is Ok <==> key.entity_type == EntityType::Tower && exists|team: TeamColor, i: int|
                0 <= i < old(self)@.player(team).towers.len() && #[trigger] old(self)@.player(
                    team,
                ).towers[i].uid == key.uid,
            r is Ok ==> exists|team: TeamColor, i: int|
                0 <= i < old(self)@.player(team).towers.len() && #[trigger] old(self)@.player(
                    team,
                ).towers[i].uid == key.uid && final(self)@ == old(self)@.without_tower(team, i),
            r is Err ==> r == Err::<(), GameError>(GameError::MissingEntity { uid: key.uid })
                && final(self)@ == old(self)@,
    {
        if key.entity_type != EntityType::Tower {
            return Err(GameError::MissingEntity { uid: key.uid });
        }
        match self.find_tower(TeamColor::Red, key.uid) {
            Some(i) => {
                self.remove_tower_at(TeamColor::Red, i);
                return Ok(());
            },
            None => {},
        }
        match self.find_tower(TeamColor::Blue, key.uid) {
            Some(i) => {
                self.remove_tower_at(TeamColor::Blue, i);
                Ok(())
            },
            None => {
                proof {
                    assert forall|team: TeamColor, i: int|
                        0 <= i < old(self)@.player(team).towers.len() implies #[trigger] old(
                        self,
                    )@.player(team).towers[i].uid != key.uid by {
                        match team {
                            TeamColor::Red => {},
                            TeamColor::Blue => {},
                        }
                    }
                }
                Err(GameError::MissingEntity { uid: key.uid })
            },
        }
    }
}

} // verus!
