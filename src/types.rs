use vstd::prelude::*;

verus! {

/// A cell of the board, addressed by column `x` and row `y`.
#[derive(PartialEq, Eq, Structural, Clone, Copy, Debug, Hash)]
pub struct Position {
    pub x: i32,
    pub y: i32,
}

#[derive(PartialEq, Eq, Structural, Clone, Copy, Debug, Hash)]
pub enum TeamColor {
    Red,
    Blue,
}

impl TeamColor {
    pub open spec fn spec_opponent(self) -> TeamColor {
        match self {
            TeamColor::Red => TeamColor::Blue,
            TeamColor::Blue => TeamColor::Red,
        }
    }

    /// The other team.
    #[verifier::when_used_as_spec(spec_opponent)]
    pub fn opponent(self) -> (r: TeamColor)
        ensures
            r == self.spec_opponent(),
    {
        match self {
            TeamColor::Red => TeamColor::Blue,
            TeamColor::Blue => TeamColor::Red,
        }
    }
}

#[derive(PartialEq, Eq, Structural, Clone, Copy, Debug, Hash)]
pub enum EntityType {
    PlayerBase,
    Enemy,
    Mercenary,
    EnemySpawner,
    Tower,
}

#[derive(PartialEq, Eq, Structural, Clone, Copy, Debug, Hash)]
pub enum FloorTile {
    RedTerritory,
    BlueTerritory,
    Path,
}

/// Identifies a placed entity: ids come from one allocator, so keys never
/// collide across kinds or teams.
#[derive(PartialEq, Eq, Structural, Clone, Copy, Debug, Hash)]
pub struct EntityKey {
    pub uid: u64,
    pub entity_type: EntityType,
}

/// The territory tile on which a team may build.
pub open spec fn territory_of(team: TeamColor) -> FloorTile {
    match team {
        TeamColor::Red => FloorTile::RedTerritory,
        TeamColor::Blue => FloorTile::BlueTerritory,
    }
}

/// The territory tile of `team`.
pub fn territory(team: TeamColor) -> (r: FloorTile)
    ensures
        r == territory_of(team),
{
    match team {
        TeamColor::Red => FloorTile::RedTerritory,
        TeamColor::Blue => FloorTile::BlueTerritory,
    }
}

/// Whether two texts hold the same characters.
pub fn text_is(s: &str, lit: &str) -> (r: bool)
    ensures
        r == (s@ == lit@),
{
    let n = s.unicode_len();
    let m = lit.unicode_len();
    if n != m {
        return false;
    }
    let mut i: usize = 0;
    while i < n
        invariant
            n == s@.len(),
            m == lit@.len(),
            n == m,
            i <= n,
            s@.subrange(0, i as int) == lit@.subrange(0, i as int),
        decreases n - i,
    {
        if s.get_char(i) != lit.get_char(i) {
            assert(s@[i as int] != lit@[i as int]);
            return false;
        }
        assert(s@.subrange(0, i + 1) =~= s@.subrange(0, i as int).push(s@[i as int]));
        assert(lit@.subrange(0, i + 1) =~= lit@.subrange(0, i as int).push(lit@[i as int]));
        i = i + 1;
    }
    assert(s@ =~= s@.subrange(0, n as int));
    assert(lit@ =~= lit@.subrange(0, n as int));
    true
}

/// The tile that a map character denotes: 'r' red territory, 'b' blue
/// territory, 'O' path.
pub open spec fn tile_of(c: char) -> Option<FloorTile> {
    if c == 'r' {
        Some(FloorTile::RedTerritory)
    } else if c == 'b' {
        Some(FloorTile::BlueTerritory)
    } else if c == 'O' {
        Some(FloorTile::Path)
    } else {
        None
    }
}

pub fn parse_tile(c: char) -> (r: Option<FloorTile>)
    ensures
        r == tile_of(c),
{
    if c == 'r' {
        Some(FloorTile::RedTerritory)
    } else if c == 'b' {
        Some(FloorTile::BlueTerritory)
    } else if c == 'O' {
        Some(FloorTile::Path)
    } else {
        None
    }
}

/// The team that a map token names: "r" for red, "b" for blue.
pub open spec fn team_color_of(s: Seq<char>) -> Option<TeamColor> {
    if s == "r"@ {
        Some(TeamColor::Red)
    } else if s == "b"@ {
        Some(TeamColor::Blue)
    } else {
        None
    }
}

pub fn parse_team_color(string: String) -> (r: Option<TeamColor>)
    ensures
        r == team_color_of(string@),
{
    let s = string.as_str();
    if text_is(s, "r") {
        Some(TeamColor::Red)
    } else if text_is(s, "b") {
        Some(TeamColor::Blue)
    } else {
        None
    }
}

} // verus!
