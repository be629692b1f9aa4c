use vstd::prelude::*;

verus! {

/// Why an action or an update step did not go through.
///
/// Most variants are rejections of a team's action: expected, reported back
/// to the team, and harmless to the match. `DanglingTower`, `IdsExhausted`,
/// `NoPath` and `MissingEntity` signal a fault of the engine itself (see `is_internal`).
#[derive(PartialEq, Eq, Structural, Clone, Copy, Debug)]
pub enum GameError {
    MaxBuildersReached { max: u32 },
    InsufficientFunds { required: u32, available: u32 },
    UnknownActionType,
    MissingTarget,
    MissingTargetX,
    MissingTargetY,
    MissingTowerType,
    UnknownTowerType,
    OutOfBounds,
    WrongTerritory,
    Occupied { x: i32, y: i32 },
    NothingToRecycle { x: i32, y: i32 },
    NotATower { x: i32, y: i32 },
    DanglingTower { uid: u64 },
    InvalidDirection,
    NotAPathTile,
    NoBase,
    InvalidTile { column: usize, row: usize },
    UnevenRows { row: usize },
    BoardTooLarge,
    UnknownTeam,
    NoPath,
    IdsExhausted,
    MissingEntity { uid: u64 },
}

impl GameError {
    pub open spec fn spec_is_internal(&self) -> bool {
        match self {
            GameError::DanglingTower { .. }
            | GameError::IdsExhausted
            | GameError::NoPath
            | GameError::MissingEntity { .. } => true,
            _ => false,
        }
    }

    /// Whether the error reveals a fault of the engine rather than a bad action.
    #[verifier::when_used_as_spec(spec_is_internal)]
    pub fn is_internal(&self) -> (r: bool)
        ensures
            r == self.spec_is_internal(),
    {
        match self {
            GameError::DanglingTower { .. }
            | GameError::IdsExhausted
            | GameError::NoPath
            | GameError::MissingEntity { .. } => true,
            _ => false,
        }
    }
}

} // verus!
