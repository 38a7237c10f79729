use vstd::prelude::*;

verus! {

/// An integer range test, as configured on a mastery condition.
#[derive(Clone, Copy, PartialEq, Eq, Structural)]
pub enum RangeCondition {
    AtLeast { value: i32 },
    AtMost { value: i32 },
    Between { min: i32, max: i32 },
    Exactly { value: i32 },
}

/// A role condition as stored, together with its row id and the role it
/// belongs to.
pub struct RoleConditionWithId {
    pub id: i32,
    pub role_id: i32,
    pub condition: RoleCondition,
}

/// The closed set of condition kinds a role can be gated on.
pub enum RoleCondition {
    MasteryLevel(MasteryLevelCondition),
    TotalMasteryLevel(TotalMasteryLevelCondition),
    MasteryScore(MasteryScoreCondition),
    TotalMasteryScore(TotalMasteryScoreCondition),
    RankedTier(RankedTierCondition),
    Server(ServerCondition),
}

/// Tests the user's mastery level on one champion.
pub struct MasteryLevelCondition {
    pub range: RangeCondition,
    pub champion: i32,
}

/// Tests the sum of the user's mastery levels over all champions.
pub struct TotalMasteryLevelCondition {
    pub range: RangeCondition,
}

/// Tests the user's mastery score on one champion.
pub struct MasteryScoreCondition {
    pub range: RangeCondition,
    pub champion: i32,
}

/// Tests the sum of the user's mastery scores over all champions.
pub struct TotalMasteryScoreCondition {
    pub range: RangeCondition,
}

/// Tests the user's ranked tier in some queue.
pub struct RankedTierCondition {
    pub compare: RankedTierCompare,
    pub queue: RankedTierQueue,
}

/// Which queue a ranked-tier condition looks at.
pub enum RankedTierQueue {
    /// Any queue the user has a rank in may satisfy the comparison.
    Any,
    /// The user's best queue, not counting the TFT queue.
    HighestExcludingTFT,
    /// The user's best queue, the TFT queue included.
    HighestIncludingTFT,
    /// One specific queue, by its upstream name.
    NamedQueue(String),
}

/// A comparison against a tier ordinal, where unranked is 0 and the ladder
/// runs from IRON = 1 to CHALLENGER = 9.
#[derive(Clone, Copy, PartialEq, Eq, Structural)]
pub enum RankedTierCompare {
    Higher(i32),
    Lower(i32),
    Equal(i32),
}

/// Requires a linked account in a region.
pub struct ServerCondition {
    pub region: String,
}

/// How many of a role's conditions must hold for the role to apply.
#[derive(Clone, Copy, PartialEq, Eq, Structural)]
pub enum RoleCombinator {
    All,
    Any,
    AtLeast { amount: i32 },
}

} // verus!
