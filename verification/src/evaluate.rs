use vstd::prelude::*;

use crate::db_model::{LeagueAccount, Role, User, UserChampionStat, UserRank};
use crate::role_model::{
    MasteryLevelCondition, MasteryScoreCondition, RangeCondition, RankedTierCompare,
    RankedTierCondition, RankedTierQueue, RoleCombinator, RoleCondition, RoleConditionWithId,
    ServerCondition, TotalMasteryLevelCondition, TotalMasteryScoreCondition,
};
use crate::strings::str_eq;

verus! {

/// Everything needed to decide whether any role condition applies to a user.
pub struct EvaluationContext {
    pub user: User,
    pub accounts: Vec<LeagueAccount>,
    pub stats: Vec<UserChampionStat>,
    pub ranks: Vec<UserRank>,
}

/// The ordinal of a ranked tier: unranked would be 0, the ladder runs from
/// IRON = 1 to CHALLENGER = 9, and unknown tier names map to -1.
pub open spec fn spec_tier_ordinal(t: Seq<char>) -> int {
    if t == "IRON"@ {
        1
    } else if t == "BRONZE"@ {
        2
    } else if t == "SILVER"@ {
        3
    } else if t == "GOLD"@ {
        4
    } else if t == "PLATINUM"@ {
        5
    } else if t == "DIAMOND"@ {
        6
    } else if t == "MASTER"@ {
        7
    } else if t == "GRANDMASTER"@ {
        8
    } else if t == "CHALLENGER"@ {
        9
    } else {
        -1
    }
}

/// Converts a tier name to its ordinal, where unknown tiers map to -1.
pub fn tier_to_numeric(tier: &str) -> (r: i32)
    ensures
        r as int == spec_tier_ordinal(tier@),
{
    if str_eq(tier, "IRON") {
        1
    } else if str_eq(tier, "BRONZE") {
        2
    } else if str_eq(tier, "SILVER") {
        3
    } else if str_eq(tier, "GOLD") {
        4
    } else if str_eq(tier, "PLATINUM") {
        5
    } else if str_eq(tier, "DIAMOND") {
        6
    } else if str_eq(tier, "MASTER") {
        7
    } else if str_eq(tier, "GRANDMASTER") {
        8
    } else if str_eq(tier, "CHALLENGER") {
        9
    } else {
        -1
    }
}

/// The sum of the mastery levels of all stats rows.
pub open spec fn sum_levels(s: Seq<UserChampionStat>) -> int
    decreases s.len(),
{
    if s.len() == 0 {
        0
    } else {
        sum_levels(s.drop_last()) + s.last().level
    }
}

/// The sum of the mastery scores of all stats rows.
pub open spec fn sum_scores(s: Seq<UserChampionStat>) -> int
    decreases s.len(),
{
    if s.len() == 0 {
        0
    } else {
        sum_scores(s.drop_last()) + s.last().score
    }
}

/// The first stats row for the given champion, if any.
pub open spec fn spec_find_stat(s: Seq<UserChampionStat>, champ: int) -> Option<UserChampionStat>
    decreases s.len(),
{
    if s.len() == 0 {
        None
    } else if s[0].champion_id == champ {
        Some(s[0])
    } else {
        spec_find_stat(s.skip(1), champ)
    }
}

/// The user's mastery level on a champion, 0 when there is no stats row.
pub open spec fn spec_stat_level(s: Seq<UserChampionStat>, champ: int) -> int {
    match spec_find_stat(s, champ) {
        Some(row) => row.level as int,
        None => 0,
    }
}

/// The user's mastery score on a champion, 0 when there is no stats row.
pub open spec fn spec_stat_score(s: Seq<UserChampionStat>, champ: int) -> int {
    match spec_find_stat(s, champ) {
        Some(row) => row.score as int,
        None => 0,
    }
}

/// What a range condition accepts.
pub open spec fn spec_range_sat(rc: RangeCondition, v: int) -> bool {
    match rc {
        RangeCondition::AtLeast { value } => v >= value,
        RangeCondition::AtMost { value } => v <= value,
        RangeCondition::Between { min, max } => v >= min && v <= max,
        RangeCondition::Exactly { value } => v == value,
    }
}

/// Whether a tier comparison is exactly `Equal(0)`, the only comparison an
/// unranked user can satisfy.
pub open spec fn spec_is_equals_zero(c: RankedTierCompare) -> bool {
    match c {
        RankedTierCompare::Equal(v) => v == 0,
        _ => false,
    }
}

/// What a tier comparison accepts, given a tier name. Unknown tier names
/// (ordinal -1) satisfy no comparison.
pub open spec fn spec_compare_sat(c: RankedTierCompare, t: Seq<char>) -> bool {
    let idx = spec_tier_ordinal(t);
    if idx == -1 {
        false
    } else {
        match c {
            RankedTierCompare::Higher(v) => v < idx,
            RankedTierCompare::Lower(v) => v > idx,
            RankedTierCompare::Equal(v) => v == idx,
        }
    }
}

/// The first rank row for the given queue, if any.
pub open spec fn spec_find_rank(ranks: Seq<UserRank>, queue: Seq<char>) -> Option<UserRank>
    decreases ranks.len(),
{
    if ranks.len() == 0 {
        None
    } else if ranks[0].queue@ == queue {
        Some(ranks[0])
    } else {
        spec_find_rank(ranks.skip(1), queue)
    }
}

/// The rank row with the highest tier ordinal, optionally leaving out the TFT
/// queue; on equal ordinals the later row wins, as a maximum taken over the
/// rows in order does it.
pub open spec fn spec_highest(ranks: Seq<UserRank>, include_tft: bool) -> Option<UserRank>
    decreases ranks.len(),
{
    if ranks.len() == 0 {
        None
    } else {
        let rest = spec_highest(ranks.skip(1), include_tft);
        let head = ranks[0];
        if !include_tft && head.queue@ == "RANKED_TFT"@ {
            rest
        } else {
            match rest {
                None => Some(head),
                Some(best) => if spec_tier_ordinal(head.tier@) > spec_tier_ordinal(best.tier@) {
                    Some(head)
                } else {
                    Some(best)
                },
            }
        }
    }
}

/// What a ranked-tier condition accepts. A user with no rank rows, or one
/// marked `treat_as_unranked`, matches exactly the `Equal(0)` comparison.
pub open spec fn spec_ranked_tier_sat(cond: RankedTierCondition, ctx: EvaluationContext) -> bool {
    if ctx.ranks@.len() == 0 || ctx.user.treat_as_unranked {
        spec_is_equals_zero(cond.compare)
    } else {
        match cond.queue {
            RankedTierQueue::Any => exists|k: int|
                0 <= k < ctx.ranks@.len() && spec_compare_sat(
                    cond.compare,
                    #[trigger] ctx.ranks@[k].tier@,
                ),
            RankedTierQueue::HighestExcludingTFT => match spec_highest(ctx.ranks@, false) {
                None => spec_is_equals_zero(cond.compare),
                Some(best) => spec_compare_sat(cond.compare, best.tier@),
            },
            RankedTierQueue::HighestIncludingTFT => match spec_highest(ctx.ranks@, true) {
                None => spec_is_equals_zero(cond.compare),
                Some(best) => spec_compare_sat(cond.compare, best.tier@),
            },
            RankedTierQueue::NamedQueue(q) => match spec_find_rank(ctx.ranks@, q@) {
                None => spec_is_equals_zero(cond.compare),
                Some(row) => spec_compare_sat(cond.compare, row.tier@),
            },
        }
    }
}

/// What a server condition accepts: some linked account opted into region
/// matching and lies in the expected region.
pub open spec fn spec_server_sat(cond: ServerCondition, ctx: EvaluationContext) -> bool {
    exists|k: int|
        0 <= k < ctx.accounts@.len() && (#[trigger] ctx.accounts@[k]).include_region
            && ctx.accounts@[k].region@ == cond.region@
}

/// What one role condition accepts.
pub open spec fn spec_cond_sat(cond: RoleCondition, ctx: EvaluationContext) -> bool {
    match cond {
        RoleCondition::MasteryLevel(c) => spec_range_sat(
            c.range,
            spec_stat_level(ctx.stats@, c.champion as int),
        ),
        RoleCondition::TotalMasteryLevel(c) => spec_range_sat(c.range, sum_levels(ctx.stats@)),
        RoleCondition::MasteryScore(c) => spec_range_sat(
            c.range,
            spec_stat_score(ctx.stats@, c.champion as int),
        ),
        RoleCondition::TotalMasteryScore(c) => spec_range_sat(c.range, sum_scores(ctx.stats@)),
        RoleCondition::RankedTier(c) => spec_ranked_tier_sat(c, ctx),
        RoleCondition::Server(c) => spec_server_sat(c, ctx),
    }
}

/// How many of the conditions accept.
pub open spec fn spec_count_matching(conds: Seq<RoleConditionWithId>, ctx: EvaluationContext) -> int
    decreases conds.len(),
{
    if conds.len() == 0 {
        0
    } else {
        spec_count_matching(conds.drop_last(), ctx) + if spec_cond_sat(
            conds.last().condition,
            ctx,
        ) {
            1 as int
        } else {
            0
        }
    }
}

/// Whether a role applies: its combinator applied to the number of matching
/// conditions.
pub open spec fn spec_role_applies(
    comb: RoleCombinator,
    conds: Seq<RoleConditionWithId>,
    ctx: EvaluationContext,
) -> bool {
    let m = spec_count_matching(conds, ctx);
    match comb {
        RoleCombinator::All => m == conds.len(),
        RoleCombinator::Any => m > 0,
        RoleCombinator::AtLeast { amount } => m >= amount as int,
    }
}

/// Machine bounds an evaluation context must satisfy: the mastery totals fit
/// the stored integer width, and there are no more stats rows than there are
/// distinct champion ids.
pub open spec fn ctx_wf(ctx: EvaluationContext) -> bool {
    &&& i32::MIN <= sum_levels(ctx.stats@) <= i32::MAX
    &&& i32::MIN <= sum_scores(ctx.stats@) <= i32::MAX
    &&& ctx.stats@.len() <= u32::MAX as int + 1
}

impl RangeCondition {
    /// Evaluate the range condition on the given value.
    pub fn evaluate(&self, val: i32) -> (r: bool)
        ensures
            r == spec_range_sat(*self, val as int),
    {
        match *self {
            RangeCondition::AtLeast { value } => val >= value,
            RangeCondition::AtMost { value } => val <= value,
            RangeCondition::Between { min, max } => val >= min && val <= max,
            RangeCondition::Exactly { value } => val == value,
        }
    }
}

impl RankedTierCompare {
    /// Evaluate the comparison on the given tier name. Returns false for a
    /// tier name outside the known ladder.
    pub fn evaluate(&self, tier: &str) -> (r: bool)
        ensures
            r == spec_compare_sat(*self, tier@),
    {
        let idx: i32 = tier_to_numeric(tier);
        if idx == -1 {
            return false;
        }
        match *self {
            RankedTierCompare::Higher(val) => val < idx,
            RankedTierCompare::Lower(val) => val > idx,
            RankedTierCompare::Equal(val) => val == idx,
        }
    }

    /// Whether this comparison is exactly `Equal(0)`.
    pub fn is_equals_zero(&self) -> (r: bool)
        ensures
            r == spec_is_equals_zero(*self),
    {
        match *self {
            RankedTierCompare::Equal(v) => v == 0,
            _ => false,
        }
    }
}

/// The index of the first stats row for the given champion.
fn find_stat_index(stats: &Vec<UserChampionStat>, champ: i32) -> (r: Option<usize>)
    ensures
        match r {
            Some(i) => i < stats@.len() && spec_find_stat(stats@, champ as int) == Some(
                stats@[i as int],
            ),
            None => spec_find_stat(stats@, champ as int) is None,
        },
{
    let n: usize = stats.len();
    let mut i: usize = 0;
    proof {
        assert(stats@.skip(0) =~= stats@);
    }
    while i < n
        invariant
            n == stats@.len(),
            0 <= i <= n,
            spec_find_stat(stats@, champ as int) == spec_find_stat(stats@.skip(i as int), champ as int),
        decreases n - i,
    {
        proof {
            assert(stats@.skip(i as int)[0] == stats@[i as int]);
            assert(stats@.skip(i as int).skip(1) =~= stats@.skip(i as int + 1));
        }
        if stats[i].champion_id == champ {
            return Some(i);
        }
        i = i + 1;
    }
    proof {
        assert(stats@.skip(n as int) =~= Seq::<UserChampionStat>::empty());
    }
    None
}

/// Sums all mastery levels.
fn total_levels(stats: &Vec<UserChampionStat>) -> (r: i64)
    requires
        stats@.len() <= u32::MAX as int + 1,
    ensures
        r as int == sum_levels(stats@),
{
    let n: usize = stats.len();
    let mut acc: i64 = 0;
    let mut i: usize = 0;
    while i < n
        invariant
            n == stats@.len(),
            n <= u32::MAX as int + 1,
            0 <= i <= n,
            acc as int == sum_levels(stats@.take(i as int)),
            -(i as int) * 0x8000_0000 <= acc as int <= (i as int) * 0x7fff_ffff,
        decreases n - i,
    {
        proof {
            assert(stats@.take(i as int + 1).drop_last() =~= stats@.take(i as int));
            assert(stats@.take(i as int + 1).last() == stats@[i as int]);
        }
        acc = acc + stats[i].level as i64;
        i = i + 1;
    }
    proof {
        assert(stats@.take(n as int) =~= stats@);
    }
    acc
}

/// Sums all mastery scores.
fn total_scores(stats: &Vec<UserChampionStat>) -> (r: i64)
    requires
        stats@.len() <= u32::MAX as int + 1,
    ensures
        r as int == sum_scores(stats@),
{
    let n: usize = stats.len();
    let mut acc: i64 = 0;
    let mut i: usize = 0;
    while i < n
        invariant
            n == stats@.len(),
            n <= u32::MAX as int + 1,
            0 <= i <= n,
            acc as int == sum_scores(stats@.take(i as int)),
            -(i as int) * 0x8000_0000 <= acc as int <= (i as int) * 0x7fff_ffff,
        decreases n - i,
    {
        proof {
            assert(stats@.take(i as int + 1).drop_last() =~= stats@.take(i as int));
            assert(stats@.take(i as int + 1).last() == stats@[i as int]);
        }
        acc = acc + stats[i].score as i64;
        i = i + 1;
    }
    proof {
        assert(stats@.take(n as int) =~= stats@);
    }
    acc
}

impl MasteryLevelCondition {
    /// The user's level on the champion (0 when absent), tested on the range.
    pub fn evaluate(&self, ctx: &EvaluationContext) -> (r: bool)
        ensures
            r == spec_cond_sat(RoleCondition::MasteryLevel(*self), *ctx),
    {
        let level: i32 = match find_stat_index(&ctx.stats, self.champion) {
            Some(i) => ctx.stats[i].level,
            None => 0,
        };
        self.range.evaluate(level)
    }
}

impl TotalMasteryLevelCondition {
    /// The sum of the user's levels, tested on the range.
    pub fn evaluate(&self, ctx: &EvaluationContext) -> (r: bool)
        requires
            ctx_wf(*ctx),
        ensures
            r == spec_cond_sat(RoleCondition::TotalMasteryLevel(*self), *ctx),
    {
        let total: i64 = total_levels(&ctx.stats);
        self.range.evaluate(total as i32)
    }
}

impl MasteryScoreCondition {
    /// The user's score on the champion (0 when absent), tested on the range.
    pub fn evaluate(&self, ctx: &EvaluationContext) -> (r: bool)
        ensures
            r == spec_cond_sat(RoleCondition::MasteryScore(*self), *ctx),
    {
        let score: i32 = match find_stat_index(&ctx.stats, self.champion) {
            Some(i) => ctx.stats[i].score,
            None => 0,
        };
        self.range.evaluate(score)
    }
}

impl TotalMasteryScoreCondition {
    /// The sum of the user's scores, tested on the range.
    pub fn evaluate(&self, ctx: &EvaluationContext) -> (r: bool)
        requires
            ctx_wf(*ctx),
        ensures
            r == spec_cond_sat(RoleCondition::TotalMasteryScore(*self), *ctx),
    {
        let total: i64 = total_scores(&ctx.stats);
        self.range.evaluate(total as i32)
    }
}

/// The index of the highest-tier rank row, the later row winning ties,
/// optionally leaving out the TFT queue.
fn highest_rank_index(ranks: &Vec<UserRank>, include_tft: bool) -> (r: Option<usize>)
    ensures
        match r {
            Some(i) => i < ranks@.len() && spec_highest(ranks@, include_tft) == Some(
                ranks@[i as int],
            ),
            None => spec_highest(ranks@, include_tft) is None,
        },
{
    let n: usize = ranks.len();
    let mut best: Option<usize> = None;
    let mut i: usize = n;
    proof {
        assert(ranks@.skip(n as int) =~= Seq::<UserRank>::empty());
    }
    while i > 0
        invariant
            n == ranks@.len(),
            0 <= i <= n,
            match best {
                Some(b) => i <= b < n && spec_highest(ranks@.skip(i as int), include_tft) == Some(
                    ranks@[b as int],
                ),
                None => spec_highest(ranks@.skip(i as int), include_tft) is None,
            },
        decreases i,
    {
        i = i - 1;
        proof {
            assert(ranks@.skip(i as int)[0] == ranks@[i as int]);
            assert(ranks@.skip(i as int).skip(1) =~= ranks@.skip(i as int + 1));
        }
        let head_is_tft: bool = str_eq(ranks[i].queue.as_str(), "RANKED_TFT");
        if !include_tft && head_is_tft {
            // the head row is left out; the best of the rest stands
        } else {
            match best {
                None => {
                    best = Some(i);
                },
                Some(b) => {
                    let head_ord: i32 = tier_to_numeric(ranks[i].tier.as_str());
                    let best_ord: i32 = tier_to_numeric(ranks[b].tier.as_str());
                    if head_ord > best_ord {
                        best = Some(i);
                    }
                },
            }
        }
    }
    proof {
        assert(ranks@.skip(0) =~= ranks@);
    }
    best
}

/// The index of the first rank row in the given queue.
fn find_rank_index(ranks: &Vec<UserRank>, queue: &str) -> (r: Option<usize>)
    ensures
        match r {
            Some(i) => i < ranks@.len() && spec_find_rank(ranks@, queue@) == Some(ranks@[i as int]),
            None => spec_find_rank(ranks@, queue@) is None,
        },
{
    let n: usize = ranks.len();
    let mut i: usize = 0;
    proof {
        assert(ranks@.skip(0) =~= ranks@);
    }
    while i < n
        invariant
            n == ranks@.len(),
            0 <= i <= n,
            spec_find_rank(ranks@, queue@) == spec_find_rank(ranks@.skip(i as int), queue@),
        decreases n - i,
    {
        proof {
            assert(ranks@.skip(i as int)[0] == ranks@[i as int]);
            assert(ranks@.skip(i as int).skip(1) =~= ranks@.skip(i as int + 1));
        }
        if str_eq(ranks[i].queue.as_str(), queue) {
            return Some(i);
        }
        i = i + 1;
    }
    proof {
        assert(ranks@.skip(n as int) =~= Seq::<UserRank>::empty());
    }
    None
}

impl RankedTierCondition {
    /// Evaluate the ranked-tier condition on the user's rank rows.
    pub fn evaluate(&self, ctx: &EvaluationContext) -> (r: bool)
        ensures
            r == spec_ranked_tier_sat(*self, *ctx),
    {
        // A user with no rank rows, or one marked unranked, matches only an
        // explicit Equal(0) check, so that unranked never satisfies a
        // higher-than or lower-than comparison.
        if ctx.ranks.len() == 0 || ctx.user.treat_as_unranked {
            return self.compare.is_equals_zero();
        }
        match &self.queue {
            RankedTierQueue::Any => {
                let n: usize = ctx.ranks.len();
                let mut i: usize = 0;
                let mut found: bool = false;
                while i < n
                    invariant
                        n == ctx.ranks@.len(),
                        0 <= i <= n,
                        found == exists|k: int|
                            0 <= k < i && spec_compare_sat(
                                self.compare,
                                #[trigger] ctx.ranks@[k].tier@,
                            ),
                    decreases n - i,
                {
                    let sat: bool = self.compare.evaluate(ctx.ranks[i].tier.as_str());
                    proof {
                        if sat {
                            assert(spec_compare_sat(self.compare, ctx.ranks@[i as int].tier@));
                        }
                    }
                    found = found || sat;
                    i = i + 1;
                }
                found
            },
            RankedTierQueue::HighestExcludingTFT => {
                match highest_rank_index(&ctx.ranks, false) {
                    None => self.compare.is_equals_zero(),
                    Some(i) => self.compare.evaluate(ctx.ranks[i].tier.as_str()),
                }
            },
            RankedTierQueue::HighestIncludingTFT => {
                match highest_rank_index(&ctx.ranks, true) {
                    None => self.compare.is_equals_zero(),
                    Some(i) => self.compare.evaluate(ctx.ranks[i].tier.as_str()),
                }
            },
            RankedTierQueue::NamedQueue(queue) => {
                match find_rank_index(&ctx.ranks, queue.as_str()) {
                    None => self.compare.is_equals_zero(),
                    Some(i) => self.compare.evaluate(ctx.ranks[i].tier.as_str()),
                }
            },
        }
    }
}

impl ServerCondition {
    /// Evaluate the region condition on the user's linked accounts.
    pub fn evaluate(&self, ctx: &EvaluationContext) -> (r: bool)
        ensures
            r == spec_server_sat(*self, *ctx),
    {
        let n: usize = ctx.accounts.len();
        let mut i: usize = 0;
        let mut found: bool = false;
        while i < n
            invariant
                n == ctx.accounts@.len(),
                0 <= i <= n,
                found == exists|k: int|
                    0 <= k < i && (#[trigger] ctx.accounts@[k]).include_region
                        && ctx.accounts@[k].region@ == self.region@,
            decreases n - i,
        {
            let sat: bool = ctx.accounts[i].include_region && str_eq(
                ctx.accounts[i].region.as_str(),
                self.region.as_str(),
            );
            proof {
                if sat {
                    assert(ctx.accounts@[i as int].include_region && ctx.accounts@[i as int].region@
                        == self.region@);
                }
            }
            found = found || sat;
            i = i + 1;
        }
        found
    }
}

impl RoleCondition {
    /// Whether evaluating this condition needs the user's linked accounts.
    pub fn needs_accounts(&self) -> (r: bool)
        ensures
            r == (*self matches RoleCondition::Server(_)),
    {
        match self {
            RoleCondition::Server(_) => true,
            _ => false,
        }
    }

    /// Whether evaluating this condition needs the user's ranked tiers.
    pub fn needs_ranked_tiers(&self) -> (r: bool)
        ensures
            r == (*self matches RoleCondition::RankedTier(_)),
    {
        match self {
            RoleCondition::RankedTier(_) => true,
            _ => false,
        }
    }

    /// Whether evaluating this condition needs the user's mastery statistics.
    pub fn needs_mastery(&self) -> (r: bool)
        ensures
            r == (*self matches RoleCondition::MasteryLevel(_) || *self
                matches RoleCondition::TotalMasteryLevel(_) || *self
                matches RoleCondition::MasteryScore(_) || *self
                matches RoleCondition::TotalMasteryScore(_)),
    {
        match self {
            RoleCondition::MasteryLevel(_) => true,
            RoleCondition::TotalMasteryLevel(_) => true,
            RoleCondition::MasteryScore(_) => true,
            RoleCondition::TotalMasteryScore(_) => true,
            _ => false,
        }
    }

    /// Evaluate this condition on the given context.
    pub fn evaluate(&self, ctx: &EvaluationContext) -> (r: bool)
        requires
            ctx_wf(*ctx),
        ensures
            r == spec_cond_sat(*self, *ctx),
    {
        match self {
            RoleCondition::MasteryLevel(x) => x.evaluate(ctx),
            RoleCondition::TotalMasteryLevel(x) => x.evaluate(ctx),
            RoleCondition::MasteryScore(x) => x.evaluate(ctx),
            RoleCondition::TotalMasteryScore(x) => x.evaluate(ctx),
            RoleCondition::RankedTier(x) => x.evaluate(ctx),
            RoleCondition::Server(x) => x.evaluate(ctx),
        }
    }
}

impl Role {
    /// Whether this role applies: counts the conditions that accept and
    /// applies the role's combinator to the count.
    pub fn evaluate(&self, conditions: &Vec<RoleConditionWithId>, ctx: &EvaluationContext) -> (r:
        bool)
        requires
            ctx_wf(*ctx),
        ensures
            r == spec_role_applies(self.combinator, conditions@, *ctx),
    {
        let n: usize = conditions.len();
        let mut matching: usize = 0;
        let mut i: usize = 0;
        while i < n
            invariant
                ctx_wf(*ctx),
                n == conditions@.len(),
                0 <= i <= n,
                matching <= i,
                matching as int == spec_count_matching(conditions@.take(i as int), *ctx),
            decreases n - i,
        {
            proof {
                assert(conditions@.take(i as int + 1).drop_last() =~= conditions@.take(i as int));
                assert(conditions@.take(i as int + 1).last() == conditions@[i as int]);
            }
            if conditions[i].condition.evaluate(ctx) {
                matching = matching + 1;
            }
            i = i + 1;
        }
        proof {
            assert(conditions@.take(n as int) =~= conditions@);
        }
        match self.combinator {
            RoleCombinator::All => matching == n,
            RoleCombinator::Any => matching > 0,
            RoleCombinator::AtLeast { amount } => {
                if amount <= 0 {
                    true
                } else {
                    matching >= amount as usize
                }
            },
        }
    }
}

/// A user with no rank rows who is not marked `treat_as_unranked` satisfies a
/// ranked-tier condition exactly when its comparison is `Equal(0)`.
pub proof fn lemma_unranked_matches_only_equal_zero(
    cond: RankedTierCondition,
    ctx: EvaluationContext,
)
    requires
        ctx.ranks@.len() == 0,
        !ctx.user.treat_as_unranked,
    ensures
        spec_ranked_tier_sat(cond, ctx) <==> cond.compare == RankedTierCompare::Equal(0i32),
{
}

} // verus!
