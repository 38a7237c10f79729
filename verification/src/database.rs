use vstd::prelude::*;

use crate::db_model::{LeagueAccount, User, UserChampionStat, UserRank};
use crate::evaluate::EvaluationContext;

verus! {

/// A copy of one account row, field by field.
fn clone_account(a: &LeagueAccount) -> (r: LeagueAccount)
    ensures
        r == *a,
{
    LeagueAccount {
        id: a.id,
        user_id: a.user_id,
        username: a.username.clone(),
        region: a.region.clone(),
        summoner_id: a.summoner_id.clone(),
        account_id: a.account_id.clone(),
        puuid: a.puuid.clone(),
        tft_summoner_id: a.tft_summoner_id.clone(),
        tft_account_id: a.tft_account_id.clone(),
        riot_id_game_name: match &a.riot_id_game_name {
            Some(x) => Some(x.clone()),
            None => None,
        },
        riot_id_tagline: match &a.riot_id_tagline {
            Some(x) => Some(x.clone()),
            None => None,
        },
        primary: a.primary,
        include_region: a.include_region,
    }
}

/// The account rows that belong to one user, in their stored order.
fn accounts_of_user(accounts: &Vec<LeagueAccount>, id: i32) -> (r: Vec<LeagueAccount>)
    ensures
        r@ == accounts@.filter(|a: LeagueAccount| a.user_id == id),
{
    let ghost pred = |a: LeagueAccount| a.user_id == id;
    let n: usize = accounts.len();
    let mut out: Vec<LeagueAccount> = Vec::new();
    let mut k: usize = 0;
    proof {
        reveal(Seq::filter);
        assert(accounts@.take(0) =~= Seq::<LeagueAccount>::empty());
        assert(out@ =~= accounts@.take(0).filter(pred));
    }
    while k < n
        invariant
            n == accounts@.len(),
            0 <= k <= n,
            pred == (|a: LeagueAccount| a.user_id == id),
            out@ == accounts@.take(k as int).filter(pred),
        decreases n - k,
    {
        proof {
            reveal(Seq::filter);
            assert(accounts@.take(k as int + 1).drop_last() =~= accounts@.take(k as int));
            assert(accounts@.take(k as int + 1).last() == accounts@[k as int]);
        }
        if accounts[k].user_id == id {
            let row = clone_account(&accounts[k]);
            out.push(row);
        }
        k = k + 1;
    }
    proof {
        assert(accounts@.take(n as int) =~= accounts@);
    }
    out
}

/// The rank rows that belong to one user, in their stored order.
fn ranks_of_user(ranks: &Vec<UserRank>, id: i32) -> (r: Vec<UserRank>)
    ensures
        r@ == ranks@.filter(|x: UserRank| x.user_id == id),
{
    let ghost pred = |x: UserRank| x.user_id == id;
    let n: usize = ranks.len();
    let mut out: Vec<UserRank> = Vec::new();
    let mut k: usize = 0;
    proof {
        reveal(Seq::filter);
        assert(ranks@.take(0) =~= Seq::<UserRank>::empty());
        assert(out@ =~= ranks@.take(0).filter(pred));
    }
    while k < n
        invariant
            n == ranks@.len(),
            0 <= k <= n,
            pred == (|x: UserRank| x.user_id == id),
            out@ == ranks@.take(k as int).filter(pred),
        decreases n - k,
    {
        proof {
            reveal(Seq::filter);
            assert(ranks@.take(k as int + 1).drop_last() =~= ranks@.take(k as int));
            assert(ranks@.take(k as int + 1).last() == ranks@[k as int]);
        }
        if ranks[k].user_id == id {
            let row = UserRank {
                id: ranks[k].id,
                user_id: ranks[k].user_id,
                queue: ranks[k].queue.clone(),
                tier: ranks[k].tier.clone(),
            };
            proof {
                assert(row == ranks@[k as int]);
            }
            out.push(row);
        }
        k = k + 1;
    }
    proof {
        assert(ranks@.take(n as int) =~= ranks@);
    }
    out
}

/// The stats rows that belong to one user, in their stored order.
fn stats_of_user(stats: &Vec<UserChampionStat>, id: i32) -> (r: Vec<UserChampionStat>)
    ensures
        r@ == stats@.filter(|s: UserChampionStat| s.user_id == id),
{
    let ghost pred = |s: UserChampionStat| s.user_id == id;
    let n: usize = stats.len();
    let mut out: Vec<UserChampionStat> = Vec::new();
    let mut k: usize = 0;
    proof {
        reveal(Seq::filter);
        assert(stats@.take(0) =~= Seq::<UserChampionStat>::empty());
        assert(out@ =~= stats@.take(0).filter(pred));
    }
    while k < n
        invariant
            n == stats@.len(),
            0 <= k <= n,
            pred == (|s: UserChampionStat| s.user_id == id),
            out@ == stats@.take(k as int).filter(pred),
        decreases n - k,
    {
        proof {
            reveal(Seq::filter);
            assert(stats@.take(k as int + 1).drop_last() =~= stats@.take(k as int));
            assert(stats@.take(k as int + 1).last() == stats@[k as int]);
        }
        if stats[k].user_id == id {
            let row = UserChampionStat {
                id: stats[k].id,
                user_id: stats[k].user_id,
                champion_id: stats[k].champion_id,
                level: stats[k].level,
                score: stats[k].score,
            };
            out.push(row);
        }
        k = k + 1;
    }
    proof {
        assert(stats@.take(n as int) =~= stats@);
    }
    out
}

/// The in-memory join behind a batch context query: each user is paired
/// with exactly the account, rank and stats rows that carry that user's id.
pub fn group_evaluation_contexts(
    users: Vec<User>,
    accounts: &Vec<LeagueAccount>,
    ranks: &Vec<UserRank>,
    stats: &Vec<UserChampionStat>,
) -> (r: Vec<EvaluationContext>)
    ensures
        r@.len() == users@.len(),
        forall|j: int|
            0 <= j < r@.len() ==> (#[trigger] r@[j]).user == users@[j],
        forall|j: int|
            0 <= j < r@.len() ==> (#[trigger] r@[j]).accounts@ == accounts@.filter(
                |a: LeagueAccount| a.user_id == users@[j].id,
            ),
        forall|j: int|
            0 <= j < r@.len() ==> (#[trigger] r@[j]).ranks@ == ranks@.filter(
                |x: UserRank| x.user_id == users@[j].id,
            ),
        forall|j: int|
            0 <= j < r@.len() ==> (#[trigger] r@[j]).stats@ == stats@.filter(
                |s: UserChampionStat| s.user_id == users@[j].id,
            ),
{
    let ghost orig_users = users@;
    let mut remaining = users;
    let mut out: Vec<EvaluationContext> = Vec::new();
    let ghost mut i: int = 0;
    proof {
        assert(remaining@ =~= orig_users.skip(0));
    }
    while remaining.len() > 0
        invariant
            0 <= i <= orig_users.len(),
            remaining@ == orig_users.skip(i),
            out@.len() == i,
            forall|j: int|
                0 <= j < out@.len() ==> (#[trigger] out@[j]).user == orig_users[j],
            forall|j: int|
                0 <= j < out@.len() ==> (#[trigger] out@[j]).accounts@ == accounts@.filter(
                    |a: LeagueAccount| a.user_id == orig_users[j].id,
                ),
            forall|j: int|
                0 <= j < out@.len() ==> (#[trigger] out@[j]).ranks@ == ranks@.filter(
                    |x: UserRank| x.user_id == orig_users[j].id,
                ),
            forall|j: int|
                0 <= j < out@.len() ==> (#[trigger] out@[j]).stats@ == stats@.filter(
                    |s: UserChampionStat| s.user_id == orig_users[j].id,
                ),
        decreases remaining@.len(),
    {
        proof {
            assert(remaining@[0] == orig_users[i]);
        }
        let user: User = remaining.remove(0);
        proof {
            assert(remaining@ =~= orig_users.skip(i + 1));
        }
        let id: i32 = user.id;
        let ctx = EvaluationContext {
            accounts: accounts_of_user(accounts, id),
            ranks: ranks_of_user(ranks, id),
            stats: stats_of_user(stats, id),
            user,
        };
        let ghost prev = out@;
        out.push(ctx);
        proof {
            assert(out@.drop_last() =~= prev);
            assert(forall|j: int| 0 <= j < prev.len() ==> #[trigger] out@[j] == prev[j]);
            assert(out@.last().user == orig_users[i]);
            i = i + 1;
        }
    }
    proof {
        assert(orig_users.skip(i) =~= remaining@);
        assert(i == orig_users.len());
    }
    out
}

/// A copy of one condition row, field by field.
fn clone_condition_row(c: &crate::role_model::RoleConditionWithId) -> (r:
    crate::role_model::RoleConditionWithId)
    ensures
        r == *c,
{
    let condition = match &c.condition {
        crate::role_model::RoleCondition::MasteryLevel(x) => {
            crate::role_model::RoleCondition::MasteryLevel(
                crate::role_model::MasteryLevelCondition { range: x.range, champion: x.champion },
            )
        },
        crate::role_model::RoleCondition::TotalMasteryLevel(x) => {
            crate::role_model::RoleCondition::TotalMasteryLevel(
                crate::role_model::TotalMasteryLevelCondition { range: x.range },
            )
        },
        crate::role_model::RoleCondition::MasteryScore(x) => {
            crate::role_model::RoleCondition::MasteryScore(
                crate::role_model::MasteryScoreCondition { range: x.range, champion: x.champion },
            )
        },
        crate::role_model::RoleCondition::TotalMasteryScore(x) => {
            crate::role_model::RoleCondition::TotalMasteryScore(
                crate::role_model::TotalMasteryScoreCondition { range: x.range },
            )
        },
        crate::role_model::RoleCondition::RankedTier(x) => {
            crate::role_model::RoleCondition::RankedTier(
                crate::role_model::RankedTierCondition {
                    compare: x.compare,
                    queue: match &x.queue {
                        crate::role_model::RankedTierQueue::Any => {
                            crate::role_model::RankedTierQueue::Any
                        },
                        crate::role_model::RankedTierQueue::HighestExcludingTFT => {
                            crate::role_model::RankedTierQueue::HighestExcludingTFT
                        },
                        crate::role_model::RankedTierQueue::HighestIncludingTFT => {
                            crate::role_model::RankedTierQueue::HighestIncludingTFT
                        },
                        crate::role_model::RankedTierQueue::NamedQueue(q) => {
                            crate::role_model::RankedTierQueue::NamedQueue(q.clone())
                        },
                    },
                },
            )
        },
        crate::role_model::RoleCondition::Server(x) => {
            crate::role_model::RoleCondition::Server(
                crate::role_model::ServerCondition { region: x.region.clone() },
            )
        },
    };
    crate::role_model::RoleConditionWithId { id: c.id, role_id: c.role_id, condition }
}

/// The condition rows configured for one role, in their stored order.
fn conditions_of_role(
    conditions: &Vec<crate::role_model::RoleConditionWithId>,
    role_id: i32,
) -> (r: Vec<crate::role_model::RoleConditionWithId>)
    ensures
        r@ == conditions@.filter(
            |c: crate::role_model::RoleConditionWithId| c.role_id == role_id,
        ),
{
    let ghost pred = |c: crate::role_model::RoleConditionWithId| c.role_id == role_id;
    let n: usize = conditions.len();
    let mut out: Vec<crate::role_model::RoleConditionWithId> = Vec::new();
    let mut k: usize = 0;
    proof {
        reveal(Seq::filter);
        assert(conditions@.take(0) =~= Seq::<crate::role_model::RoleConditionWithId>::empty());
        assert(out@ =~= conditions@.take(0).filter(pred));
    }
    while k < n
        invariant
            n == conditions@.len(),
            0 <= k <= n,
            pred == (|c: crate::role_model::RoleConditionWithId| c.role_id == role_id),
            out@ == conditions@.take(k as int).filter(pred),
        decreases n - k,
    {
        proof {
            reveal(Seq::filter);
            assert(conditions@.take(k as int + 1).drop_last() =~= conditions@.take(k as int));
            assert(conditions@.take(k as int + 1).last() == conditions@[k as int]);
        }
        if conditions[k].role_id == role_id {
            let row = clone_condition_row(&conditions[k]);
            out.push(row);
        }
        k = k + 1;
    }
    proof {
        assert(conditions@.take(n as int) =~= conditions@);
    }
    out
}

/// Whether the pair's role is one of the given roles.
pub open spec fn pair_is_from_roles(
    p: (crate::db_model::Role, Vec<crate::role_model::RoleConditionWithId>),
    roles: Seq<crate::db_model::Role>,
) -> bool {
    exists|k: int| 0 <= k < roles.len() && p.0 == #[trigger] roles[k]
}

/// Pairs each role with the condition rows that carry its id, dropping
/// roles that have none: a role without conditions is never evaluated.
#[verifier::rlimit(100)]
pub fn group_roles_with_conditions(
    roles: Vec<crate::db_model::Role>,
    conditions: &Vec<crate::role_model::RoleConditionWithId>,
) -> (r: Vec<(crate::db_model::Role, Vec<crate::role_model::RoleConditionWithId>)>)
    requires
        forall|x: int, y: int|
            0 <= x < y < roles@.len() ==> (#[trigger] roles@[x]).id != (#[trigger] roles@[y]).id,
    ensures
        forall|j: int|
            0 <= j < r@.len() ==> {
                let p = #[trigger] r@[j];
                p.1@ == conditions@.filter(
                    |c: crate::role_model::RoleConditionWithId| c.role_id == p.0.id,
                ) && p.1@.len() > 0
            },
        forall|j: int| 0 <= j < r@.len() ==> pair_is_from_roles(#[trigger] r@[j], roles@),
        forall|k: int|
            0 <= k < roles@.len() && conditions@.filter(
                |c: crate::role_model::RoleConditionWithId| c.role_id == (#[trigger] roles@[k]).id,
            ).len() > 0 ==> exists|j: int|
                0 <= j < r@.len() && (#[trigger] r@[j]).0.id == roles@[k].id,
{
    let ghost orig_roles = roles@;
    let mut remaining = roles;
    let mut out: Vec<(crate::db_model::Role, Vec<crate::role_model::RoleConditionWithId>)> =
        Vec::new();
    let ghost mut i: int = 0;
    let ghost mut src: Seq<int> = Seq::empty();
    proof {
        assert(remaining@ =~= orig_roles.skip(0));
    }
    while remaining.len() > 0
        invariant
            0 <= i <= orig_roles.len(),
            remaining@ == orig_roles.skip(i),
            src.len() == out@.len(),
            forall|j: int| 0 <= j < out@.len() ==> 0 <= #[trigger] src[j] < i,
            forall|j: int| 0 <= j < out@.len() ==> (#[trigger] out@[j]).0 == orig_roles[src[j]],
            forall|j: int|
                0 <= j < out@.len() ==> {
                    let p = #[trigger] out@[j];
                    p.1@ == conditions@.filter(
                        |c: crate::role_model::RoleConditionWithId| c.role_id == p.0.id,
                    ) && p.1@.len() > 0
                },
            forall|k: int|
                0 <= k < i && conditions@.filter(
                    |c: crate::role_model::RoleConditionWithId| c.role_id == (
                    #[trigger] orig_roles[k]).id,
                ).len() > 0 ==> exists|j: int|
                    0 <= j < out@.len() && (#[trigger] out@[j]).0.id == orig_roles[k].id,
        decreases remaining@.len(),
    {
        proof {
            assert(remaining@[0] == orig_roles[i]);
        }
        let role: crate::db_model::Role = remaining.remove(0);
        proof {
            assert(remaining@ =~= orig_roles.skip(i + 1));
        }
        let role_id: i32 = role.id;
        let matching = conditions_of_role(conditions, role_id);
        if matching.len() > 0 {
            let ghost prev = out@;
            out.push((role, matching));
            proof {
                src = src.push(i);
                assert(out@.drop_last() =~= prev);
                assert(forall|j: int| 0 <= j < prev.len() ==> #[trigger] out@[j] == prev[j]);
                assert(out@.last().0 == orig_roles[i]);
                assert forall|k: int|
                    0 <= k < i + 1 && conditions@.filter(
                        |c: crate::role_model::RoleConditionWithId| c.role_id == (
                        #[trigger] orig_roles[k]).id,
                    ).len() > 0 implies exists|j: int|
                    0 <= j < out@.len() && (#[trigger] out@[j]).0.id == orig_roles[k].id by {
                    if k < i {
                        let j = choose|j: int|
                            0 <= j < prev.len() && (#[trigger] prev[j]).0.id == orig_roles[k].id;
                        assert(out@[j].0.id == orig_roles[k].id);
                    } else {
                        assert(out@[out@.len() - 1].0.id == orig_roles[k].id);
                    }
                }
                i = i + 1;
            }
        } else {
            proof {
                assert forall|k: int|
                    0 <= k < i + 1 && conditions@.filter(
                        |c: crate::role_model::RoleConditionWithId| c.role_id == (
                        #[trigger] orig_roles[k]).id,
                    ).len() > 0 implies exists|j: int|
                    0 <= j < out@.len() && (#[trigger] out@[j]).0.id == orig_roles[k].id by {
                    if k < i {
                        let j = choose|j: int|
                            0 <= j < out@.len() && (#[trigger] out@[j]).0.id == orig_roles[k].id;
                    } else {
                        assert(conditions@.filter(
                            |c: crate::role_model::RoleConditionWithId| c.role_id == orig_roles[
                                k
                            ].id,
                        ).len() == 0);
                    }
                }
                i = i + 1;
            }
        }
    }
    proof {
        assert(orig_roles.skip(i) =~= remaining@);
        assert(i == orig_roles.len());
        assert forall|j: int|
            0 <= j < out@.len() implies pair_is_from_roles(#[trigger] out@[j], orig_roles) by {
            assert(0 <= src[j] < orig_roles.len() && out@[j].0 == orig_roles[src[j]]);
        }
    }
    out
}

/// One queued leaderboard statement: an upsert of a user's row on one
/// leaderboard, or the removal of a user's row from one leaderboard. The
/// leaderboard is named by a champion id in decimal, or `"all"`.
pub enum LeaderboardOp {
    Upsert { user_id: i32, leaderboard_id: String, champion_id: i32, level: i32, score: i32 },
    Remove { user_id: i32, leaderboard_id: String },
}

/// Collects leaderboard statements so that they can be issued to the
/// database as one batch.
pub struct BatchQueryBuilder {
    pub ops: Vec<LeaderboardOp>,
}

impl BatchQueryBuilder {
    /// An empty batch.
    pub fn new() -> (r: BatchQueryBuilder)
        ensures
            r.ops@ =~= Seq::<LeaderboardOp>::empty(),
    {
        BatchQueryBuilder { ops: Vec::new() }
    }

    /// Queue an upsert of the given user's entry on the given leaderboard;
    /// the statistic is `(champion id, level, score)`.
    pub fn upsert_user_in_leaderboard(
        &mut self,
        user_id: i32,
        leaderboard_id: String,
        stat: (i32, i32, i32),
    )
        ensures
            final(self).ops@.len() == old(self).ops@.len() + 1,
            final(self).ops@.drop_last() =~= old(self).ops@,
            (final(self).ops@.last() matches LeaderboardOp::Upsert {
                user_id: u,
                leaderboard_id: l,
                champion_id: c,
                level,
                score,
            } && u == user_id && l@ == leaderboard_id@ && c == stat.0 && level == stat.1 && score
                == stat.2),
    {
        let op = LeaderboardOp::Upsert {
            user_id,
            leaderboard_id,
            champion_id: stat.0,
            level: stat.1,
            score: stat.2,
        };
        self.ops.push(op);
        proof {
            assert(self.ops@.drop_last() =~= old(self).ops@);
        }
    }

    /// Queue the removal of the given user's entry from the given
    /// leaderboard, if the user has one there.
    pub fn remove_user_from_leaderboard(&mut self, user_id: i32, leaderboard_id: &str)
        ensures
            final(self).ops@.len() == old(self).ops@.len() + 1,
            final(self).ops@.drop_last() =~= old(self).ops@,
            (final(self).ops@.last() matches LeaderboardOp::Remove { user_id: u, leaderboard_id: l }
                && u == user_id && l@ == leaderboard_id@),
    {
        let op = LeaderboardOp::Remove { user_id, leaderboard_id: leaderboard_id.to_owned() };
        self.ops.push(op);
        proof {
            assert(self.ops@.drop_last() =~= old(self).ops@);
        }
    }
}

} // verus!
