use shockwave::db_model::{LeagueAccount, Role, User, UserChampionStat, UserRank};
use shockwave::evaluate::{tier_to_numeric, EvaluationContext};
use shockwave::role_model::{
    MasteryLevelCondition, MasteryScoreCondition, RangeCondition, RankedTierCompare,
    RankedTierCondition, RankedTierQueue, RoleCombinator, RoleCondition, RoleConditionWithId,
    ServerCondition, TotalMasteryLevelCondition, TotalMasteryScoreCondition,
};

fn user(treat_as_unranked: bool) -> User {
    User {
        id: 1,
        snowflake: "100".to_string(),
        username: "orianna".to_string(),
        last_score_update_timestamp: 0,
        last_rank_update_timestamp: 0,
        last_account_update_timestamp: 0,
        treat_as_unranked,
        ignore: false,
        has_accounts: true,
    }
}

fn account(region: &str, include_region: bool, primary: bool) -> LeagueAccount {
    LeagueAccount {
        id: 1,
        user_id: 1,
        username: "player".to_string(),
        region: region.to_string(),
        summoner_id: "s".to_string(),
        account_id: "a".to_string(),
        puuid: "p".to_string(),
        tft_summoner_id: "ts".to_string(),
        tft_account_id: "ta".to_string(),
        riot_id_game_name: None,
        riot_id_tagline: None,
        primary,
        include_region,
    }
}

fn stat(champion_id: i32, level: i32, score: i32) -> UserChampionStat {
    UserChampionStat { id: 0, user_id: 1, champion_id, level, score }
}

fn rank(queue: &str, tier: &str) -> UserRank {
    UserRank { id: 0, user_id: 1, queue: queue.to_string(), tier: tier.to_string() }
}

fn ctx(stats: Vec<UserChampionStat>, ranks: Vec<UserRank>) -> EvaluationContext {
    EvaluationContext { user: user(false), accounts: vec![], stats, ranks }
}

#[test]
fn tier_ordinals() {
    assert_eq!(tier_to_numeric("IRON"), 1);
    assert_eq!(tier_to_numeric("GOLD"), 4);
    assert_eq!(tier_to_numeric("CHALLENGER"), 9);
    assert_eq!(tier_to_numeric("WOOD"), -1);
    assert_eq!(tier_to_numeric("gold"), -1);
}

#[test]
fn range_conditions() {
    assert!(RangeCondition::AtLeast { value: 3 }.evaluate(3));
    assert!(!RangeCondition::AtLeast { value: 3 }.evaluate(2));
    assert!(RangeCondition::AtMost { value: 3 }.evaluate(3));
    assert!(!RangeCondition::AtMost { value: 3 }.evaluate(4));
    assert!(RangeCondition::Between { min: 2, max: 4 }.evaluate(3));
    assert!(!RangeCondition::Between { min: 2, max: 4 }.evaluate(5));
    assert!(RangeCondition::Exactly { value: 7 }.evaluate(7));
    assert!(!RangeCondition::Exactly { value: 7 }.evaluate(8));
}

#[test]
fn mastery_conditions_use_defaults() {
    let c = ctx(vec![stat(42, 5, 1000), stat(7, 7, 2500)], vec![]);
    let by_level = MasteryLevelCondition { range: RangeCondition::AtLeast { value: 5 }, champion: 42 };
    assert!(by_level.evaluate(&c));
    let missing = MasteryLevelCondition { range: RangeCondition::Exactly { value: 0 }, champion: 99 };
    assert!(missing.evaluate(&c));
    let by_score = MasteryScoreCondition { range: RangeCondition::Between { min: 900, max: 1100 }, champion: 42 };
    assert!(by_score.evaluate(&c));
    let total_level = TotalMasteryLevelCondition { range: RangeCondition::Exactly { value: 12 } };
    assert!(total_level.evaluate(&c));
    let total_score = TotalMasteryScoreCondition { range: RangeCondition::Exactly { value: 3500 } };
    assert!(total_score.evaluate(&c));
}

#[test]
fn unranked_matches_only_equal_zero() {
    // a user with no rank rows matches a ranked-tier condition exactly when
    // the comparison is Equal(0), whichever queue selector is used
    let c = ctx(vec![], vec![]);
    for queue in [
        RankedTierQueue::Any,
        RankedTierQueue::HighestExcludingTFT,
        RankedTierQueue::HighestIncludingTFT,
        RankedTierQueue::NamedQueue("RANKED_SOLO_5x5".to_string()),
    ] {
        let eq0 = RankedTierCondition { compare: RankedTierCompare::Equal(0), queue };
        assert!(eq0.evaluate(&c));
    }
    for queue in [
        RankedTierQueue::Any,
        RankedTierQueue::HighestExcludingTFT,
        RankedTierQueue::HighestIncludingTFT,
        RankedTierQueue::NamedQueue("RANKED_SOLO_5x5".to_string()),
    ] {
        let higher = RankedTierCondition { compare: RankedTierCompare::Higher(0), queue };
        assert!(!higher.evaluate(&c));
    }
}

#[test]
fn treat_as_unranked_overrides_ranks() {
    let mut c = ctx(vec![], vec![rank("RANKED_SOLO_5x5", "GOLD")]);
    c.user = user(true);
    let higher = RankedTierCondition {
        compare: RankedTierCompare::Higher(1),
        queue: RankedTierQueue::Any,
    };
    assert!(!higher.evaluate(&c));
    let eq0 = RankedTierCondition {
        compare: RankedTierCompare::Equal(0),
        queue: RankedTierQueue::Any,
    };
    assert!(eq0.evaluate(&c));
}

#[test]
fn highest_queue_selection() {
    let c = ctx(
        vec![],
        vec![rank("RANKED_SOLO_5x5", "SILVER"), rank("RANKED_TFT", "DIAMOND")],
    );
    // counting TFT the best tier is DIAMOND (6); without TFT it is SILVER (3)
    let with_tft = RankedTierCondition {
        compare: RankedTierCompare::Equal(6),
        queue: RankedTierQueue::HighestIncludingTFT,
    };
    assert!(with_tft.evaluate(&c));
    let without_tft = RankedTierCondition {
        compare: RankedTierCompare::Equal(3),
        queue: RankedTierQueue::HighestExcludingTFT,
    };
    assert!(without_tft.evaluate(&c));
    let named = RankedTierCondition {
        compare: RankedTierCompare::Lower(4),
        queue: RankedTierQueue::NamedQueue("RANKED_SOLO_5x5".to_string()),
    };
    assert!(named.evaluate(&c));
}

#[test]
fn server_condition_needs_opted_in_region() {
    let mut c = ctx(vec![], vec![]);
    c.accounts = vec![account("euw", true, true), account("na", false, false)];
    assert!(RoleCondition::Server(ServerCondition { region: "euw".to_string() }).evaluate(&c));
    // the matching account must have opted into region checks
    assert!(!RoleCondition::Server(ServerCondition { region: "na".to_string() }).evaluate(&c));
}

#[test]
fn needs_flags() {
    let server = RoleCondition::Server(ServerCondition { region: "euw".to_string() });
    assert!(server.needs_accounts());
    assert!(!server.needs_mastery());
    assert!(!server.needs_ranked_tiers());
    let ranked = RoleCondition::RankedTier(RankedTierCondition {
        compare: RankedTierCompare::Equal(0),
        queue: RankedTierQueue::Any,
    });
    assert!(ranked.needs_ranked_tiers());
    let mastery = RoleCondition::TotalMasteryScore(TotalMasteryScoreCondition {
        range: RangeCondition::AtLeast { value: 1 },
    });
    assert!(mastery.needs_mastery());
}

fn role(combinator: RoleCombinator) -> Role {
    Role {
        id: 5,
        name: "the ball".to_string(),
        snowflake: "1234".to_string(),
        announce: false,
        combinator,
    }
}

fn cond(condition: RoleCondition) -> RoleConditionWithId {
    RoleConditionWithId { id: 1, role_id: 5, condition }
}

#[test]
fn combinators_count_matches() {
    let c = ctx(vec![stat(42, 5, 1000)], vec![]);
    let passing = cond(RoleCondition::MasteryLevel(MasteryLevelCondition {
        range: RangeCondition::AtLeast { value: 5 },
        champion: 42,
    }));
    let failing = cond(RoleCondition::MasteryLevel(MasteryLevelCondition {
        range: RangeCondition::AtLeast { value: 6 },
        champion: 42,
    }));
    let passing2 = cond(RoleCondition::MasteryScore(MasteryScoreCondition {
        range: RangeCondition::AtLeast { value: 1 },
        champion: 42,
    }));

    let both = vec![
        cond(RoleCondition::MasteryLevel(MasteryLevelCondition {
            range: RangeCondition::AtLeast { value: 5 },
            champion: 42,
        })),
        passing2,
    ];
    assert!(role(RoleCombinator::All).evaluate(&both, &c));
    let mixed = vec![passing, failing];
    assert!(!role(RoleCombinator::All).evaluate(&mixed, &c));
    assert!(role(RoleCombinator::Any).evaluate(&mixed, &c));
    assert!(role(RoleCombinator::AtLeast { amount: 1 }.clone()).evaluate(&mixed, &c));
    assert!(!role(RoleCombinator::AtLeast { amount: 2 }).evaluate(&mixed, &c));
    let none: Vec<RoleConditionWithId> = vec![];
    assert!(role(RoleCombinator::All).evaluate(&none, &c));
    assert!(!role(RoleCombinator::Any).evaluate(&none, &c));
}
