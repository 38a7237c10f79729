use shockwave::database::LeaderboardOp;
use shockwave::db_model::UserChampionStat;
use shockwave::fetch::{
    account_action, leaderboard_batch, mastery_plan, merge_masteries, remove_account_rows,
    riot_id_changed, AccountAction, MasteryEntry, SummonerLookup,
};

fn stat(champion_id: i32, level: i32, score: i32) -> UserChampionStat {
    UserChampionStat { id: 0, user_id: 1, champion_id, level, score }
}

fn entry(champion_id: i32, champion_level: i32, champion_points: i32) -> MasteryEntry {
    MasteryEntry { champion_id, champion_level, champion_points }
}

#[test]
fn merge_takes_best_level_and_sums_scores() {
    // the same champion on two accounts: levels keep the maximum, scores add
    let merged = merge_masteries(&vec![entry(42, 5, 1000), entry(42, 7, 500), entry(7, 1, 10)]);
    assert_eq!(merged, vec![(42, (7, 1500)), (7, (1, 10))]);
}

#[test]
fn mastery_plan_diffs_stats() {
    // champion 1 is gone, champion 2 changed, champion 3 is unchanged,
    // champion 4 is new
    let old = vec![stat(1, 2, 200), stat(2, 3, 300), stat(3, 4, 400)];
    let entries = vec![entry(2, 3, 350), entry(3, 4, 400), entry(4, 1, 50)];
    let plan = mastery_plan(&old, &entries);

    assert_eq!(plan.removals, vec![1]);
    let mut upserts = plan.upserts.clone();
    upserts.sort();
    assert_eq!(upserts, vec![(2, 3, 350), (4, 1, 50)]);
    assert_eq!(plan.deltas, vec![(2, 350, 50)]);
    assert!(!plan.remove_all_leaderboard);
    // 350 is below the previous best of 400, so the overall row stays
    assert_eq!(plan.all_leaderboard_upsert, None);
}

#[test]
fn mastery_plan_emits_negative_delta() {
    let old = vec![stat(2, 3, 300)];
    let entries = vec![entry(2, 3, 250)];
    let plan = mastery_plan(&old, &entries);
    assert_eq!(plan.deltas, vec![(2, 250, -50)]);
}

#[test]
fn mastery_plan_unchanged_rows_write_nothing() {
    let old = vec![stat(2, 3, 300)];
    let entries = vec![entry(2, 3, 300)];
    let plan = mastery_plan(&old, &entries);
    assert!(plan.removals.is_empty());
    assert!(plan.upserts.is_empty());
    assert!(plan.deltas.is_empty());
    assert_eq!(plan.all_leaderboard_upsert, None);
}

#[test]
fn mastery_plan_clears_all_leaderboard_when_stats_vanish() {
    let old = vec![stat(2, 3, 300)];
    let entries: Vec<MasteryEntry> = vec![];
    let plan = mastery_plan(&old, &entries);
    assert!(plan.remove_all_leaderboard);
    assert_eq!(plan.removals, vec![2]);
}

#[test]
fn mastery_plan_updates_all_leaderboard_on_new_best() {
    let old = vec![stat(2, 3, 300)];
    let entries = vec![entry(2, 4, 500)];
    let plan = mastery_plan(&old, &entries);
    assert_eq!(plan.all_leaderboard_upsert, Some((2, 4, 500)));
}

#[test]
fn leaderboard_batch_orders_statements() {
    let old = vec![stat(1, 2, 200), stat(2, 3, 300)];
    let entries = vec![entry(2, 4, 500)];
    let plan = mastery_plan(&old, &entries);
    let batch = leaderboard_batch(&plan, 9);
    // one removal for the vanished champion, one upsert for the changed one,
    // and the overall upsert last
    assert_eq!(batch.ops.len(), 3);
    match &batch.ops[0] {
        LeaderboardOp::Remove { user_id, leaderboard_id } => {
            assert_eq!(*user_id, 9);
            assert_eq!(leaderboard_id, "1");
        },
        _ => panic!("expected a removal first"),
    }
    match &batch.ops[1] {
        LeaderboardOp::Upsert { user_id, leaderboard_id, champion_id, level, score } => {
            assert_eq!(*user_id, 9);
            assert_eq!(leaderboard_id, "2");
            assert_eq!((*champion_id, *level, *score), (2, 4, 500));
        },
        _ => panic!("expected an upsert second"),
    }
    match &batch.ops[2] {
        LeaderboardOp::Upsert { leaderboard_id, champion_id, .. } => {
            assert_eq!(leaderboard_id, "all");
            assert_eq!(*champion_id, 2);
        },
        _ => panic!("expected the overall upsert last"),
    }
}

#[test]
fn account_transfer_is_detected() {
    // a definite not-found answer removes the account and notifies; an
    // upstream failure leaves everything alone
    assert!(matches!(account_action(&SummonerLookup::NotFound), AccountAction::RemoveAndNotify));
    assert!(matches!(account_action(&SummonerLookup::Failed), AccountAction::Skip));
    assert!(matches!(account_action(&SummonerLookup::Found), AccountAction::Keep));
}

#[test]
fn removing_last_account_recomputes_has_accounts() {
    let account = shockwave::db_model::LeagueAccount {
        id: 4,
        user_id: 1,
        username: "player".to_string(),
        region: "euw".to_string(),
        summoner_id: "s".to_string(),
        account_id: "a".to_string(),
        puuid: "p".to_string(),
        tft_summoner_id: "ts".to_string(),
        tft_account_id: "ta".to_string(),
        riot_id_game_name: None,
        riot_id_tagline: None,
        primary: true,
        include_region: true,
    };
    let (remaining, has_accounts) = remove_account_rows(vec![account], 4);
    assert!(remaining.is_empty());
    assert!(!has_accounts);
}

#[test]
fn riot_id_change_detection() {
    let old_name = Some("Old".to_string());
    let old_tag = Some("TAG".to_string());
    assert!(!riot_id_changed(&old_name, &old_tag, &Some("Old".to_string()), &Some("TAG".to_string())));
    assert!(riot_id_changed(&old_name, &old_tag, &Some("New".to_string()), &Some("TAG".to_string())));
    assert!(riot_id_changed(&old_name, &old_tag, &Some("Old".to_string()), &None));
}

#[test]
fn batch_contexts_group_rows_per_user() {
    let users = vec![
        shockwave::db_model::User {
            id: 1,
            snowflake: "100".to_string(),
            username: "one".to_string(),
            last_score_update_timestamp: 0,
            last_rank_update_timestamp: 0,
            last_account_update_timestamp: 0,
            treat_as_unranked: false,
            ignore: false,
            has_accounts: true,
        },
        shockwave::db_model::User {
            id: 2,
            snowflake: "200".to_string(),
            username: "two".to_string(),
            last_score_update_timestamp: 0,
            last_rank_update_timestamp: 0,
            last_account_update_timestamp: 0,
            treat_as_unranked: false,
            ignore: false,
            has_accounts: true,
        },
    ];
    let ranks = vec![
        shockwave::db_model::UserRank {
            id: 1,
            user_id: 2,
            queue: "RANKED_SOLO_5x5".to_string(),
            tier: "GOLD".to_string(),
        },
        shockwave::db_model::UserRank {
            id: 2,
            user_id: 1,
            queue: "RANKED_TFT".to_string(),
            tier: "SILVER".to_string(),
        },
    ];
    let stats = vec![stat(42, 5, 1000)];
    let contexts =
        shockwave::database::group_evaluation_contexts(users, &vec![], &ranks, &stats);
    assert_eq!(contexts.len(), 2);
    assert_eq!(contexts[0].user.id, 1);
    assert_eq!(contexts[0].ranks.len(), 1);
    assert_eq!(contexts[0].ranks[0].queue, "RANKED_TFT");
    assert_eq!(contexts[0].stats.len(), 1);
    assert_eq!(contexts[1].user.id, 2);
    assert_eq!(contexts[1].ranks[0].tier, "GOLD");
    assert!(contexts[1].stats.is_empty());
}
