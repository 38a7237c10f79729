use shockwave::db_model::UserRank;
use shockwave::ranks::{rank_plan, RankEntry};

fn rank(queue: &str, tier: &str) -> UserRank {
    UserRank { id: 0, user_id: 1, queue: queue.to_string(), tier: tier.to_string() }
}

fn entry(queue: &str, tier: &str) -> RankEntry {
    RankEntry { queue: queue.to_string(), tier: tier.to_string() }
}

#[test]
fn rank_promotion_updates_the_row() {
    // the stored solo-queue rank is GOLD and the upstream now reports
    // PLATINUM: exactly one update, no removal, no insert
    let plan = rank_plan(
        &vec![rank("RANKED_SOLO_5x5", "GOLD")],
        &vec![entry("RANKED_SOLO_5x5", "PLATINUM")],
    );
    assert!(plan.removals.is_empty());
    assert!(plan.inserts.is_empty());
    assert_eq!(plan.updates.len(), 1);
    assert_eq!(plan.updates[0].0, "RANKED_SOLO_5x5");
    assert_eq!(plan.updates[0].1, "PLATINUM");
}

#[test]
fn unchanged_rank_writes_nothing() {
    let plan = rank_plan(
        &vec![rank("RANKED_SOLO_5x5", "GOLD")],
        &vec![entry("RANKED_SOLO_5x5", "GOLD")],
    );
    assert!(plan.removals.is_empty());
    assert!(plan.updates.is_empty());
    assert!(plan.inserts.is_empty());
}

#[test]
fn best_tier_per_queue_wins() {
    // two accounts rank differently in the same queue: the higher tier wins
    let plan = rank_plan(
        &vec![],
        &vec![entry("RANKED_SOLO_5x5", "SILVER"), entry("RANKED_SOLO_5x5", "DIAMOND")],
    );
    assert_eq!(plan.inserts, vec![("RANKED_SOLO_5x5".to_string(), "DIAMOND".to_string())]);
}

#[test]
fn vanished_queue_is_removed() {
    let plan = rank_plan(&vec![rank("RANKED_FLEX_SR", "BRONZE")], &vec![]);
    assert_eq!(plan.removals, vec!["RANKED_FLEX_SR".to_string()]);
}

#[test]
fn unparsable_tiers_are_dropped() {
    // a stored row with an unknown tier is treated as absent, so the fresh
    // GOLD entry is an insert, not an update; unknown upstream tiers are
    // ignored entirely
    let plan = rank_plan(
        &vec![rank("RANKED_SOLO_5x5", "MYSTERY")],
        &vec![entry("RANKED_SOLO_5x5", "GOLD"), entry("RANKED_TFT", "WOOD")],
    );
    assert!(plan.updates.is_empty());
    assert_eq!(plan.inserts, vec![("RANKED_SOLO_5x5".to_string(), "GOLD".to_string())]);
    assert!(plan.removals.is_empty());
}
