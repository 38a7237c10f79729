use shockwave::db_model::LeagueAccount;
use shockwave::worker::{
    account_worker_config, mastery_worker_config, next_offset, ranked_worker_config,
};

#[test]
fn sweep_wraps_on_short_batch() {
    // a full batch advances the offset; a short one wraps to the start
    assert_eq!(next_offset(0, 100, 100), 100);
    assert_eq!(next_offset(300, 100, 100), 400);
    assert_eq!(next_offset(300, 100, 99), 0);
    assert_eq!(next_offset(300, 100, 0), 0);
}

#[test]
fn loop_configurations() {
    let mastery = mastery_worker_config();
    assert_eq!((mastery.query_batch_size, mastery.concurrent_updates), (100, 200));
    let ranked = ranked_worker_config();
    assert_eq!((ranked.query_batch_size, ranked.concurrent_updates), (100, 15));
    let account = account_worker_config();
    assert_eq!((account.query_batch_size, account.concurrent_updates), (100, 15));
}

#[test]
fn region_normalization() {
    let mut account = LeagueAccount {
        id: 1,
        user_id: 1,
        username: "player".to_string(),
        region: "euw".to_string(),
        summoner_id: "s".to_string(),
        account_id: "a".to_string(),
        puuid: "p".to_string(),
        tft_summoner_id: "ts".to_string(),
        tft_account_id: "ta".to_string(),
        riot_id_game_name: None,
        riot_id_tagline: None,
        primary: true,
        include_region: true,
    };
    assert_eq!(account.normalized_region(), "EUW");
    account.region = "ph".to_string();
    assert_eq!(account.normalized_region(), "PH2");
    account.region = "VN".to_string();
    assert_eq!(account.normalized_region(), "VN2");
}
