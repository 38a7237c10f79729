use shockwave::db_model::{LeagueAccount, Role, Server, ServerAndUserPresence, User};
use shockwave::evaluate::EvaluationContext;
use shockwave::role_model::{
    RangeCondition, RoleCombinator, RoleCondition, RoleConditionWithId, TotalMasteryLevelCondition,
};
use shockwave::update::{
    add_failure_action, insert_discord_member_role, is_numeric_snowflake, nickname_target,
    reconcile_plan, should_update_user, AddFailureAction, UNKNOWN_ROLE_CODE,
};

fn user() -> User {
    User {
        id: 1,
        snowflake: "100".to_string(),
        username: "orianna".to_string(),
        last_score_update_timestamp: 0,
        last_rank_update_timestamp: 0,
        last_account_update_timestamp: 0,
        treat_as_unranked: false,
        ignore: false,
        has_accounts: true,
    }
}

fn account(region: &str, username: &str, primary: bool) -> LeagueAccount {
    LeagueAccount {
        id: 1,
        user_id: 1,
        username: username.to_string(),
        region: region.to_string(),
        summoner_id: "s".to_string(),
        account_id: "a".to_string(),
        puuid: "p".to_string(),
        tft_summoner_id: "ts".to_string(),
        tft_account_id: "ta".to_string(),
        riot_id_game_name: None,
        riot_id_tagline: None,
        primary,
        include_region: true,
    }
}

fn ctx(accounts: Vec<LeagueAccount>) -> EvaluationContext {
    EvaluationContext { user: user(), accounts, stats: vec![], ranks: vec![] }
}

fn role(id: i32, snowflake: &str, announce: bool) -> Role {
    Role {
        id,
        name: format!("role-{}", id),
        snowflake: snowflake.to_string(),
        announce,
        combinator: RoleCombinator::All,
    }
}

// a condition that always holds: the total mastery level of an empty stats
// list is exactly zero
fn always() -> RoleConditionWithId {
    RoleConditionWithId {
        id: 1,
        role_id: 1,
        condition: RoleCondition::TotalMasteryLevel(TotalMasteryLevelCondition {
            range: RangeCondition::Exactly { value: 0 },
        }),
    }
}

fn never() -> RoleConditionWithId {
    RoleConditionWithId {
        id: 2,
        role_id: 1,
        condition: RoleCondition::TotalMasteryLevel(TotalMasteryLevelCondition {
            range: RangeCondition::Exactly { value: 5 },
        }),
    }
}

fn membership(roles: Vec<&str>, nickname: Option<&str>, pattern: &str) -> ServerAndUserPresence {
    ServerAndUserPresence {
        server: Server {
            id: 7,
            snowflake: "7777".to_string(),
            name: "server".to_string(),
            announcement_channel: None,
            nickname_pattern: pattern.to_string(),
        },
        roles: roles.into_iter().map(|r| r.to_string()).collect(),
        nickname: nickname.map(|n| n.to_string()),
    }
}

#[test]
fn snowflake_validity() {
    assert!(is_numeric_snowflake("123456"));
    assert!(!is_numeric_snowflake(""));
    assert!(!is_numeric_snowflake("12a4"));
}

#[test]
fn roles_are_added_and_removed() {
    let rc = vec![
        (role(1, "1001", false), vec![always()]),
        (role(2, "1002", false), vec![never()]),
        (role(3, "", false), vec![always()]),
    ];
    let member = membership(vec!["1002"], None, "");
    let plan = reconcile_plan(&rc, &ctx(vec![]), &member);
    // the granted role is added, the held-but-refused role removed, the
    // disabled role (empty snowflake) skipped entirely
    assert_eq!(plan.removes, vec!["1002".to_string()]);
    assert_eq!(plan.adds.len(), 1);
    assert_eq!(plan.adds[0].snowflake, "1001");
    assert_eq!(plan.adds[0].role_id, 1);
    assert!(plan.nickname_update.is_none());
}

#[test]
fn same_snowflake_granted_elsewhere_is_kept() {
    // two roles share a snowflake; one grants it, one refuses it: the grant
    // wins and nothing is removed
    let rc = vec![
        (role(1, "1001", false), vec![never()]),
        (role(2, "1001", false), vec![always()]),
    ];
    let member = membership(vec!["1001"], None, "");
    let plan = reconcile_plan(&rc, &ctx(vec![]), &member);
    assert!(plan.removes.is_empty());
    assert!(plan.adds.is_empty());
}

#[test]
fn reconcile_is_idempotent() {
    let rc = vec![
        (role(1, "1001", false), vec![always()]),
        (role(2, "1002", false), vec![never()]),
    ];
    let member = membership(vec!["1002"], None, "");
    let plan = reconcile_plan(&rc, &ctx(vec![]), &member);
    // apply the plan to the membership
    let mut roles: Vec<String> = member.roles.clone();
    roles.retain(|r| !plan.removes.contains(r));
    for add in &plan.adds {
        roles.push(add.snowflake.clone());
    }
    let member2 = ServerAndUserPresence { server: member.server, roles, nickname: member.nickname };
    // a second reconciliation makes no chat-side writes
    let plan2 = reconcile_plan(&rc, &ctx(vec![]), &member2);
    assert!(plan2.removes.is_empty());
    assert!(plan2.adds.is_empty());
    assert!(plan2.nickname_update.is_none());
}

#[test]
fn nickname_follows_pattern() {
    let rc: Vec<(Role, Vec<RoleConditionWithId>)> = vec![];
    let member = membership(vec![], Some("old nick"), "{region} {username}");
    let plan = reconcile_plan(&rc, &ctx(vec![account("euw", "player", true)]), &member);
    assert_eq!(plan.nickname_update, Some(Some("euw player".to_string())));
    // a matching nickname needs no write
    let member2 = membership(vec![], Some("euw player"), "{region} {username}");
    let plan2 = reconcile_plan(&rc, &ctx(vec![account("euw", "player", true)]), &member2);
    assert!(plan2.nickname_update.is_none());
}

#[test]
fn nickname_is_truncated_to_32_characters() {
    let long = "abcdefghijklmnopqrstuvwxyz0123456789";
    let target = nickname_target("{username}", "euw", long);
    assert_eq!(target.chars().count(), 32);
    assert_eq!(target, "abcdefghijklmnopqrstuvwxyz012345");
}

#[test]
fn nickname_cleared_without_primary_account() {
    let rc: Vec<(Role, Vec<RoleConditionWithId>)> = vec![];
    let member = membership(vec![], Some("stale"), "{username}");
    let plan = reconcile_plan(&rc, &ctx(vec![]), &member);
    assert_eq!(plan.nickname_update, Some(None));
    let member2 = membership(vec![], None, "{username}");
    let plan2 = reconcile_plan(&rc, &ctx(vec![]), &member2);
    assert!(plan2.nickname_update.is_none());
}

#[test]
fn unknown_role_code_clears_snowflake() {
    assert!(matches!(add_failure_action(UNKNOWN_ROLE_CODE), AddFailureAction::ClearSnowflake));
    assert!(matches!(add_failure_action(50013), AddFailureAction::Warn));
}

#[test]
fn member_role_insert_is_idempotent() {
    let roles = vec!["1".to_string()];
    let once = insert_discord_member_role(&roles, 123);
    assert_eq!(once, vec!["1".to_string(), "123".to_string()]);
    let twice = insert_discord_member_role(&once, 123);
    assert_eq!(twice, once);
}

#[test]
fn ignored_users_are_skipped() {
    let mut u = user();
    assert!(should_update_user(&u));
    u.ignore = true;
    assert!(!should_update_user(&u));
}

#[test]
fn roles_group_with_their_conditions() {
    let roles = vec![role(1, "1001", false), role(2, "1002", true), role(3, "1003", false)];
    let conditions = vec![
        RoleConditionWithId { id: 10, role_id: 2, condition: never().condition },
        RoleConditionWithId { id: 11, role_id: 1, condition: always().condition },
        RoleConditionWithId { id: 12, role_id: 2, condition: always().condition },
    ];
    let grouped = shockwave::database::group_roles_with_conditions(roles, &conditions);
    // role 3 has no conditions and is dropped; the others carry exactly
    // their own rows, in stored order
    assert_eq!(grouped.len(), 2);
    let of_role_1 = grouped.iter().find(|p| p.0.id == 1).expect("role 1 grouped");
    assert_eq!(of_role_1.1.len(), 1);
    assert_eq!(of_role_1.1[0].id, 11);
    let of_role_2 = grouped.iter().find(|p| p.0.id == 2).expect("role 2 grouped");
    assert_eq!(of_role_2.1.len(), 2);
    assert_eq!(of_role_2.1[0].id, 10);
    assert_eq!(of_role_2.1[1].id, 12);
    assert!(grouped.iter().all(|p| p.0.id != 3));
}
