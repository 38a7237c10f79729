use shockwave::forwarder::{in_allow_list, scan_magic_guild_id, try_forward};

#[test]
fn allow_list_membership() {
    assert!(in_allow_list("MESSAGE_CREATE"));
    assert!(in_allow_list("GUILD_MEMBER_ADD"));
    assert!(in_allow_list("INTERACTION_CREATE"));
    assert!(!in_allow_list("PRESENCE_UPDATE"));
    assert!(!in_allow_list("message_create"));
}

#[test]
fn allowed_event_is_published_under_its_type() {
    let payload = r#"{"op":0,"s":2,"t":"MESSAGE_CREATE","d":{"content":"hello"}}"#;
    let decision = try_forward(payload);
    assert_eq!(decision.publish, Some("MESSAGE_CREATE".to_string()));
    assert_eq!(decision.backfill_guild, None);
}

#[test]
fn event_outside_allow_list_is_not_published() {
    let payload = r#"{"op":0,"s":2,"t":"PRESENCE_UPDATE","d":{}}"#;
    let decision = try_forward(payload);
    assert_eq!(decision.publish, None);
    assert_eq!(decision.backfill_guild, None);
}

#[test]
fn payload_without_event_type_is_ignored() {
    let payload = r#"{"op":11}"#;
    let decision = try_forward(payload);
    assert_eq!(decision.publish, None);
    assert_eq!(decision.backfill_guild, None);
}

#[test]
fn magic_token_requests_one_backfill() {
    let payload = r#"{"op":0,"s":3,"t":"MESSAGE_CREATE","d":{"content":"magic_incantation_for_refreshing_guild_members_12345 please"}}"#;
    let decision = try_forward(payload);
    assert_eq!(decision.publish, Some("MESSAGE_CREATE".to_string()));
    assert_eq!(decision.backfill_guild, Some(12345));
}

#[test]
fn repeated_magic_token_still_requests_one_backfill() {
    let body = "magic_incantation_for_refreshing_guild_members_777 and again \
                magic_incantation_for_refreshing_guild_members_888";
    let chars: Vec<char> = body.chars().collect();
    assert_eq!(scan_magic_guild_id(&chars), Some(777));
}

#[test]
fn magic_token_outside_message_create_is_ignored() {
    let payload = r#"{"op":0,"s":3,"t":"MESSAGE_UPDATE","d":{"content":"magic_incantation_for_refreshing_guild_members_12345"}}"#;
    let decision = try_forward(payload);
    assert_eq!(decision.backfill_guild, None);
}

#[test]
fn bad_magic_digits_are_ignored() {
    let no_digits: Vec<char> = "magic_incantation_for_refreshing_guild_members_x".chars().collect();
    assert_eq!(scan_magic_guild_id(&no_digits), None);
    let zero: Vec<char> = "magic_incantation_for_refreshing_guild_members_0".chars().collect();
    assert_eq!(scan_magic_guild_id(&zero), None);
    let huge: Vec<char> = "magic_incantation_for_refreshing_guild_members_99999999999999999999999"
        .chars()
        .collect();
    assert_eq!(scan_magic_guild_id(&huge), None);
}
