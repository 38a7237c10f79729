use shockwave::ingest::{
    dedup_members, guild_cache_key, guild_create_plan, member_chunk_plan, BackfillQueue,
    GuildChannelEntry, GuildRoleEntry, GuildSnapshot, MemberRow,
};

fn member(user_id: u64) -> MemberRow {
    MemberRow { user_id, nickname: None, roles: vec![] }
}

fn snapshot() -> GuildSnapshot {
    GuildSnapshot {
        id: 42,
        name: "guild".to_string(),
        icon: None,
        owner_id: 1,
        roles: vec![
            GuildRoleEntry { id: 10, body: "a".to_string() },
            GuildRoleEntry { id: 11, body: "b".to_string() },
        ],
        channels: vec![GuildChannelEntry { id: 20, body: "c".to_string() }],
    }
}

#[test]
fn cache_key_format() {
    assert_eq!(guild_cache_key(12345), "dissonance:guild:12345");
    assert_eq!(guild_cache_key(0), "dissonance:guild:0");
}

#[test]
fn duplicate_members_are_dropped() {
    // the upstream may emit a member twice in one burst: one row per user
    // survives, the first one
    let rows = vec![
        MemberRow { user_id: 1, nickname: Some("first".to_string()), roles: vec![5] },
        member(2),
        MemberRow { user_id: 1, nickname: Some("second".to_string()), roles: vec![] },
    ];
    let deduped = dedup_members(rows);
    assert_eq!(deduped.len(), 2);
    assert_eq!(deduped[0].user_id, 1);
    assert_eq!(deduped[0].nickname, Some("first".to_string()));
    assert_eq!(deduped[1].user_id, 2);
}

#[test]
fn small_guild_upserts_members_directly() {
    // all three members already arrived: one batch upsert, no backfill
    let plan = guild_create_plan(Some(3), vec![member(1), member(2), member(3)]);
    assert!(!plan.queue_backfill);
    let upsert = plan.upsert.expect("expected a batch upsert");
    assert_eq!(upsert.len(), 3);
}

#[test]
fn large_guild_queues_backfill() {
    // the event carried only part of the member list: reset and backfill
    let members: Vec<MemberRow> = (0..250).map(member).collect();
    let plan = guild_create_plan(Some(10000), members);
    assert!(plan.queue_backfill);
    assert!(plan.upsert.is_none());

    let mut queue = BackfillQueue::new();
    let before = queue.queue_guild_members_fetch(0, 42);
    assert_eq!(before, 0);
    assert_eq!(queue.outstanding_count, 1);
    assert_eq!(queue.queue, vec![(0, 42)]);
}

#[test]
fn final_member_chunk_clears_outstanding_entry() {
    let plan = member_chunk_plan(38, 40, vec![member(1)]);
    assert!(!plan.drop_outstanding);
    let last = member_chunk_plan(39, 40, vec![member(1), member(1)]);
    assert!(last.drop_outstanding);
    assert_eq!(last.upsert.len(), 1);
}

#[test]
fn backfill_retry_requeues_at_the_tail() {
    let mut queue = BackfillQueue::new();
    queue.queue_guild_members_fetch(0, 42);
    queue.queue_guild_members_fetch(1, 43);
    let head = queue.pop_front().expect("expected a queued request");
    assert_eq!(head, (0, 42));
    // the send failed: the request goes to the tail, the count stays
    queue.requeue(head.0, head.1);
    assert_eq!(queue.queue, vec![(1, 43), (0, 42)]);
    assert_eq!(queue.outstanding_count, 2);
    // the next send succeeds
    let next = queue.pop_front().expect("expected a queued request");
    assert_eq!(next, (1, 43));
    queue.mark_sent();
    assert_eq!(queue.outstanding_count, 1);
}

#[test]
fn guild_update_is_partial() {
    let mut snap = snapshot();
    snap.apply_guild_update("renamed".to_string(), Some("icon".to_string()), 9);
    assert_eq!(snap.name, "renamed");
    assert_eq!(snap.icon, Some("icon".to_string()));
    assert_eq!(snap.owner_id, 9);
    assert_eq!(snap.roles.len(), 2);
    assert_eq!(snap.channels.len(), 1);
}

#[test]
fn role_events_edit_the_snapshot() {
    let mut snap = snapshot();
    snap.push_role(GuildRoleEntry { id: 12, body: "new".to_string() });
    assert_eq!(snap.roles.len(), 3);
    snap.replace_role(&GuildRoleEntry { id: 11, body: "changed".to_string() });
    assert_eq!(snap.roles[1].body, "changed");
    assert_eq!(snap.roles[0].body, "a");
    snap.remove_role(10);
    assert_eq!(snap.roles.len(), 2);
    assert!(snap.roles.iter().all(|r| r.id != 10));
}

#[test]
fn channel_events_edit_the_snapshot() {
    let mut snap = snapshot();
    snap.push_channel(GuildChannelEntry { id: 21, body: "d".to_string() });
    snap.replace_channel(&GuildChannelEntry { id: 20, body: "edited".to_string() });
    assert_eq!(snap.channels[0].body, "edited");
    snap.remove_channel(21);
    assert_eq!(snap.channels.len(), 1);
}
