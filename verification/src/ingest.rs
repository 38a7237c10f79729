use vstd::prelude::*;

use vstd::string::StringExecFns;

verus! {

/// One role of a guild as the cache holds it: the id the edits go by, and
/// the rest of the role serialized as it came in.
pub struct GuildRoleEntry {
    pub id: u64,
    pub body: String,
}

/// One channel of a guild as the cache holds it.
pub struct GuildChannelEntry {
    pub id: u64,
    pub body: String,
}

/// The per-guild snapshot kept in the cache: the guild without its member,
/// presence and voice-state lists.
pub struct GuildSnapshot {
    pub id: u64,
    pub name: String,
    pub icon: Option<String>,
    pub owner_id: u64,
    pub roles: Vec<GuildRoleEntry>,
    pub channels: Vec<GuildChannelEntry>,
}

/// The cache key a guild's snapshot is stored under.
pub fn guild_cache_key(id: u64) -> (r: String)
    ensures
        r@ == "dissonance:guild:"@ + crate::strings::spec_dec(id as int),
{
    let mut out: String = "dissonance:guild:".to_owned();
    let digits: String = crate::strings::u64_to_dec(id);
    out.append(digits.as_str());
    out
}

impl GuildSnapshot {
    /// A partial guild update: only the name, icon and owner change.
    pub fn apply_guild_update(&mut self, name: String, icon: Option<String>, owner_id: u64)
        ensures
            final(self).name == name,
            final(self).icon == icon,
            final(self).owner_id == owner_id,
            final(self).id == old(self).id,
            final(self).roles == old(self).roles,
            final(self).channels == old(self).channels,
    {
        self.name = name;
        self.icon = icon;
        self.owner_id = owner_id;
    }

    /// A created role is appended to the snapshot's role list.
    pub fn push_role(&mut self, role: GuildRoleEntry)
        ensures
            final(self).roles@ == old(self).roles@.push(role),
            final(self).id == old(self).id,
            final(self).name == old(self).name,
            final(self).icon == old(self).icon,
            final(self).owner_id == old(self).owner_id,
            final(self).channels == old(self).channels,
    {
        self.roles.push(role);
    }

    /// An updated role replaces every stored role with its id.
    pub fn replace_role(&mut self, role: &GuildRoleEntry)
        ensures
            final(self).roles@.len() == old(self).roles@.len(),
            forall|j: int|
                0 <= j < old(self).roles@.len() ==> if (#[trigger] old(self).roles@[j]).id
                    == role.id {
                    final(self).roles@[j].id == role.id && final(self).roles@[j].body@
                        == role.body@
                } else {
                    final(self).roles@[j] == old(self).roles@[j]
                },
            final(self).id == old(self).id,
            final(self).name == old(self).name,
            final(self).icon == old(self).icon,
            final(self).owner_id == old(self).owner_id,
            final(self).channels == old(self).channels,
    {
        let n: usize = self.roles.len();
        let mut k: usize = 0;
        while k < n
            invariant
                n == self.roles@.len(),
                n == old(self).roles@.len(),
                0 <= k <= n,
                forall|j: int|
                    k <= j < n ==> #[trigger] self.roles@[j] == old(self).roles@[j],
                forall|j: int|
                    0 <= j < k ==> if (#[trigger] old(self).roles@[j]).id == role.id {
                        self.roles@[j].id == role.id && self.roles@[j].body@ == role.body@
                    } else {
                        self.roles@[j] == old(self).roles@[j]
                    },
                self.id == old(self).id,
                self.name == old(self).name,
                self.icon == old(self).icon,
                self.owner_id == old(self).owner_id,
                self.channels == old(self).channels,
            decreases n - k,
        {
            if self.roles[k].id == role.id {
                let replacement = GuildRoleEntry { id: role.id, body: role.body.clone() };
                self.roles[k] = replacement;
            }
            k = k + 1;
        }
    }

    /// A deleted role leaves the snapshot's role list.
    pub fn remove_role(&mut self, role_id: u64)
        ensures
            final(self).roles@ == old(self).roles@.filter(
                |r: GuildRoleEntry| r.id != role_id,
            ),
            final(self).id == old(self).id,
            final(self).name == old(self).name,
            final(self).icon == old(self).icon,
            final(self).owner_id == old(self).owner_id,
            final(self).channels == old(self).channels,
    {
        let ghost pred = |r: GuildRoleEntry| r.id != role_id;
        let n: usize = self.roles.len();
        let mut kept: Vec<GuildRoleEntry> = Vec::new();
        let mut k: usize = 0;
        proof {
            reveal(Seq::filter);
            assert(self.roles@.take(0) =~= Seq::<GuildRoleEntry>::empty());
            assert(kept@ =~= self.roles@.take(0).filter(pred));
        }
        while k < n
            invariant
                n == self.roles@.len(),
                0 <= k <= n,
                pred == (|r: GuildRoleEntry| r.id != role_id),
                kept@ == self.roles@.take(k as int).filter(pred),
            decreases n - k,
        {
            proof {
                reveal(Seq::filter);
                assert(self.roles@.take(k as int + 1).drop_last() =~= self.roles@.take(
                    k as int,
                ));
                assert(self.roles@.take(k as int + 1).last() == self.roles@[k as int]);
            }
            if self.roles[k].id != role_id {
                let entry = GuildRoleEntry {
                    id: self.roles[k].id,
                    body: self.roles[k].body.clone(),
                };
                proof {
                    assert(entry == self.roles@[k as int]);
                }
                kept.push(entry);
            }
            k = k + 1;
        }
        proof {
            assert(self.roles@.take(n as int) =~= self.roles@);
        }
        self.roles = kept;
    }

    /// A created channel is appended to the snapshot's channel list.
    pub fn push_channel(&mut self, channel: GuildChannelEntry)
        ensures
            final(self).channels@ == old(self).channels@.push(channel),
            final(self).id == old(self).id,
            final(self).name == old(self).name,
            final(self).icon == old(self).icon,
            final(self).owner_id == old(self).owner_id,
            final(self).roles == old(self).roles,
    {
        self.channels.push(channel);
    }

    /// An updated channel replaces every stored channel with its id.
    pub fn replace_channel(&mut self, channel: &GuildChannelEntry)
        ensures
            final(self).channels@.len() == old(self).channels@.len(),
            forall|j: int|
                0 <= j < old(self).channels@.len() ==> if (#[trigger] old(self).channels@[j]).id
                    == channel.id {
                    final(self).channels@[j].id == channel.id && final(self).channels@[j].body@
                        == channel.body@
                } else {
                    final(self).channels@[j] == old(self).channels@[j]
                },
            final(self).id == old(self).id,
            final(self).name == old(self).name,
            final(self).icon == old(self).icon,
            final(self).owner_id == old(self).owner_id,
            final(self).roles == old(self).roles,
    {
        let n: usize = self.channels.len();
        let mut k: usize = 0;
        while k < n
            invariant
                n == self.channels@.len(),
                n == old(self).channels@.len(),
                0 <= k <= n,
                forall|j: int|
                    k <= j < n ==> #[trigger] self.channels@[j] == old(self).channels@[j],
                forall|j: int|
                    0 <= j < k ==> if (#[trigger] old(self).channels@[j]).id == channel.id {
                        self.channels@[j].id == channel.id && self.channels@[j].body@
                            == channel.body@
                    } else {
                        self.channels@[j] == old(self).channels@[j]
                    },
                self.id == old(self).id,
                self.name == old(self).name,
                self.icon == old(self).icon,
                self.owner_id == old(self).owner_id,
                self.roles == old(self).roles,
            decreases n - k,
        {
            if self.channels[k].id == channel.id {
                let replacement = GuildChannelEntry { id: channel.id, body: channel.body.clone() };
                self.channels[k] = replacement;
            }
            k = k + 1;
        }
    }

    /// A deleted channel leaves the snapshot's channel list.
    pub fn remove_channel(&mut self, channel_id: u64)
        ensures
            final(self).channels@ == old(self).channels@.filter(
                |c: GuildChannelEntry| c.id != channel_id,
            ),
            final(self).id == old(self).id,
            final(self).name == old(self).name,
            final(self).icon == old(self).icon,
            final(self).owner_id == old(self).owner_id,
            final(self).roles == old(self).roles,
    {
        let ghost pred = |c: GuildChannelEntry| c.id != channel_id;
        let n: usize = self.channels.len();
        let mut kept: Vec<GuildChannelEntry> = Vec::new();
        let mut k: usize = 0;
        proof {
            reveal(Seq::filter);
            assert(self.channels@.take(0) =~= Seq::<GuildChannelEntry>::empty());
            assert(kept@ =~= self.channels@.take(0).filter(pred));
        }
        while k < n
            invariant
                n == self.channels@.len(),
                0 <= k <= n,
                pred == (|c: GuildChannelEntry| c.id != channel_id),
                kept@ == self.channels@.take(k as int).filter(pred),
            decreases n - k,
        {
            proof {
                reveal(Seq::filter);
                assert(self.channels@.take(k as int + 1).drop_last() =~= self.channels@.take(
                    k as int,
                ));
                assert(self.channels@.take(k as int + 1).last() == self.channels@[k as int]);
            }
            if self.channels[k].id != channel_id {
                let entry = GuildChannelEntry {
                    id: self.channels[k].id,
                    body: self.channels[k].body.clone(),
                };
                proof {
                    assert(entry == self.channels@[k as int]);
                }
                kept.push(entry);
            }
            k = k + 1;
        }
        proof {
            assert(self.channels@.take(n as int) =~= self.channels@);
        }
        self.channels = kept;
    }
}

/// One guild member as the mirror stores it.
pub struct MemberRow {
    pub user_id: u64,
    pub nickname: Option<String>,
    pub roles: Vec<u64>,
}

/// Some row carries the given user id.
pub open spec fn has_member_id(s: Seq<MemberRow>, id: u64) -> bool {
    exists|j: int| 0 <= j < s.len() && (#[trigger] s[j]).user_id == id
}

/// The member list with later duplicates removed: for each user id only the
/// first row stays, in order.
pub open spec fn spec_dedup(s: Seq<MemberRow>) -> Seq<MemberRow>
    decreases s.len(),
{
    if s.len() == 0 {
        Seq::empty()
    } else {
        let d = spec_dedup(s.drop_last());
        if has_member_id(s.drop_last(), s.last().user_id) {
            d
        } else {
            d.push(s.last())
        }
    }
}

/// Removes duplicate members from one batch: the upstream occasionally sends
/// a member twice in one guild burst, and the batched upsert must not see
/// the same user id twice. For each user id the first row stays.
pub fn dedup_members(members: Vec<MemberRow>) -> (r: Vec<MemberRow>)
    ensures
        r@ == spec_dedup(members@),
        forall|x: int, y: int|
            0 <= x < y < r@.len() ==> (#[trigger] r@[x]).user_id != (#[trigger] r@[y]).user_id,
        forall|id: u64| #[trigger] has_member_id(r@, id) <==> has_member_id(members@, id),
{
    let ghost orig = members@;
    let mut input = members;
    let mut out: Vec<MemberRow> = Vec::new();
    let ghost mut i: int = 0;
    proof {
        assert(orig.take(0) =~= Seq::<MemberRow>::empty());
        assert(input@ =~= orig.skip(0));
        assert(out@ =~= spec_dedup(orig.take(0)));
    }
    while input.len() > 0
        invariant
            0 <= i <= orig.len(),
            input@ == orig.skip(i),
            out@ == spec_dedup(orig.take(i)),
            forall|id: u64| #[trigger] has_member_id(out@, id) <==> has_member_id(orig.take(i), id),
            forall|x: int, y: int|
                0 <= x < y < out@.len() ==> (#[trigger] out@[x]).user_id != (
                #[trigger] out@[y]).user_id,
        decreases input@.len(),
    {
        proof {
            assert(orig.take(i + 1).drop_last() =~= orig.take(i));
            assert(orig.take(i + 1).last() == orig[i]);
            assert(input@[0] == orig[i]);
        }
        let row: MemberRow = input.remove(0);
        let ghost old_input = input@;
        proof {
            assert(input@ =~= orig.skip(i + 1));
        }
        let id: u64 = row.user_id;
        let m: usize = out.len();
        let mut seen: bool = false;
        let mut k: usize = 0;
        while k < m && !seen
            invariant
                m == out@.len(),
                0 <= k <= m,
                seen ==> k < m && out@[k as int].user_id == id,
                !seen ==> forall|j: int| 0 <= j < k ==> (#[trigger] out@[j]).user_id != id,
            decreases m - k + if seen {
                0int
            } else {
                1int
            },
        {
            if out[k].user_id == id {
                seen = true;
            } else {
                k = k + 1;
            }
        }
        proof {
            if seen {
                assert(has_member_id(out@, id));
            } else {
                assert(!has_member_id(out@, id));
            }
            assert(has_member_id(out@, id) == has_member_id(orig.take(i), id));
        }
        if !seen {
            let ghost prev = out@;
            out.push(row);
            proof {
                assert(out@.drop_last() =~= prev);
                assert(forall|j: int| 0 <= j < prev.len() ==> #[trigger] out@[j] == prev[j]);
                assert(out@.last() == orig[i]);
                assert forall|idq: u64| #[trigger]
                    has_member_id(out@, idq) <==> has_member_id(orig.take(i + 1), idq) by {
                    if has_member_id(out@, idq) {
                        let j = choose|j: int|
                            0 <= j < out@.len() && (#[trigger] out@[j]).user_id == idq;
                        if j < out@.len() - 1 {
                            assert(has_member_id(prev, idq));
                            let j2 = choose|j2: int|
                                0 <= j2 < orig.take(i).len() && (#[trigger] orig.take(
                                    i,
                                )[j2]).user_id == idq;
                            assert(orig.take(i + 1)[j2].user_id == idq);
                        } else {
                            assert(orig.take(i + 1)[i].user_id == idq);
                        }
                    }
                    if has_member_id(orig.take(i + 1), idq) {
                        let j = choose|j: int|
                            0 <= j < orig.take(i + 1).len() && (#[trigger] orig.take(
                                i + 1,
                            )[j]).user_id == idq;
                        if j < i {
                            assert(orig.take(i)[j].user_id == idq);
                            assert(has_member_id(orig.take(i), idq));
                            assert(has_member_id(prev, idq));
                            let t = choose|t: int|
                                0 <= t < prev.len() && (#[trigger] prev[t]).user_id == idq;
                            assert(out@[t].user_id == idq);
                        } else {
                            assert(out@.last().user_id == idq);
                        }
                    }
                }
                assert forall|x: int, y: int|
                    0 <= x < y < out@.len() implies (#[trigger] out@[x]).user_id != (
                #[trigger] out@[y]).user_id by {
                    if y == out@.len() - 1 {
                        assert(out@[x] == prev[x]);
                    } else {
                        assert(out@[x] == prev[x] && out@[y] == prev[y]);
                    }
                }
            }
        } else {
            proof {
                assert forall|idq: u64| #[trigger]
                    has_member_id(out@, idq) <==> has_member_id(orig.take(i + 1), idq) by {
                    if has_member_id(orig.take(i + 1), idq) {
                        let j = choose|j: int|
                            0 <= j < orig.take(i + 1).len() && (#[trigger] orig.take(
                                i + 1,
                            )[j]).user_id == idq;
                        if j < i {
                            assert(orig.take(i)[j].user_id == idq);
                            assert(has_member_id(orig.take(i), idq));
                        } else {
                            assert(idq == id);
                            assert(has_member_id(orig.take(i), idq));
                        }
                    }
                    if has_member_id(out@, idq) {
                        assert(has_member_id(orig.take(i), idq));
                        let j2 = choose|j2: int|
                            0 <= j2 < orig.take(i).len() && (#[trigger] orig.take(
                                i,
                            )[j2]).user_id == idq;
                        assert(orig.take(i + 1)[j2].user_id == idq);
                    }
                }
            }
        }
        proof {
            i = i + 1;
        }
    }
    proof {
        assert(orig.skip(i) =~= input@);
        assert(i == orig.len());
        assert(orig.take(i) =~= orig);
    }
    out
}

/// What one guild-creation event leads to: the mirror is always cleared;
/// when the event already carried every member the deduplicated list is
/// written in one batch, else a member backfill is queued for the shard.
pub struct GuildCreatePlan {
    pub upsert: Option<Vec<MemberRow>>,
    pub queue_backfill: bool,
}

/// Whether a guild-creation event already carried all members.
pub open spec fn spec_has_all_members(member_count: Option<u64>, len: int) -> bool {
    match member_count {
        Some(c) => len >= c,
        None => len >= usize::MAX,
    }
}

/// Decides what a guild-creation event leads to.
pub fn guild_create_plan(member_count: Option<u64>, members: Vec<MemberRow>) -> (plan:
    GuildCreatePlan)
    ensures
        spec_has_all_members(member_count, members@.len() as int) ==> (plan.upsert matches Some(up)
            && up@ == spec_dedup(members@) && !plan.queue_backfill),
        !spec_has_all_members(member_count, members@.len() as int) ==> (plan.upsert is None
            && plan.queue_backfill),
{
    let len: usize = members.len();
    let has_all: bool = match member_count {
        Some(c) => len as u64 >= c,
        None => len >= usize::MAX,
    };
    proof {
        assert(has_all == spec_has_all_members(member_count, members@.len() as int));
    }
    if has_all {
        GuildCreatePlan { upsert: Some(dedup_members(members)), queue_backfill: false }
    } else {
        GuildCreatePlan { upsert: None, queue_backfill: true }
    }
}

/// What one member chunk leads to: the deduplicated rows are upserted, and
/// the last chunk of a request clears the guild's outstanding entry.
pub struct MemberChunkPlan {
    pub upsert: Vec<MemberRow>,
    pub drop_outstanding: bool,
}

/// Decides what one member chunk leads to.
pub fn member_chunk_plan(chunk_index: u32, chunk_count: u32, members: Vec<MemberRow>) -> (plan:
    MemberChunkPlan)
    requires
        chunk_count > 0,
    ensures
        plan.upsert@ == spec_dedup(members@),
        plan.drop_outstanding == (chunk_index == chunk_count - 1),
{
    MemberChunkPlan {
        upsert: dedup_members(members),
        drop_outstanding: chunk_index == chunk_count - 1,
    }
}

/// The member-backfill queue: the `(shard, guild)` requests waiting to be
/// sent on their shard's socket, oldest first, and the count of requests
/// queued but not yet successfully sent.
pub struct BackfillQueue {
    pub queue: Vec<(u64, u64)>,
    pub outstanding_count: usize,
}

impl BackfillQueue {
    /// An empty backfill queue.
    pub fn new() -> (r: BackfillQueue)
        ensures
            r.queue@ =~= Seq::<(u64, u64)>::empty(),
            r.outstanding_count == 0,
    {
        BackfillQueue { queue: Vec::new(), outstanding_count: 0 }
    }

    /// Queues a guild for a full member fetch on the given shard and counts
    /// it; returns the count before this request, as the callers log it.
    pub fn queue_guild_members_fetch(&mut self, shard: u64, guild_id: u64) -> (r: usize)
        requires
            old(self).outstanding_count < usize::MAX,
        ensures
            final(self).queue@ == old(self).queue@.push((shard, guild_id)),
            final(self).outstanding_count == old(self).outstanding_count + 1,
            r == old(self).outstanding_count,
    {
        let prev: usize = self.outstanding_count;
        self.queue.push((shard, guild_id));
        self.outstanding_count = prev + 1;
        prev
    }

    /// Takes the oldest waiting request, if any, leaving the count as it is
    /// until the send succeeds.
    pub fn pop_front(&mut self) -> (r: Option<(u64, u64)>)
        ensures
            old(self).queue@.len() == 0 ==> (r is None && final(self).queue@ == old(self).queue@),
            old(self).queue@.len() > 0 ==> (r == Some(old(self).queue@[0]) && final(self).queue@
                == old(self).queue@.skip(1)),
            final(self).outstanding_count == old(self).outstanding_count,
    {
        if self.queue.len() == 0 {
            None
        } else {
            let head: (u64, u64) = self.queue.remove(0);
            proof {
                assert(self.queue@ =~= old(self).queue@.skip(1));
            }
            Some(head)
        }
    }

    /// A request whose shard send succeeded leaves the count.
    pub fn mark_sent(&mut self)
        requires
            old(self).outstanding_count > 0,
        ensures
            final(self).queue@ == old(self).queue@,
            final(self).outstanding_count == old(self).outstanding_count - 1,
    {
        self.outstanding_count = self.outstanding_count - 1;
    }

    /// A request whose shard send failed or timed out goes to the tail, to
    /// be retried later; the count does not change.
    pub fn requeue(&mut self, shard: u64, guild_id: u64)
        ensures
            final(self).queue@ == old(self).queue@.push((shard, guild_id)),
            final(self).outstanding_count == old(self).outstanding_count,
    {
        self.queue.push((shard, guild_id));
    }
}

} // verus!
