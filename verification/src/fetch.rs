use vstd::prelude::*;

use crate::db_model::UserChampionStat;
use crate::util::{
    assoc_map, difference, lemma_assoc_map_dom, lemma_assoc_map_index, lemma_filter_elems,
    lemma_filter_unique_keys, lemma_spec_common_complete, lemma_spec_common_elems,
    lemma_spec_common_unique, spec_common, unique_keys,
};

verus! {

/// One mastery row for one champion, as the upstream API reports it for a
/// single account.
pub struct MasteryEntry {
    pub champion_id: i32,
    pub champion_level: i32,
    pub champion_points: i32,
}

/// An association list of champion id to `(level, score)`, read as a map
/// over unbounded integers.
pub open spec fn pair_map(s: Seq<(i32, (i32, i32))>) -> Map<int, (int, int)> {
    assoc_map(s).map_values(|v: (i32, i32)| (v.0 as int, v.1 as int))
}

/// The merge of the per-account mastery rows: for each champion, the highest
/// level over the accounts and the sum of the scores.
pub open spec fn spec_merge(entries: Seq<MasteryEntry>) -> Map<int, (int, int)>
    decreases entries.len(),
{
    if entries.len() == 0 {
        Map::empty()
    } else {
        let m = spec_merge(entries.drop_last());
        let e = entries.last();
        let c = e.champion_id as int;
        if m.dom().contains(c) {
            m.insert(
                c,
                (
                    if e.champion_level as int > m[c].0 {
                        e.champion_level as int
                    } else {
                        m[c].0
                    },
                    m[c].1 + e.champion_points as int,
                ),
            )
        } else {
            m.insert(c, (e.champion_level as int, e.champion_points as int))
        }
    }
}

/// The sum of all reported scores.
pub open spec fn total_points(entries: Seq<MasteryEntry>) -> int
    decreases entries.len(),
{
    if entries.len() == 0 {
        0
    } else {
        total_points(entries.drop_last()) + entries.last().champion_points
    }
}

/// Every entry reports a non-negative champion id, level and score.
pub open spec fn entries_wf(entries: Seq<MasteryEntry>) -> bool {
    forall|i: int|
        0 <= i < entries.len() ==> (#[trigger] entries[i]).champion_id >= 0
            && entries[i].champion_level >= 0 && entries[i].champion_points >= 0
}

/// The sum of the scores held in an association list.
pub open spec fn assoc_total(s: Seq<(i32, (i32, i32))>) -> int
    decreases s.len(),
{
    if s.len() == 0 {
        0
    } else {
        assoc_total(s.drop_last()) + s.last().1.1
    }
}

/// All levels and scores in the association list are non-negative.
pub open spec fn assoc_wf(s: Seq<(i32, (i32, i32))>) -> bool {
    forall|i: int| 0 <= i < s.len() ==> (#[trigger] s[i]).1.0 >= 0 && s[i].1.1 >= 0
}

proof fn lemma_total_points_prefix_le(entries: Seq<MasteryEntry>, k: int)
    requires
        entries_wf(entries),
        0 <= k <= entries.len(),
    ensures
        total_points(entries.take(k)) <= total_points(entries),
    decreases entries.len() - k,
{
    if k == entries.len() {
        assert(entries.take(k) =~= entries);
    } else {
        lemma_total_points_prefix_le(entries, k + 1);
        assert(entries.take(k + 1).drop_last() =~= entries.take(k));
        assert(entries.take(k + 1).last() == entries[k]);
    }
}

proof fn lemma_assoc_value_le_total(s: Seq<(i32, (i32, i32))>, i: int)
    requires
        assoc_wf(s),
        0 <= i < s.len(),
    ensures
        s[i].1.1 <= assoc_total(s),
    decreases s.len(),
{
    if i == s.len() - 1 {
        assert(assoc_wf(s.drop_last()));
        lemma_assoc_total_nonneg(s.drop_last());
    } else {
        assert(assoc_wf(s.drop_last()));
        assert(s.drop_last()[i] == s[i]);
        lemma_assoc_value_le_total(s.drop_last(), i);
    }
}

proof fn lemma_assoc_total_nonneg(s: Seq<(i32, (i32, i32))>)
    requires
        assoc_wf(s),
    ensures
        assoc_total(s) >= 0,
    decreases s.len(),
{
    if s.len() > 0 {
        assert(assoc_wf(s.drop_last()));
        lemma_assoc_total_nonneg(s.drop_last());
    }
}

proof fn lemma_assoc_total_update(s: Seq<(i32, (i32, i32))>, i: int, v: (i32, (i32, i32)))
    requires
        0 <= i < s.len(),
    ensures
        assoc_total(s.update(i, v)) == assoc_total(s) - s[i].1.1 + v.1.1,
    decreases s.len(),
{
    if i == s.len() - 1 {
        assert(s.update(i, v).drop_last() =~= s.drop_last());
        assert(s.update(i, v).last() == v);
    } else {
        assert(s.update(i, v).drop_last() =~= s.drop_last().update(i, v));
        assert(s.update(i, v).last() == s.last());
        lemma_assoc_total_update(s.drop_last(), i, v);
    }
}

proof fn lemma_assoc_map_update(s: Seq<(i32, (i32, i32))>, i: int, v: (i32, i32))
    requires
        unique_keys(s),
        0 <= i < s.len(),
    ensures
        assoc_map(s.update(i, (s[i].0, v))) =~= assoc_map(s).insert(s[i].0 as int, v),
        unique_keys(s.update(i, (s[i].0, v))),
    decreases s.len(),
{
    let t = s.update(i, (s[i].0, v));
    assert(unique_keys(t));
    if i == s.len() - 1 {
        assert(t.drop_last() =~= s.drop_last());
        assert(t.last() == (s[i].0, v));
    } else {
        assert(t.drop_last() =~= s.drop_last().update(i, (s[i].0, v)));
        assert(t.last() == s.last());
        assert(unique_keys(s.drop_last()));
        assert(s.drop_last()[i] == s[i]);
        lemma_assoc_map_update(s.drop_last(), i, v);
        assert(s.last().0 != s[i].0);
    }
}

/// Merges the flattened per-account mastery rows into one row per champion:
/// the highest level seen and the summed score.
pub fn merge_masteries(entries: &Vec<MasteryEntry>) -> (r: Vec<(i32, (i32, i32))>)
    requires
        entries_wf(entries@),
        total_points(entries@) <= i32::MAX,
    ensures
        unique_keys(r@),
        assoc_wf(r@),
        pair_map(r@) == spec_merge(entries@),
{
    let n: usize = entries.len();
    let mut acc: Vec<(i32, (i32, i32))> = Vec::new();
    let mut i: usize = 0;
    proof {
        assert(entries@.take(0) =~= Seq::<MasteryEntry>::empty());
        assert(pair_map(acc@) =~= spec_merge(entries@.take(0)));
    }
    while i < n
        invariant
            entries_wf(entries@),
            total_points(entries@) <= i32::MAX,
            n == entries@.len(),
            0 <= i <= n,
            unique_keys(acc@),
            assoc_wf(acc@),
            pair_map(acc@) == spec_merge(entries@.take(i as int)),
            assoc_total(acc@) == total_points(entries@.take(i as int)),
        decreases n - i,
    {
        proof {
            assert(entries@.take(i as int + 1).drop_last() =~= entries@.take(i as int));
            assert(entries@.take(i as int + 1).last() == entries@[i as int]);
            lemma_total_points_prefix_le(entries@, i as int + 1);
            lemma_assoc_total_nonneg(acc@);
        }
        let e_champ: i32 = entries[i].champion_id;
        let e_level: i32 = entries[i].champion_level;
        let e_points: i32 = entries[i].champion_points;
        let mut idx: usize = 0;
        let m: usize = acc.len();
        let mut found: bool = false;
        while idx < m && !found
            invariant
                m == acc@.len(),
                0 <= idx <= m,
                found ==> idx < m && acc@[idx as int].0 == e_champ,
                !found ==> forall|j: int| 0 <= j < idx ==> (#[trigger] acc@[j]).0 != e_champ,
            decreases m - idx + if found {
                0int
            } else {
                1int
            },
        {
            if acc[idx].0 == e_champ {
                found = true;
            } else {
                idx = idx + 1;
            }
        }
        if found {
            proof {
                crate::util::lemma_assoc_map_index(acc@, idx as int);
                lemma_assoc_value_le_total(acc@, idx as int);
            }
            let old_pair: (i32, (i32, i32)) = acc[idx];
            let new_level: i32 = if e_level > old_pair.1.0 {
                e_level
            } else {
                old_pair.1.0
            };
            let new_points: i32 = old_pair.1.1 + e_points;
            proof {
                lemma_assoc_map_update(acc@, idx as int, (new_level, new_points));
                lemma_assoc_total_update(
                    acc@,
                    idx as int,
                    (e_champ, (new_level, new_points)),
                );
            }
            acc[idx] = (e_champ, (new_level, new_points));
            proof {
                assert(pair_map(acc@) =~= spec_merge(entries@.take(i as int + 1)));
            }
        } else {
            proof {
                lemma_assoc_map_dom(acc@, e_champ as int);
                assert(!assoc_map(acc@).dom().contains(e_champ as int));
            }
            let ghost old_acc = acc@;
            acc.push((e_champ, (e_level, e_points)));
            proof {
                assert(acc@.drop_last() =~= old_acc);
                assert(forall|a: int, b: int|
                    0 <= a < b < acc@.len() ==> (#[trigger] acc@[a]).0 != (#[trigger] acc@[b]).0)
                    by {
                    assert forall|a: int, b: int|
                        0 <= a < b < acc@.len() implies (#[trigger] acc@[a]).0 != (
                    #[trigger] acc@[b]).0 by {
                        if b < acc@.len() - 1 {
                            assert(old_acc[a].0 != old_acc[b].0);
                        } else {
                            lemma_assoc_map_dom(old_acc, old_acc[a].0 as int);
                        }
                    }
                }
                assert(pair_map(acc@) =~= spec_merge(entries@.take(i as int + 1)));
            }
        }
        i = i + 1;
    }
    proof {
        assert(entries@.take(n as int) =~= entries@);
    }
    acc
}

/// The champion stats rows as an association list of champion id to
/// `(level, score)`.
pub open spec fn stats_assoc(s: Seq<UserChampionStat>) -> Seq<(i32, (i32, i32))> {
    s.map_values(|st: UserChampionStat| (st.champion_id, (st.level, st.score)))
}

/// The stored stats of one user, as a map from champion id to
/// `(level, score)`.
pub open spec fn stats_map(s: Seq<UserChampionStat>) -> Map<int, (int, int)> {
    pair_map(stats_assoc(s))
}

/// No two stats rows are for the same champion.
pub open spec fn unique_champions(s: Seq<UserChampionStat>) -> bool {
    forall|i: int, j: int|
        0 <= i < j < s.len() ==> (#[trigger] s[i]).champion_id != (#[trigger] s[j]).champion_id
}

/// Stored stats rows carry non-negative champion ids, levels and scores.
pub open spec fn stats_wf(s: Seq<UserChampionStat>) -> bool {
    forall|i: int|
        0 <= i < s.len() ==> (#[trigger] s[i]).champion_id >= 0 && s[i].level >= 0 && s[i].score
            >= 0
}

/// The stats rows the user should end up with: every merged champion with
/// its merged values, and nothing else — the rows to upsert are those whose
/// merged value is new or differs from the stored one.
pub open spec fn upsert_map(om: Map<int, (int, int)>, nm: Map<int, (int, int)>) -> Map<
    int,
    (int, int),
> {
    Map::new(
        |c: int| nm.dom().contains(c) && (!om.dom().contains(c) || om[c] != nm[c]),
        |c: int| nm[c],
    )
}

/// The champions whose stats rows must be deleted: stored but no longer in
/// the merged result.
pub open spec fn stale_champions(om: Map<int, (int, int)>, nm: Map<int, (int, int)>) -> Set<int> {
    om.dom().difference(nm.dom())
}

/// Deleting the stale rows and upserting the new-or-changed rows turns the
/// stored stats into exactly the merged result.
pub proof fn lemma_plan_restores_merge(om: Map<int, (int, int)>, nm: Map<int, (int, int)>)
    ensures
        om.remove_keys(stale_champions(om, nm)).union_prefer_right(upsert_map(om, nm)) =~= nm,
{
}

/// The last entry with the highest score among `(champion, level, score)`
/// rows, as a maximum taken in order with later rows winning ties.
pub open spec fn spec_best_triple(ts: Seq<(i32, i32, i32)>) -> (i32, i32, i32)
    recommends
        ts.len() > 0,
    decreases ts.len(),
{
    if ts.len() <= 1 {
        ts[0]
    } else {
        let b = spec_best_triple(ts.drop_last());
        if ts.last().2 >= b.2 {
            ts.last()
        } else {
            b
        }
    }
}

/// The highest stored score.
pub open spec fn spec_max_score(s: Seq<UserChampionStat>) -> int
    recommends
        s.len() > 0,
    decreases s.len(),
{
    if s.len() <= 1 {
        s[0].score as int
    } else {
        let m = spec_max_score(s.drop_last());
        if s.last().score as int > m {
            s.last().score as int
        } else {
            m
        }
    }
}

/// Everything one mastery sweep writes, computed from the stored stats and
/// the merged upstream result.
pub struct MasteryPlan {
    /// Champions whose stats rows (and per-champion leaderboard rows) go away.
    pub removals: Vec<i32>,
    /// `(champion, level, score)` rows to upsert into stats and the
    /// per-champion leaderboards.
    pub upserts: Vec<(i32, i32, i32)>,
    /// `(champion, new score, score change)` time-series points to append.
    pub deltas: Vec<(i32, i32, i32)>,
    /// Whether the user's row on the overall leaderboard goes away: they had
    /// stats and now have none.
    pub remove_all_leaderboard: bool,
    /// The row to write to the overall leaderboard, when some upserted row
    /// beats every stored score.
    pub all_leaderboard_upsert: Option<(i32, i32, i32)>,
}

/// Computes one mastery sweep: diffs the stored stats rows against the
/// merged upstream mastery and plans the row removals, the upserts, the
/// time-series deltas, and the leaderboard consequences.
pub fn mastery_plan(old_stats: &Vec<UserChampionStat>, entries: &Vec<MasteryEntry>) -> (plan:
    MasteryPlan)
    requires
        unique_champions(old_stats@),
        stats_wf(old_stats@),
        entries_wf(entries@),
        total_points(entries@) <= i32::MAX,
    ensures
        forall|c: i32| #[trigger]
            plan.removals@.contains(c) <==> (stats_map(old_stats@).dom().contains(c as int)
                && !spec_merge(entries@).dom().contains(c as int)),
        forall|x: int, y: int|
            0 <= x < y < plan.removals@.len() ==> plan.removals@[x] != plan.removals@[y],
        forall|t: (i32, i32, i32)| #[trigger]
            plan.upserts@.contains(t) <==> (spec_merge(entries@).dom().contains(t.0 as int)
                && spec_merge(entries@)[t.0 as int] == (t.1 as int, t.2 as int) && upsert_map(
                stats_map(old_stats@),
                spec_merge(entries@),
            ).dom().contains(t.0 as int)),
        forall|x: int, y: int|
            0 <= x < y < plan.upserts@.len() ==> (#[trigger] plan.upserts@[x]).0 != (
            #[trigger] plan.upserts@[y]).0,
        forall|t: (i32, i32, i32)| #[trigger]
            plan.deltas@.contains(t) <==> {
                let om = stats_map(old_stats@);
                let nm = spec_merge(entries@);
                om.dom().contains(t.0 as int) && nm.dom().contains(t.0 as int) && om[t.0 as int]
                    != nm[t.0 as int] && t.1 as int == nm[t.0 as int].1 && t.2 as int
                    == nm[t.0 as int].1 - om[t.0 as int].1
            },
        forall|x: int, y: int|
            0 <= x < y < plan.deltas@.len() ==> (#[trigger] plan.deltas@[x]).0 != (
            #[trigger] plan.deltas@[y]).0,
        plan.remove_all_leaderboard == (old_stats@.len() > 0 && entries@.len() == 0),
        plan.all_leaderboard_upsert == if plan.upserts@.len() == 0 {
            None::<(i32, i32, i32)>
        } else {
            let best = spec_best_triple(plan.upserts@);
            if old_stats@.len() == 0 || spec_max_score(old_stats@) < best.2 {
                Some(best)
            } else {
                None::<(i32, i32, i32)>
            }
        },
        forall|x: int|
            0 <= x < plan.removals@.len() ==> #[trigger] plan.removals@[x] >= 0,
        forall|x: int|
            0 <= x < plan.upserts@.len() ==> (#[trigger] plan.upserts@[x]).0 >= 0,
{
    let merged: Vec<(i32, (i32, i32))> = merge_masteries(entries);
    let ghost nm = spec_merge(entries@);
    let ghost om = stats_map(old_stats@);

    // The stored rows as an association list with the same keys.
    let mut old_assoc: Vec<(i32, (i32, i32))> = Vec::new();
    let n_old: usize = old_stats.len();
    let mut i: usize = 0;
    while i < n_old
        invariant
            n_old == old_stats@.len(),
            0 <= i <= n_old,
            old_assoc@ =~= stats_assoc(old_stats@).take(i as int),
        decreases n_old - i,
    {
        let st: (i32, (i32, i32)) = (
            old_stats[i].champion_id,
            (old_stats[i].level, old_stats[i].score),
        );
        old_assoc.push(st);
        proof {
            assert(old_assoc@ =~= stats_assoc(old_stats@).take(i as int + 1));
        }
        i = i + 1;
    }
    proof {
        assert(old_assoc@ =~= stats_assoc(old_stats@));
        assert(unique_keys(old_assoc@));
        assert(assoc_wf(old_assoc@));
        assert(om.dom() =~= assoc_map(old_assoc@).dom());
    }

    let (only_old, common, only_new) = difference(&old_assoc, &merged);
    let ghost only_old_pred = |p: (i32, (i32, i32))| !assoc_map(merged@).dom().contains(
        p.0 as int,
    );
    let ghost only_new_pred = |p: (i32, (i32, i32))| !assoc_map(old_assoc@).dom().contains(
        p.0 as int,
    );
    proof {
        lemma_filter_elems(old_assoc@, only_old_pred);
        lemma_filter_unique_keys(old_assoc@, only_old_pred);
        lemma_filter_elems(merged@, only_new_pred);
        lemma_filter_unique_keys(merged@, only_new_pred);
        lemma_spec_common_elems(old_assoc@, assoc_map(merged@));
        lemma_spec_common_unique(old_assoc@, assoc_map(merged@));
        assert(nm.dom() =~= assoc_map(merged@).dom());
    }

    // Champions that vanished: their stats rows are deleted.
    let mut removals: Vec<i32> = Vec::new();
    let n1: usize = only_old.len();
    let mut i1: usize = 0;
    while i1 < n1
        invariant
            n1 == only_old@.len(),
            0 <= i1 <= n1,
            removals@ =~= only_old@.take(i1 as int).map_values(|p: (i32, (i32, i32))| p.0),
        decreases n1 - i1,
    {
        removals.push(only_old[i1].0);
        proof {
            assert(removals@ =~= only_old@.take(i1 as int + 1).map_values(
                |p: (i32, (i32, i32))| p.0,
            ));
        }
        i1 = i1 + 1;
    }
    proof {
        assert(removals@ =~= only_old@.map_values(|p: (i32, (i32, i32))| p.0));
    }

    // Champions present before and after: upsert and record a delta exactly
    // when the pair changed.
    let mut upserts: Vec<(i32, i32, i32)> = Vec::new();
    let mut deltas: Vec<(i32, i32, i32)> = Vec::new();
    let n2: usize = common.len();
    let mut i2: usize = 0;
    while i2 < n2
        invariant
            n2 == common@.len(),
            0 <= i2 <= n2,
            common@ == spec_common(old_assoc@, assoc_map(merged@)),
            unique_keys(old_assoc@),
            unique_keys(merged@),
            assoc_wf(old_assoc@),
            assoc_wf(merged@),
            om == stats_map(old_stats@),
            nm == spec_merge(entries@),
            old_assoc@ == stats_assoc(old_stats@),
            pair_map(merged@) == nm,
            om.dom() =~= assoc_map(old_assoc@).dom(),
            nm.dom() =~= assoc_map(merged@).dom(),
            forall|j: int|
                0 <= j < common@.len() ==> {
                    let p = #[trigger] common@[j];
                    old_assoc@.contains((p.0, p.1.0)) && assoc_map(merged@).dom().contains(
                        p.0 as int,
                    ) && assoc_map(merged@)[p.0 as int] == p.1.1
                },
            forall|x: int, y: int|
                0 <= x < y < common@.len() ==> (#[trigger] common@[x]).0 != (
                #[trigger] common@[y]).0,
            forall|t: (i32, i32, i32)| #[trigger]
                upserts@.contains(t) <==> (exists|j: int|
                    0 <= j < i2 && (#[trigger] common@[j]).0 == t.0 && common@[j].1.0
                        != common@[j].1.1 && common@[j].1.1 == (t.1, t.2)),
            forall|t: (i32, i32, i32)| #[trigger]
                deltas@.contains(t) <==> (exists|j: int|
                    0 <= j < i2 && (#[trigger] common@[j]).0 == t.0 && common@[j].1.0
                        != common@[j].1.1 && t.1 == common@[j].1.1.1 && t.2 as int
                        == common@[j].1.1.1 - common@[j].1.0.1),
            upserts@.len() == deltas@.len(),
            forall|x: int, y: int|
                0 <= x < y < upserts@.len() ==> (#[trigger] upserts@[x]).0 != (
                #[trigger] upserts@[y]).0,
            forall|x: int, y: int|
                0 <= x < y < deltas@.len() ==> (#[trigger] deltas@[x]).0 != (
                #[trigger] deltas@[y]).0,
        decreases n2 - i2,
    {
        broadcast use vstd::seq_lib::lemma_seq_contains_after_push;

        let p: (i32, ((i32, i32), (i32, i32))) = common[i2];
        let old_pair: (i32, i32) = p.1.0;
        let new_pair: (i32, i32) = p.1.1;
        if old_pair.0 != new_pair.0 || old_pair.1 != new_pair.1 {
            proof {
                // the stored and merged values are non-negative, so the
                // score change fits the stored width
                let k = choose|k: int|
                    0 <= k < old_assoc@.len() && old_assoc@[k] == (p.0, p.1.0);
                assert(old_assoc@[k].1.1 >= 0);
                lemma_assoc_map_dom(merged@, p.0 as int);
                let k2 = choose|k2: int|
                    0 <= k2 < merged@.len() && (#[trigger] merged@[k2]).0 == p.0;
                lemma_assoc_map_index(merged@, k2);
                assert(merged@[k2].1.1 >= 0);
            }
            let ghost old_upserts = upserts@;
            let ghost old_deltas = deltas@;
            upserts.push((p.0, new_pair.0, new_pair.1));
            deltas.push((p.0, new_pair.1, new_pair.1 - old_pair.1));
            proof {
                assert forall|t: (i32, i32, i32)| #[trigger]
                    upserts@.contains(t) implies (exists|j: int|
                    0 <= j < i2 + 1 && (#[trigger] common@[j]).0 == t.0 && common@[j].1.0
                        != common@[j].1.1 && common@[j].1.1 == (t.1, t.2)) by {
                    if old_upserts.contains(t) {
                        let j = choose|j: int|
                            0 <= j < i2 && (#[trigger] common@[j]).0 == t.0 && common@[j].1.0
                                != common@[j].1.1 && common@[j].1.1 == (t.1, t.2);
                        assert(0 <= j < i2 + 1 && common@[j].0 == t.0);
                    } else {
                        assert(common@[i2 as int].0 == t.0);
                    }
                }
                assert forall|t: (i32, i32, i32)|
                    (exists|j: int|
                        0 <= j < i2 + 1 && (#[trigger] common@[j]).0 == t.0 && common@[j].1.0
                            != common@[j].1.1 && common@[j].1.1 == (t.1, t.2)) implies #[trigger]
                    upserts@.contains(t) by {
                    let j = choose|j: int|
                        0 <= j < i2 + 1 && (#[trigger] common@[j]).0 == t.0 && common@[j].1.0
                            != common@[j].1.1 && common@[j].1.1 == (t.1, t.2);
                    if j < i2 {
                        assert(old_upserts.contains(t));
                    } else {
                        assert(t == (p.0, new_pair.0, new_pair.1));
                        assert(upserts@.last() == t);
                    }
                }
                assert forall|t: (i32, i32, i32)| #[trigger]
                    deltas@.contains(t) implies (exists|j: int|
                    0 <= j < i2 + 1 && (#[trigger] common@[j]).0 == t.0 && common@[j].1.0
                        != common@[j].1.1 && t.1 == common@[j].1.1.1 && t.2 as int
                        == common@[j].1.1.1 - common@[j].1.0.1) by {
                    if old_deltas.contains(t) {
                        let j = choose|j: int|
                            0 <= j < i2 && (#[trigger] common@[j]).0 == t.0 && common@[j].1.0
                                != common@[j].1.1 && t.1 == common@[j].1.1.1 && t.2 as int
                                == common@[j].1.1.1 - common@[j].1.0.1;
                        assert(0 <= j < i2 + 1 && common@[j].0 == t.0);
                    } else {
                        assert(common@[i2 as int].0 == t.0);
                    }
                }
                assert forall|t: (i32, i32, i32)|
                    (exists|j: int|
                        0 <= j < i2 + 1 && (#[trigger] common@[j]).0 == t.0 && common@[j].1.0
                            != common@[j].1.1 && t.1 == common@[j].1.1.1 && t.2 as int
                            == common@[j].1.1.1 - common@[j].1.0.1) implies #[trigger]
                    deltas@.contains(t) by {
                    let j = choose|j: int|
                        0 <= j < i2 + 1 && (#[trigger] common@[j]).0 == t.0 && common@[j].1.0
                            != common@[j].1.1 && t.1 == common@[j].1.1.1 && t.2 as int
                            == common@[j].1.1.1 - common@[j].1.0.1;
                    if j < i2 {
                        assert(old_deltas.contains(t));
                    } else {
                        assert(deltas@.last() == t);
                    }
                }
                assert forall|x: int, y: int|
                    0 <= x < y < upserts@.len() implies (#[trigger] upserts@[x]).0 != (
                #[trigger] upserts@[y]).0 by {
                    if y == upserts@.len() - 1 {
                        assert(old_upserts.contains(old_upserts[x]));
                        let j = choose|j: int|
                            0 <= j < i2 && (#[trigger] common@[j]).0 == old_upserts[x].0
                                && common@[j].1.0 != common@[j].1.1 && common@[j].1.1 == (
                            old_upserts[x].1,
                            old_upserts[x].2,
                            );
                        assert(common@[j].0 != common@[i2 as int].0);
                    }
                }
                assert forall|x: int, y: int|
                    0 <= x < y < deltas@.len() implies (#[trigger] deltas@[x]).0 != (
                #[trigger] deltas@[y]).0 by {
                    if y == deltas@.len() - 1 {
                        assert(old_deltas.contains(old_deltas[x]));
                        let j = choose|j: int|
                            0 <= j < i2 && (#[trigger] common@[j]).0 == old_deltas[x].0
                                && common@[j].1.0 != common@[j].1.1 && old_deltas[x].1
                                == common@[j].1.1.1 && old_deltas[x].2 as int == common@[j].1.1.1
                                - common@[j].1.0.1;
                        assert(common@[j].0 != common@[i2 as int].0);
                    }
                }
            }
        } else {
            proof {
                assert forall|t: (i32, i32, i32)| #[trigger]
                    upserts@.contains(t) implies (exists|j: int|
                    0 <= j < i2 + 1 && (#[trigger] common@[j]).0 == t.0 && common@[j].1.0
                        != common@[j].1.1 && common@[j].1.1 == (t.1, t.2)) by {}
                assert forall|t: (i32, i32, i32)|
                    (exists|j: int|
                        0 <= j < i2 + 1 && (#[trigger] common@[j]).0 == t.0 && common@[j].1.0
                            != common@[j].1.1 && common@[j].1.1 == (t.1, t.2)) implies #[trigger]
                    upserts@.contains(t) by {
                    let j = choose|j: int|
                        0 <= j < i2 + 1 && (#[trigger] common@[j]).0 == t.0 && common@[j].1.0
                            != common@[j].1.1 && common@[j].1.1 == (t.1, t.2);
                    assert(j < i2);
                }
                assert forall|t: (i32, i32, i32)|
                    (exists|j: int|
                        0 <= j < i2 + 1 && (#[trigger] common@[j]).0 == t.0 && common@[j].1.0
                            != common@[j].1.1 && t.1 == common@[j].1.1.1 && t.2 as int
                            == common@[j].1.1.1 - common@[j].1.0.1) implies #[trigger]
                    deltas@.contains(t) by {
                    let j = choose|j: int|
                        0 <= j < i2 + 1 && (#[trigger] common@[j]).0 == t.0 && common@[j].1.0
                            != common@[j].1.1 && t.1 == common@[j].1.1.1 && t.2 as int
                            == common@[j].1.1.1 - common@[j].1.0.1;
                    assert(j < i2);
                }
            }
        }
        i2 = i2 + 1;
    }

    // Champions seen for the first time: upsert only.
    let ghost upserts_after_common = upserts@;
    proof {
        assert forall|t: (i32, i32, i32)| #[trigger]
            upserts_after_common.contains(t) implies assoc_map(old_assoc@).dom().contains(
            t.0 as int,
        ) by {
            let j = choose|j: int|
                0 <= j < common@.len() && (#[trigger] common@[j]).0 == t.0 && common@[j].1.0
                    != common@[j].1.1 && common@[j].1.1 == (t.1, t.2);
            let p = common@[j];
            assert(old_assoc@.contains((p.0, p.1.0)));
            let k = choose|k: int| 0 <= k < old_assoc@.len() && old_assoc@[k] == (p.0, p.1.0);
            lemma_assoc_map_dom(old_assoc@, t.0 as int);
        }
    }
    let n3: usize = only_new.len();
    let mut i3: usize = 0;
    while i3 < n3
        invariant
            n3 == only_new@.len(),
            0 <= i3 <= n3,
            only_new@ == merged@.filter(only_new_pred),
            only_new_pred == (|p: (i32, (i32, i32))| !assoc_map(old_assoc@).dom().contains(
                p.0 as int,
            )),
            forall|j: int|
                0 <= j < only_new@.len() ==> merged@.contains(#[trigger] only_new@[j]),
            forall|x: int, y: int|
                0 <= x < y < only_new@.len() ==> (#[trigger] only_new@[x]).0 != (
                #[trigger] only_new@[y]).0,
            forall|t: (i32, i32, i32)| #[trigger]
                upserts_after_common.contains(t) ==> assoc_map(old_assoc@).dom().contains(
                    t.0 as int,
                ),
            forall|t: (i32, i32, i32)| #[trigger]
                upserts@.contains(t) <==> (upserts_after_common.contains(t) || exists|j: int|
                    0 <= j < i3 && #[trigger] only_new@[j] == (t.0, (t.1, t.2))),
            forall|x: int, y: int|
                0 <= x < y < upserts@.len() ==> (#[trigger] upserts@[x]).0 != (
                #[trigger] upserts@[y]).0,
        decreases n3 - i3,
    {
        broadcast use vstd::seq_lib::lemma_seq_contains_after_push;

        let p: (i32, (i32, i32)) = only_new[i3];
        let ghost old_upserts = upserts@;
        upserts.push((p.0, p.1.0, p.1.1));
        proof {
            assert forall|t: (i32, i32, i32)| #[trigger]
                upserts@.contains(t) implies (upserts_after_common.contains(t) || exists|j: int|
                0 <= j < i3 + 1 && #[trigger] only_new@[j] == (t.0, (t.1, t.2))) by {
                if !upserts_after_common.contains(t) {
                    if old_upserts.contains(t) {
                        let j = choose|j: int|
                            0 <= j < i3 && #[trigger] only_new@[j] == (t.0, (t.1, t.2));
                        assert(0 <= j < i3 + 1 && only_new@[j] == (t.0, (t.1, t.2)));
                    } else {
                        assert(only_new@[i3 as int] == (t.0, (t.1, t.2)));
                    }
                }
            }
            assert forall|t: (i32, i32, i32)|
                (upserts_after_common.contains(t) || exists|j: int|
                    0 <= j < i3 + 1 && #[trigger] only_new@[j] == (t.0, (t.1, t.2))) implies #[trigger]
                upserts@.contains(t) by {
                if upserts_after_common.contains(t) {
                    assert(old_upserts.contains(t));
                } else {
                    let j = choose|j: int|
                        0 <= j < i3 + 1 && #[trigger] only_new@[j] == (t.0, (t.1, t.2));
                    if j < i3 {
                        assert(old_upserts.contains(t));
                    } else {
                        assert(upserts@.last() == t);
                    }
                }
            }
            assert forall|x: int, y: int|
                0 <= x < y < upserts@.len() implies (#[trigger] upserts@[x]).0 != (
            #[trigger] upserts@[y]).0 by {
                if y == upserts@.len() - 1 {
                    let t = old_upserts[x];
                    assert(old_upserts.contains(t));
                    if upserts_after_common.contains(t) {
                        assert(assoc_map(old_assoc@).dom().contains(t.0 as int));
                        assert(!assoc_map(old_assoc@).dom().contains(
                            only_new@[i3 as int].0 as int,
                        ));
                    } else {
                        let j = choose|j: int|
                            0 <= j < i3 && #[trigger] only_new@[j] == (t.0, (t.1, t.2));
                        assert(only_new@[j].0 != only_new@[i3 as int].0);
                    }
                }
            }
        }
        i3 = i3 + 1;
    }

    // The overall leaderboard: drop the row when all stats vanished; rewrite
    // it when some upserted row beats every stored score.
    let remove_all: bool = old_stats.len() > 0 && entries.len() == 0;
    let mut all_upsert: Option<(i32, i32, i32)> = None;
    let n_up: usize = upserts.len();
    if n_up > 0 {
        let mut best: (i32, i32, i32) = upserts[0];
        proof {
            assert(upserts@.take(1) =~= seq![upserts@[0]]);
        }
        let mut k: usize = 1;
        while k < n_up
            invariant
                n_up == upserts@.len(),
                1 <= k <= n_up,
                best == spec_best_triple(upserts@.take(k as int)),
            decreases n_up - k,
        {
            proof {
                assert(upserts@.take(k as int + 1).drop_last() =~= upserts@.take(k as int));
                assert(upserts@.take(k as int + 1).last() == upserts@[k as int]);
            }
            if upserts[k].2 >= best.2 {
                best = upserts[k];
            }
            k = k + 1;
        }
        proof {
            assert(upserts@.take(n_up as int) =~= upserts@);
        }
        if old_stats.len() == 0 {
            all_upsert = Some(best);
        } else {
            let n_st: usize = old_stats.len();
            let mut mx: i32 = old_stats[0].score;
            proof {
                assert(old_stats@.take(1) =~= seq![old_stats@[0]]);
            }
            let mut k2: usize = 1;
            while k2 < n_st
                invariant
                    n_st == old_stats@.len(),
                    1 <= k2 <= n_st,
                    mx as int == spec_max_score(old_stats@.take(k2 as int)),
                decreases n_st - k2,
            {
                proof {
                    assert(old_stats@.take(k2 as int + 1).drop_last() =~= old_stats@.take(
                        k2 as int,
                    ));
                    assert(old_stats@.take(k2 as int + 1).last() == old_stats@[k2 as int]);
                }
                if old_stats[k2].score > mx {
                    mx = old_stats[k2].score;
                }
                k2 = k2 + 1;
            }
            proof {
                assert(old_stats@.take(n_st as int) =~= old_stats@);
            }
            if mx < best.2 {
                all_upsert = Some(best);
            }
        }
    }

    proof {
        broadcast use vstd::seq_lib::group_filter_ensures;

        let mo = assoc_map(old_assoc@);
        let mn = assoc_map(merged@);
        // the removals are exactly the stale champions
        assert forall|c: i32| #[trigger]
            removals@.contains(c) implies (om.dom().contains(c as int) && !nm.dom().contains(
            c as int,
        )) by {
            let j = choose|j: int| 0 <= j < removals@.len() && removals@[j] == c;
            let p = only_old@[j];
            assert(old_assoc@.contains(p));
            let k = choose|k: int| 0 <= k < old_assoc@.len() && old_assoc@[k] == p;
            lemma_assoc_map_dom(old_assoc@, c as int);
            assert(only_old_pred(p));
        }
        assert forall|c: i32| (om.dom().contains(c as int) && !nm.dom().contains(
            c as int,
        )) implies #[trigger] removals@.contains(c) by {
            lemma_assoc_map_dom(old_assoc@, c as int);
            let k = choose|k: int| 0 <= k < old_assoc@.len() && (#[trigger] old_assoc@[k]).0 == c;
            assert(only_old_pred(old_assoc@[k]));
            assert(old_assoc@.filter(only_old_pred).contains(old_assoc@[k]));
            let j = choose|j: int| 0 <= j < only_old@.len() && only_old@[j] == old_assoc@[k];
            assert(removals@[j] == c);
        }
        assert forall|x: int, y: int| 0 <= x < y < removals@.len() implies removals@[x]
            != removals@[y] by {
            assert(only_old@[x].0 == removals@[x] && only_old@[y].0 == removals@[y]);
        }
        // the upserts are exactly the new-or-changed merged rows
        assert forall|t: (i32, i32, i32)| #[trigger]
            upserts@.contains(t) implies (nm.dom().contains(t.0 as int) && nm[t.0 as int] == (
            t.1 as int,
            t.2 as int,
        ) && upsert_map(om, nm).dom().contains(t.0 as int)) by {
            if upserts_after_common.contains(t) {
                let j = choose|j: int|
                    0 <= j < common@.len() && (#[trigger] common@[j]).0 == t.0 && common@[j].1.0
                        != common@[j].1.1 && common@[j].1.1 == (t.1, t.2);
                let p = common@[j];
                assert(old_assoc@.contains((p.0, p.1.0)));
                let k = choose|k: int|
                    0 <= k < old_assoc@.len() && old_assoc@[k] == (p.0, p.1.0);
                lemma_assoc_map_index(old_assoc@, k);
                assert(om[t.0 as int] == (p.1.0.0 as int, p.1.0.1 as int));
                assert(nm[t.0 as int] == (p.1.1.0 as int, p.1.1.1 as int));
            } else {
                let j = choose|j: int|
                    0 <= j < only_new@.len() && #[trigger] only_new@[j] == (t.0, (t.1, t.2));
                let p = only_new@[j];
                assert(merged@.contains(p));
                let k = choose|k: int| 0 <= k < merged@.len() && merged@[k] == p;
                lemma_assoc_map_index(merged@, k);
                assert(only_new_pred(p));
                lemma_assoc_map_dom(old_assoc@, t.0 as int);
            }
        }
        assert forall|t: (i32, i32, i32)|
            (nm.dom().contains(t.0 as int) && nm[t.0 as int] == (t.1 as int, t.2 as int)
                && upsert_map(om, nm).dom().contains(t.0 as int)) implies #[trigger]
            upserts@.contains(t) by {
            let c = t.0;
            if om.dom().contains(c as int) {
                lemma_assoc_map_dom(old_assoc@, c as int);
                let k = choose|k: int|
                    0 <= k < old_assoc@.len() && (#[trigger] old_assoc@[k]).0 == c;
                lemma_assoc_map_index(old_assoc@, k);
                lemma_spec_common_complete(old_assoc@, mn, k);
                let j = choose|j: int|
                    0 <= j < spec_common(old_assoc@, mn).len() && (#[trigger] spec_common(
                        old_assoc@,
                        mn,
                    )[j]).0 == old_assoc@[k].0;
                let p = common@[j];
                assert(old_assoc@.contains((p.0, p.1.0)));
                let k3 = choose|k3: int|
                    0 <= k3 < old_assoc@.len() && old_assoc@[k3] == (p.0, p.1.0);
                assert(k3 == k);
                assert(om[c as int] == (p.1.0.0 as int, p.1.0.1 as int));
                assert(nm[c as int] == (p.1.1.0 as int, p.1.1.1 as int));
                assert(p.1.1 == (t.1, t.2));
                assert(p.1.0 != p.1.1);
                assert(upserts_after_common.contains(t));
            } else {
                lemma_assoc_map_dom(merged@, c as int);
                let k = choose|k: int| 0 <= k < merged@.len() && (#[trigger] merged@[k]).0 == c;
                lemma_assoc_map_index(merged@, k);
                lemma_assoc_map_dom(old_assoc@, c as int);
                assert(only_new_pred(merged@[k]));
                assert(merged@.filter(only_new_pred).contains(merged@[k]));
                let j = choose|j: int| 0 <= j < only_new@.len() && only_new@[j] == merged@[k];
                assert(merged@[k].1 == (t.1, t.2));
                assert(only_new@[j] == (t.0, (t.1, t.2)));
            }
        }
        // the deltas are exactly the changed common rows
        assert forall|t: (i32, i32, i32)| #[trigger]
            deltas@.contains(t) implies {
            om.dom().contains(t.0 as int) && nm.dom().contains(t.0 as int) && om[t.0 as int]
                != nm[t.0 as int] && t.1 as int == nm[t.0 as int].1 && t.2 as int == nm[t.0 as int].1
                - om[t.0 as int].1
        } by {
            let j = choose|j: int|
                0 <= j < common@.len() && (#[trigger] common@[j]).0 == t.0 && common@[j].1.0
                    != common@[j].1.1 && t.1 == common@[j].1.1.1 && t.2 as int == common@[j].1.1.1
                    - common@[j].1.0.1;
            let p = common@[j];
            assert(old_assoc@.contains((p.0, p.1.0)));
            let k = choose|k: int| 0 <= k < old_assoc@.len() && old_assoc@[k] == (p.0, p.1.0);
            lemma_assoc_map_index(old_assoc@, k);
            assert(om[t.0 as int] == (p.1.0.0 as int, p.1.0.1 as int));
            assert(nm[t.0 as int] == (p.1.1.0 as int, p.1.1.1 as int));
        }
        assert forall|t: (i32, i32, i32)|
            ({
                om.dom().contains(t.0 as int) && nm.dom().contains(t.0 as int) && om[t.0 as int]
                    != nm[t.0 as int] && t.1 as int == nm[t.0 as int].1 && t.2 as int
                    == nm[t.0 as int].1 - om[t.0 as int].1
            }) implies #[trigger] deltas@.contains(t) by {
            let c = t.0;
            lemma_assoc_map_dom(old_assoc@, c as int);
            let k = choose|k: int| 0 <= k < old_assoc@.len() && (#[trigger] old_assoc@[k]).0 == c;
            lemma_assoc_map_index(old_assoc@, k);
            lemma_spec_common_complete(old_assoc@, mn, k);
            let j = choose|j: int|
                0 <= j < spec_common(old_assoc@, mn).len() && (#[trigger] spec_common(
                    old_assoc@,
                    mn,
                )[j]).0 == old_assoc@[k].0;
            let p = common@[j];
            assert(old_assoc@.contains((p.0, p.1.0)));
            let k3 = choose|k3: int| 0 <= k3 < old_assoc@.len() && old_assoc@[k3] == (p.0, p.1.0);
            assert(k3 == k);
            assert(om[c as int] == (p.1.0.0 as int, p.1.0.1 as int));
            assert(nm[c as int] == (p.1.1.0 as int, p.1.1.1 as int));
            assert(p.1.0 != p.1.1);
            assert(t.1 == p.1.1.1 && t.2 as int == p.1.1.1 - p.1.0.1);
        }
        // non-negative champion ids, for decimal leaderboard names
        assert forall|x: int| 0 <= x < removals@.len() implies #[trigger] removals@[x] >= 0 by {
            let p = only_old@[x];
            assert(old_assoc@.contains(p));
            let k = choose|k: int| 0 <= k < old_assoc@.len() && old_assoc@[k] == p;
            assert(old_assoc@[k].0 == stats_assoc(old_stats@)[k].0);
        }
        assert forall|x: int| 0 <= x < upserts@.len() implies (#[trigger] upserts@[x]).0 >= 0 by {
            let t = upserts@[x];
            assert(upserts@.contains(t));
            assert(nm.dom().contains(t.0 as int));
            lemma_merge_champ_nonneg(entries@, t.0 as int);
        }
    }
    MasteryPlan {
        removals,
        upserts,
        deltas,
        remove_all_leaderboard: remove_all,
        all_leaderboard_upsert: all_upsert,
    }
}

/// How many statements stand before the per-champion removals in a sweep's
/// leaderboard batch: one when the overall row is removed first.
pub open spec fn lead_base(remove_all: bool) -> int {
    if remove_all {
        1
    } else {
        0
    }
}

/// The leaderboard statements one mastery sweep issues: the overall row
/// removal when all stats vanished, one per-champion removal for every
/// removed stats row, one per-champion upsert for every upserted row, and
/// the overall upsert when a new best score was found.
pub fn leaderboard_batch(plan: &MasteryPlan, user_id: i32) -> (b: crate::database::BatchQueryBuilder)
    requires
        forall|x: int| 0 <= x < plan.removals@.len() ==> #[trigger] plan.removals@[x] >= 0,
        forall|x: int| 0 <= x < plan.upserts@.len() ==> (#[trigger] plan.upserts@[x]).0 >= 0,
    ensures
        b.ops@.len() == lead_base(plan.remove_all_leaderboard) + plan.removals@.len() + plan.upserts@.len() + (
        if plan.all_leaderboard_upsert is Some {
            1int
        } else {
            0
        }),
        plan.remove_all_leaderboard ==> (b.ops@[0] matches crate::database::LeaderboardOp::Remove {
            user_id: u,
            leaderboard_id: l,
        } && u == user_id && l@ == "all"@),
        forall|j: int|
            0 <= j < plan.removals@.len() ==> (#[trigger] b.ops@[lead_base(plan.remove_all_leaderboard) + j] matches crate::database::LeaderboardOp::Remove { user_id: u, leaderboard_id: l }
                && u == user_id && l@ == crate::strings::spec_dec(plan.removals@[j] as int)),
        forall|j: int|
            0 <= j < plan.upserts@.len() ==> (#[trigger] b.ops@[lead_base(plan.remove_all_leaderboard) + plan.removals@.len() + j] matches crate::database::LeaderboardOp::Upsert {
                user_id: u,
                leaderboard_id: l,
                champion_id: c,
                level,
                score,
            } && u == user_id && l@ == crate::strings::spec_dec((plan.upserts@[j]).0 as int) && c
                == plan.upserts@[j].0 && level == plan.upserts@[j].1 && score
                == plan.upserts@[j].2),
        plan.all_leaderboard_upsert matches Some(t) ==> (b.ops@.last()
            matches crate::database::LeaderboardOp::Upsert {
            user_id: u,
            leaderboard_id: l,
            champion_id: c,
            level,
            score,
        } && u == user_id && l@ == "all"@ && c == t.0 && level == t.1 && score == t.2),
{
    let mut b = crate::database::BatchQueryBuilder::new();
    let ghost base: int = if plan.remove_all_leaderboard {
        1int
    } else {
        0
    };
    if plan.remove_all_leaderboard {
        b.remove_user_from_leaderboard(user_id, "all");
    }
    let n1: usize = plan.removals.len();
    let mut i: usize = 0;
    while i < n1
        invariant
            n1 == plan.removals@.len(),
            0 <= i <= n1,
            base == lead_base(plan.remove_all_leaderboard),
            forall|x: int| 0 <= x < plan.removals@.len() ==> #[trigger] plan.removals@[x] >= 0,
            b.ops@.len() == base + i,
            plan.remove_all_leaderboard ==> (b.ops@[0]
                matches crate::database::LeaderboardOp::Remove { user_id: u, leaderboard_id: l }
                && u == user_id && l@ == "all"@),
            forall|j: int|
                0 <= j < i ==> (#[trigger] b.ops@[base + j]
                    matches crate::database::LeaderboardOp::Remove {
                    user_id: u,
                    leaderboard_id: l,
                } && u == user_id && l@ == crate::strings::spec_dec(plan.removals@[j] as int)),
        decreases n1 - i,
    {
        let champ: i32 = plan.removals[i];
        let name: String = crate::strings::u64_to_dec(champ as u64);
        let ghost prev = b.ops@;
        b.remove_user_from_leaderboard(user_id, name.as_str());
        proof {
            assert forall|j: int|
                0 <= j < i + 1 implies (#[trigger] b.ops@[base + j]
                matches crate::database::LeaderboardOp::Remove { user_id: u, leaderboard_id: l }
                && u == user_id && l@ == crate::strings::spec_dec(plan.removals@[j] as int)) by {
                if j < i {
                    assert(b.ops@[base + j] == b.ops@.drop_last()[base + j]);
                } else {
                    assert(b.ops@[base + j] == b.ops@.last());
                }
            }
            if plan.remove_all_leaderboard {
                assert(b.ops@[0] == b.ops@.drop_last()[0]);
            }
        }
        i = i + 1;
    }
    let n2: usize = plan.upserts.len();
    let mut i2: usize = 0;
    while i2 < n2
        invariant
            n1 == plan.removals@.len(),
            n2 == plan.upserts@.len(),
            0 <= i2 <= n2,
            base == lead_base(plan.remove_all_leaderboard),
            forall|x: int| 0 <= x < plan.upserts@.len() ==> (#[trigger] plan.upserts@[x]).0 >= 0,
            b.ops@.len() == base + n1 + i2,
            plan.remove_all_leaderboard ==> (b.ops@[0]
                matches crate::database::LeaderboardOp::Remove { user_id: u, leaderboard_id: l }
                && u == user_id && l@ == "all"@),
            forall|j: int|
                0 <= j < n1 ==> (#[trigger] b.ops@[base + j]
                    matches crate::database::LeaderboardOp::Remove {
                    user_id: u,
                    leaderboard_id: l,
                } && u == user_id && l@ == crate::strings::spec_dec(plan.removals@[j] as int)),
            forall|j: int|
                0 <= j < i2 ==> (#[trigger] b.ops@[base + n1 + j]
                    matches crate::database::LeaderboardOp::Upsert {
                    user_id: u,
                    leaderboard_id: l,
                    champion_id: c,
                    level,
                    score,
                } && u == user_id && l@ == crate::strings::spec_dec((plan.upserts@[j]).0 as int)
                    && c == plan.upserts@[j].0 && level == plan.upserts@[j].1 && score
                    == plan.upserts@[j].2),
        decreases n2 - i2,
    {
        let t: (i32, i32, i32) = plan.upserts[i2];
        let name: String = crate::strings::u64_to_dec(t.0 as u64);
        let ghost prev = b.ops@;
        b.upsert_user_in_leaderboard(user_id, name, t);
        proof {
            assert forall|j: int|
                0 <= j < n1 implies (#[trigger] b.ops@[base + j]
                matches crate::database::LeaderboardOp::Remove { user_id: u, leaderboard_id: l }
                && u == user_id && l@ == crate::strings::spec_dec(plan.removals@[j] as int)) by {
                assert(b.ops@[base + j] == b.ops@.drop_last()[base + j]);
            }
            assert forall|j: int|
                0 <= j < i2 + 1 implies (#[trigger] b.ops@[base + n1 + j]
                matches crate::database::LeaderboardOp::Upsert {
                user_id: u,
                leaderboard_id: l,
                champion_id: c,
                level,
                score,
            } && u == user_id && l@ == crate::strings::spec_dec((plan.upserts@[j]).0 as int) && c
                == plan.upserts@[j].0 && level == plan.upserts@[j].1 && score
                == plan.upserts@[j].2) by {
                if j < i2 {
                    assert(b.ops@[base + n1 + j] == b.ops@.drop_last()[base + n1 + j]);
                } else {
                    assert(b.ops@[base + n1 + j] == b.ops@.last());
                }
            }
            if plan.remove_all_leaderboard {
                assert(b.ops@[0] == b.ops@.drop_last()[0]);
            }
        }
        i2 = i2 + 1;
    }
    match &plan.all_leaderboard_upsert {
        Some(t) => {
            let ghost prev = b.ops@;
            b.upsert_user_in_leaderboard(user_id, "all".to_owned(), *t);
            proof {
                assert forall|j: int|
                    0 <= j < n1 implies (#[trigger] b.ops@[base + j]
                    matches crate::database::LeaderboardOp::Remove {
                    user_id: u,
                    leaderboard_id: l,
                } && u == user_id && l@ == crate::strings::spec_dec(plan.removals@[j] as int)) by {
                    assert(b.ops@[base + j] == b.ops@.drop_last()[base + j]);
                }
                assert forall|j: int|
                    0 <= j < n2 implies (#[trigger] b.ops@[base + n1 + j]
                    matches crate::database::LeaderboardOp::Upsert {
                    user_id: u,
                    leaderboard_id: l,
                    champion_id: c,
                    level,
                    score,
                } && u == user_id && l@ == crate::strings::spec_dec((plan.upserts@[j]).0 as int)
                    && c == plan.upserts@[j].0 && level == plan.upserts@[j].1 && score
                    == plan.upserts@[j].2) by {
                    assert(b.ops@[base + n1 + j] == b.ops@.drop_last()[base + n1 + j]);
                }
                if plan.remove_all_leaderboard {
                    assert(b.ops@[0] == b.ops@.drop_last()[0]);
                }
            }
        },
        None => {},
    }
    b
}

/// The score change one sweep records for a champion: the difference of the
/// merged score against the stored one when the row changed, and 0 when the
/// row stayed (an unchanged row gets no time-series point).
pub open spec fn spec_sweep_delta(om: Map<int, (int, int)>, nm: Map<int, (int, int)>, c: int) -> int {
    if om.dom().contains(c) && nm.dom().contains(c) && om[c] != nm[c] {
        nm[c].1 - om[c].1
    } else {
        0
    }
}

/// The recorded score deltas for a champion, summed over a run of stats
/// states, each state being the stored map after one more sweep.
pub open spec fn sum_sweep_deltas(maps: Seq<Map<int, (int, int)>>, c: int) -> int
    decreases maps.len(),
{
    if maps.len() <= 1 {
        0
    } else {
        sum_sweep_deltas(maps.drop_last(), c) + spec_sweep_delta(
            maps[maps.len() - 2],
            maps.last(),
            c,
        )
    }
}

/// Over any window of sweeps in which a champion keeps a stats row, the
/// recorded score deltas add up to the net change of the stored score.
pub proof fn lemma_deltas_telescope(maps: Seq<Map<int, (int, int)>>, c: int)
    requires
        maps.len() >= 1,
        forall|i: int| 0 <= i < maps.len() ==> (#[trigger] maps[i]).dom().contains(c),
    ensures
        sum_sweep_deltas(maps, c) == maps.last()[c].1 - maps[0][c].1,
    decreases maps.len(),
{
    if maps.len() > 1 {
        let dl = maps.drop_last();
        assert(forall|i: int| 0 <= i < dl.len() ==> dl[i] == maps[i]);
        lemma_deltas_telescope(dl, c);
        assert(dl[0] == maps[0]);
        assert(dl.last() == maps[maps.len() - 2]);
    }
}

/// What the upstream answered when a linked account's summoner was looked
/// up.
pub enum SummonerLookup {
    /// The summoner still exists.
    Found,
    /// The upstream says the summoner is gone: the account was transferred
    /// or deleted.
    NotFound,
    /// The lookup itself failed; nothing can be concluded.
    Failed,
}

/// What one account sweep does with one linked account.
pub enum AccountAction {
    /// Delete the account row, recompute `has_accounts`, and send the user a
    /// transfer notification.
    RemoveAndNotify,
    /// Leave the account untouched and move on: the upstream had a problem.
    Skip,
    /// The account still exists; go on to refresh its identifiers.
    Keep,
}

/// Decides what to do with one linked account from the summoner lookup: only
/// a definite not-found answer removes the account, and any upstream failure
/// changes nothing.
pub fn account_action(lookup: &SummonerLookup) -> (r: AccountAction)
    ensures
        r == match lookup {
            SummonerLookup::NotFound => AccountAction::RemoveAndNotify,
            SummonerLookup::Failed => AccountAction::Skip,
            SummonerLookup::Found => AccountAction::Keep,
        },
{
    match lookup {
        SummonerLookup::NotFound => AccountAction::RemoveAndNotify,
        SummonerLookup::Failed => AccountAction::Skip,
        SummonerLookup::Found => AccountAction::Keep,
    }
}

/// Whether a freshly fetched in-game identity differs from the stored one,
/// so that it must be persisted.
pub fn riot_id_changed(
    old_game_name: &Option<String>,
    old_tagline: &Option<String>,
    new_game_name: &Option<String>,
    new_tagline: &Option<String>,
) -> (r: bool)
    ensures
        r == !((match (old_game_name, new_game_name) {
            (Some(a), Some(b)) => a@ == b@,
            (None, None) => true,
            _ => false,
        }) && (match (old_tagline, new_tagline) {
            (Some(a), Some(b)) => a@ == b@,
            (None, None) => true,
            _ => false,
        })),
{
    let games_equal: bool = crate::strings::opt_str_eq(old_game_name, new_game_name);
    let tags_equal: bool = crate::strings::opt_str_eq(old_tagline, new_tagline);
    !(games_equal && tags_equal)
}

/// Deletes one account row and recomputes whether the user still has any
/// linked account, in the same step.
pub fn remove_account_rows(accounts: Vec<crate::db_model::LeagueAccount>, account_id: i32) -> (r: (
    Vec<crate::db_model::LeagueAccount>,
    bool,
))
    ensures
        r.0@ == accounts@.filter(|a: crate::db_model::LeagueAccount| a.id != account_id),
        r.1 == (r.0@.len() > 0),
{
    let ghost orig = accounts@;
    let ghost pred = |a: crate::db_model::LeagueAccount| a.id != account_id;
    let mut input = accounts;
    let mut kept: Vec<crate::db_model::LeagueAccount> = Vec::new();
    let ghost mut i: int = 0;
    proof {
        reveal(Seq::filter);
        assert(orig.take(0) =~= Seq::<crate::db_model::LeagueAccount>::empty());
        assert(input@ =~= orig.skip(0));
        assert(kept@ =~= orig.take(0).filter(pred));
    }
    while input.len() > 0
        invariant
            0 <= i <= orig.len(),
            input@ == orig.skip(i),
            pred == (|a: crate::db_model::LeagueAccount| a.id != account_id),
            kept@ == orig.take(i).filter(pred),
        decreases input@.len(),
    {
        proof {
            reveal(Seq::filter);
            assert(orig.take(i + 1).drop_last() =~= orig.take(i));
            assert(orig.take(i + 1).last() == orig[i]);
            assert(input@[0] == orig[i]);
        }
        let row: crate::db_model::LeagueAccount = input.remove(0);
        proof {
            assert(input@ =~= orig.skip(i + 1));
        }
        if row.id != account_id {
            kept.push(row);
        }
        proof {
            i = i + 1;
        }
    }
    proof {
        assert(orig.skip(i) =~= input@);
        assert(i == orig.len());
        assert(orig.take(i) =~= orig);
    }
    let has_accounts: bool = kept.len() > 0;
    (kept, has_accounts)
}

proof fn lemma_merge_champ_nonneg(entries: Seq<MasteryEntry>, c: int)
    requires
        entries_wf(entries),
        spec_merge(entries).dom().contains(c),
    ensures
        c >= 0,
    decreases entries.len(),
{
    if entries.len() > 0 {
        if c == entries.last().champion_id as int {
            assert(entries[entries.len() - 1].champion_id >= 0);
        } else {
            assert(entries_wf(entries.drop_last()));
            lemma_merge_champ_nonneg(entries.drop_last(), c);
        }
    }
}

} // verus!
