use vstd::prelude::*;

use crate::db_model::UserRank;
use crate::evaluate::{spec_tier_ordinal, tier_to_numeric};
use crate::strings::str_eq;

verus! {

/// One ranked entry as the upstream API reports it: a queue name and a tier
/// name.
pub struct RankEntry {
    pub queue: String,
    pub tier: String,
}

/// The map a queue-keyed association list denotes; later bindings win.
pub open spec fn queue_map(s: Seq<(String, i32)>) -> Map<Seq<char>, int>
    decreases s.len(),
{
    if s.len() == 0 {
        Map::empty()
    } else {
        queue_map(s.drop_last()).insert(s.last().0@, s.last().1 as int)
    }
}

/// No queue name appears twice.
pub open spec fn unique_queues(s: Seq<(String, i32)>) -> bool {
    forall|i: int, j: int| 0 <= i < j < s.len() ==> (#[trigger] s[i]).0@ != (#[trigger] s[j]).0@
}

proof fn lemma_queue_map_dom(s: Seq<(String, i32)>, q: Seq<char>)
    ensures
        queue_map(s).dom().contains(q) <==> exists|j: int|
            0 <= j < s.len() && (#[trigger] s[j]).0@ == q,
    decreases s.len(),
{
    if s.len() > 0 {
        lemma_queue_map_dom(s.drop_last(), q);
        if s.last().0@ == q {
            assert(s[s.len() - 1].0@ == q);
        } else {
            if exists|j: int| 0 <= j < s.len() && (#[trigger] s[j]).0@ == q {
                let j = choose|j: int| 0 <= j < s.len() && (#[trigger] s[j]).0@ == q;
                if j < s.len() - 1 {
                    assert(s.drop_last()[j].0@ == q);
                }
            }
        }
    }
}

proof fn lemma_queue_map_index(s: Seq<(String, i32)>, i: int)
    requires
        unique_queues(s),
        0 <= i < s.len(),
    ensures
        queue_map(s).dom().contains(s[i].0@),
        queue_map(s)[s[i].0@] == s[i].1 as int,
    decreases s.len(),
{
    if i == s.len() - 1 {
    } else {
        assert(unique_queues(s.drop_last()));
        assert(s.drop_last()[i] == s[i]);
        lemma_queue_map_index(s.drop_last(), i);
        assert(s[s.len() - 1].0@ != s[i].0@);
    }
}

/// Looks a queue up in an association list without duplicate queues.
fn queue_get(s: &Vec<(String, i32)>, queue: &str) -> (r: Option<i32>)
    requires
        unique_queues(s@),
    ensures
        match r {
            Some(v) => queue_map(s@).dom().contains(queue@) && queue_map(s@)[queue@] == v as int,
            None => !queue_map(s@).dom().contains(queue@),
        },
{
    let n: usize = s.len();
    let mut i: usize = 0;
    while i < n
        invariant
            unique_queues(s@),
            n == s@.len(),
            0 <= i <= n,
            forall|j: int| 0 <= j < i ==> (#[trigger] s@[j]).0@ != queue@,
        decreases n - i,
    {
        if str_eq(s[i].0.as_str(), queue) {
            proof {
                lemma_queue_map_index(s@, i as int);
            }
            return Some(s[i].1);
        }
        i = i + 1;
    }
    proof {
        lemma_queue_map_dom(s@, queue@);
    }
    None
}

/// The stored ranks, parsed: queue name to tier ordinal, rows with an
/// unknown tier name dropped.
pub open spec fn stored_rank_map(ranks: Seq<UserRank>) -> Map<Seq<char>, int>
    decreases ranks.len(),
{
    if ranks.len() == 0 {
        Map::empty()
    } else {
        let m = stored_rank_map(ranks.drop_last());
        let ord = spec_tier_ordinal(ranks.last().tier@);
        if ord == -1 {
            m
        } else {
            m.insert(ranks.last().queue@, ord)
        }
    }
}

/// The upstream entries, merged: for each queue the highest known tier,
/// entries with an unknown tier name dropped.
pub open spec fn merged_rank_map(entries: Seq<RankEntry>) -> Map<Seq<char>, int>
    decreases entries.len(),
{
    if entries.len() == 0 {
        Map::empty()
    } else {
        let m = merged_rank_map(entries.drop_last());
        let e = entries.last();
        let ord = spec_tier_ordinal(e.tier@);
        if ord == -1 {
            m
        } else if m.dom().contains(e.queue@) && m[e.queue@] >= ord {
            m
        } else {
            m.insert(e.queue@, ord)
        }
    }
}

/// The tier name for a ladder ordinal from 1 to 9.
pub open spec fn spec_tier_name(ord: int) -> Seq<char> {
    if ord == 1 {
        "IRON"@
    } else if ord == 2 {
        "BRONZE"@
    } else if ord == 3 {
        "SILVER"@
    } else if ord == 4 {
        "GOLD"@
    } else if ord == 5 {
        "PLATINUM"@
    } else if ord == 6 {
        "DIAMOND"@
    } else if ord == 7 {
        "MASTER"@
    } else if ord == 8 {
        "GRANDMASTER"@
    } else {
        "CHALLENGER"@
    }
}

/// The tier name for a ladder ordinal.
fn tier_name(ord: i32) -> (r: &'static str)
    requires
        1 <= ord <= 9,
    ensures
        r@ == spec_tier_name(ord as int),
{
    if ord == 1 {
        "IRON"
    } else if ord == 2 {
        "BRONZE"
    } else if ord == 3 {
        "SILVER"
    } else if ord == 4 {
        "GOLD"
    } else if ord == 5 {
        "PLATINUM"
    } else if ord == 6 {
        "DIAMOND"
    } else if ord == 7 {
        "MASTER"
    } else if ord == 8 {
        "GRANDMASTER"
    } else {
        "CHALLENGER"
    }
}

/// Some element of the list reads as the given queue name.
pub open spec fn has_queue(s: Seq<String>, q: Seq<char>) -> bool {
    exists|j: int| 0 <= j < s.len() && (#[trigger] s[j])@ == q
}

/// Some pair in the list carries the given queue name.
pub open spec fn has_queue_pair(s: Seq<(String, String)>, q: Seq<char>) -> bool {
    exists|j: int| 0 <= j < s.len() && (#[trigger] s[j]).0@ == q
}

proof fn lemma_has_queue_grow(prev: Seq<String>, s: Seq<String>)
    requires
        prev.len() <= s.len(),
        forall|j: int| 0 <= j < prev.len() ==> #[trigger] s[j] == prev[j],
    ensures
        forall|q: Seq<char>| #[trigger] has_queue(prev, q) ==> has_queue(s, q),
{
    assert forall|q: Seq<char>| #[trigger] has_queue(prev, q) implies has_queue(s, q) by {
        let j = choose|j: int| 0 <= j < prev.len() && (#[trigger] prev[j])@ == q;
        assert(s[j]@ == q);
    }
}

proof fn lemma_has_queue_pair_grow(prev: Seq<(String, String)>, s: Seq<(String, String)>)
    requires
        prev.len() <= s.len(),
        forall|j: int| 0 <= j < prev.len() ==> #[trigger] s[j] == prev[j],
    ensures
        forall|q: Seq<char>| #[trigger] has_queue_pair(prev, q) ==> has_queue_pair(s, q),
{
    assert forall|q: Seq<char>| #[trigger] has_queue_pair(prev, q) implies has_queue_pair(s, q) by {
        let j = choose|j: int| 0 <= j < prev.len() && (#[trigger] prev[j]).0@ == q;
        assert(s[j].0@ == q);
    }
}

/// Everything one rank sweep writes: rank rows to delete, rows whose tier
/// changed, and rows to insert, each carrying queue and tier names.
pub struct RankPlan {
    pub removals: Vec<String>,
    pub updates: Vec<(String, String)>,
    pub inserts: Vec<(String, String)>,
}

/// Computes one rank sweep: merges the upstream entries per queue (keeping
/// the highest tier), parses the stored rows (dropping unknown tiers), and
/// diffs the two into removals, tier updates, and inserts.
pub fn rank_plan(old_ranks: &Vec<UserRank>, entries: &Vec<RankEntry>) -> (plan: RankPlan)
    requires
        forall|i: int, j: int|
            0 <= i < j < old_ranks@.len() ==> (#[trigger] old_ranks@[i]).queue@ != (
            #[trigger] old_ranks@[j]).queue@,
    ensures
        forall|j: int|
            0 <= j < plan.removals@.len() ==> {
                let q = (#[trigger] plan.removals@[j])@;
                stored_rank_map(old_ranks@).dom().contains(q) && !merged_rank_map(
                    entries@,
                ).dom().contains(q)
            },
        forall|q: Seq<char>|
            #[trigger] stored_rank_map(old_ranks@).dom().contains(q) && !merged_rank_map(
                entries@,
            ).dom().contains(q) ==> has_queue(plan.removals@, q),
        forall|x: int, y: int|
            0 <= x < y < plan.removals@.len() ==> (#[trigger] plan.removals@[x])@ != (
            #[trigger] plan.removals@[y])@,
        forall|j: int|
            0 <= j < plan.updates@.len() ==> {
                let p = #[trigger] plan.updates@[j];
                let om = stored_rank_map(old_ranks@);
                let nm = merged_rank_map(entries@);
                om.dom().contains(p.0@) && nm.dom().contains(p.0@) && om[p.0@] != nm[p.0@]
                    && p.1@ == spec_tier_name(nm[p.0@])
            },
        forall|q: Seq<char>|
            (#[trigger] stored_rank_map(old_ranks@).dom().contains(q) && merged_rank_map(
                entries@,
            ).dom().contains(q) && stored_rank_map(old_ranks@)[q] != merged_rank_map(entries@)[q])
                ==> has_queue_pair(plan.updates@, q),
        forall|x: int, y: int|
            0 <= x < y < plan.updates@.len() ==> (#[trigger] plan.updates@[x]).0@ != (
            #[trigger] plan.updates@[y]).0@,
        forall|j: int|
            0 <= j < plan.inserts@.len() ==> {
                let p = #[trigger] plan.inserts@[j];
                let nm = merged_rank_map(entries@);
                !stored_rank_map(old_ranks@).dom().contains(p.0@) && nm.dom().contains(p.0@)
                    && p.1@ == spec_tier_name(nm[p.0@])
            },
        forall|q: Seq<char>|
            #[trigger] merged_rank_map(entries@).dom().contains(q) && !stored_rank_map(
                old_ranks@,
            ).dom().contains(q) ==> has_queue_pair(plan.inserts@, q),
        forall|x: int, y: int|
            0 <= x < y < plan.inserts@.len() ==> (#[trigger] plan.inserts@[x]).0@ != (
            #[trigger] plan.inserts@[y]).0@,
{
    let ghost om = stored_rank_map(old_ranks@);
    let ghost nm = merged_rank_map(entries@);

    // Parse the stored rows, dropping tiers outside the ladder.
    let mut old_f: Vec<(String, i32)> = Vec::new();
    let n1: usize = old_ranks.len();
    let mut i: usize = 0;
    proof {
        assert(old_ranks@.take(0) =~= Seq::<UserRank>::empty());
        assert(queue_map(old_f@) =~= stored_rank_map(old_ranks@.take(0)));
    }
    while i < n1
        invariant
            forall|x: int, y: int|
                0 <= x < y < old_ranks@.len() ==> (#[trigger] old_ranks@[x]).queue@ != (
                #[trigger] old_ranks@[y]).queue@,
            n1 == old_ranks@.len(),
            0 <= i <= n1,
            unique_queues(old_f@),
            queue_map(old_f@) == stored_rank_map(old_ranks@.take(i as int)),
            forall|j: int|
                0 <= j < old_f@.len() ==> exists|k: int|
                    0 <= k < i && (#[trigger] old_f@[j]).0@ == old_ranks@[k].queue@,
        decreases n1 - i,
    {
        proof {
            assert(old_ranks@.take(i as int + 1).drop_last() =~= old_ranks@.take(i as int));
            assert(old_ranks@.take(i as int + 1).last() == old_ranks@[i as int]);
        }
        let ord: i32 = tier_to_numeric(old_ranks[i].tier.as_str());
        if ord != -1 {
            let ghost prev = old_f@;
            old_f.push((old_ranks[i].queue.clone(), ord));
            proof {
                assert(old_f@.drop_last() =~= prev);
                assert(old_f@.last().0@ == old_ranks@[i as int].queue@);
                assert forall|x: int, y: int|
                    0 <= x < y < old_f@.len() implies (#[trigger] old_f@[x]).0@ != (
                #[trigger] old_f@[y]).0@ by {
                    if y == old_f@.len() - 1 {
                        let k = choose|k: int|
                            0 <= k < i && (#[trigger] prev[x]).0@ == old_ranks@[k].queue@;
                        assert(old_ranks@[k].queue@ != old_ranks@[i as int].queue@);
                        assert(old_f@[x] == prev[x]);
                    } else {
                        assert(old_f@[x] == prev[x] && old_f@[y] == prev[y]);
                    }
                }
                assert(queue_map(old_f@) == stored_rank_map(old_ranks@.take(i as int + 1)));
            }
        }
        i = i + 1;
    }
    proof {
        assert(old_ranks@.take(n1 as int) =~= old_ranks@);
    }

    // Merge the upstream entries, keeping the best tier per queue.
    let mut new_f: Vec<(String, i32)> = Vec::new();
    let n2: usize = entries.len();
    let mut i2: usize = 0;
    proof {
        assert(entries@.take(0) =~= Seq::<RankEntry>::empty());
        assert(queue_map(new_f@) =~= merged_rank_map(entries@.take(0)));
    }
    while i2 < n2
        invariant
            n2 == entries@.len(),
            0 <= i2 <= n2,
            unique_queues(new_f@),
            queue_map(new_f@) == merged_rank_map(entries@.take(i2 as int)),
            forall|j: int| 1 <= (#[trigger] new_f@[j]).1 <= 9 || !(0 <= j < new_f@.len()),
        decreases n2 - i2,
    {
        proof {
            assert(entries@.take(i2 as int + 1).drop_last() =~= entries@.take(i2 as int));
            assert(entries@.take(i2 as int + 1).last() == entries@[i2 as int]);
        }
        let ord: i32 = tier_to_numeric(entries[i2].tier.as_str());
        if ord != -1 {
            // find the queue if it is already there
            let m: usize = new_f.len();
            let mut idx: usize = 0;
            let mut found: bool = false;
            while idx < m && !found
                invariant
                    n2 == entries@.len(),
                    0 <= i2 < n2,
                    m == new_f@.len(),
                    0 <= idx <= m,
                    found ==> idx < m && new_f@[idx as int].0@ == entries@[i2 as int].queue@,
                    !found ==> forall|j: int|
                        0 <= j < idx ==> (#[trigger] new_f@[j]).0@ != entries@[i2 as int].queue@,
                decreases m - idx + if found {
                    0int
                } else {
                    1int
                },
            {
                if str_eq(new_f[idx].0.as_str(), entries[i2].queue.as_str()) {
                    found = true;
                } else {
                    idx = idx + 1;
                }
            }
            if found {
                proof {
                    lemma_queue_map_index(new_f@, idx as int);
                }
                if new_f[idx].1 < ord {
                    let ghost prev = new_f@;
                    let q: String = new_f[idx].0.clone();
                    new_f[idx] = (q, ord);
                    proof {
                        lemma_queue_map_update(prev, idx as int, ord);
                        assert(queue_map(new_f@) == merged_rank_map(entries@.take(i2 as int + 1)));
                    }
                } else {
                    proof {
                        assert(queue_map(new_f@) == merged_rank_map(entries@.take(i2 as int + 1)));
                    }
                }
            } else {
                proof {
                    lemma_queue_map_dom(new_f@, entries@[i2 as int].queue@);
                }
                let ghost prev = new_f@;
                new_f.push((entries[i2].queue.clone(), ord));
                proof {
                    assert(new_f@.drop_last() =~= prev);
                    assert forall|x: int, y: int|
                        0 <= x < y < new_f@.len() implies (#[trigger] new_f@[x]).0@ != (
                    #[trigger] new_f@[y]).0@ by {
                        if y == new_f@.len() - 1 {
                            assert(new_f@[x] == prev[x]);
                            lemma_queue_map_dom(prev, prev[x].0@);
                        } else {
                            assert(new_f@[x] == prev[x] && new_f@[y] == prev[y]);
                        }
                    }
                    assert(queue_map(new_f@) == merged_rank_map(entries@.take(i2 as int + 1)));
                }
            }
        }
        i2 = i2 + 1;
    }
    proof {
        assert(entries@.take(n2 as int) =~= entries@);
    }

    // Diff the two maps. Beside each output vector a ghost list records, for
    // each element, the index of the binding it came from.
    let mut removals: Vec<String> = Vec::new();
    let mut updates: Vec<(String, String)> = Vec::new();
    let ghost mut rem_src: Seq<int> = Seq::empty();
    let ghost mut upd_src: Seq<int> = Seq::empty();
    let n3: usize = old_f.len();
    let mut i3: usize = 0;
    while i3 < n3
        invariant
            n3 == old_f@.len(),
            0 <= i3 <= n3,
            unique_queues(old_f@),
            unique_queues(new_f@),
            om == queue_map(old_f@),
            nm == queue_map(new_f@),
            forall|j: int| 1 <= (#[trigger] new_f@[j]).1 <= 9 || !(0 <= j < new_f@.len()),
            rem_src.len() == removals@.len(),
            upd_src.len() == updates@.len(),
            forall|j: int|
                0 <= j < removals@.len() ==> 0 <= #[trigger] rem_src[j] < i3,
            forall|j: int|
                0 <= j < removals@.len() ==> (#[trigger] removals@[j])@ == old_f@[rem_src[j]].0@
                    && !nm.dom().contains(old_f@[rem_src[j]].0@),
            forall|x: int, y: int|
                0 <= x < y < removals@.len() ==> #[trigger] rem_src[x] < #[trigger] rem_src[y],
            forall|j: int|
                0 <= j < updates@.len() ==> 0 <= #[trigger] upd_src[j] < i3,
            forall|j: int|
                0 <= j < updates@.len() ==> (#[trigger] updates@[j]).0@ == old_f@[upd_src[j]].0@
                    && nm.dom().contains(old_f@[upd_src[j]].0@) && om[old_f@[upd_src[j]].0@]
                    != nm[old_f@[upd_src[j]].0@] && updates@[j].1@ == spec_tier_name(
                    nm[old_f@[upd_src[j]].0@],
                ),
            forall|x: int, y: int|
                0 <= x < y < updates@.len() ==> #[trigger] upd_src[x] < #[trigger] upd_src[y],
            forall|k: int|
                0 <= k < i3 && !nm.dom().contains((#[trigger] old_f@[k]).0@) ==> has_queue(
                    removals@,
                    old_f@[k].0@,
                ),
            forall|k: int|
                0 <= k < i3 && nm.dom().contains((#[trigger] old_f@[k]).0@) && om[old_f@[k].0@]
                    != nm[old_f@[k].0@] ==> has_queue_pair(updates@, old_f@[k].0@),
        decreases n3 - i3,
    {
        proof {
            lemma_queue_map_index(old_f@, i3 as int);
        }
        let old_ord: i32 = old_f[i3].1;
        match queue_get(&new_f, old_f[i3].0.as_str()) {
            None => {
                let ghost prev = removals@;
                removals.push(old_f[i3].0.clone());
                proof {
                    rem_src = rem_src.push(i3 as int);
                    assert(removals@.drop_last() =~= prev);
                    assert(forall|j: int|
                        0 <= j < prev.len() ==> #[trigger] removals@[j] == prev[j]);
                    assert(forall|j: int|
                        0 <= j < prev.len() ==> #[trigger] rem_src[j] == rem_src.drop_last()[j]);
                    assert(removals@.last()@ == old_f@[i3 as int].0@);
                    assert(rem_src.last() == i3 as int);
                    lemma_has_queue_grow(prev, removals@);
                    assert(has_queue(removals@, old_f@[i3 as int].0@));
                }
            },
            Some(new_ord) => {
                if new_ord != old_ord {
                    proof {
                        lemma_queue_map_dom(new_f@, old_f@[i3 as int].0@);
                        let kq = choose|kq: int|
                            0 <= kq < new_f@.len() && (#[trigger] new_f@[kq]).0@
                                == old_f@[i3 as int].0@;
                        lemma_queue_map_index(new_f@, kq);
                        assert(1 <= new_ord <= 9);
                    }
                    let name: &str = tier_name(new_ord);
                    let ghost prev = updates@;
                    updates.push((old_f[i3].0.clone(), name.to_owned()));
                    proof {
                        upd_src = upd_src.push(i3 as int);
                        assert(updates@.drop_last() =~= prev);
                        assert(forall|j: int|
                            0 <= j < prev.len() ==> #[trigger] updates@[j] == prev[j]);
                        assert(forall|j: int|
                            0 <= j < prev.len() ==> #[trigger] upd_src[j] == upd_src.drop_last()[
                                j
                            ]);
                        assert(updates@.last().0@ == old_f@[i3 as int].0@);
                        assert(upd_src.last() == i3 as int);
                        lemma_has_queue_pair_grow(prev, updates@);
                        assert(has_queue_pair(updates@, old_f@[i3 as int].0@));
                    }
                }
            },
        }
        i3 = i3 + 1;
    }
    let mut inserts: Vec<(String, String)> = Vec::new();
    let ghost mut ins_src: Seq<int> = Seq::empty();
    let n4: usize = new_f.len();
    let mut i4: usize = 0;
    while i4 < n4
        invariant
            n4 == new_f@.len(),
            0 <= i4 <= n4,
            unique_queues(old_f@),
            unique_queues(new_f@),
            om == queue_map(old_f@),
            nm == queue_map(new_f@),
            forall|j: int| 1 <= (#[trigger] new_f@[j]).1 <= 9 || !(0 <= j < new_f@.len()),
            ins_src.len() == inserts@.len(),
            forall|j: int|
                0 <= j < inserts@.len() ==> 0 <= #[trigger] ins_src[j] < i4,
            forall|j: int|
                0 <= j < inserts@.len() ==> (#[trigger] inserts@[j]).0@ == new_f@[ins_src[j]].0@
                    && !om.dom().contains(new_f@[ins_src[j]].0@) && inserts@[j].1@
                    == spec_tier_name(nm[new_f@[ins_src[j]].0@]),
            forall|x: int, y: int|
                0 <= x < y < inserts@.len() ==> #[trigger] ins_src[x] < #[trigger] ins_src[y],
            forall|k: int|
                0 <= k < i4 && !om.dom().contains((#[trigger] new_f@[k]).0@) ==> has_queue_pair(
                    inserts@,
                    new_f@[k].0@,
                ),
        decreases n4 - i4,
    {
        proof {
            lemma_queue_map_index(new_f@, i4 as int);
        }
        match queue_get(&old_f, new_f[i4].0.as_str()) {
            None => {
                let name: &str = tier_name(new_f[i4].1);
                let ghost prev = inserts@;
                inserts.push((new_f[i4].0.clone(), name.to_owned()));
                proof {
                    ins_src = ins_src.push(i4 as int);
                    assert(inserts@.drop_last() =~= prev);
                    assert(forall|j: int|
                        0 <= j < prev.len() ==> #[trigger] inserts@[j] == prev[j]);
                    assert(forall|j: int|
                        0 <= j < prev.len() ==> #[trigger] ins_src[j] == ins_src.drop_last()[j]);
                    assert(inserts@.last().0@ == new_f@[i4 as int].0@);
                    assert(ins_src.last() == i4 as int);
                    lemma_has_queue_pair_grow(prev, inserts@);
                    assert(has_queue_pair(inserts@, new_f@[i4 as int].0@));
                }
            },
            Some(_) => {},
        }
        i4 = i4 + 1;
    }
    proof {
        // each output traces back to a binding, so the map facts follow
        assert forall|j: int| 0 <= j < removals@.len() implies {
            let q = (#[trigger] removals@[j])@;
            om.dom().contains(q) && !nm.dom().contains(q)
        } by {
            lemma_queue_map_index(old_f@, rem_src[j]);
        }
        assert forall|x: int, y: int|
            0 <= x < y < removals@.len() implies (#[trigger] removals@[x])@ != (
        #[trigger] removals@[y])@ by {
            assert(rem_src[x] < rem_src[y]);
            assert(old_f@[rem_src[x]].0@ != old_f@[rem_src[y]].0@);
        }
        assert forall|q: Seq<char>|
            #[trigger] stored_rank_map(old_ranks@).dom().contains(q) && !merged_rank_map(
                entries@,
            ).dom().contains(q) implies has_queue(removals@, q) by {
            lemma_queue_map_dom(old_f@, q);
            let k = choose|k: int| 0 <= k < old_f@.len() && (#[trigger] old_f@[k]).0@ == q;
            assert(has_queue(removals@, old_f@[k].0@));
        }
        assert forall|j: int| 0 <= j < updates@.len() implies {
            let p = #[trigger] updates@[j];
            om.dom().contains(p.0@) && nm.dom().contains(p.0@) && om[p.0@] != nm[p.0@] && p.1@
                == spec_tier_name(nm[p.0@])
        } by {
            lemma_queue_map_index(old_f@, upd_src[j]);
        }
        assert forall|x: int, y: int|
            0 <= x < y < updates@.len() implies (#[trigger] updates@[x]).0@ != (
        #[trigger] updates@[y]).0@ by {
            assert(upd_src[x] < upd_src[y]);
            assert(old_f@[upd_src[x]].0@ != old_f@[upd_src[y]].0@);
        }
        assert forall|q: Seq<char>|
            (#[trigger] stored_rank_map(old_ranks@).dom().contains(q) && merged_rank_map(
                entries@,
            ).dom().contains(q) && stored_rank_map(old_ranks@)[q] != merged_rank_map(entries@)[q])
                implies has_queue_pair(updates@, q) by {
            lemma_queue_map_dom(old_f@, q);
            let k = choose|k: int| 0 <= k < old_f@.len() && (#[trigger] old_f@[k]).0@ == q;
            assert(has_queue_pair(updates@, old_f@[k].0@));
        }
        assert forall|j: int| 0 <= j < inserts@.len() implies {
            let p = #[trigger] inserts@[j];
            !om.dom().contains(p.0@) && nm.dom().contains(p.0@) && p.1@ == spec_tier_name(nm[p.0@])
        } by {
            lemma_queue_map_index(new_f@, ins_src[j]);
        }
        assert forall|x: int, y: int|
            0 <= x < y < inserts@.len() implies (#[trigger] inserts@[x]).0@ != (
        #[trigger] inserts@[y]).0@ by {
            assert(ins_src[x] < ins_src[y]);
            assert(new_f@[ins_src[x]].0@ != new_f@[ins_src[y]].0@);
        }
        assert forall|q: Seq<char>|
            #[trigger] merged_rank_map(entries@).dom().contains(q) && !stored_rank_map(
                old_ranks@,
            ).dom().contains(q) implies has_queue_pair(inserts@, q) by {
            lemma_queue_map_dom(new_f@, q);
            let k = choose|k: int| 0 <= k < new_f@.len() && (#[trigger] new_f@[k]).0@ == q;
            assert(has_queue_pair(inserts@, new_f@[k].0@));
        }
    }
    RankPlan { removals, updates, inserts }
}

proof fn lemma_queue_map_update(s: Seq<(String, i32)>, i: int, v: i32)
    requires
        unique_queues(s),
        0 <= i < s.len(),
    ensures
        queue_map(s.update(i, (s[i].0, v))) =~= queue_map(s).insert(s[i].0@, v as int),
        unique_queues(s.update(i, (s[i].0, v))),
    decreases s.len(),
{
    let t = s.update(i, (s[i].0, v));
    assert(unique_queues(t)) by {
        assert(forall|x: int| 0 <= x < t.len() ==> (#[trigger] t[x]).0@ == s[x].0@);
    }
    if i == s.len() - 1 {
        assert(t.drop_last() =~= s.drop_last());
        assert(t.last() == (s[i].0, v));
    } else {
        assert(t.drop_last() =~= s.drop_last().update(i, (s[i].0, v)));
        assert(t.last() == s.last());
        assert(unique_queues(s.drop_last()));
        assert(s.drop_last()[i] == s[i]);
        lemma_queue_map_update(s.drop_last(), i, v);
        assert(s.last().0@ != s[i].0@);
    }
}

} // verus!
