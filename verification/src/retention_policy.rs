//! Retention policy for backup files: which backups to keep.
//!
//! - Manual backups are always kept.
//! - Dailies: the `daily_retain` most recent are kept.
//! - Monthly slots: for each of the first `monthly_retain` calendar months
//!   met walking the list (newest first), the first backup of that month is
//!   kept, whatever its kind.
use vstd::prelude::*;
use vstd::string::*;

use crate::ai_validators::{distinct, lemma_distinct};
use crate::backup::{local_ym_prefix, BackupKind, BackupRecord};
use crate::clock::{epoch_secs_spec, local_rendering};
use crate::segments::views;
use crate::text::{chars_eq, chars_of, string_views};

verus! {

/// A set of backup ids.
#[derive(Debug, Clone)]
pub struct KeepSet {
    ids: Vec<String>,
}

impl KeepSet {
    /// The ids in the set.
    pub closed spec fn view(&self) -> Set<Seq<char>> {
        Set::new(|id: Seq<char>| exists|k: int| 0 <= k < self.ids@.len() && self.ids@[k]@ == id)
    }

    /// Whether `id` is in the set.
    pub fn contains(&self, id: &str) -> (r: bool)
        ensures
            r == self.view().contains(id@),
    {
        let want = chars_of(id);
        let mut k: usize = 0;
        while k < self.ids.len()
            invariant
                k <= self.ids@.len(),
                want@ == id@,
                forall|j: int| 0 <= j < k ==> self.ids@[j]@ != id@,
            decreases self.ids@.len() - k,
        {
            let c = chars_of(self.ids[k].as_str());
            if chars_eq(&c, &want) {
                assert(self.view().contains(id@));
                return true;
            }
            k += 1;
        }
        false
    }

    /// Whether the set is empty.
    pub fn is_empty(&self) -> (r: bool)
        ensures
            r == (self.view() == Set::<Seq<char>>::empty()),
    {
        proof {
            if self.ids@.len() > 0 {
                assert(self.view().contains(self.ids@[0]@));
            } else {
                assert(self.view() =~= Set::<Seq<char>>::empty());
            }
        }
        self.ids.len() == 0
    }

    /// The ids, each once, in the order they were added.
    pub fn ids(&self) -> (r: &Vec<String>)
        ensures
            forall|id: Seq<char>| self.view().contains(id) <==> string_views(r@).contains(id),
    {
        proof {
            assert forall|id: Seq<char>| self.view().contains(id) <==> string_views(self.ids@).contains(id) by {
                if self.view().contains(id) {
                    let k = choose|k: int| 0 <= k < self.ids@.len() && self.ids@[k]@ == id;
                    assert(string_views(self.ids@)[k] == id);
                }
                if string_views(self.ids@).contains(id) {
                    let k = choose|k: int| 0 <= k < string_views(self.ids@).len() && string_views(self.ids@)[k] == id;
                    assert(self.ids@[k]@ == id);
                }
            }
        }
        &self.ids
    }

    /// Add an id.
    fn insert(&mut self, id: &String)
        ensures
            final(self).view() == old(self).view().insert(id@),
    {
        let ghost before = self.view();
        let ghost ids0 = self.ids@;
        if !self.contains(id.as_str()) {
            self.ids.push(id.clone());
            proof {
                assert forall|x: Seq<char>| self.view().contains(x) <==> before.insert(id@).contains(x) by {
                    if self.view().contains(x) {
                        let k = choose|k: int| 0 <= k < self.ids@.len() && self.ids@[k]@ == x;
                        if k < ids0.len() {
                            assert(self.ids@[k] == ids0[k]);
                            assert(before.contains(x));
                        }
                    }
                    if before.contains(x) {
                        let k = choose|k: int| 0 <= k < ids0.len() && ids0[k]@ == x;
                        assert(self.ids@[k] == ids0[k]);
                    }
                    if x == id@ {
                        assert(self.ids@[ids0.len() as int]@ == x);
                    }
                }
                assert(self.view() =~= before.insert(id@));
            }
        } else {
            assert(before.insert(id@) =~= before);
        }
    }
}

/// The daily backups of a list, in order.
pub open spec fn dailies(rs: Seq<BackupRecord>) -> Seq<BackupRecord>
    decreases rs.len(),
{
    if rs.len() == 0 {
        Seq::empty()
    } else if rs.last().kind == BackupKind::Daily {
        dailies(rs.drop_last()).push(rs.last())
    } else {
        dailies(rs.drop_last())
    }
}

/// Insert `x` before the first record strictly older than it.
pub open spec fn insert_recent(s: Seq<BackupRecord>, x: BackupRecord) -> Seq<BackupRecord>
    decreases s.len(),
{
    if s.len() == 0 {
        seq![x]
    } else if x.created_at > s[0].created_at {
        seq![x] + s
    } else {
        seq![s[0]] + insert_recent(s.drop_first(), x)
    }
}

/// Stable sort, newest first.
pub open spec fn by_recency(s: Seq<BackupRecord>) -> Seq<BackupRecord>
    decreases s.len(),
{
    if s.len() == 0 {
        Seq::empty()
    } else {
        insert_recent(by_recency(s.drop_last()), s.last())
    }
}

/// The `n` most recent dailies (all of them when there are fewer).
pub open spec fn top_dailies(rs: Seq<BackupRecord>, n: nat) -> Seq<BackupRecord> {
    let d = by_recency(dailies(rs));
    if n < d.len() {
        d.take(n as int)
    } else {
        d
    }
}

/// Record `i` takes a monthly slot: its month is met for the first time
/// while fewer than `slots` months have been met.
pub open spec fn month_anchor(months: Seq<Seq<char>>, slots: nat, i: int) -> bool {
    !months.take(i).contains(months[i]) && distinct(months.take(i)).len() < slots
}

/// Whether the policy keeps `id`, given each record's month.
pub open spec fn keeps(
    rs: Seq<BackupRecord>,
    months: Seq<Seq<char>>,
    daily_retain: nat,
    monthly_retain: nat,
    id: Seq<char>,
) -> bool {
    (exists|i: int|
        0 <= i < rs.len() && #[trigger] rs[i].id@ == id && (rs[i].kind == BackupKind::Manual
            || month_anchor(months, monthly_retain, i))) || (exists|j: int|
        0 <= j < top_dailies(rs, daily_retain).len() && #[trigger] top_dailies(rs, daily_retain)[j].id@
            == id)
}

proof fn lemma_insert_recent(s: Seq<BackupRecord>, x: BackupRecord, j: int)
    requires
        0 <= j <= s.len(),
        forall|t: int| 0 <= t < j ==> !(x.created_at > #[trigger] s[t].created_at),
        j < s.len() ==> x.created_at > s[j].created_at,
    ensures
        insert_recent(s, x) == s.insert(j, x),
    decreases s.len(),
{
    if s.len() == 0 {
        assert(s.insert(j, x) =~= seq![x]);
    } else if j == 0 {
        assert(s.insert(0, x) =~= seq![x] + s);
    } else {
        let d = s.drop_first();
        assert forall|t: int| 0 <= t < j - 1 implies !(x.created_at > #[trigger] d[t].created_at) by {
            assert(d[t] == s[t + 1]);
        }
        if j - 1 < d.len() {
            assert(d[j - 1] == s[j]);
        }
        lemma_insert_recent(d, x, j - 1);
        assert(seq![s[0]] + d.insert(j - 1, x) =~= s.insert(j, x));
    }
}

/// The records stably sorted newest first (ties keep their order).
pub fn sort_newest_first(records: Vec<BackupRecord>) -> (r: Vec<BackupRecord>)
    ensures
        r@ == by_recency(records@),
{
    let ghost orig = records@;
    let mut rest = records;
    let mut out: Vec<BackupRecord> = Vec::new();
    let ghost mut k: int = 0;
    while rest.len() > 0
        invariant
            0 <= k <= orig.len(),
            rest@ == orig.skip(k),
            out@ == by_recency(orig.take(k)),
        decreases rest@.len(),
    {
        let x = rest.remove(0);
        proof {
            assert(x == orig[k]);
            assert(orig.take(k + 1).drop_last() =~= orig.take(k));
            assert(orig.take(k + 1).last() == orig[k]);
        }
        let ghost sorted = out@;
        let mut j: usize = 0;
        while j < out.len() && !(x.created_at > out[j].created_at)
            invariant
                j <= out@.len(),
                out@ == sorted,
                forall|t: int| 0 <= t < j ==> !(x.created_at > #[trigger] sorted[t].created_at),
            decreases out@.len() - j,
        {
            j += 1;
        }
        proof {
            lemma_insert_recent(sorted, x, j as int);
        }
        out.insert(j, x);
        proof {
            k = k + 1;
            assert(rest@ =~= orig.skip(k));
        }
    }
    proof {
        assert(orig.take(k) =~= orig);
    }
    out
}

proof fn lemma_distinct_grows(s: Seq<Seq<char>>, x: Seq<char>)
    ensures
        distinct(s.push(x)).len() >= distinct(s).len(),
        !s.contains(x) ==> distinct(s.push(x)) == distinct(s).push(x),
        s.contains(x) ==> distinct(s.push(x)) == distinct(s),
{
    assert(s.push(x).drop_last() =~= s);
}

/// The ids to keep, given the month of each record (`months[i]` is the
/// month of `records[i]`; records newest first).
pub fn keep_ids_for_months(
    records: &[BackupRecord],
    months: &Vec<String>,
    daily_retain: usize,
    monthly_retain: usize,
) -> (r: KeepSet)
    requires
        months@.len() == records@.len(),
    ensures
        forall|id: Seq<char>|
            r.view().contains(id) <==> keeps(
                records@,
                string_views(months@),
                daily_retain as nat,
                monthly_retain as nat,
                id,
            ),
{
    let ghost rs = records@;
    let ghost ms = string_views(months@);
    let ghost top = top_dailies(rs, daily_retain as nat);
    let mut keep = KeepSet { ids: Vec::new() };
    // Manuals and monthly anchors, walking newest first.
    let mut seen: Vec<Vec<char>> = Vec::new();
    let mut i: usize = 0;
    while i < records.len()
        invariant
            i <= rs.len(),
            rs == records@,
            ms == string_views(months@),
            months@.len() == rs.len(),
            seen@.len() <= monthly_retain,
            distinct(ms.take(i as int)).len() < monthly_retain ==> views(seen@) == distinct(
                ms.take(i as int),
            ),
            distinct(ms.take(i as int)).len() >= monthly_retain ==> seen@.len() == monthly_retain,
            forall|id: Seq<char>|
                keep.view().contains(id) <==> exists|t: int|
                    0 <= t < i && #[trigger] rs[t].id@ == id && (rs[t].kind == BackupKind::Manual
                        || month_anchor(ms, monthly_retain as nat, t)),
        decreases rs.len() - i,
    {
        let b = &records[i];
        let m = chars_of(months[i].as_str());
        let ghost pre = ms.take(i as int);
        proof {
            assert(ms[i as int] == m@);
            assert(ms.take(i + 1) =~= pre.push(m@));
            assert(ms.take(i as int) =~= pre);
            lemma_distinct_grows(pre, m@);
            lemma_distinct(pre);
        }
        let mut found = false;
        let mut k: usize = 0;
        while k < seen.len()
            invariant_except_break
                !found,
            invariant
                k <= seen@.len(),
                forall|t: int| 0 <= t < k ==> seen@[t]@ != m@,
            ensures
                found <==> exists|t: int| 0 <= t < seen@.len() && seen@[t]@ == m@,
            decreases seen@.len() - k,
        {
            if chars_eq(&seen[k], &m) {
                found = true;
                break;
            }
            k += 1;
        }
        let ghost anchor = month_anchor(ms, monthly_retain as nat, i as int);
        proof {
            if distinct(pre).len() < monthly_retain {
                assert(found <==> pre.contains(m@)) by {
                    if found {
                        let t = choose|t: int| 0 <= t < seen@.len() && seen@[t]@ == m@;
                        assert(views(seen@)[t] == m@);
                        assert(distinct(pre).contains(m@));
                    }
                    if pre.contains(m@) {
                        assert(distinct(pre).contains(m@));
                        let t = choose|t: int| 0 <= t < distinct(pre).len() && distinct(pre)[t] == m@;
                        assert(seen@[t]@ == m@);
                    }
                }
                assert(anchor == !found);
            } else {
                assert(!anchor);
            }
        }
        let take_slot = !found && seen.len() < monthly_retain;
        assert(take_slot == anchor);
        if take_slot {
            let ghost s0 = views(seen@);
            seen.push(m);
            assert(views(seen@) =~= s0.push(m@));
        }
        let ghost kv = keep.view();
        if b.kind == BackupKind::Manual || take_slot {
            keep.insert(&b.id);
        }
        proof {
            assert forall|id: Seq<char>|
                keep.view().contains(id) <==> exists|t: int|
                    0 <= t < i + 1 && #[trigger] rs[t].id@ == id && (rs[t].kind == BackupKind::Manual
                        || month_anchor(ms, monthly_retain as nat, t)) by {
                if keep.view().contains(id) && !kv.contains(id) {
                    assert(rs[i as int].id@ == id);
                }
                if exists|t: int|
                    0 <= t < i + 1 && #[trigger] rs[t].id@ == id && (rs[t].kind == BackupKind::Manual
                        || month_anchor(ms, monthly_retain as nat, t)) {
                    let t = choose|t: int|
                        0 <= t < i + 1 && #[trigger] rs[t].id@ == id && (rs[t].kind
                            == BackupKind::Manual || month_anchor(ms, monthly_retain as nat, t));
                    if t < i {
                        assert(kv.contains(id));
                    }
                }
            }
        }
        i += 1;
    }
    // The dailies, stably sorted newest first (as indices into `records`).
    let mut order: Vec<usize> = Vec::new();
    let mut i: usize = 0;
    while i < records.len()
        invariant
            i <= rs.len(),
            rs == records@,
            forall|t: int| 0 <= t < order@.len() ==> order@[t] < rs.len(),
            order@.map_values(|x: usize| rs[x as int]) == by_recency(dailies(rs.take(i as int))),
        decreases rs.len() - i,
    {
        let ghost sorted = order@.map_values(|x: usize| rs[x as int]);
        proof {
            assert(rs.take(i + 1).drop_last() =~= rs.take(i as int));
            assert(rs.take(i + 1).last() == rs[i as int]);
            let d = dailies(rs.take(i as int));
            assert(d.push(rs[i as int]).drop_last() =~= d);
        }
        if records[i].kind == BackupKind::Daily {
            let c = records[i].created_at;
            let mut j: usize = 0;
            let mut stop = false;
            while j < order.len()
                invariant_except_break
                    !stop,
                invariant
                    j <= order@.len(),
                    rs == records@,
                    i < rs.len(),
                    c == rs[i as int].created_at,
                    forall|t: int| 0 <= t < order@.len() ==> order@[t] < rs.len(),
                    sorted == order@.map_values(|x: usize| rs[x as int]),
                    forall|t: int| 0 <= t < j ==> !(c > #[trigger] sorted[t].created_at),
                ensures
                    j <= order@.len(),
                    forall|t: int| 0 <= t < j ==> !(c > #[trigger] sorted[t].created_at),
                    j < order@.len() ==> c > sorted[j as int].created_at,
                decreases order@.len() - j,
            {
                assert(sorted[j as int] == rs[order@[j as int] as int]);
                if c > records[order[j]].created_at {
                    stop = true;
                    break;
                }
                j += 1;
            }
            proof {
                lemma_insert_recent(sorted, rs[i as int], j as int);
            }
            order.insert(j, i);
            proof {
                assert(order@.map_values(|x: usize| rs[x as int]) =~= sorted.insert(j as int, rs[i as int]));
            }
        }
        i += 1;
    }
    proof {
        assert(rs.take(rs.len() as int) =~= rs);
    }
    let ghost sorted = order@.map_values(|x: usize| rs[x as int]);
    let ghost kv0 = keep.view();
    let mut j: usize = 0;
    while j < order.len() && j < daily_retain
        invariant
            j <= order@.len(),
            j <= daily_retain,
            rs == records@,
            forall|t: int| 0 <= t < order@.len() ==> order@[t] < rs.len(),
            sorted == order@.map_values(|x: usize| rs[x as int]),
            forall|id: Seq<char>|
                #[trigger] keep.view().contains(id) <==> (kv0.contains(id) || exists|t: int|
                    0 <= t < j && sorted[t].id@ == id),
        decreases order@.len() - j,
    {
        let ghost kv = keep.view();
        let ghost new_id = rs[order@[j as int] as int].id@;
        keep.insert(&records[order[j]].id);
        proof {
            assert(sorted[j as int] == rs[order@[j as int] as int]);
            assert forall|id: Seq<char>|
                #[trigger] keep.view().contains(id) <==> (kv0.contains(id) || exists|t: int|
                    0 <= t < j + 1 && sorted[t].id@ == id) by {
                assert(keep.view().contains(id) <==> (kv.contains(id) || id == new_id));
                assert(kv.contains(id) <==> (kv0.contains(id) || exists|t: int|
                    0 <= t < j && sorted[t].id@ == id));
                if exists|t: int| 0 <= t < j + 1 && sorted[t].id@ == id {
                    let t = choose|t: int| 0 <= t < j + 1 && sorted[t].id@ == id;
                    if t == j {
                        assert(id == new_id);
                    } else {
                        assert(exists|t: int| 0 <= t < j && sorted[t].id@ == id);
                    }
                }
                if id == new_id {
                    assert(sorted[j as int].id@ == id);
                }
            }
        }
        j += 1;
    }
    proof {
        assert(sorted == by_recency(dailies(rs)));
        assert(j as int == if (daily_retain as int) < sorted.len() {
            daily_retain as int
        } else {
            sorted.len() as int
        });
        assert forall|id: Seq<char>|
            keep.view().contains(id) <==> keeps(
                rs,
                ms,
                daily_retain as nat,
                monthly_retain as nat,
                id,
            ) by {
            assert(keep.view().contains(id) <==> (kv0.contains(id) || exists|t: int|
                0 <= t < j && sorted[t].id@ == id));
            if exists|t: int| 0 <= t < j && sorted[t].id@ == id {
                let t = choose|t: int| 0 <= t < j && sorted[t].id@ == id;
                assert(top[t] == sorted[t]);
                assert(top[t].id@ == id);
            }
            if exists|t: int| 0 <= t < top.len() && #[trigger] top[t].id@ == id {
                let t = choose|t: int| 0 <= t < top.len() && #[trigger] top[t].id@ == id;
                assert(top[t] == sorted[t]);
                assert(sorted[t].id@ == id);
            }
        }
    }
    keep
}

/// Whether `month` is the `YYYY-MM` local rendering of the whole seconds
/// of `epoch_ms`, or `1970-01` where the local time is undefined.
pub open spec fn local_month_rendering(epoch_ms: i64, month: Seq<char>) -> bool {
    local_rendering(epoch_secs_spec(epoch_ms) as i64, 0u32, "%Y-%m", "1970-01"@, month)
}

/// Which backup ids to keep. `records` is newest first; each record's
/// month is its local calendar month (`local_ym_prefix` of its creation
/// time), which depends on the machine's time zone: whatever months come
/// out, every manual backup and the `daily_retain` most recent dailies are
/// kept, plus the monthly anchors.
pub fn compute_keep_ids(records: &[BackupRecord], daily_retain: usize, monthly_retain: usize) -> (r:
    KeepSet)
    ensures
        exists|months: Seq<Seq<char>>|
            #![trigger months.len()]
            months.len() == records@.len() && (forall|i: int|
                0 <= i < months.len() ==> local_month_rendering(records@[i].created_at, #[trigger] months[i]))
                && forall|id: Seq<char>|
                r.view().contains(id) <==> #[trigger] keeps(
                    records@,
                    months,
                    daily_retain as nat,
                    monthly_retain as nat,
                    id,
                ),
{
    let mut months: Vec<String> = Vec::new();
    let mut i: usize = 0;
    while i < records.len()
        invariant
            i <= records@.len(),
            months@.len() == i,
            forall|j: int| 0 <= j < i ==> local_month_rendering(records@[j].created_at, #[trigger] months@[j]@),
        decreases records@.len() - i,
    {
        months.push(local_ym_prefix(records[i].created_at));
        i += 1;
    }
    let r = keep_ids_for_months(records, &months, daily_retain, monthly_retain);
    assert(string_views(months@).len() == records@.len());
    r
}

/// Each record is at least as recent as every record after it.
pub open spec fn newest_first(s: Seq<BackupRecord>) -> bool {
    forall|i: int, j: int|
        0 <= i < j < s.len() ==> #[trigger] s[i].created_at >= #[trigger] s[j].created_at
}

/// Where `insert_recent` puts `x`: after every record at least as recent,
/// before the first older one.
proof fn lemma_recent_slot(s: Seq<BackupRecord>, x: BackupRecord) -> (j: int)
    ensures
        0 <= j <= s.len(),
        forall|t: int| 0 <= t < j ==> !(x.created_at > #[trigger] s[t].created_at),
        j < s.len() ==> x.created_at > s[j].created_at,
    decreases s.len(),
{
    if s.len() == 0 {
        0
    } else if x.created_at > s[0].created_at {
        0
    } else {
        let d = s.drop_first();
        let j = lemma_recent_slot(d, x);
        assert forall|t: int| 0 <= t < j + 1 implies !(x.created_at > #[trigger] s[t].created_at) by {
            if t > 0 {
                assert(s[t] == d[t - 1]);
            }
        }
        if j + 1 < s.len() {
            assert(s[j + 1] == d[j]);
        }
        j + 1
    }
}

/// The listing of backups is newest first and holds exactly the records
/// it was given, each as often.
pub proof fn law_listing_is_newest_first(rs: Seq<BackupRecord>)
    ensures
        newest_first(by_recency(rs)),
        by_recency(rs).to_multiset() == rs.to_multiset(),
    decreases rs.len(),
{
    if rs.len() == 0 {
        assert(rs =~= Seq::<BackupRecord>::empty());
    } else {
        let p = rs.drop_last();
        let x = rs.last();
        law_listing_is_newest_first(p);
        let s = by_recency(p);
        let j = lemma_recent_slot(s, x);
        lemma_insert_recent(s, x, j);
        let r = s.insert(j, x);
        assert(by_recency(rs) == r);
        assert forall|a: int, b: int| 0 <= a < b < r.len() implies #[trigger] r[a].created_at
            >= #[trigger] r[b].created_at by {
            if a < j {
                if b > j {
                    assert(r[b] == s[b - 1]);
                    assert(s[a].created_at >= s[b - 1].created_at);
                } else if b < j {
                    assert(s[a].created_at >= s[b].created_at);
                }
            } else if a == j {
                assert(r[b] == s[b - 1]);
                if j < b - 1 {
                    assert(s[j].created_at >= s[b - 1].created_at);
                }
            } else {
                assert(r[a] == s[a - 1] && r[b] == s[b - 1]);
                assert(s[a - 1].created_at >= s[b - 1].created_at);
            }
        }
        vstd::seq_lib::to_multiset_insert(s, j, x);
        vstd::seq_lib::to_multiset_build(p, x);
        assert(rs =~= p.push(x));
    }
}

/// Every manual backup is kept, whatever the retention and the months.
pub proof fn law_manuals_always_kept(
    rs: Seq<BackupRecord>,
    months: Seq<Seq<char>>,
    daily_retain: nat,
    monthly_retain: nat,
    i: int,
)
    requires
        0 <= i < rs.len(),
        rs[i].kind == BackupKind::Manual,
    ensures
        keeps(rs, months, daily_retain, monthly_retain, rs[i].id@),
{
}

proof fn lemma_insert_recent_members(s: Seq<BackupRecord>, x: BackupRecord)
    ensures
        insert_recent(s, x).len() == s.len() + 1,
        forall|k: int|
            0 <= k < insert_recent(s, x).len() ==> #[trigger] insert_recent(s, x)[k] == x
                || s.contains(insert_recent(s, x)[k]),
    decreases s.len(),
{
    if s.len() > 0 && !(x.created_at > s[0].created_at) {
        let d = s.drop_first();
        lemma_insert_recent_members(d, x);
        assert forall|k: int| 0 <= k < insert_recent(s, x).len() implies #[trigger] insert_recent(
            s,
            x,
        )[k] == x || s.contains(insert_recent(s, x)[k]) by {
            if k == 0 {
                assert(s.contains(s[0]));
            } else {
                assert(insert_recent(s, x)[k] == insert_recent(d, x)[k - 1]);
                if d.contains(insert_recent(d, x)[k - 1]) {
                    let t = choose|t: int| 0 <= t < d.len() && d[t] == insert_recent(d, x)[k - 1];
                    assert(s[t + 1] == d[t]);
                }
            }
        }
    } else if s.len() > 0 {
        assert forall|k: int| 0 <= k < insert_recent(s, x).len() implies #[trigger] insert_recent(
            s,
            x,
        )[k] == x || s.contains(insert_recent(s, x)[k]) by {
            if k > 0 {
                assert(insert_recent(s, x)[k] == s[k - 1]);
            }
        }
    }
}

proof fn lemma_by_recency_members(s: Seq<BackupRecord>)
    ensures
        by_recency(s).len() == s.len(),
        forall|k: int| 0 <= k < by_recency(s).len() ==> s.contains(#[trigger] by_recency(s)[k]),
    decreases s.len(),
{
    if s.len() > 0 {
        let p = s.drop_last();
        lemma_by_recency_members(p);
        lemma_insert_recent_members(by_recency(p), s.last());
        assert forall|k: int| 0 <= k < by_recency(s).len() implies s.contains(
            #[trigger] by_recency(s)[k],
        ) by {
            let e = by_recency(s)[k];
            if e == s.last() {
                assert(s[s.len() - 1] == e);
            } else {
                assert(by_recency(p).contains(e));
                let t = choose|t: int| 0 <= t < by_recency(p).len() && by_recency(p)[t] == e;
                assert(p.contains(by_recency(p)[t]));
                let u = choose|u: int| 0 <= u < p.len() && p[u] == e;
                assert(s[u] == e);
            }
        }
    }
}

proof fn lemma_dailies_members(s: Seq<BackupRecord>)
    ensures
        forall|k: int| 0 <= k < dailies(s).len() ==> s.contains(#[trigger] dailies(s)[k]),
    decreases s.len(),
{
    if s.len() > 0 {
        let p = s.drop_last();
        lemma_dailies_members(p);
        assert forall|k: int| 0 <= k < dailies(s).len() implies s.contains(#[trigger] dailies(s)[k]) by {
            let e = dailies(s)[k];
            if k < dailies(p).len() {
                assert(e == dailies(p)[k]);
                let u = choose|u: int| 0 <= u < p.len() && p[u] == e;
                assert(s[u] == e);
            } else {
                assert(s[s.len() - 1] == e);
            }
        }
    }
}

/// Only ids of listed backups are ever kept.
pub proof fn law_kept_ids_are_listed(
    rs: Seq<BackupRecord>,
    months: Seq<Seq<char>>,
    daily_retain: nat,
    monthly_retain: nat,
    id: Seq<char>,
)
    requires
        keeps(rs, months, daily_retain, monthly_retain, id),
    ensures
        exists|i: int| 0 <= i < rs.len() && #[trigger] rs[i].id@ == id,
{
    let top = top_dailies(rs, daily_retain);
    if exists|j: int| 0 <= j < top.len() && #[trigger] top[j].id@ == id {
        let j = choose|j: int| 0 <= j < top.len() && #[trigger] top[j].id@ == id;
        let d = by_recency(dailies(rs));
        lemma_by_recency_members(dailies(rs));
        lemma_dailies_members(rs);
        assert(top[j] == d[j]);
        assert(dailies(rs).contains(d[j]));
        let u = choose|u: int| 0 <= u < dailies(rs).len() && dailies(rs)[u] == d[j];
        assert(rs.contains(dailies(rs)[u]));
        let i = choose|i: int| 0 <= i < rs.len() && rs[i] == dailies(rs)[u];
        assert(rs[i].id@ == id);
    }
}

/// Raising either retention never drops a backup that was kept.
pub proof fn law_more_retention_keeps_more(
    rs: Seq<BackupRecord>,
    months: Seq<Seq<char>>,
    daily_retain: nat,
    monthly_retain: nat,
    more_daily: nat,
    more_monthly: nat,
    id: Seq<char>,
)
    requires
        daily_retain <= more_daily,
        monthly_retain <= more_monthly,
        keeps(rs, months, daily_retain, monthly_retain, id),
    ensures
        keeps(rs, months, more_daily, more_monthly, id),
{
    let top = top_dailies(rs, daily_retain);
    let top2 = top_dailies(rs, more_daily);
    if exists|j: int| 0 <= j < top.len() && #[trigger] top[j].id@ == id {
        let j = choose|j: int| 0 <= j < top.len() && #[trigger] top[j].id@ == id;
        assert(top2[j] == top[j]);
    }
    if exists|i: int|
        0 <= i < rs.len() && #[trigger] rs[i].id@ == id && (rs[i].kind == BackupKind::Manual
            || month_anchor(months, monthly_retain, i)) {
        let i = choose|i: int|
            0 <= i < rs.len() && #[trigger] rs[i].id@ == id && (rs[i].kind == BackupKind::Manual
                || month_anchor(months, monthly_retain, i));
        assert(rs[i].kind == BackupKind::Manual || month_anchor(months, more_monthly, i));
    }
}

/// With no daily and no monthly retention, exactly the manual backups are
/// kept.
pub proof fn law_zero_retention_keeps_only_manuals(
    rs: Seq<BackupRecord>,
    months: Seq<Seq<char>>,
    id: Seq<char>,
)
    ensures
        keeps(rs, months, 0, 0, id) <==> exists|i: int|
            0 <= i < rs.len() && #[trigger] rs[i].id@ == id && rs[i].kind == BackupKind::Manual,
{
    assert(top_dailies(rs, 0).len() == 0);
}

} // verus!
