//! The reaper: a schedule of deadlines, one per identifier, and the
//! decisions of the background loop that evicts expired records from the
//! store. The loop itself, its lock, its timer and its wake-ups belong to
//! the caller, which hands each wake-up to `Deleter::on_wake`.
use vstd::prelude::*;
use std::sync::Arc;
use crate::ms::Ms;
use crate::store::{FileDatabase, RecordView, StoredFile, entry_at};

verus! {

/// One scheduled eviction: the record at `id` goes `dur` milliseconds after
/// `created` (both on the caller's monotonic clock, in milliseconds).
#[derive(Debug, Clone, Copy, PartialEq, Eq, Structural)]
pub struct SchecludedDelete {
    pub created: u64,
    pub dur: u64,
    pub id: u128,
}

/// Whether the eviction `e` is due at time `now`.
pub open spec fn is_expired(e: SchecludedDelete, now: u64) -> bool {
    now >= e.created + e.dur
}

impl SchecludedDelete {
    /// An eviction of `id`, `dur` after `now`.
    pub fn new(dur: Ms, id: u128, now: u64) -> (r: SchecludedDelete)
        ensures
            r == (SchecludedDelete { created: now, dur: dur.millis, id }),
    {
        SchecludedDelete { created: now, dur: dur.millis, id }
    }

    /// Whether the eviction is due at time `now`.
    pub fn expired(&self, now: u64) -> (r: bool)
        ensures
            r == is_expired(*self, now),
    {
        now >= self.created && now - self.created >= self.dur
    }
}

/// No identifier is scheduled twice.
pub open spec fn unique_ids(s: Seq<SchecludedDelete>) -> bool {
    forall|i: int, j: int|
        0 <= i < s.len() && 0 <= j < s.len() && #[trigger] s[i].id == #[trigger] s[j].id ==> i == j
}

/// Whether some entry of `s` is scheduled for `k`.
pub open spec fn scheduled_in(s: Seq<SchecludedDelete>, k: u128) -> bool {
    exists|i: int| 0 <= i < s.len() && #[trigger] s[i].id == k
}

/// The entries of `s` by identifier.
pub open spec fn schedule_map(s: Seq<SchecludedDelete>) -> Map<u128, SchecludedDelete> {
    Map::new(
        |k: u128| scheduled_in(s, k),
        |k: u128| s[choose|i: int| 0 <= i < s.len() && #[trigger] s[i].id == k],
    )
}

/// The identifiers whose eviction in `m` is due at `now`.
pub open spec fn expired_ids(m: Map<u128, SchecludedDelete>, now: u64) -> Set<u128> {
    Set::new(|k: u128| m.contains_key(k) && is_expired(m[k], now))
}

/// The entries of `m` that are not yet due at `now`.
pub open spec fn pending(m: Map<u128, SchecludedDelete>, now: u64) -> Map<u128, SchecludedDelete> {
    m.remove_keys(expired_ids(m, now))
}

proof fn lemma_schedule_map_at(s: Seq<SchecludedDelete>, i: int)
    requires
        unique_ids(s),
        0 <= i < s.len(),
    ensures
        schedule_map(s).contains_key(s[i].id),
        schedule_map(s)[s[i].id] == s[i],
{
    assert(scheduled_in(s, s[i].id));
    let j = choose|j: int| 0 <= j < s.len() && #[trigger] s[j].id == s[i].id;
    assert(s[j].id == s[i].id);
}

/// The identifiers of the entries among the first `i` of `s` that are due
/// at `now`.
pub open spec fn expired_prefix(s: Seq<SchecludedDelete>, i: int, now: u64) -> Set<u128> {
    Set::new(|k: u128| exists|j: int| 0 <= j < i && #[trigger] s[j].id == k && is_expired(s[j], now))
}

/// `r` holds, once each, the record that `m` has at each identifier of
/// `ids`, and nothing else.
pub open spec fn hands_back(r: Seq<RecordView>, m: Map<u128, RecordView>, ids: Set<u128>) -> bool {
    &&& forall|a: int|
        0 <= a < r.len() ==> ids.contains(#[trigger] r[a].0) && m.contains_key(r[a].0) && m[r[a].0]
            == r[a]
    &&& forall|k: u128|
        ids.contains(k) && m.contains_key(k) ==> exists|a: int| 0 <= a < r.len() && #[trigger] r[a].0 == k
    &&& forall|a: int, b: int|
        0 <= a < r.len() && 0 <= b < r.len() && #[trigger] r[a].0 == #[trigger] r[b].0 ==> a == b
}

/// The views of the handles in `r`.
pub open spec fn handle_views(r: Seq<Arc<StoredFile>>) -> Seq<RecordView> {
    r.map_values(|h: Arc<StoredFile>| h@)
}

proof fn lemma_prefix_expired_step(s: Seq<SchecludedDelete>, i: int, now: u64)
    requires
        unique_ids(s),
        0 <= i < s.len(),
        is_expired(s[i], now),
    ensures
        !expired_prefix(s, i, now).contains(s[i].id),
        expired_prefix(s, i + 1, now) == expired_prefix(s, i, now).insert(s[i].id),
{
    let pre = expired_prefix(s, i, now);
    if pre.contains(s[i].id) {
        let j = choose|j: int| 0 <= j < i && #[trigger] s[j].id == s[i].id && is_expired(s[j], now);
        assert(s[i].id == s[j].id);
    }
    assert forall|k: u128| #[trigger] expired_prefix(s, i + 1, now).contains(k) implies pre.insert(
        s[i].id,
    ).contains(k) by {
        let j = choose|j: int| 0 <= j < i + 1 && #[trigger] s[j].id == k && is_expired(s[j], now);
        if j < i {
            assert(pre.contains(k));
        }
    }
    assert forall|k: u128| #[trigger] pre.insert(s[i].id).contains(k) implies expired_prefix(
        s,
        i + 1,
        now,
    ).contains(k) by {
        if k == s[i].id {
            assert(s[i].id == k);
        } else {
            let j = choose|j: int| 0 <= j < i && #[trigger] s[j].id == k && is_expired(s[j], now);
            assert(s[j].id == k);
        }
    }
    assert(expired_prefix(s, i + 1, now) =~= pre.insert(s[i].id));
}

proof fn lemma_prefix_pending_step(s: Seq<SchecludedDelete>, i: int, now: u64)
    requires
        0 <= i < s.len(),
        !is_expired(s[i], now),
    ensures
        expired_prefix(s, i + 1, now) == expired_prefix(s, i, now),
{
    let pre = expired_prefix(s, i, now);
    assert forall|k: u128| #[trigger] expired_prefix(s, i + 1, now).contains(k) implies pre.contains(
        k,
    ) by {
        let j = choose|j: int| 0 <= j < i + 1 && #[trigger] s[j].id == k && is_expired(s[j], now);
        assert(j != i);
        assert(s[j].id == k);
    }
    assert forall|k: u128| #[trigger] pre.contains(k) implies expired_prefix(s, i + 1, now).contains(
        k,
    ) by {
        let j = choose|j: int| 0 <= j < i && #[trigger] s[j].id == k && is_expired(s[j], now);
        assert(s[j].id == k);
    }
    assert(expired_prefix(s, i + 1, now) =~= pre);
}

proof fn lemma_hands_back_push(
    r: Seq<RecordView>,
    m: Map<u128, RecordView>,
    ids: Set<u128>,
    k: u128,
)
    requires
        hands_back(r, m, ids),
        !ids.contains(k),
        m.contains_key(k),
        m[k].0 == k,
    ensures
        hands_back(r.push(m[k]), m, ids.insert(k)),
{
    let v = r.push(m[k]);
    let post = ids.insert(k);
    assert forall|a: int| 0 <= a < v.len() implies post.contains(#[trigger] v[a].0) && m.contains_key(
        v[a].0,
    ) && m[v[a].0] == v[a] by {
        if a < r.len() {
            assert(v[a] == r[a]);
        }
    }
    assert forall|j: u128| post.contains(j) && m.contains_key(j) implies exists|a: int|
        0 <= a < v.len() && #[trigger] v[a].0 == j by {
        if j == k {
            assert(v[r.len() as int].0 == j);
        } else {
            let a = choose|a: int| 0 <= a < r.len() && #[trigger] r[a].0 == j;
            assert(v[a].0 == j);
        }
    }
    assert forall|a: int, b: int|
        0 <= a < v.len() && 0 <= b < v.len() && #[trigger] v[a].0 == #[trigger] v[b].0 implies a
        == b by {
        if a < r.len() {
            assert(v[a] == r[a]);
        }
        if b < r.len() {
            assert(v[b] == r[b]);
        }
    }
}

proof fn lemma_hands_back_absent(r: Seq<RecordView>, m: Map<u128, RecordView>, ids: Set<u128>, k: u128)
    requires
        hands_back(r, m, ids),
        !m.contains_key(k),
    ensures
        hands_back(r, m, ids.insert(k)),
{
    assert forall|j: u128| ids.insert(k).contains(j) && m.contains_key(j) implies exists|a: int|
        0 <= a < r.len() && #[trigger] r[a].0 == j by {
        assert(ids.contains(j));
    }
}

/// `kept` holds, once each, the entries among the first `i` of `s` that are
/// not due at `now`; entry `m` of `kept` is entry `idx[m]` of `s`.
pub open spec fn keeps_pending(
    kept: Seq<SchecludedDelete>,
    idx: Seq<int>,
    s: Seq<SchecludedDelete>,
    i: int,
    now: u64,
) -> bool {
    &&& idx.len() == kept.len()
    &&& forall|m: int|
        0 <= m < kept.len() ==> 0 <= #[trigger] idx[m] < i && kept[m] == s[idx[m]] && !is_expired(
            s[idx[m]],
            now,
        )
    &&& forall|j: int|
        #![trigger pending_at(s, j, now)]
        0 <= j < i && pending_at(s, j, now) ==> exists|m: int| 0 <= m < idx.len() && #[trigger] idx[m] == j
    &&& unique_ids(kept)
}

/// Entry `j` of `s` is not due at `now`.
pub open spec fn pending_at(s: Seq<SchecludedDelete>, j: int, now: u64) -> bool {
    0 <= j < s.len() && !is_expired(s[j], now)
}

proof fn lemma_keeps_pending_skip(
    kept: Seq<SchecludedDelete>,
    idx: Seq<int>,
    s: Seq<SchecludedDelete>,
    i: int,
    now: u64,
)
    requires
        0 <= i < s.len(),
        is_expired(s[i], now),
        keeps_pending(kept, idx, s, i, now),
    ensures
        keeps_pending(kept, idx, s, i + 1, now),
{
    assert forall|j: int| #![trigger pending_at(s, j, now)]
        0 <= j < i + 1 && pending_at(s, j, now) implies exists|m: int|
        0 <= m < idx.len() && #[trigger] idx[m] == j by {
        assert(j < i);
    }
}

proof fn lemma_keeps_pending_push(
    kept: Seq<SchecludedDelete>,
    idx: Seq<int>,
    s: Seq<SchecludedDelete>,
    i: int,
    now: u64,
)
    requires
        unique_ids(s),
        0 <= i < s.len(),
        !is_expired(s[i], now),
        keeps_pending(kept, idx, s, i, now),
    ensures
        keeps_pending(kept.push(s[i]), idx.push(i), s, i + 1, now),
{
    let kv = kept.push(s[i]);
    let iv = idx.push(i);
    assert forall|m: int| 0 <= m < kv.len() implies 0 <= #[trigger] iv[m] < i + 1 && kv[m] == s[iv[m]]
        && !is_expired(s[iv[m]], now) by {
        if m < kept.len() {
            assert(iv[m] == idx[m]);
            assert(kv[m] == kept[m]);
        }
    }
    assert forall|j: int| #![trigger pending_at(s, j, now)]
        0 <= j < i + 1 && pending_at(s, j, now) implies exists|m: int|
        0 <= m < iv.len() && #[trigger] iv[m] == j by {
        if j < i {
            let m = choose|m: int| 0 <= m < idx.len() && #[trigger] idx[m] == j;
            assert(iv[m] == j);
        } else {
            assert(iv[idx.len() as int] == j);
        }
    }
    assert forall|a: int, b: int|
        0 <= a < kv.len() && 0 <= b < kv.len() && #[trigger] kv[a].id == #[trigger] kv[b].id implies a
        == b by {
        if a < kept.len() {
            assert(kv[a] == kept[a]);
            assert(idx[a] < i);
            if b == kept.len() {
                assert(s[idx[a]].id == s[i].id);
            }
        }
        if b < kept.len() {
            assert(kv[b] == kept[b]);
            assert(idx[b] < i);
            if a == kept.len() {
                assert(s[idx[b]].id == s[i].id);
            }
        }
    }
}

proof fn lemma_sweep_done(
    kept: Seq<SchecludedDelete>,
    idx: Seq<int>,
    s: Seq<SchecludedDelete>,
    now: u64,
)
    requires
        unique_ids(s),
        keeps_pending(kept, idx, s, s.len() as int, now),
    ensures
        expired_prefix(s, s.len() as int, now) == expired_ids(schedule_map(s), now),
        schedule_map(kept) == pending(schedule_map(s), now),
{
    let n = s.len();
    let m0 = schedule_map(s);
    assert forall|k: u128| #[trigger] expired_prefix(s, n as int, now).contains(k) implies expired_ids(
        m0,
        now,
    ).contains(k) by {
        let j = choose|j: int| 0 <= j < n && #[trigger] s[j].id == k && is_expired(s[j], now);
        lemma_schedule_map_at(s, j);
    }
    assert forall|k: u128| #[trigger] expired_ids(m0, now).contains(k) implies expired_prefix(
        s,
        n as int,
        now,
    ).contains(k) by {
        let j = choose|j: int| 0 <= j < s.len() && #[trigger] s[j].id == k;
        lemma_schedule_map_at(s, j);
    }
    assert(expired_prefix(s, n as int, now) =~= expired_ids(m0, now));
    assert forall|k: u128| #[trigger]
        schedule_map(kept).contains_key(k) == pending(m0, now).contains_key(k) by {
        if scheduled_in(kept, k) {
            let m = choose|m: int| 0 <= m < kept.len() && #[trigger] kept[m].id == k;
            lemma_schedule_map_at(s, idx[m]);
        }
        if pending(m0, now).contains_key(k) {
            let j = choose|j: int| 0 <= j < s.len() && #[trigger] s[j].id == k;
            lemma_schedule_map_at(s, j);
            assert(pending_at(s, j, now));
            let m = choose|m: int| 0 <= m < idx.len() && #[trigger] idx[m] == j;
            assert(kept[m].id == k);
        }
    }
    assert forall|k: u128| #[trigger] schedule_map(kept).contains_key(k) implies schedule_map(kept)[k]
        == pending(m0, now)[k] by {
        let m = choose|m: int| 0 <= m < kept.len() && #[trigger] kept[m].id == k;
        lemma_schedule_map_at(kept, m);
        lemma_schedule_map_at(s, idx[m]);
    }
    assert(schedule_map(kept) =~= pending(m0, now));
}

/// Putting `e` at position `pos` of `s0`, over the entry with the same
/// identifier or after the last entry where there is none, keeps the
/// identifiers unique and sets the entry for `e.id` to `e`.
proof fn lemma_schedule_put(s0: Seq<SchecludedDelete>, s1: Seq<SchecludedDelete>, pos: int, e: SchecludedDelete)
    requires
        unique_ids(s0),
        0 <= pos <= s0.len(),
        pos < s0.len() ==> s0[pos].id == e.id && s1 == s0.update(pos, e),
        pos == s0.len() ==> s1 == s0.push(e) && forall|j: int| 0 <= j < s0.len() ==> #[trigger] s0[j].id != e.id,
    ensures
        unique_ids(s1),
        schedule_map(s1) == schedule_map(s0).insert(e.id, e),
{
    assert(s1[pos] == e);
    assert forall|j: int| 0 <= j < s0.len() && j != pos implies #[trigger] s1[j] == s0[j] by {}
    assert(unique_ids(s1)) by {
        assert forall|a: int, b: int|
            0 <= a < s1.len() && 0 <= b < s1.len() && #[trigger] s1[a].id == #[trigger] s1[b].id implies a == b by {
            if a != pos && b != pos {
                assert(s0[a].id == s0[b].id);
            } else if a == pos && b != pos {
                assert(s1[b] == s0[b]);
                if pos < s0.len() {
                    assert(s0[b].id == s0[pos].id);
                }
            } else if b == pos && a != pos {
                assert(s1[a] == s0[a]);
                if pos < s0.len() {
                    assert(s0[a].id == s0[pos].id);
                }
            }
        }
    }
    let target = schedule_map(s0).insert(e.id, e);
    assert forall|k: u128| #[trigger] schedule_map(s1).contains_key(k) == target.contains_key(k) by {
        if scheduled_in(s0, k) && k != e.id {
            let j = choose|j: int| 0 <= j < s0.len() && #[trigger] s0[j].id == k;
            assert(s1[j].id == k);
        }
        if scheduled_in(s1, k) && k != e.id {
            let j = choose|j: int| 0 <= j < s1.len() && #[trigger] s1[j].id == k;
            assert(j != pos);
            assert(s0[j].id == k);
        }
        lemma_schedule_map_at(s1, pos);
    }
    assert forall|k: u128| #[trigger] schedule_map(s1).contains_key(k) implies schedule_map(s1)[k] == target[k] by {
        let j = choose|j: int| 0 <= j < s1.len() && #[trigger] s1[j].id == k;
        lemma_schedule_map_at(s1, j);
        if j != pos {
            assert(s0[j].id == k);
            lemma_schedule_map_at(s0, j);
        }
    }
    assert(schedule_map(s1) =~= target);
}

/// Where the background loop stands.
#[derive(Debug, Clone, Copy, PartialEq, Eq, Structural)]
pub enum ReaperState {
    Stopped,
    Running,
    Stopping,
}

/// What the background loop does after a wake-up.
#[derive(Debug, Clone, Copy, PartialEq, Eq, Structural)]
pub enum WakeAction {
    /// Wait for the next tick or signal.
    Continue,
    /// Leave the loop.
    Exit,
}

/// The state after a start request, and whether a loop is to be spawned.
pub open spec fn start_step(s: ReaperState) -> (ReaperState, bool) {
    match s {
        ReaperState::Stopped => (ReaperState::Running, true),
        _ => (s, false),
    }
}

/// The state after a stop request, and whether the loop is to be woken and
/// joined.
pub open spec fn stop_step(s: ReaperState) -> (ReaperState, bool) {
    match s {
        ReaperState::Running => (ReaperState::Stopping, true),
        _ => (s, false),
    }
}

/// The reaper's schedule and lifecycle.
pub struct Deleter {
    pub state: ReaperState,
    pub schecluded_deletes: Vec<SchecludedDelete>,
}

impl Deleter {
    /// The scheduled evictions, by identifier.
    pub open spec fn view(&self) -> Map<u128, SchecludedDelete> {
        schedule_map(self.schecluded_deletes@)
    }

    pub open spec fn wf(&self) -> bool {
        unique_ids(self.schecluded_deletes@)
    }

    /// A stopped reaper with nothing scheduled.
    pub fn new() -> (r: Deleter)
        ensures
            r.wf(),
            r@.is_empty(),
            r.state == ReaperState::Stopped,
    {
        let r = Deleter { state: ReaperState::Stopped, schecluded_deletes: Vec::new() };
        assert(r@ =~= Map::empty());
        r
    }

    /// Schedules the eviction of `id` `dur` after `now`, in place of any
    /// eviction scheduled for it before.
    pub fn scheclude_delete(&mut self, id: u128, dur: Ms, now: u64)
        requires
            old(self).wf(),
        ensures
            final(self).wf(),
            final(self).state == old(self).state,
            final(self)@ == old(self)@.insert(
                id,
                SchecludedDelete { created: now, dur: dur.millis, id },
            ),
    {
        let sd = SchecludedDelete::new(dur, id, now);
        let ghost s0 = self.schecluded_deletes@;
        let n = self.schecluded_deletes.len();
        let mut i: usize = 0;
        while i < n
            invariant
                n == self.schecluded_deletes@.len(),
                self.schecluded_deletes@ == s0,
                self.state == old(self).state,
                s0 == old(self).schecluded_deletes@,
                unique_ids(s0),
                sd == (SchecludedDelete { created: now, dur: dur.millis, id }),
                i <= n,
                forall|j: int| 0 <= j < i ==> #[trigger] s0[j].id != id,
            decreases n - i,
        {
            if self.schecluded_deletes[i].id == id {
                self.schecluded_deletes.set(i, sd);
                proof {
                    lemma_schedule_put(s0, self.schecluded_deletes@, i as int, sd);
                }
                return;
            }
            i = i + 1;
        }
        self.schecluded_deletes.push(sd);
        proof {
            lemma_schedule_put(s0, self.schecluded_deletes@, n as int, sd);
        }
    }

    /// Evicts every record whose eviction is due at `now`: its entry leaves
    /// the schedule and its record leaves the store. The records taken out
    /// of the store are handed back, once each; an identifier that the store
    /// no longer holds is passed over.
    pub fn process_scheclude(&mut self, now: u64, db: &mut FileDatabase) -> (r: Vec<Arc<StoredFile>>)
        requires
            old(self).wf(),
            old(db).wf(),
        ensures
            final(self).wf(),
            final(self).state == old(self).state,
            final(self)@ == pending(old(self)@, now),
            final(db).wf(),
            final(db)@ == old(db)@.remove_keys(expired_ids(old(self)@, now)),
            hands_back(handle_views(r@), old(db)@, expired_ids(old(self)@, now)),
    {
        let ghost s = self.schecluded_deletes@;
        let ghost db0 = db@;
        let n = self.schecluded_deletes.len();
        let mut kept: Vec<SchecludedDelete> = Vec::new();
        let mut out: Vec<Arc<StoredFile>> = Vec::new();
        let mut i: usize = 0;
        let ghost mut idx: Seq<int> = Seq::empty();
        assert(db@ =~= db0.remove_keys(expired_prefix(s, 0, now)));
        assert(handle_views(out@) =~= Seq::<RecordView>::empty());
        while i < n
            invariant
                s == old(self).schecluded_deletes@,
                s == self.schecluded_deletes@,
                db0 == old(db)@,
                unique_ids(s),
                self.state == old(self).state,
                n == s.len(),
                i <= n,
                keeps_pending(kept@, idx, s, i as int, now),
                db.wf(),
                db@ == db0.remove_keys(expired_prefix(s, i as int, now)),
                hands_back(handle_views(out@), db0, expired_prefix(s, i as int, now)),
            decreases n - i,
        {
            let e = self.schecluded_deletes[i];
            let ghost pre = expired_prefix(s, i as int, now);
            if e.expired(now) {
                proof {
                    lemma_prefix_expired_step(s, i as int, now);
                    lemma_keeps_pending_skip(kept@, idx, s, i as int, now);
                }
                let ghost out_before = handle_views(out@);
                let detached = db.remove_file(e.id);
                assert(db@ =~= db0.remove_keys(pre.insert(e.id)));
                match detached {
                    Some(h) => {
                        out.push(h);
                        proof {
                            assert(handle_views(out@) =~= out_before.push(h@));
                            lemma_hands_back_push(out_before, db0, pre, e.id);
                        }
                    },
                    None => {
                        proof {
                            lemma_hands_back_absent(out_before, db0, pre, e.id);
                        }
                    },
                }
            } else {
                proof {
                    lemma_prefix_pending_step(s, i as int, now);
                    lemma_keeps_pending_push(kept@, idx, s, i as int, now);
                    idx = idx.push(i as int);
                }
                kept.push(e);
            }
            i = i + 1;
        }
        proof {
            lemma_sweep_done(kept@, idx, s, now);
        }
        self.schecluded_deletes = kept;
        out
    }

    /// Starts the reaper: from `Stopped` it turns `Running` and returns
    /// `true`, and the caller spawns the background loop; in any other state
    /// nothing changes and it returns `false`.
    pub fn start(&mut self) -> (r: bool)
        requires
            old(self).wf(),
        ensures
            final(self).wf(),
            final(self)@ == old(self)@,
            (final(self).state, r) == start_step(old(self).state),
    {
        match self.state {
            ReaperState::Stopped => {
                self.state = ReaperState::Running;
                true
            },
            _ => false,
        }
    }

    /// Asks the loop to stop: from `Running` it turns `Stopping` and returns
    /// `true`, and the caller wakes the loop and joins it; in any other state
    /// nothing changes and it returns `false`, so a second call is harmless.
    pub fn request_stop(&mut self) -> (r: bool)
        requires
            old(self).wf(),
        ensures
            final(self).wf(),
            final(self)@ == old(self)@,
            (final(self).state, r) == stop_step(old(self).state),
    {
        match self.state {
            ReaperState::Running => {
                self.state = ReaperState::Stopping;
                true
            },
            _ => false,
        }
    }

    /// Records that the loop has been joined: `Stopping` turns `Stopped`.
    pub fn finish_stop(&mut self)
        requires
            old(self).wf(),
        ensures
            final(self).wf(),
            final(self)@ == old(self)@,
            final(self).state == (if old(self).state == ReaperState::Stopping {
                ReaperState::Stopped
            } else {
                old(self).state
            }),
    {
        if self.state == ReaperState::Stopping {
            self.state = ReaperState::Stopped;
        }
    }

    /// What the background loop does on each wake-up, from its timer or from
    /// a stop request. When a stop was asked for it exits at once and
    /// touches nothing; otherwise it evicts what is due at `now`, hands back
    /// the records taken out of the store, and goes on waiting.
    pub fn on_wake(&mut self, now: u64, db: &mut FileDatabase) -> (r: (WakeAction, Vec<Arc<StoredFile>>))
        requires
            old(self).wf(),
            old(db).wf(),
        ensures
            final(self).wf(),
            final(db).wf(),
            final(self).state == old(self).state,
            old(self).state == ReaperState::Stopping ==> r.0 == WakeAction::Exit && r.1@.len() == 0
                && final(self)@ == old(self)@ && final(db)@ == old(db)@,
            old(self).state != ReaperState::Stopping ==> r.0 == WakeAction::Continue && final(self)@
                == pending(old(self)@, now) && final(db)@ == old(db)@.remove_keys(
                expired_ids(old(self)@, now),
            ) && hands_back(handle_views(r.1@), old(db)@, expired_ids(old(self)@, now)),
    {
        if self.state == ReaperState::Stopping {
            return (WakeAction::Exit, Vec::new());
        }
        let detached = self.process_scheclude(now, db);
        (WakeAction::Continue, detached)
    }
}

/// Scheduling an identifier again replaces its deadline: in the schedule
/// that results, the identifier is due exactly when its new entry is, at any
/// time, whatever was scheduled for it before.
pub proof fn lemma_reschedule_replaces_deadline(
    m: Map<u128, SchecludedDelete>,
    id: u128,
    dur: u64,
    created: u64,
    now: u64,
)
    ensures
        expired_ids(m.insert(id, SchecludedDelete { created, dur, id }), now).contains(id)
            == (now >= created + dur),
        pending(m.insert(id, SchecludedDelete { created, dur, id }), now).contains_key(id) == (now
            < created + dur),
{
}

/// A sweep after an identifier was removed from the store hands back no
/// record for it and leaves the store without it, whether or not the
/// identifier is still scheduled.
pub proof fn lemma_sweep_after_remove(
    db: Map<u128, RecordView>,
    sched: Map<u128, SchecludedDelete>,
    id: u128,
    now: u64,
    r: Seq<RecordView>,
)
    requires
        hands_back(r, db.remove(id), expired_ids(sched, now)),
    ensures
        forall|a: int| 0 <= a < r.len() ==> #[trigger] r[a].0 != id,
        !db.remove(id).remove_keys(expired_ids(sched, now)).contains_key(id),
{
    assert forall|a: int| 0 <= a < r.len() implies #[trigger] r[a].0 != id by {
        assert(db.remove(id).contains_key(r[a].0));
    }
}

/// Stopping twice is safe: a stop request on a reaper that is already
/// stopping or stopped changes nothing and asks for no join; from `Running`,
/// only the first of two requests asks for one.
pub proof fn lemma_stop_idempotent(s: ReaperState)
    ensures
        stop_step(stop_step(s).0).1 == false,
        stop_step(stop_step(s).0).0 == stop_step(s).0,
        s == ReaperState::Running ==> stop_step(s) == (ReaperState::Stopping, true),
        s != ReaperState::Running ==> stop_step(s) == (s, false),
{
}

} // verus!
