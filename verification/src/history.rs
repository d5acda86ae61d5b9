//! The bounded history: a FIFO window of records with age-first, then
//! size-based eviction, and a running byte total that never drifts.

use vstd::prelude::*;

use crate::record::CommandRecord;
use std::collections::VecDeque;

verus! {

/// Total of `size_bytes` over a sequence of records.
pub open spec fn sum_sizes(s: Seq<CommandRecord>) -> int
    decreases s.len(),
{
    if s.len() == 0 {
        0
    } else {
        s[0].size_bytes + sum_sizes(s.drop_first())
    }
}

/// Every record's `size_bytes` matches its text fields.
pub open spec fn all_wf(s: Seq<CommandRecord>) -> bool {
    forall|i: int| 0 <= i < s.len() ==> (#[trigger] s[i]).wf()
}

/// Creation times never decrease from front to back.
pub open spec fn fifo_ordered(s: Seq<CommandRecord>) -> bool {
    forall|i: int, j: int|
        0 <= i <= j < s.len() ==> #[trigger] s[i].created_at <= #[trigger] s[j].created_at
}

/// Every record was created no later than `t`.
pub open spec fn ts_bounded(s: Seq<CommandRecord>, t: u64) -> bool {
    forall|i: int| 0 <= i < s.len() ==> (#[trigger] s[i]).created_at <= t
}

/// No record's age at time `now` has reached `max_age`.
pub open spec fn ages_ok(s: Seq<CommandRecord>, now: int, max_age: int) -> bool {
    forall|i: int| 0 <= i < s.len() ==> now - (#[trigger] s[i]).created_at < max_age
}

/// The unconditional age pass: drop records from the front while the front
/// record's age at `now` has reached `max_age`. With `max_age == 0` every
/// previously inserted record expires at once, even at the same stamp.
pub open spec fn drop_expired(s: Seq<CommandRecord>, now: int, max_age: int) -> Seq<CommandRecord>
    decreases s.len(),
{
    if s.len() > 0 && now - s[0].created_at >= max_age {
        drop_expired(s.drop_first(), now, max_age)
    } else {
        s
    }
}

/// The size pass: drop records from the front while the window plus the
/// incoming record would exceed `capacity` and the window is non-empty.
pub open spec fn evict_for_space(s: Seq<CommandRecord>, incoming: int, capacity: int) -> Seq<
    CommandRecord,
>
    decreases s.len(),
{
    if s.len() > 0 && sum_sizes(s) + incoming > capacity {
        evict_for_space(s.drop_first(), incoming, capacity)
    } else {
        s
    }
}

/// What one `add` does to the entries: age pass, then size pass, then append.
pub open spec fn spec_add(
    s: Seq<CommandRecord>,
    record: CommandRecord,
    now: int,
    max_age: int,
    capacity: int,
) -> Seq<CommandRecord> {
    evict_for_space(drop_expired(s, now, max_age), record.size_bytes as int, capacity).push(record)
}

pub proof fn lemma_sum_nonneg(s: Seq<CommandRecord>)
    ensures
        sum_sizes(s) >= 0,
    decreases s.len(),
{
    if s.len() > 0 {
        lemma_sum_nonneg(s.drop_first());
    }
}

pub proof fn lemma_sum_push(s: Seq<CommandRecord>, r: CommandRecord)
    ensures
        sum_sizes(s.push(r)) == sum_sizes(s) + r.size_bytes,
    decreases s.len(),
{
    if s.len() == 0 {
        assert(s.push(r)[0] == r);
        assert(s.push(r).drop_first() =~= s);
    } else {
        assert(s.push(r)[0] == s[0]);
        assert(s.push(r).drop_first() =~= s.drop_first().push(r));
        lemma_sum_push(s.drop_first(), r);
    }
}

/// The in-process window of recent records. `capacity_bytes` and `max_age`
/// (in seconds) are fixed at construction; `current_bytes` tracks the exact
/// byte total of the retained entries.
pub struct MemoryCache {
    pub entries: VecDeque<CommandRecord>,
    pub capacity_bytes: usize,
    pub max_age: u64,
    pub current_bytes: usize,
}

impl MemoryCache {
    /// The cache invariant: the byte counter equals the exact sum of the
    /// entries' sizes, every entry is well formed, and entries sit in
    /// non-decreasing creation-time order.
    pub open spec fn wf(self) -> bool {
        &&& self.current_bytes == sum_sizes(self.entries@)
        &&& all_wf(self.entries@)
        &&& fifo_ordered(self.entries@)
    }

    pub fn new(capacity_bytes: usize, max_age: u64) -> (h: Self)
        ensures
            h.wf(),
            h.capacity_bytes == capacity_bytes,
            h.max_age == max_age,
            h.entries@ == Seq::<CommandRecord>::empty(),
            h.current_bytes == 0,
    {
        MemoryCache { entries: VecDeque::new(), capacity_bytes, max_age, current_bytes: 0 }
    }

    /// Empties the window and resets the byte counter.
    pub fn clear(&mut self)
        ensures
            final(self).wf(),
            final(self).entries@ == Seq::<CommandRecord>::empty(),
            final(self).current_bytes == 0,
            final(self).capacity_bytes == old(self).capacity_bytes,
            final(self).max_age == old(self).max_age,
    {
        self.entries.clear();
        self.current_bytes = 0;
    }

    /// Inserts `record` at the tail at time `now`: first evicts every entry
    /// whose age has reached `max_age` (unconditionally), then evicts from
    /// the front while the window cannot also hold `record`, then appends.
    pub fn add(&mut self, record: CommandRecord, now: u64)
        requires
            old(self).wf(),
            record.wf(),
            record.created_at <= now,
            ts_bounded(old(self).entries@, record.created_at),
        ensures
            final(self).wf(),
            final(self).capacity_bytes == old(self).capacity_bytes,
            final(self).max_age == old(self).max_age,
            final(self).entries@ == spec_add(
                old(self).entries@,
                record,
                now as int,
                old(self).max_age as int,
                old(self).capacity_bytes as int,
            ),
            final(self).entries@.len() > 0,
            final(self).entries@.last() == record,
            record.size_bytes <= old(self).capacity_bytes
                ==> final(self).current_bytes <= old(self).capacity_bytes,
            final(self).current_bytes <= old(self).capacity_bytes || final(self).entries@.len()
                == 1,
            forall|i: int|
                0 <= i < final(self).entries@.len() - 1
                    ==> now - (#[trigger] final(self).entries@[i]).created_at < old(self).max_age,
            old(self).entries@.len() == 0
                ==> final(self).entries@ == seq![record] && final(self).current_bytes
                    == record.size_bytes,
    {
        let ghost orig: Seq<CommandRecord> = self.entries@;
        // Age pass: drop expired records from the front.
        while self.entries.len() > 0 && now - self.entries[0].created_at >= self.max_age
            invariant
                self.current_bytes == sum_sizes(self.entries@),
                all_wf(self.entries@),
                fifo_ordered(self.entries@),
                ts_bounded(self.entries@, record.created_at),
                record.created_at <= now,
                self.capacity_bytes == old(self).capacity_bytes,
                self.max_age == old(self).max_age,
                drop_expired(orig, now as int, old(self).max_age as int) == drop_expired(
                    self.entries@,
                    now as int,
                    old(self).max_age as int,
                ),
            decreases self.entries@.len(),
        {
            let ghost prev: Seq<CommandRecord> = self.entries@;
            proof {
                lemma_sum_nonneg(prev.drop_first());
            }
            let removed = self.entries.pop_front().unwrap();
            assert(self.entries@ =~= prev.drop_first());
            self.current_bytes = self.current_bytes - removed.size_bytes;
        }
        let ghost mid: Seq<CommandRecord> = self.entries@;
        proof {
            assert(mid == drop_expired(orig, now as int, old(self).max_age as int));
            assert forall|i: int| 0 <= i < mid.len() implies now - (#[trigger] mid[i]).created_at
                < old(self).max_age as int by {
                assert(mid[0].created_at <= mid[i].created_at);
            }
        }
        // Size pass: make room for the incoming record.
        while self.entries.len() > 0 && (self.current_bytes > self.capacity_bytes
            || record.size_bytes > self.capacity_bytes - self.current_bytes)
            invariant
                self.current_bytes == sum_sizes(self.entries@),
                all_wf(self.entries@),
                fifo_ordered(self.entries@),
                ts_bounded(self.entries@, record.created_at),
                ages_ok(self.entries@, now as int, old(self).max_age as int),
                self.capacity_bytes == old(self).capacity_bytes,
                self.max_age == old(self).max_age,
                evict_for_space(
                    mid,
                    record.size_bytes as int,
                    old(self).capacity_bytes as int,
                ) == evict_for_space(
                    self.entries@,
                    record.size_bytes as int,
                    old(self).capacity_bytes as int,
                ),
            decreases self.entries@.len(),
        {
            let ghost prev: Seq<CommandRecord> = self.entries@;
            proof {
                lemma_sum_nonneg(prev.drop_first());
            }
            let removed = self.entries.pop_front().unwrap();
            assert(self.entries@ =~= prev.drop_first());
            self.current_bytes = self.current_bytes - removed.size_bytes;
        }
        let ghost kept: Seq<CommandRecord> = self.entries@;
        proof {
            lemma_sum_nonneg(kept);
            lemma_sum_push(kept, record);
            assert(kept == evict_for_space(
                mid,
                record.size_bytes as int,
                old(self).capacity_bytes as int,
            ));
        }
        // Append the new record.
        self.current_bytes = self.current_bytes + record.size_bytes;
        self.entries.push_back(record);
        proof {
            if orig.len() == 0 {
                assert(self.entries@ =~= seq![record]);
            }
        }
    }
}

proof fn lemma_drop_expired_suffix(s: Seq<CommandRecord>, now: int, max_age: int)
    ensures
        exists|k: int| 0 <= k <= s.len() && drop_expired(s, now, max_age) == s.skip(k),
    decreases s.len(),
{
    if s.len() > 0 && now - s[0].created_at >= max_age {
        lemma_drop_expired_suffix(s.drop_first(), now, max_age);
        let k = choose|k: int|
            0 <= k <= s.drop_first().len() && drop_expired(s.drop_first(), now, max_age)
                == s.drop_first().skip(k);
        assert(s.drop_first().skip(k) =~= s.skip(k + 1));
        assert(drop_expired(s, now, max_age) == s.skip(k + 1));
    } else {
        assert(s.skip(0) =~= s);
        assert(drop_expired(s, now, max_age) == s.skip(0));
    }
}

proof fn lemma_evict_suffix(s: Seq<CommandRecord>, incoming: int, capacity: int)
    ensures
        exists|k: int| 0 <= k <= s.len() && evict_for_space(s, incoming, capacity) == s.skip(k),
    decreases s.len(),
{
    if s.len() > 0 && sum_sizes(s) + incoming > capacity {
        lemma_evict_suffix(s.drop_first(), incoming, capacity);
        let k = choose|k: int|
            0 <= k <= s.drop_first().len() && evict_for_space(s.drop_first(), incoming, capacity)
                == s.drop_first().skip(k);
        assert(s.drop_first().skip(k) =~= s.skip(k + 1));
        assert(evict_for_space(s, incoming, capacity) == s.skip(k + 1));
    } else {
        assert(s.skip(0) =~= s);
        assert(evict_for_space(s, incoming, capacity) == s.skip(0));
    }
}

/// Law: an `add` only ever removes the oldest entries. What it retains is a
/// contiguous suffix of the previous window, in its old order, with the new
/// record at the tail: nothing is reordered, duplicated, or dropped from the
/// middle.
pub proof fn lemma_add_keeps_a_suffix(
    s: Seq<CommandRecord>,
    record: CommandRecord,
    now: int,
    max_age: int,
    capacity: int,
)
    ensures
        exists|k: int|
            0 <= k <= s.len() && spec_add(s, record, now, max_age, capacity) == s.skip(k).push(
                record,
            ),
{
    lemma_drop_expired_suffix(s, now, max_age);
    let k1 = choose|k: int|
        0 <= k <= s.len() && drop_expired(s, now, max_age) == s.skip(k);
    let aged = s.skip(k1);
    lemma_evict_suffix(aged, record.size_bytes as int, capacity);
    let k2 = choose|k: int|
        0 <= k <= aged.len() && evict_for_space(aged, record.size_bytes as int, capacity)
            == aged.skip(k);
    assert(aged.skip(k2) =~= s.skip(k1 + k2));
    assert(spec_add(s, record, now, max_age, capacity) == s.skip(k1 + k2).push(record));
}

proof fn lemma_evict_bound(s: Seq<CommandRecord>, incoming: int, capacity: int)
    ensures
        sum_sizes(evict_for_space(s, incoming, capacity)) + incoming <= capacity
            || evict_for_space(s, incoming, capacity).len() == 0,
    decreases s.len(),
{
    if s.len() > 0 && sum_sizes(s) + incoming > capacity {
        lemma_evict_bound(s.drop_first(), incoming, capacity);
    }
}

/// Law (capacity bound): whatever the prior window held, an `add` of a
/// record that itself fits within the capacity leaves the window's byte
/// total within the capacity.
pub proof fn lemma_capacity_bound(
    s: Seq<CommandRecord>,
    record: CommandRecord,
    now: int,
    max_age: int,
    capacity: int,
)
    requires
        record.size_bytes as int <= capacity,
    ensures
        sum_sizes(spec_add(s, record, now, max_age, capacity)) <= capacity,
{
    let aged = drop_expired(s, now, max_age);
    let kept = evict_for_space(aged, record.size_bytes as int, capacity);
    lemma_evict_bound(aged, record.size_bytes as int, capacity);
    lemma_sum_push(kept, record);
}

proof fn lemma_drop_expired_fresh(s: Seq<CommandRecord>, now: int, max_age: int)
    requires
        fifo_ordered(s),
    ensures
        ages_ok(drop_expired(s, now, max_age), now, max_age),
    decreases s.len(),
{
    if s.len() > 0 && now - s[0].created_at >= max_age {
        let s2 = s.drop_first();
        assert forall|i: int, j: int| 0 <= i <= j < s2.len() implies #[trigger] s2[i].created_at
            <= #[trigger] s2[j].created_at by {
            assert(s2[i] == s[i + 1]);
            assert(s2[j] == s[j + 1]);
        }
        lemma_drop_expired_fresh(s2, now, max_age);
    } else if s.len() > 0 {
        assert forall|i: int| 0 <= i < s.len() implies now - (#[trigger] s[i]).created_at
            < max_age by {
            assert(s[0].created_at <= s[i].created_at);
        }
    }
}

/// Law (age eviction): the age pass is unconditional and runs before the
/// size pass. After an `add` on a time-ordered window, every retained entry
/// other than the just-inserted record is younger than `max_age` at the
/// `add`'s clock value; a stale entry never survives.
pub proof fn lemma_age_eviction(
    s: Seq<CommandRecord>,
    record: CommandRecord,
    now: int,
    max_age: int,
    capacity: int,
    i: int,
)
    requires
        fifo_ordered(s),
        0 <= i < spec_add(s, record, now, max_age, capacity).len() - 1,
    ensures
        now - spec_add(s, record, now, max_age, capacity)[i].created_at < max_age,
{
    let aged = drop_expired(s, now, max_age);
    let kept = evict_for_space(aged, record.size_bytes as int, capacity);
    lemma_drop_expired_fresh(s, now, max_age);
    lemma_evict_suffix(aged, record.size_bytes as int, capacity);
    let k = choose|k: int| 0 <= k <= aged.len() && kept == aged.skip(k);
    assert(kept[i] == aged[k + i]);
    assert(kept.push(record)[i] == kept[i]);
}

/// Law: the retained window always lists entries in non-decreasing
/// creation-time order, so a front-to-back rendering of the context is in
/// ascending time order.
pub proof fn lemma_context_time_order(h: MemoryCache, i: int, j: int)
    requires
        h.wf(),
        0 <= i <= j < h.entries@.len(),
    ensures
        h.entries@[i].created_at <= h.entries@[j].created_at,
{
}

} // verus!
