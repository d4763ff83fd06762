//! Timer service: a deadline-ordered list of pending waiters.
//!
//! The service is passive: it holds no thread. The host-loop bridge drives it
//! by calling [`ExecutorTimer::update_next`] on each host iteration, waking
//! every waiter whose deadline has passed and reporting how long the host may
//! sleep until the next one. Deadlines are monotonic milliseconds; waker
//! handles are opaque `u64` tokens supplied by the caller.

use vstd::prelude::*;

verus! {

/// One pending waiter: a deadline and, once the waiting future has been
/// polled, its waker token.
#[derive(Clone, Copy, Debug, PartialEq, Eq)]
pub struct TimerEntry {
    pub key: u64,
    pub deadline: u64,
    pub waker: Option<u64>,
}

/// Mathematical state of the timer service.
#[verifier::ext_equal]
pub ghost struct TimerView {
    /// Pending entries, ordered by deadline; entries with equal deadlines
    /// keep their insertion order.
    pub entries: Seq<TimerEntry>,
    /// Cached earliest deadline, or `None` when nothing was ever pending.
    /// Cancellation may leave it lower than the true minimum; it is never
    /// higher, so no waiter oversleeps.
    pub next_expiration: Option<u64>,
    /// Key handed to the next registered entry.
    pub next_key: u64,
}

/// The entries are sorted by deadline.
pub open spec fn sorted_by_deadline(s: Seq<TimerEntry>) -> bool {
    forall|i: int, j: int| 0 <= i < j < s.len() ==> s[i].deadline <= s[j].deadline
}

/// Some entry carries the key `k`.
pub open spec fn has_key(s: Seq<TimerEntry>, k: u64) -> bool {
    exists|i: int| 0 <= i < s.len() && s[i].key == k
}

/// Index of the first entry carrying the key `k`.
pub open spec fn key_index(s: Seq<TimerEntry>, k: u64) -> int
    decreases s.len(),
{
    if s.len() == 0 {
        0
    } else if s[0].key == k {
        0
    } else {
        1 + key_index(s.drop_first(), k)
    }
}

/// `s` without the entry carrying the key `k`, if any.
pub open spec fn remove_key(s: Seq<TimerEntry>, k: u64) -> Seq<TimerEntry> {
    if has_key(s, k) {
        s.remove(key_index(s, k))
    } else {
        s
    }
}

/// Where an entry with deadline `t` is inserted: after every entry whose
/// deadline is at most `t`, so equal deadlines stay in insertion order.
pub open spec fn insert_pos(s: Seq<TimerEntry>, t: u64) -> int
    decreases s.len(),
{
    if s.len() == 0 {
        0
    } else if s[0].deadline <= t {
        1 + insert_pos(s.drop_first(), t)
    } else {
        0
    }
}

impl TimerView {
    /// Well-formedness: sorted entries, unique keys below `next_key`, and a
    /// cached next expiration that never overshoots the earliest deadline.
    pub open spec fn wf(self) -> bool {
        &&& sorted_by_deadline(self.entries)
        &&& forall|i: int| 0 <= i < self.entries.len() ==> self.entries[i].key < self.next_key
        &&& forall|i: int, j: int|
            0 <= i < j < self.entries.len() ==> self.entries[i].key != self.entries[j].key
        &&& self.entries.len() > 0 ==> {
            &&& self.next_expiration is Some
            &&& self.next_expiration.unwrap() <= self.entries[0].deadline
        }
    }

    /// The earliest pending deadline.
    pub open spec fn spec_next_expiration(self) -> Option<u64> {
        if self.entries.len() == 0 {
            None
        } else {
            Some(self.entries[0].deadline)
        }
    }
}

/// Timer state after registering a deadline `t`: the new entry sits after all
/// entries due no later than `t`, carries the next key and no waker yet, and
/// the cached next expiration is lowered to `t` if `t` comes sooner.
pub open spec fn with_deadline(v: TimerView, t: u64) -> TimerView {
    TimerView {
        entries: v.entries.insert(
            insert_pos(v.entries, t),
            TimerEntry { key: v.next_key, deadline: t, waker: None },
        ),
        next_expiration: match v.next_expiration {
            None => Some(t),
            Some(n) => Some(if t < n { t } else { n }),
        },
        next_key: (v.next_key + 1) as u64,
    }
}

/// Timer state after a tick at time `now`: every entry due at or before
/// `now` is gone, and the cached next expiration is the earliest deadline
/// still pending.
pub open spec fn ticked(v: TimerView, now: u64) -> TimerView {
    let k = insert_pos(v.entries, now);
    let rest = v.entries.subrange(k, v.entries.len() as int);
    TimerView {
        entries: rest,
        next_expiration: if rest.len() == 0 {
            None
        } else {
            Some(rest[0].deadline)
        },
        next_key: v.next_key,
    }
}

/// The `(deadline, waker)` pairs of the first `n` entries that carry a
/// waker, in entry order.
pub open spec fn wakers_upto(s: Seq<TimerEntry>, n: int) -> Seq<(u64, u64)>
    decreases n,
{
    if n <= 0 {
        Seq::empty()
    } else if s[n - 1].waker is Some {
        wakers_upto(s, n - 1).push((s[n - 1].deadline, s[n - 1].waker.unwrap()))
    } else {
        wakers_upto(s, n - 1)
    }
}

/// The wakers woken by a tick at `now`: those of the expired entries, in
/// deadline order.
pub open spec fn expired_wakers(v: TimerView, now: u64) -> Seq<(u64, u64)> {
    wakers_upto(v.entries, insert_pos(v.entries, now))
}

/// `s` with the waker of the entry carrying key `k` replaced by `w`.
pub open spec fn set_waker(s: Seq<TimerEntry>, k: u64, w: u64) -> Seq<TimerEntry> {
    if has_key(s, k) {
        let i = key_index(s, k);
        s.update(i, TimerEntry { waker: Some(w), ..s[i] })
    } else {
        s
    }
}

/// What the host is asked to do after a tick.
#[derive(Clone, Copy, Debug, PartialEq, Eq, Structural)]
pub enum UpdateState {
    /// No waiter was ever registered; the host may wait indefinitely.
    Idle,
    /// At least one waiter may have expired and was woken.
    Triggered,
    /// The earliest waiter is due in this many milliseconds (always nonzero).
    WaitTimeout(u64),
}

/// The timer service.
pub struct ExecutorTimer {
    entries: Vec<TimerEntry>,
    next_expiration: Option<u64>,
    next_key: u64,
}

impl View for ExecutorTimer {
    type V = TimerView;

    closed spec fn view(&self) -> TimerView {
        TimerView {
            entries: self.entries@,
            next_expiration: self.next_expiration,
            next_key: self.next_key,
        }
    }
}

/// A handle on one registered deadline. The waiting future owns it; polling
/// and cancellation act on the timer service through it.
#[derive(Clone, Copy, Debug, PartialEq, Eq, Structural)]
pub struct TimerFuture {
    pub key: u64,
    pub deadline: u64,
}

impl ExecutorTimer {
    /// A timer service with nothing pending.
    pub fn new() -> (r: Self)
        ensures
            r@.wf(),
            r@.entries == Seq::<TimerEntry>::empty(),
            r@.next_expiration is None,
            r@.next_key == 0,
    {
        ExecutorTimer { entries: Vec::new(), next_expiration: None, next_key: 0 }
    }

    /// The earliest pending deadline, if any waiter is registered.
    pub fn next_expiration(&self) -> (r: Option<u64>)
        ensures
            r == self@.spec_next_expiration(),
    {
        if self.entries.len() == 0 {
            None
        } else {
            Some(self.entries[0].deadline)
        }
    }

    /// How many waiters are pending.
    pub fn pending_count(&self) -> (r: usize)
        ensures
            r == self@.entries.len(),
    {
        self.entries.len()
    }

    /// Register a waiter that is due at monotonic millisecond `timestamp`.
    pub fn deadline(&mut self, timestamp: u64) -> (fut: TimerFuture)
        requires
            old(self)@.wf(),
            old(self)@.next_key < u64::MAX,
        ensures
            final(self)@.wf(),
            final(self)@ == with_deadline(old(self)@, timestamp),
            fut == (TimerFuture { key: old(self)@.next_key, deadline: timestamp }),
            has_key(final(self)@.entries, fut.key),
            final(self)@.spec_next_expiration() is Some,
            final(self)@.spec_next_expiration().unwrap() <= timestamp,
    {
        proof {
            lemma_insert_pos_bounds(self.entries@, timestamp);
        }
        let entry = TimerEntry { key: self.next_key, deadline: timestamp, waker: None };
        let mut i: usize = 0;
        while i < self.entries.len() && self.entries[i].deadline <= timestamp
            invariant
                0 <= i <= self.entries@.len(),
                forall|j: int| 0 <= j < i ==> self.entries@[j].deadline <= timestamp,
            decreases self.entries@.len() - i,
        {
            i = i + 1;
        }
        proof {
            // `i` is the first index whose deadline exceeds `timestamp`, which
            // is exactly `insert_pos`.
            let p = insert_pos(self.entries@, timestamp);
            if i < p {
                assert(self.entries@[i as int].deadline <= timestamp);
            }
            if p < i {
                assert(self.entries@[p].deadline > timestamp);
            }
            assert(i == p);
        }
        self.entries.insert(i, entry);
        self.next_expiration = match self.next_expiration {
            None => Some(timestamp),
            Some(n) => Some(if timestamp < n { timestamp } else { n }),
        };
        self.next_key = self.next_key + 1;
        let fut = TimerFuture { key: entry.key, deadline: timestamp };
        proof {
            let pre = old(self)@;
            let post = self@;
            let p = insert_pos(pre.entries, timestamp);
            lemma_insert_pos_bounds(pre.entries, timestamp);
            assert(post.entries[p].key == fut.key);
            assert forall|a: int, b: int| 0 <= a < b < post.entries.len() implies
                post.entries[a].deadline <= post.entries[b].deadline by {
                lemma_insert_keeps_sorted(pre.entries, timestamp, entry, a, b);
            }
        }
        fut
    }

    /// Wake every waiter whose deadline is at or before `now` and drop its
    /// entry. Returns the `(deadline, waker)` pairs of the woken waiters in
    /// deadline order.
    pub fn tick(&mut self, now: u64) -> (woken: Vec<(u64, u64)>)
        requires
            old(self)@.wf(),
        ensures
            final(self)@.wf(),
            final(self)@ == ticked(old(self)@, now),
            woken@ == expired_wakers(old(self)@, now),
    {
        let ghost s0 = self.entries@;
        let ghost key0 = self.next_key;
        let ghost exp0 = self.next_expiration;
        let mut woken: Vec<(u64, u64)> = Vec::new();
        let ghost mut k: int = 0;
        while self.entries.len() > 0 && self.entries[0].deadline <= now
            invariant
                0 <= k <= s0.len(),
                self.entries@ == s0.subrange(k, s0.len() as int),
                self.next_key == key0,
                self.next_expiration == exp0,
                woken@ == wakers_upto(s0, k),
                forall|m: int| 0 <= m < k ==> s0[m].deadline <= now,
            decreases self.entries@.len(),
        {
            let e = self.entries.remove(0);
            assert(e == s0[k]);
            match e.waker {
                Some(w) => { woken.push((e.deadline, w)); },
                None => {},
            }
            proof {
                assert(self.entries@ =~= s0.subrange(k + 1, s0.len() as int));
                k = k + 1;
            }
        }
        proof {
            // `k` is the first index whose deadline exceeds `now`.
            let p = insert_pos(s0, now);
            lemma_insert_pos_bounds(s0, now);
            if k < s0.len() {
                assert(s0[k] == self.entries@[0]);
            }
            if k < p {
                assert(s0[k].deadline <= now);
            }
            if p < k {
                assert(s0[p].deadline > now);
            }
            assert(k == p);
        }
        if self.entries.len() == 0 {
            self.next_expiration = None;
        } else {
            self.next_expiration = Some(self.entries[0].deadline);
        }
        proof {
            assert(self@ =~= ticked(old(self)@, now));
        }
        woken
    }

    /// One host iteration of the timer: report `Idle` when nothing was ever
    /// pending, wake the expired waiters when the cached next expiration has
    /// passed, and otherwise tell the host how long it may sleep.
    pub fn update_next(&mut self, now: u64) -> (r: (UpdateState, Vec<(u64, u64)>))
        requires
            old(self)@.wf(),
        ensures
            final(self)@.wf(),
            old(self)@.next_expiration is None ==> {
                &&& r.0 == UpdateState::Idle
                &&& final(self)@ == old(self)@
                &&& r.1@ == Seq::<(u64, u64)>::empty()
            },
            old(self)@.next_expiration matches Some(n) ==> {
                &&& n > now ==> {
                    &&& r.0 == UpdateState::WaitTimeout((n - now) as u64)
                    &&& n - now > 0
                    &&& final(self)@ == old(self)@
                    &&& r.1@ == Seq::<(u64, u64)>::empty()
                }
                &&& n <= now ==> {
                    &&& r.0 == UpdateState::Triggered
                    &&& final(self)@ == ticked(old(self)@, now)
                    &&& r.1@ == expired_wakers(old(self)@, now)
                }
            },
    {
        match self.next_expiration {
            None => (UpdateState::Idle, Vec::new()),
            Some(n) => {
                if n <= now {
                    let woken = self.tick(now);
                    (UpdateState::Triggered, woken)
                } else {
                    (UpdateState::WaitTimeout(n - now), Vec::new())
                }
            },
        }
    }

    /// Register a waiter that is due `delay_ms` milliseconds from now. The
    /// deadline is read off the host clock; it saturates instead of wrapping
    /// and is therefore never less than `delay_ms`.
    pub fn delay(&mut self, delay_ms: u64) -> (fut: TimerFuture)
        requires
            old(self)@.wf(),
            old(self)@.next_key < u64::MAX,
        ensures
            final(self)@.wf(),
            final(self)@ == with_deadline(old(self)@, fut.deadline),
            fut.key == old(self)@.next_key,
            fut.deadline >= delay_ms,
    {
        let now = now_millis();
        let t = if delay_ms <= u64::MAX - now {
            now + delay_ms
        } else {
            u64::MAX
        };
        self.deadline(t)
    }
}

/// Relies on `instant::now`: the host clock in milliseconds. Nothing is
/// assumed of the reading; every caller treats any value as valid. On the
/// native clock the call panics if the system time reads before the Unix
/// epoch.
#[verifier::external_body]
fn now_millis() -> u64 {
    instant::now() as u64
}

/// `key_index` finds the first occurrence of `k`.
pub proof fn lemma_key_index(s: Seq<TimerEntry>, k: u64)
    requires
        has_key(s, k),
    ensures
        0 <= key_index(s, k) < s.len(),
        s[key_index(s, k)].key == k,
        forall|j: int| 0 <= j < key_index(s, k) ==> s[j].key != k,
    decreases s.len(),
{
    if s.len() > 0 && s[0].key != k {
        assert(has_key(s.drop_first(), k)) by {
            let i = choose|i: int| 0 <= i < s.len() && s[i].key == k;
            assert(s.drop_first()[i - 1].key == k);
        }
        lemma_key_index(s.drop_first(), k);
        assert forall|j: int| 0 <= j < key_index(s, k) implies s[j].key != k by {
            if j > 0 {
                assert(s.drop_first()[j - 1].key != k);
            }
        }
    }
}

impl ExecutorTimer {
    /// Drop the entry carrying `k`, if any; deadlines and the cached next
    /// expiration are untouched (the cache may now point below the true
    /// minimum, which only costs a spurious wakeup).
    fn remove_entry(&mut self, k: u64)
        requires
            old(self)@.wf(),
        ensures
            final(self)@.wf(),
            final(self)@.entries == remove_key(old(self)@.entries, k),
            final(self)@.next_expiration == old(self)@.next_expiration,
            final(self)@.next_key == old(self)@.next_key,
    {
        let ghost v0 = self@;
        let ghost s0 = self.entries@;
        let mut i: usize = 0;
        while i < self.entries.len()
            invariant
                v0 == old(self)@,
                v0.wf(),
                v0.entries == s0,
                0 <= i <= s0.len(),
                self@ == v0,
                forall|j: int| 0 <= j < i ==> s0[j].key != k,
            decreases s0.len() - i,
        {
            if self.entries[i].key == k {
                proof {
                    assert(has_key(s0, k));
                    lemma_key_index(s0, k);
                    let f = key_index(s0, k);
                    if f < i {
                        assert(s0[f].key != k);
                    }
                    assert(i == f);
                }
                self.entries.remove(i);
                proof {
                    s0.remove_ensures(i as int);
                    assert(sorted_by_deadline(self.entries@)) by {
                        assert forall|a: int, b: int|
                            0 <= a < b < self.entries@.len() implies
                            self.entries@[a].deadline <= self.entries@[b].deadline by {
                            if b < i {
                            } else if a < i {
                                assert(self.entries@[b] == s0[b + 1]);
                            } else {
                                assert(self.entries@[a] == s0[a + 1]);
                                assert(self.entries@[b] == s0[b + 1]);
                            }
                        }
                    }
                    if self.entries@.len() > 0 {
                        assert(self.entries@[0] == if i == 0 {
                            s0[1]
                        } else {
                            s0[0]
                        });
                    }
                }
                return ;
            }
            i = i + 1;
        }
        proof {
            assert(!has_key(s0, k));
        }
    }

    /// Store `w` as the waker of the entry carrying `k`.
    fn update_entry_waker(&mut self, k: u64, w: u64)
        requires
            old(self)@.wf(),
            has_key(old(self)@.entries, k),
        ensures
            final(self)@.wf(),
            final(self)@.entries == set_waker(old(self)@.entries, k, w),
            final(self)@.next_expiration == old(self)@.next_expiration,
            final(self)@.next_key == old(self)@.next_key,
    {
        let ghost v0 = self@;
        let ghost s0 = self.entries@;
        let mut i: usize = 0;
        while i < self.entries.len()
            invariant
                v0 == old(self)@,
                v0.wf(),
                v0.entries == s0,
                0 <= i <= s0.len(),
                self@ == v0,
                forall|j: int| 0 <= j < i ==> s0[j].key != k,
            decreases s0.len() - i,
        {
            if self.entries[i].key == k {
                proof {
                    lemma_key_index(s0, k);
                    let f = key_index(s0, k);
                    if f < i {
                        assert(s0[f].key != k);
                    }
                    assert(i == f);
                }
                let e = self.entries[i];
                let updated = TimerEntry { waker: Some(w), ..e };
                self.entries.remove(i);
                self.entries.insert(i, updated);
                proof {
                    assert(self.entries@ =~= s0.update(i as int, updated));
                    assert(sorted_by_deadline(self.entries@)) by {
                        assert forall|a: int, b: int|
                            0 <= a < b < self.entries@.len() implies
                            self.entries@[a].deadline <= self.entries@[b].deadline by {
                            assert(self.entries@[a].deadline == s0[a].deadline);
                            assert(self.entries@[b].deadline == s0[b].deadline);
                        }
                    }
                }
                return ;
            }
            i = i + 1;
        }
        proof {
            assert(!has_key(s0, k));
            assert(false);
        }
    }
}

/// `wakers_upto` only grows with `n`, preserving earlier positions.
proof fn lemma_wakers_upto_prefix(s: Seq<TimerEntry>, n1: int, n2: int)
    requires
        0 <= n1 <= n2,
    ensures
        wakers_upto(s, n1).len() <= wakers_upto(s, n2).len(),
        forall|p: int| 0 <= p < wakers_upto(s, n1).len()
            ==> wakers_upto(s, n2)[p] == wakers_upto(s, n1)[p],
    decreases n2 - n1,
{
    if n1 < n2 {
        lemma_wakers_upto_prefix(s, n1, n2 - 1);
    }
}

/// No lost wakeups: among the first `n` entries, the waker pair of entry
/// `i` comes out at position `wakers_upto(s, i).len()` of the woken list.
pub proof fn lemma_waker_position(s: Seq<TimerEntry>, i: int, n: int)
    requires
        0 <= i < n,
        s[i].waker is Some,
    ensures
        wakers_upto(s, i).len() < wakers_upto(s, n).len(),
        wakers_upto(s, n)[wakers_upto(s, i).len() as int] == (s[i].deadline, s[i].waker.unwrap()),
    decreases n,
{
    if i < n - 1 {
        lemma_waker_position(s, i, n - 1);
        lemma_wakers_upto_prefix(s, n - 1, n);
    }
}

/// Timer monotone wake: deadlines are served in order. If one tick wakes the
/// waiter at entry `j`, then it also wakes every earlier entry `i` (whose
/// deadline is at most `j`'s), and `i`'s waker comes out at an earlier
/// position of the woken list than `j`'s.
pub proof fn lemma_timer_monotone_wake(v: TimerView, now: u64, i: int, j: int)
    requires
        v.wf(),
        0 <= i < j < v.entries.len(),
        v.entries[j].deadline <= now,
        v.entries[i].waker is Some,
        v.entries[j].waker is Some,
    ensures
        v.entries[i].deadline <= v.entries[j].deadline <= now,
        wakers_upto(v.entries, i).len() < wakers_upto(v.entries, j).len(),
        wakers_upto(v.entries, j).len() < expired_wakers(v, now).len(),
        expired_wakers(v, now)[wakers_upto(v.entries, i).len() as int]
            == (v.entries[i].deadline, v.entries[i].waker.unwrap()),
        expired_wakers(v, now)[wakers_upto(v.entries, j).len() as int]
            == (v.entries[j].deadline, v.entries[j].waker.unwrap()),
{
    let s = v.entries;
    let p = insert_pos(s, now);
    lemma_insert_pos_bounds(s, now);
    if p <= j {
        assert(s[p].deadline > now);
        assert(s[p].deadline <= s[j].deadline);
        assert(false);
    }
    lemma_waker_position(s, i, p);
    lemma_waker_position(s, j, p);
    lemma_waker_position(s, i, j);
}

/// A tick at `now` is complete: every entry due at or before `now` is gone
/// from the remaining entries, and every remaining entry is due later.
pub proof fn lemma_tick_complete(v: TimerView, now: u64)
    requires
        v.wf(),
    ensures
        forall|i: int| 0 <= i < ticked(v, now).entries.len()
            ==> (#[trigger] ticked(v, now).entries[i]).deadline > now,
        forall|i: int| 0 <= i < v.entries.len() && (#[trigger] v.entries[i]).deadline <= now
            ==> !has_key(ticked(v, now).entries, v.entries[i].key),
{
    let p = insert_pos(v.entries, now);
    lemma_insert_pos_bounds(v.entries, now);
    let rest = ticked(v, now).entries;
    assert forall|i: int| 0 <= i < rest.len() implies (#[trigger] rest[i]).deadline > now by {
        assert(rest[i] == v.entries[p + i]);
        assert(v.entries[p].deadline > now);
        if i > 0 {
            assert(v.entries[p].deadline <= v.entries[p + i].deadline);
        }
    }
    assert forall|i: int| 0 <= i < v.entries.len() && (#[trigger] v.entries[i]).deadline <= now
        implies !has_key(rest, v.entries[i].key) by {
        assert(i < p);
        if has_key(rest, v.entries[i].key) {
            let j = choose|j: int| 0 <= j < rest.len() && rest[j].key == v.entries[i].key;
            assert(rest[j] == v.entries[p + j]);
            assert(v.entries[i].key != v.entries[p + j].key);
        }
    }
}

impl TimerFuture {
    /// Poll the waiter at time `now` against the timer it registered with.
    /// It is ready exactly when its deadline has passed, in which case any
    /// remaining entry of it is dropped; otherwise its entry records the
    /// waker to be woken by a later tick.
    pub fn poll(&self, timer: &mut ExecutorTimer, now: u64, waker: u64) -> (ready: bool)
        requires
            old(timer)@.wf(),
            now < self.deadline ==> has_key(old(timer)@.entries, self.key),
        ensures
            final(timer)@.wf(),
            ready == (now >= self.deadline),
            final(timer)@.next_expiration == old(timer)@.next_expiration,
            final(timer)@.next_key == old(timer)@.next_key,
            ready ==> final(timer)@.entries == remove_key(old(timer)@.entries, self.key),
            !ready ==> final(timer)@.entries == set_waker(old(timer)@.entries, self.key, waker),
    {
        if now >= self.deadline {
            timer.remove_entry(self.key);
            true
        } else {
            timer.update_entry_waker(self.key, waker);
            false
        }
    }

    /// Cancellation: dropping the waiting future removes its entry, so a
    /// dropped waiter is never woken.
    pub fn cancel(&self, timer: &mut ExecutorTimer)
        requires
            old(timer)@.wf(),
        ensures
            final(timer)@.wf(),
            final(timer)@.entries == remove_key(old(timer)@.entries, self.key),
            final(timer)@.next_expiration == old(timer)@.next_expiration,
            final(timer)@.next_key == old(timer)@.next_key,
    {
        timer.remove_entry(self.key);
    }
}

/// `insert_pos` splits the sequence into a prefix due no later than `t` and a
/// suffix due strictly after it.
pub proof fn lemma_insert_pos_bounds(s: Seq<TimerEntry>, t: u64)
    ensures
        0 <= insert_pos(s, t) <= s.len(),
        forall|j: int| 0 <= j < insert_pos(s, t) ==> s[j].deadline <= t,
        insert_pos(s, t) < s.len() ==> s[insert_pos(s, t)].deadline > t,
    decreases s.len(),
{
    if s.len() > 0 && s[0].deadline <= t {
        lemma_insert_pos_bounds(s.drop_first(), t);
        assert forall|j: int| 0 <= j < insert_pos(s, t) implies s[j].deadline <= t by {
            if j > 0 {
                assert(s.drop_first()[j - 1].deadline <= t);
            }
        }
    }
}

/// Inserting an entry at `insert_pos` keeps the sequence sorted by deadline.
proof fn lemma_insert_keeps_sorted(s: Seq<TimerEntry>, t: u64, e: TimerEntry, a: int, b: int)
    requires
        sorted_by_deadline(s),
        e.deadline == t,
        0 <= a < b < s.len() + 1,
    ensures
        s.insert(insert_pos(s, t), e)[a].deadline <= s.insert(insert_pos(s, t), e)[b].deadline,
{
    let p = insert_pos(s, t);
    lemma_insert_pos_bounds(s, t);
    let post = s.insert(p, e);
    assert(post[p] == e);
    assert(forall|j: int| 0 <= j < p ==> post[j] == s[j]);
    assert(forall|j: int| p < j < post.len() ==> post[j] == s[j - 1]);
}

} // verus!
