//! Event multiplexer: one typed channel, many awaiting listeners.
//!
//! An [`EventSource`] holds the listeners of one event kind in insertion
//! order. Emitting a payload walks them front to back; each listener that has
//! not completed yet has its predicate invoked once on a mutable borrow of
//! the payload, and the first `Some` verdict completes it: the listener is
//! marked done, the verdict is stored for the awaiting future, and the
//! listener's waker token is handed back to the caller to be woken. A
//! completed listener is never invoked again.
//!
//! Exclusive access (`&mut self`) stands in for the source's lock: it rules
//! out re-entrant emission and listeners appearing in the middle of a
//! dispatch, which the design forbids.

use vstd::prelude::*;

verus! {

/// The predicate a listener registers: "does this payload satisfy me, and
/// what shall I return". Implementors are this library's users, so nothing
/// is assumed of a call; the multiplexer guarantees only when and how often
/// it invokes one.
pub trait Predicate<T, R> {
    /// Inspect (and possibly mutate) one emitted payload; `Some` completes
    /// the listener with that value.
    fn call(&mut self, payload: &mut T) -> Option<R>;
}

/// Mathematical state of one listener record.
#[verifier::ext_equal]
pub ghost struct ListenerView<R> {
    /// Registration key; keys grow with insertion order.
    pub key: u64,
    /// Monotone completion flag, set when the predicate first returns `Some`.
    pub done: bool,
    /// Waker token of the awaiting task, taken when the listener is woken.
    pub waker: Option<u64>,
    /// The verdict, present exactly when `done`, consumed by the next poll.
    pub completion: Option<R>,
    /// How often the predicate has been invoked.
    pub calls: nat,
}

impl<R> ListenerView<R> {
    /// The completion value is present exactly when the listener is done.
    pub open spec fn wf(self) -> bool {
        self.done <==> self.completion is Some
    }
}

/// How one emit may change one listener: a completed listener is untouched;
/// a pending one has its predicate invoked exactly once, keeps its identity,
/// and either stays pending unchanged or completes, storing a verdict and
/// giving up its waker to be woken.
pub open spec fn emit_step_ok<R>(pre: ListenerView<R>, post: ListenerView<R>) -> bool {
    &&& post.key == pre.key
    &&& pre.done ==> post == pre
    &&& !pre.done ==> {
        &&& post.calls == pre.calls + 1
        &&& !post.done ==> post == (ListenerView { calls: post.calls, ..pre })
        &&& post.done ==> post.completion is Some && post.waker is None
    }
}

/// The emit completed this listener and it had a waker to wake.
pub open spec fn newly_woken<R>(pre: ListenerView<R>, post: ListenerView<R>) -> bool {
    !pre.done && post.done && pre.waker is Some
}

/// The waker tokens that an emit taking the listeners from `pre` to `post`
/// wakes among the first `n` listeners, in insertion order.
pub open spec fn woken_upto<R>(
    pre: Seq<ListenerView<R>>,
    post: Seq<ListenerView<R>>,
    n: int,
) -> Seq<u64>
    decreases n,
{
    if n <= 0 {
        Seq::empty()
    } else if newly_woken(pre[n - 1], post[n - 1]) {
        woken_upto(pre, post, n - 1).push(pre[n - 1].waker.unwrap())
    } else {
        woken_upto(pre, post, n - 1)
    }
}

/// Some listener carries the key `k`.
pub open spec fn has_listener<R>(s: Seq<ListenerView<R>>, k: u64) -> bool {
    exists|i: int| 0 <= i < s.len() && s[i].key == k
}

/// Index of the first listener carrying the key `k`.
pub open spec fn listener_index<R>(s: Seq<ListenerView<R>>, k: u64) -> int
    decreases s.len(),
{
    if s.len() == 0 {
        0
    } else if s[0].key == k {
        0
    } else {
        1 + listener_index(s.drop_first(), k)
    }
}

/// `s` without the listener carrying the key `k`, if any.
pub open spec fn remove_listener<R>(s: Seq<ListenerView<R>>, k: u64) -> Seq<ListenerView<R>> {
    if has_listener(s, k) {
        s.remove(listener_index(s, k))
    } else {
        s
    }
}

/// `s` with the waker of the listener carrying the key `k` replaced by `w`.
pub open spec fn set_listener_waker<R>(
    s: Seq<ListenerView<R>>,
    k: u64,
    w: u64,
) -> Seq<ListenerView<R>> {
    if has_listener(s, k) {
        let i = listener_index(s, k);
        s.update(i, ListenerView { waker: Some(w), ..s[i] })
    } else {
        s
    }
}

/// `listener_index` finds the first occurrence of `k`.
pub proof fn lemma_listener_index<R>(s: Seq<ListenerView<R>>, k: u64)
    requires
        has_listener(s, k),
    ensures
        0 <= listener_index(s, k) < s.len(),
        s[listener_index(s, k)].key == k,
        forall|j: int| 0 <= j < listener_index(s, k) ==> s[j].key != k,
    decreases s.len(),
{
    if s.len() > 0 && s[0].key != k {
        assert(has_listener(s.drop_first(), k)) by {
            let i = choose|i: int| 0 <= i < s.len() && s[i].key == k;
            assert(s.drop_first()[i - 1].key == k);
        }
        lemma_listener_index(s.drop_first(), k);
        assert forall|j: int| 0 <= j < listener_index(s, k) implies s[j].key != k by {
            if j > 0 {
                assert(s.drop_first()[j - 1].key != k);
            }
        }
    }
}

/// One listener record, owned by its [`EventSource`] and dropped when the
/// awaiting future completes or is cancelled.
pub struct ListenerItem<R, P> {
    key: u64,
    done: bool,
    waker: Option<u64>,
    completion: Option<R>,
    pred: P,
    calls: Ghost<nat>,
}

impl<R, P> View for ListenerItem<R, P> {
    type V = ListenerView<R>;

    closed spec fn view(&self) -> ListenerView<R> {
        ListenerView {
            key: self.key,
            done: self.done,
            waker: self.waker,
            completion: self.completion,
            calls: self.calls@,
        }
    }
}

impl<R, P> ListenerItem<R, P> {
    /// A fresh, pending listener owning its predicate.
    pub fn new(key: u64, pred: P) -> (r: Self)
        ensures
            r@ == (ListenerView::<R> {
                key,
                done: false,
                waker: None,
                completion: None,
                calls: 0,
            }),
    {
        ListenerItem { key, done: false, waker: None, completion: None, pred, calls: Ghost(0) }
    }

    /// Remember the waker of the most recent poll, replacing an older one.
    pub fn update_waker(&mut self, waker: u64)
        ensures
            final(self)@ == (ListenerView { waker: Some(waker), ..old(self)@ }),
    {
        let same = match self.waker {
            Some(w) => w == waker,
            None => false,
        };
        if !same {
            self.waker = Some(waker);
        }
    }

    /// Give up the stored waker so the caller can wake it.
    fn take_waker(&mut self) -> (r: Option<u64>)
        ensures
            r == old(self)@.waker,
            final(self)@ == (ListenerView { waker: None, ..old(self)@ }),
    {
        let w = self.waker;
        self.waker = None;
        w
    }

    /// Offer one payload to this listener. A completed listener is left
    /// untouched and its predicate is not invoked; a pending one has its
    /// predicate invoked exactly once and completes when the verdict is
    /// `Some`. Returns whether the listener is (now) complete.
    pub fn poll<T>(&mut self, payload: &mut T) -> (done: bool)
        where P: Predicate<T, R>
        requires
            old(self)@.wf(),
        ensures
            final(self)@.wf(),
            done == final(self)@.done,
            final(self)@.key == old(self)@.key,
            old(self)@.done ==> final(self)@ == old(self)@,
            !old(self)@.done ==> {
                &&& final(self)@.calls == old(self)@.calls + 1
                &&& final(self)@.waker == old(self)@.waker
                &&& !final(self)@.done ==> final(self)@ == (ListenerView {
                    calls: final(self)@.calls,
                    ..old(self)@
                })
            },
    {
        if self.done {
            return true;
        }
        let verdict = self.pred.call(payload);
        self.calls = Ghost(self.calls@ + 1);
        self.settle(verdict)
    }

    /// Record one verdict of the predicate: `Some` completes the listener.
    fn settle(&mut self, verdict: Option<R>) -> (done: bool)
        requires
            old(self)@.wf(),
            !old(self)@.done,
        ensures
            final(self)@.wf(),
            done == final(self)@.done,
            verdict is Some ==> final(self)@ == (ListenerView {
                done: true,
                completion: verdict,
                ..old(self)@
            }),
            verdict is None ==> final(self)@ == old(self)@,
    {
        match verdict {
            Some(r) => {
                self.done = true;
                self.completion = Some(r);
                true
            },
            None => false,
        }
    }
}

/// Mathematical state of an event source: its listeners in insertion order
/// and the key for the next registration.
#[verifier::ext_equal]
pub ghost struct SourceView<R> {
    pub listeners: Seq<ListenerView<R>>,
    pub next_key: u64,
}

impl<R> SourceView<R> {
    /// Well-formedness: every listener is well formed, and keys grow
    /// strictly with insertion order and stay below `next_key`.
    pub open spec fn wf(self) -> bool {
        &&& forall|i: int| 0 <= i < self.listeners.len() ==> (#[trigger] self.listeners[i]).wf()
        &&& forall|i: int| 0 <= i < self.listeners.len()
            ==> (#[trigger] self.listeners[i]).key < self.next_key
        &&& forall|i: int, j: int|
            0 <= i < j < self.listeners.len() ==> self.listeners[i].key < self.listeners[j].key
    }
}

/// One typed event channel and the listeners awaiting it.
pub struct EventSource<R, P> {
    listeners: Vec<ListenerItem<R, P>>,
    next_key: u64,
}

impl<R, P> View for EventSource<R, P> {
    type V = SourceView<R>;

    closed spec fn view(&self) -> SourceView<R> {
        SourceView {
            listeners: self.listeners@.map_values(|l: ListenerItem<R, P>| l@),
            next_key: self.next_key,
        }
    }
}

impl<R, P> EventSource<R, P> {
    /// A source with no listeners.
    pub fn new() -> (r: Self)
        ensures
            r@.wf(),
            r@.listeners == Seq::<ListenerView<R>>::empty(),
            r@.next_key == 0,
    {
        let r = EventSource { listeners: Vec::new(), next_key: 0 };
        proof {
            assert(r@.listeners =~= Seq::<ListenerView<R>>::empty());
        }
        r
    }

    /// How many listeners are registered.
    pub fn listener_count(&self) -> (r: usize)
        ensures
            r == self@.listeners.len(),
    {
        self.listeners.len()
    }

    /// Offer `payload` to every listener, front to back. Listeners that were
    /// already complete are skipped; each other listener has its predicate
    /// invoked exactly once, and those that complete give up their waker.
    /// The returned tokens are to be woken, in the listeners' insertion
    /// order. Taking `&mut self` plays the part of the source's lock: a
    /// predicate can neither emit into this source again nor register a new
    /// listener on it while the walk is in progress.
    pub fn emit<T>(&mut self, payload: &mut T) -> (woken: Vec<u64>)
        where P: Predicate<T, R>
        requires
            old(self)@.wf(),
        ensures
            final(self)@.wf(),
            final(self)@.next_key == old(self)@.next_key,
            final(self)@.listeners.len() == old(self)@.listeners.len(),
            forall|i: int| 0 <= i < old(self)@.listeners.len()
                ==> emit_step_ok(old(self)@.listeners[i], #[trigger] final(self)@.listeners[i]),
            woken@ == woken_upto(
                old(self)@.listeners,
                final(self)@.listeners,
                old(self)@.listeners.len() as int,
            ),
    {
        let ghost v0 = self@;
        let ghost pre = self@.listeners;
        let mut woken: Vec<u64> = Vec::new();
        let mut i: usize = 0;
        while i < self.listeners.len()
            invariant
                v0 == old(self)@,
                v0.wf(),
                v0.listeners == pre,
                0 <= i <= pre.len(),
                self@.listeners.len() == pre.len(),
                self@.next_key == v0.next_key,
                forall|j: int| 0 <= j < i ==> emit_step_ok(pre[j], #[trigger] self@.listeners[j]),
                forall|j: int| 0 <= j < i ==> (#[trigger] self@.listeners[j]).wf(),
                forall|j: int| i <= j < pre.len() ==> self@.listeners[j] == pre[j],
                woken@ == woken_upto(pre, self@.listeners, i as int),
            decreases pre.len() - i,
        {
            let ghost before = self@.listeners;
            if !self.listeners[i].done {
                let mut item = self.listeners.remove(i);
                proof {
                    assert(item@ == pre[i as int]);
                    assert(v0.listeners[i as int].wf());
                }
                let d = item.poll(payload);
                if d {
                    match item.take_waker() {
                        Some(w) => { woken.push(w); },
                        None => {},
                    }
                }
                self.listeners.insert(i, item);
                proof {
                    assert(self@.listeners =~= before.update(i as int, item@));
                }
            }
            proof {
                lemma_woken_upto_congruence(pre, before, self@.listeners, i as int);
                assert(woken@ == woken_upto(pre, self@.listeners, i + 1));
            }
            i = i + 1;
        }
        proof {
            assert(self@.wf()) by {
                assert(forall|j: int| 0 <= j < pre.len()
                    ==> (#[trigger] self@.listeners[j]).key == pre[j].key);
            }
        }
        woken
    }
}

/// Mathematical state of an awaiting future: cold (predicate still owned,
/// not linked), linked under a key, or finished (value delivered or
/// cancelled).
#[verifier::ext_equal]
pub ghost struct FutureView<P> {
    pub pred: Option<P>,
    pub key: Option<u64>,
}

impl<P> FutureView<P> {
    /// The predicate is owned exactly as long as the future is cold.
    pub open spec fn wf(self) -> bool {
        !(self.pred is Some && self.key is Some)
    }

    /// Not yet polled: the listener is not linked yet.
    pub open spec fn is_cold(self) -> bool {
        self.pred is Some && self.key is None
    }

    /// Completed or cancelled; must not be polled again.
    pub open spec fn is_finished(self) -> bool {
        self.pred is None && self.key is None
    }
}

/// The future returned by [`EventSource::on`] and [`EventSource::once`]. It
/// is cold until first polled; polling links a listener into the source,
/// later polls refresh the waker, and the poll that finds the listener
/// complete unlinks it and yields the stored verdict. Dropping the future
/// before that must go through [`EventFnFuture::cancel`], which unlinks the
/// listener so no later emit can touch it.
pub struct EventFnFuture<R, P> {
    pred: Option<P>,
    key: Option<u64>,
    completion: core::marker::PhantomData<R>,
}

impl<R, P> View for EventFnFuture<R, P> {
    type V = FutureView<P>;

    closed spec fn view(&self) -> FutureView<P> {
        FutureView { pred: self.pred, key: self.key }
    }
}

impl<R, P> EventSource<R, P> {
    /// Register interest: a cold future owning `pred`. The source itself is
    /// untouched until the future is first polled.
    pub fn on(&self, pred: P) -> (fut: EventFnFuture<R, P>)
        ensures
            fut@ == (FutureView { pred: Some(pred), key: None::<u64> }),
    {
        EventFnFuture { pred: Some(pred), key: None, completion: core::marker::PhantomData }
    }

    /// Index of the listener carrying `k`.
    fn index_of_key(&self, k: u64) -> (i: usize)
        requires
            self@.wf(),
            has_listener(self@.listeners, k),
        ensures
            i == listener_index(self@.listeners, k),
            0 <= i < self@.listeners.len(),
            self@.listeners[i as int].key == k,
    {
        let ghost s = self@.listeners;
        let mut i: usize = 0;
        while i < self.listeners.len()
            invariant
                self@.listeners == s,
                has_listener(s, k),
                0 <= i <= s.len(),
                forall|j: int| 0 <= j < i ==> s[j].key != k,
            decreases s.len() - i,
        {
            proof {
                assert(s[i as int] == self.listeners@[i as int]@);
            }
            if self.listeners[i].key == k {
                proof {
                    lemma_listener_index(s, k);
                    let f = listener_index(s, k);
                    if f < i {
                        assert(s[f].key != k);
                    }
                    assert(i == f);
                }
                return i;
            }
            i = i + 1;
        }
        proof {
            // unreachable: some listener carries `k`
            lemma_listener_index(s, k);
            assert(s[listener_index(s, k)].key != k);
            assert(false);
        }
        0
    }

    /// Link a fresh listener owning `pred`, waker already recorded.
    fn push_listener(&mut self, pred: P, waker: u64) -> (k: u64)
        requires
            old(self)@.wf(),
            old(self)@.next_key < u64::MAX,
        ensures
            final(self)@.wf(),
            k == old(self)@.next_key,
            final(self)@.next_key == old(self)@.next_key + 1,
            final(self)@.listeners == old(self)@.listeners.push(
                ListenerView { key: k, done: false, waker: Some(waker), completion: None, calls: 0 },
            ),
    {
        let k = self.next_key;
        let mut item = ListenerItem::new(k, pred);
        item.update_waker(waker);
        self.listeners.push(item);
        self.next_key = self.next_key + 1;
        proof {
            assert(self@.listeners =~= old(self)@.listeners.push(item@));
        }
        k
    }
}

/// Removing one listener keeps a source well formed.
proof fn lemma_remove_listener_wf<R>(v: SourceView<R>, k: u64)
    requires
        v.wf(),
        has_listener(v.listeners, k),
    ensures
        (SourceView { listeners: remove_listener(v.listeners, k), ..v }).wf(),
{
    lemma_listener_index(v.listeners, k);
    let i = listener_index(v.listeners, k);
    v.listeners.remove_ensures(i);
    let post = remove_listener(v.listeners, k);
    assert forall|a: int, b: int| 0 <= a < b < post.len() implies post[a].key < post[b].key by {
        if b < i {
        } else if a < i {
            assert(post[b] == v.listeners[b + 1]);
        } else {
            assert(post[a] == v.listeners[a + 1]);
            assert(post[b] == v.listeners[b + 1]);
        }
    }
    assert forall|a: int| 0 <= a < post.len() implies (#[trigger] post[a]).wf()
        && post[a].key < v.next_key by {
        if a >= i {
            assert(post[a] == v.listeners[a + 1]);
        }
    }
}

impl<R, P> EventFnFuture<R, P> {
    /// One poll of the awaiting future against its source, with the waker of
    /// the polling task. The first poll links a listener; a later poll either
    /// finds it complete — unlinking it and yielding the stored verdict — or
    /// refreshes its waker and stays pending.
    pub fn poll(&mut self, source: &mut EventSource<R, P>, waker: u64) -> (r: Option<R>)
        requires
            old(source)@.wf(),
            old(self)@.wf(),
            !old(self)@.is_finished(),
            old(self)@.is_cold() ==> old(source)@.next_key < u64::MAX,
            old(self)@.key matches Some(k) ==> has_listener(old(source)@.listeners, k),
        ensures
            final(source)@.wf(),
            final(self)@.wf(),
            final(source)@.next_key >= old(source)@.next_key,
            old(self)@.is_cold() ==> {
                &&& r is None
                &&& final(self)@ == (FutureView {
                    pred: None::<P>,
                    key: Some(old(source)@.next_key),
                })
                &&& final(source)@.next_key == old(source)@.next_key + 1
                &&& final(source)@.listeners == old(source)@.listeners.push(
                    ListenerView {
                        key: old(source)@.next_key,
                        done: false,
                        waker: Some(waker),
                        completion: None,
                        calls: 0,
                    },
                )
            },
            old(self)@.key matches Some(k) ==> {
                &&& final(source)@.next_key == old(source)@.next_key
                &&& {
                    let i = listener_index(old(source)@.listeners, k);
                    if old(source)@.listeners[i].done {
                        // ready: the verdict is handed out and the listener unlinked
                        &&& r == old(source)@.listeners[i].completion
                        &&& r is Some
                        &&& final(self)@.is_finished()
                        &&& final(source)@.listeners == remove_listener(old(source)@.listeners, k)
                    } else {
                        // pending: only the waker is refreshed
                        &&& r is None
                        &&& final(self)@ == old(self)@
                        &&& final(source)@.listeners == set_listener_waker(
                            old(source)@.listeners,
                            k,
                            waker,
                        )
                    }
                }
            },
    {
        if self.pred.is_some() {
            let pred = self.pred.take().unwrap();
            let k = source.push_listener(pred, waker);
            self.key = Some(k);
            None
        } else {
            match self.key {
                Some(k) => {
                    let ghost s0 = source@;
                    let i = source.index_of_key(k);
                    proof {
                        lemma_listener_index(s0.listeners, k);
                    }
                    if source.listeners[i].done {
                        let item = source.listeners.remove(i);
                        self.key = None;
                        proof {
                            assert(item@ == s0.listeners[i as int]);
                            assert(item@.wf());
                            assert(source@.listeners =~= remove_listener(s0.listeners, k));
                            lemma_remove_listener_wf(s0, k);
                        }
                        item.into_completion()
                    } else {
                        let ghost before = source@.listeners;
                        let mut item = source.listeners.remove(i);
                        item.update_waker(waker);
                        source.listeners.insert(i, item);
                        proof {
                            assert(source@.listeners =~= before.update(i as int, item@));
                            assert(source@.listeners =~= set_listener_waker(s0.listeners, k, waker));
                            assert forall|a: int, b: int|
                                0 <= a < b < source@.listeners.len() implies
                                source@.listeners[a].key < source@.listeners[b].key by {
                                assert(source@.listeners[a].key == s0.listeners[a].key);
                                assert(source@.listeners[b].key == s0.listeners[b].key);
                            }
                        }
                        None
                    }
                },
                None => {
                    proof {
                        assert(false);
                    }
                    None
                },
            }
        }
    }

    /// Cancellation — the future's drop path: release the predicate and,
    /// if the listener is linked, unlink it from the source, so that no
    /// later emit observes this listener.
    pub fn cancel(&mut self, source: &mut EventSource<R, P>)
        requires
            old(source)@.wf(),
            old(self)@.key matches Some(k) ==> has_listener(old(source)@.listeners, k),
        ensures
            final(source)@.wf(),
            final(self)@.is_finished(),
            final(source)@.next_key == old(source)@.next_key,
            old(self)@.key matches Some(k)
                ==> final(source)@.listeners == remove_listener(old(source)@.listeners, k),
            old(self)@.key is None ==> final(source)@.listeners == old(source)@.listeners,
    {
        self.pred = None;
        let k = match self.key {
            Some(k) => k,
            None => {
                return ;
            },
        };
        let ghost s0 = source@;
        let i = source.index_of_key(k);
        source.listeners.remove(i);
        self.key = None;
        proof {
            lemma_listener_index(s0.listeners, k);
            assert(source@.listeners =~= remove_listener(s0.listeners, k));
            lemma_remove_listener_wf(s0, k);
        }
    }
}

impl<R, P> ListenerItem<R, P> {
    /// Hand out the stored verdict, consuming the unlinked listener.
    fn into_completion(self) -> (r: Option<R>)
        ensures
            r == self@.completion,
    {
        self.completion
    }
}

/// The guard that [`EventSource::once`] wraps around a predicate: after the
/// wrapped predicate has returned `Some` once, it is never invoked again,
/// whatever the surrounding machinery does.
pub struct OncePredicate<P> {
    inner: P,
    fired: bool,
    inner_calls: Ghost<nat>,
}

/// Mathematical state of a [`OncePredicate`].
#[verifier::ext_equal]
pub ghost struct OnceView<P> {
    pub inner: P,
    pub fired: bool,
    /// How often the wrapped predicate has been invoked.
    pub inner_calls: nat,
}

impl<P> View for OncePredicate<P> {
    type V = OnceView<P>;

    closed spec fn view(&self) -> OnceView<P> {
        OnceView { inner: self.inner, fired: self.fired, inner_calls: self.inner_calls@ }
    }
}

impl<T, R, P: Predicate<T, R>> Predicate<T, R> for OncePredicate<P> {
    /// At-most-once completion, enforced at the predicate itself: once a
    /// call has returned `Some`, every later call returns `None` without
    /// invoking the wrapped predicate.
    fn call(&mut self, payload: &mut T) -> (r: Option<R>)
        ensures
            old(self)@.fired ==> final(self)@ == old(self)@ && r is None,
            !old(self)@.fired ==> {
                &&& final(self)@.inner_calls == old(self)@.inner_calls + 1
                &&& final(self)@.fired == (r is Some)
            },
            final(self)@.fired == (old(self)@.fired || r is Some),
    {
        if self.fired {
            return None;
        }
        let r = self.inner.call(payload);
        self.inner_calls = Ghost(self.inner_calls@ + 1);
        if r.is_some() {
            self.fired = true;
        }
        r
    }
}

impl<R, P> EventSource<R, OncePredicate<P>> {
    /// Register interest that completes at most once: `pred` is wrapped in a
    /// [`OncePredicate`], so it cannot be invoked again after it returned
    /// `Some`, even if the source emits again before the task is polled.
    pub fn once(&self, pred: P) -> (fut: EventFnFuture<R, OncePredicate<P>>)
        ensures
            fut@.key is None,
            fut@.pred matches Some(q) && q@ == (OnceView {
                inner: pred,
                fired: false,
                inner_calls: 0,
            }),
    {
        self.on(OncePredicate { inner: pred, fired: false, inner_calls: Ghost(0) })
    }
}

/// Drop safety: cancelling a future unlinks its listener, so after the
/// cancellation the source no longer contains the listener's key — no later
/// emit or poll can reach the dropped listener's storage.
pub proof fn lemma_cancelled_listener_unreachable<R>(v: SourceView<R>, k: u64)
    requires
        v.wf(),
        has_listener(v.listeners, k),
    ensures
        !has_listener(remove_listener(v.listeners, k), k),
{
    lemma_listener_index(v.listeners, k);
    let i = listener_index(v.listeners, k);
    v.listeners.remove_ensures(i);
    let post = remove_listener(v.listeners, k);
    if has_listener(post, k) {
        let j = choose|j: int| 0 <= j < post.len() && post[j].key == k;
        if j < i {
            assert(post[j] == v.listeners[j]);
            assert(v.listeners[j].key != k);
        } else {
            assert(post[j] == v.listeners[j + 1]);
            assert(v.listeners[i].key < v.listeners[j + 1].key);
        }
        assert(false);
    }
}

/// At-most-once completion: across any two successive emits, a listener that
/// the first emit saw completed is left untouched by the second — its
/// predicate is not invoked again — and over both emits its predicate ran at
/// most once more than before.
pub proof fn lemma_at_most_once_completion<R>(
    a: ListenerView<R>,
    b: ListenerView<R>,
    c: ListenerView<R>,
)
    requires
        emit_step_ok(a, b),
        emit_step_ok(b, c),
        b.done,
    ensures
        c == b,
        c.calls <= a.calls + 1,
{
}

/// `woken_upto` only grows with `n`, preserving earlier positions.
proof fn lemma_woken_upto_grows<R>(
    pre: Seq<ListenerView<R>>,
    post: Seq<ListenerView<R>>,
    n1: int,
    n2: int,
)
    requires
        0 <= n1 <= n2,
    ensures
        woken_upto(pre, post, n1).len() <= woken_upto(pre, post, n2).len(),
        forall|p: int| 0 <= p < woken_upto(pre, post, n1).len()
            ==> woken_upto(pre, post, n2)[p] == woken_upto(pre, post, n1)[p],
    decreases n2 - n1,
{
    if n1 < n2 {
        lemma_woken_upto_grows(pre, post, n1, n2 - 1);
    }
}

/// No lost wakeups: among the first `n` listeners, the waker of a newly
/// completed listener `i` is woken — it comes out of the emit at position
/// `woken_upto(pre, post, i).len()` of the woken list.
pub proof fn lemma_woken_position<R>(
    pre: Seq<ListenerView<R>>,
    post: Seq<ListenerView<R>>,
    i: int,
    n: int,
)
    requires
        0 <= i < n,
        newly_woken(pre[i], post[i]),
    ensures
        woken_upto(pre, post, i).len() < woken_upto(pre, post, n).len(),
        woken_upto(pre, post, n)[woken_upto(pre, post, i).len() as int]
            == pre[i].waker.unwrap(),
    decreases n,
{
    if i < n - 1 {
        lemma_woken_position(pre, post, i, n - 1);
        lemma_woken_upto_grows(pre, post, n - 1, n);
    }
}

/// Insertion-order dispatch: within one emit, listeners complete and are
/// woken in the order they were linked. If the emit completes the listeners
/// at positions `i` and `j`, `i` before `j` in insertion order, then `i`'s
/// waker stands before `j`'s in the woken list.
pub proof fn lemma_insertion_order_dispatch<R>(
    pre: Seq<ListenerView<R>>,
    post: Seq<ListenerView<R>>,
    i: int,
    j: int,
)
    requires
        0 <= i < j < pre.len(),
        newly_woken(pre[i], post[i]),
        newly_woken(pre[j], post[j]),
    ensures
        ({
            let woken = woken_upto(pre, post, pre.len() as int);
            let pi = woken_upto(pre, post, i).len() as int;
            let pj = woken_upto(pre, post, j).len() as int;
            &&& 0 <= pi < pj < woken.len()
            &&& woken[pi] == pre[i].waker.unwrap()
            &&& woken[pj] == pre[j].waker.unwrap()
        }),
{
    lemma_woken_position(pre, post, i, pre.len() as int);
    lemma_woken_position(pre, post, j, pre.len() as int);
    lemma_woken_position(pre, post, i, j);
}

/// `woken_upto` looks only at the first `n` listeners of the post state.
proof fn lemma_woken_upto_congruence<R>(
    pre: Seq<ListenerView<R>>,
    post1: Seq<ListenerView<R>>,
    post2: Seq<ListenerView<R>>,
    n: int,
)
    requires
        forall|j: int| 0 <= j < n ==> post1[j] == post2[j],
    ensures
        woken_upto(pre, post1, n) == woken_upto(pre, post2, n),
    decreases n,
{
    if n > 0 {
        lemma_woken_upto_congruence(pre, post1, post2, n - 1);
    }
}

} // verus!
