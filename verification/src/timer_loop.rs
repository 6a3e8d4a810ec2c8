//! An event loop whose events fire on timers.
//!
//! Instants and durations are counted in nanoseconds on a clock that the
//! caller reads; the loop decides which events are due and what becomes of
//! an event once its callback has run.
use vstd::prelude::*;
use std::collections::{BTreeMap, VecDeque};
use vstd::std_specs::iter::IteratorSpec;
use vstd::std_specs::cmp::OrdSpec;
use vstd::laws_cmp::obeys_cmp;

verus! {

broadcast use vstd::std_specs::btree::group_btree_axioms;

/// What is left of the timers once those due before `instant` are taken.
pub open spec fn remaining_after<V>(m: Map<u64, V>, instant: u64) -> Map<u64, V> {
    Map::new(|k: u64| m.dom().contains(k) && k >= instant, |k: u64| m[k])
}

/// `evs` are the values of the timers due before `instant`, in the order
/// of their deadlines.
pub open spec fn expired_in_order<V>(m: Map<u64, V>, instant: u64, evs: Seq<V>) -> bool {
    exists|ks: Seq<u64>|
        {
            &&& ks.len() == evs.len()
            &&& forall|i: int, j: int| 0 <= i < j < ks.len() ==> ks[i] < ks[j]
            &&& forall|i: int|
                0 <= i < ks.len() ==> m.dom().contains(#[trigger] ks[i]) && ks[i] < instant && evs[i]
                    == m[ks[i]]
            &&& forall|k: u64| m.dom().contains(k) && k < instant ==> ks.contains(k)
        }
}

/// The keys of a map with `u64` keys come out of `keys()` in increasing order.
proof fn lemma_keys_increasing<V>(m: &BTreeMap<u64, V>)
    ensures
        ({
            let s = vstd::std_specs::btree::spec_keys_iter(m).remaining();
            &&& s.unref().to_set() == m@.dom()
            &&& s.no_duplicates()
            &&& forall|i: int, j: int| 0 <= i < j < s.len() ==> *s[i] < *s[j]
        }),
{
    let s = vstd::std_specs::btree::spec_keys_iter(m).remaining();
    broadcast use vstd::laws_cmp::lemma_ref_obeys_cmp_spec;

    vstd::std_specs::btree::axiom_spec_keys_iter(m);
    assert(obeys_cmp::<u64>());
    assert(obeys_cmp::<&u64>());
    assert(vstd::std_specs::btree::increasing_seq(s));
    vstd::std_specs::btree::axiom_increasing_seq_meaning::<&u64>(s);
    assert forall|i: int, j: int| 0 <= i < j < s.len() implies *s[i] < *s[j] by {
        assert(OrdSpec::cmp_spec(&s[i], &s[j]) is Less);
    }
}

pub struct Timer<C> {
    tree: BTreeMap<u64, Event<C>>,
}

impl<C> Timer<C> {
    /// The pending events by deadline.
    pub closed spec fn pending(&self) -> Map<u64, Event<C>> {
        self.tree@
    }

    pub fn new() -> (t: Self)
        ensures
            t.pending() == Map::<u64, Event<C>>::empty(),
    {
        Timer { tree: BTreeMap::new() }
    }

    /// Schedules `event` at `timeout` after `now`.
    /// This overwrites an event if the timeout happens to be at the same time.
    fn add_timer(&mut self, now: u64, timeout: u64, event: Event<C>)
        requires
            now + timeout <= u64::MAX,
        ensures
            final(self).pending() == old(self).pending().insert((now + timeout) as u64, event),
    {
        let timeout_instant = now + timeout;
        self.tree.insert(timeout_instant, event);
    }

    /// Takes out the events due before `instant`, earliest first.
    fn pop_older_than(&mut self, instant: u64) -> (r: Vec<Event<C>>)
        ensures
            final(self).pending() == remaining_after(old(self).pending(), instant),
            expired_in_order(old(self).pending(), instant, r@),
    {
        let ghost m = self.tree@;
        let mut expired_keys: Vec<u64> = Vec::new();
        let ghost keys_seq = vstd::std_specs::btree::spec_keys_iter(&self.tree).remaining();
        proof {
            lemma_keys_increasing(&self.tree);
        }
        for k in it: self.tree.keys()
            invariant
                it.seq() == keys_seq,
                it.seq().unref().to_set() == m.dom(),
                forall|i: int, j: int| 0 <= i < j < it.seq().len() ==> *it.seq()[i] < *it.seq()[j],
                forall|i: int|
                    0 <= i < expired_keys@.len() ==> #[trigger] expired_keys@[i] < instant
                        && m.dom().contains(expired_keys@[i]),
                forall|i: int, j: int|
                    0 <= i < j < expired_keys@.len() ==> expired_keys@[i] < expired_keys@[j],
                forall|i: int, p: int|
                    0 <= i < expired_keys@.len() && it.index() <= p < it.seq().len()
                        ==> expired_keys@[i] < *it.seq()[p],
                forall|p: int|
                    0 <= p < it.index() && *it.seq()[p] < instant ==> expired_keys@.contains(
                        *it.seq()[p],
                    ),
        {
            let ghost idx = it.index();
            assert(*k == *it.seq()[idx]);
            assert(it.seq().unref()[idx] == *k);
            assert(it.seq().unref().to_set().contains(*k));
            if *k < instant {
                let ghost before = expired_keys@;
                expired_keys.push(*k);
                proof {
                    assert forall|p: int|
                        0 <= p < idx + 1 && *it.seq()[p] < instant implies expired_keys@.contains(
                        *it.seq()[p],
                    ) by {
                        if p < idx {
                            let q = choose|q: int|
                                0 <= q < before.len() && before[q] == *it.seq()[p];
                            assert(expired_keys@[q] == before[q]);
                        } else {
                            assert(expired_keys@[before.len() as int] == *it.seq()[p]);
                        }
                    }
                }
            }
        }
        proof {
            assert forall|key: u64| m.dom().contains(key) && key < instant implies expired_keys@.contains(
                key,
            ) by {
                assert(keys_seq.unref().to_set().contains(key));
                let p = choose|p: int| 0 <= p < keys_seq.len() && keys_seq.unref()[p] == key;
                assert(*keys_seq[p] == key);
            }
        }
        let ghost ks = expired_keys@;
        let mut result: Vec<Event<C>> = Vec::new();
        for i in 0..expired_keys.len()
            invariant
                ks == expired_keys@,
                forall|j: int| 0 <= j < ks.len() ==> #[trigger] ks[j] < instant && m.dom().contains(ks[j]),
                forall|a: int, b: int| 0 <= a < b < ks.len() ==> ks[a] < ks[b],
                result@.len() == i,
                forall|j: int| 0 <= j < i ==> #[trigger] result@[j] == m[ks[j]],
                self.tree@ == m.remove_keys(ks.take(i as int).to_set()),
        {
            let key = expired_keys[i];
            proof {
                assert(!ks.take(i as int).contains(key)) by {
                    if ks.take(i as int).contains(key) {
                        let q = choose|q: int| 0 <= q < i && ks.take(i as int)[q] == key;
                        assert(ks[q] < ks[i as int]);
                    }
                }
                assert(ks.take(i as int).to_set().contains(key) == ks.take(i as int).contains(key));
                assert(self.tree@.contains_key(key));
            }
            let event = self.tree.remove(&key);
            proof {
                assert(ks.take(i + 1 as int).to_set() =~= ks.take(i as int).to_set().insert(key)) by {
                    assert(ks.take(i + 1 as int) =~= ks.take(i as int).push(key));
                    ks.take(i as int).lemma_push_to_set_commute(key);
                }
                assert(self.tree@ =~= m.remove_keys(ks.take(i + 1 as int).to_set()));
            }
            result.push(event.unwrap());
        }
        proof {
            assert(ks.take(ks.len() as int) =~= ks);
            assert(self.tree@ =~= remaining_after(m, instant)) by {
                assert forall|key: u64| #[trigger] ks.to_set().contains(key) <==> (m.dom().contains(key) && key < instant) by {
                    if ks.to_set().contains(key) {
                        assert(ks.contains(key));
                        let q = choose|q: int| 0 <= q < ks.len() && ks[q] == key;
                        assert(ks[q] < instant);
                    }
                }
            }
            assert forall|i: int| 0 <= i < ks.len() implies m.dom().contains(#[trigger] ks[i]) && ks[i] < instant
                && result@[i] == m[ks[i]] by {
            }
        }
        result
    }

    /// Takes out the events due before `now`, earliest first.
    fn pop_expired(&mut self, now: u64) -> (r: Vec<Event<C>>)
        ensures
            final(self).pending() == remaining_after(old(self).pending(), now),
            expired_in_order(old(self).pending(), now, r@),
    {
        self.pop_older_than(now)
    }
}

pub struct Event<C> {
    pub callback: C,
    pub attempt: u8,
    pub event_type: EventType,
}

} // verus!
verus! {

#[derive(Debug, Clone, Copy, PartialEq)]
pub enum EventType {
    /// Fires once the delay, in nanoseconds, has passed.
    Timer(u64),
    IO(i8),
}

} // verus!
verus! {

pub struct Opts {
    pub max_retries: u8,
}

/// How a callback that did not complete ended.
pub enum CallbackError {
    Panic(String),
    Error(String),
}

pub type CallbackResult = Result<(), CallbackError>;

/// The events that a round of the loop handles, in order.
pub struct EventLoopIterator<C> {
    /// The events still to hand out, the next one last.
    expired_timers: Vec<Event<C>>,
}

impl<C> EventLoopIterator<C> {
    /// The events still to hand out, the next one first.
    pub closed spec fn remaining(&self) -> Seq<Event<C>> {
        self.expired_timers@.reverse()
    }

    /// Takes the timer events due before `now` out of `timer_events`.
    pub fn new(timer_events: &mut Timer<C>, io_events: &mut VecDeque<Event<C>>, now: u64) -> (it:
        Self)
        ensures
            final(timer_events).pending() == remaining_after(old(timer_events).pending(), now),
            expired_in_order(old(timer_events).pending(), now, it.remaining()),
            final(io_events)@ == old(io_events)@,
    {
        let mut expired = timer_events.pop_expired(now);
        let ghost order = expired@;
        let mut reversed: Vec<Event<C>> = Vec::new();
        while expired.len() > 0
            invariant
                order == expired@ + reversed@.reverse(),
            decreases expired.len(),
        {
            let ghost before = reversed@;
            let e = expired.pop().unwrap();
            reversed.push(e);
            proof {
                assert(reversed@.reverse() =~= seq![e] + before.reverse());
            }
        }
        proof {
            assert(reversed@.reverse() =~= order);
        }
        EventLoopIterator { expired_timers: reversed }
    }

    /// Hands out the next event, if any is left.
    pub fn next(&mut self) -> (e: Option<Event<C>>)
        ensures
            old(self).remaining().len() == 0 ==> e is None && final(self).remaining()
                == old(self).remaining(),
            old(self).remaining().len() > 0 ==> e == Some(old(self).remaining()[0])
                && final(self).remaining() == old(self).remaining().drop_first(),
    {
        let r = self.expired_timers.pop();
        proof {
            if old(self).remaining().len() > 0 {
                assert(self.remaining() =~= old(self).remaining().drop_first());
            }
        }
        r
    }
}

// Should I separate the event loop into an event loop and a runner?
// The event loop could be a dumb event queue aggregator with a run method,
// that handles all events and return a list of (Event, CallbackResult) pairs.
pub struct EventLoop<C> {
    timer_events: Timer<C>,
    io_events: VecDeque<Event<C>>,
    opts: Opts,
}

/// Where an event lands when it is pushed at `now`: a timer event at its
/// deadline; an IO event nowhere.
pub open spec fn after_push<C>(pending: Map<u64, Event<C>>, now: u64, event: Event<C>) -> Map<
    u64,
    Event<C>,
> {
    match event.event_type {
        EventType::Timer(delay) => pending.insert((now + delay) as u64, event),
        EventType::IO(_) => pending,
    }
}

/// The event can be pushed at `now` without its deadline leaving the clock's range.
pub open spec fn deadline_fits<C>(now: u64, event: Event<C>) -> bool {
    event.event_type matches EventType::Timer(delay) ==> now + delay <= u64::MAX
}

impl<C> EventLoop<C> {
    /// The pending timer events by deadline.
    pub closed spec fn pending(&self) -> Map<u64, Event<C>> {
        self.timer_events.pending()
    }

    /// How many failed attempts an event may have before it is dropped.
    pub closed spec fn max_retries(&self) -> u8 {
        self.opts.max_retries
    }

    pub fn new(opts: Opts) -> (l: Self)
        ensures
            l.pending() == Map::<u64, Event<C>>::empty(),
            l.max_retries() == opts.max_retries,
    {
        EventLoop { io_events: VecDeque::new(), timer_events: Timer::new(), opts }
    }

    /// Schedules `callback` to run once `delay` has passed after `now`.
    pub fn add_timer(&mut self, now: u64, callback: C, delay: u64)
        requires
            now + delay <= u64::MAX,
        ensures
            final(self).pending() == old(self).pending().insert(
                (now + delay) as u64,
                Event { callback, attempt: 0, event_type: EventType::Timer(delay) },
            ),
            final(self).max_retries() == old(self).max_retries(),
    {
        let event = Event { callback: callback, attempt: 0, event_type: EventType::Timer(delay) };
        self.push_event(now, event)
    }

    pub fn monitor_fd() {
    }

    /// Starts a round of the loop: takes out the timer events due before
    /// `now`, to be handled in the order given.
    pub fn expired_events(&mut self, now: u64) -> (it: EventLoopIterator<C>)
        ensures
            final(self).pending() == remaining_after(old(self).pending(), now),
            expired_in_order(old(self).pending(), now, it.remaining()),
            final(self).max_retries() == old(self).max_retries(),
    {
        EventLoopIterator::new(&mut self.timer_events, &mut self.io_events, now)
    }

    /// Takes back an event whose callback has run at `now`: one whose
    /// callback returned an error is scheduled again, with one more attempt
    /// counted, while it has attempts left; otherwise it is done.
    pub fn handle_callback_result(
        &mut self,
        now: u64,
        event: Event<C>,
        callback_result: CallbackResult,
    )
        requires
            deadline_fits(now, event),
        ensures
            final(self).max_retries() == old(self).max_retries(),
            (callback_result matches Err(CallbackError::Error(_)) && event.attempt
                < old(self).max_retries()) ==> final(self).pending() == after_push(
                old(self).pending(),
                now,
                Event {
                    callback: event.callback,
                    attempt: (event.attempt + 1) as u8,
                    event_type: event.event_type,
                },
            ),
            !(callback_result matches Err(CallbackError::Error(_)) && event.attempt
                < old(self).max_retries()) ==> final(self).pending() == old(self).pending(),
    {
        if let Err(CallbackError::Error(_)) = callback_result {
            if event.attempt < self.opts.max_retries {
                let mut event = event;
                event.attempt += 1;
                self.push_event(now, event);
            }
        }
    }

    /// Places an event pushed at `now`.
    fn push_event(&mut self, now: u64, event: Event<C>)
        requires
            deadline_fits(now, event),
        ensures
            final(self).pending() == after_push(old(self).pending(), now, event),
            final(self).max_retries() == old(self).max_retries(),
    {
        match event.event_type {
            EventType::Timer(duration) => self.timer_events.add_timer(now, duration, event),
            _ => (),
        }
    }
}

/// A timer never fires early: an event scheduled for `deadline` stays
/// pending through every round at an instant up to `deadline`, and is among
/// the events of the first round at a later instant.
pub proof fn lemma_timer_fires_on_time<V>(
    m: Map<u64, V>,
    deadline: u64,
    event: V,
    instant: u64,
    evs: Seq<V>,
)
    requires
        expired_in_order(m.insert(deadline, event), instant, evs),
    ensures
        instant <= deadline ==> remaining_after(m.insert(deadline, event), instant).contains_key(
            deadline,
        ) && remaining_after(m.insert(deadline, event), instant)[deadline] == event,
        deadline < instant ==> evs.contains(event) && !remaining_after(
            m.insert(deadline, event),
            instant,
        ).contains_key(deadline),
{
    let m2 = m.insert(deadline, event);
    if deadline < instant {
        let ks = choose|ks: Seq<u64>|
            {
                &&& ks.len() == evs.len()
                &&& forall|i: int, j: int| 0 <= i < j < ks.len() ==> ks[i] < ks[j]
                &&& forall|i: int|
                    0 <= i < ks.len() ==> m2.dom().contains(#[trigger] ks[i]) && ks[i] < instant
                        && evs[i] == m2[ks[i]]
                &&& forall|k: u64| m2.dom().contains(k) && k < instant ==> ks.contains(k)
            };
        assert(ks.contains(deadline));
        let i = choose|i: int| 0 <= i < ks.len() && ks[i] == deadline;
        assert(evs[i] == event);
    }
}

/// Pushing an event at `now` schedules a timer event at `now` plus its
/// delay, whatever its attempt count and replacing any event due at that
/// same instant, and leaves the timers as they are for an IO event.
pub proof fn lemma_push_schedules_at_deadline<C>(
    pending: Map<u64, Event<C>>,
    now: u64,
    event: Event<C>,
    k: u64,
)
    requires
        deadline_fits(now, event),
    ensures
        event.event_type matches EventType::Timer(delay) ==> {
            &&& after_push(pending, now, event).contains_key((now + delay) as u64)
            &&& after_push(pending, now, event)[(now + delay) as u64] == event
            &&& (k != now + delay ==> (after_push(pending, now, event).contains_key(k)
                <==> pending.contains_key(k)) && (pending.contains_key(k) ==> after_push(
                pending,
                now,
                event,
            )[k] == pending[k]))
        },
        event.event_type is IO ==> after_push(pending, now, event) == pending,
{
}

} // verus!

