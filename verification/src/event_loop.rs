//! A callback event loop with retries.
//!
//! The loop keeps a queue of events and decides, event by event, whether
//! its callback is run and what happens once it has run.  Running the
//! callback is left to the caller: `dispatch_next` hands out the next
//! event, and `complete_event` takes back its outcome.
use vstd::prelude::*;
use std::collections::VecDeque;

verus! {

pub struct Opts {
    pub max_retries: u8,
}

/// An event: the callback to run and how many times it has failed so far.
pub struct Event<C> {
    pub callback: C,
    pub attempt: u8,
}

/// How running a callback ended.
pub enum CallbackOutcome {
    Completed,
    Failed(String),
    Panicked(String),
}

/// What the loop does with the next event in its queue.
pub enum Dispatch<C> {
    /// Run the event's callback, then report how it ended with `complete_event`.
    Run(Event<C>),
    /// The event has been retried as often as allowed; it is dropped.
    GiveUp(Event<C>),
    /// The queue is empty.
    Idle,
}

pub struct EventLoop<C> {
    user_events: VecDeque<Event<C>>,
    timer_events: VecDeque<Event<C>>,
    io_events: VecDeque<Event<C>>,
    opts: Opts,
}

impl<C> EventLoop<C> {
    /// The events waiting to be handled, first to be handled first.
    pub closed spec fn queue(&self) -> Seq<Event<C>> {
        self.user_events@
    }

    /// How many failed attempts an event may have before it is dropped.
    pub closed spec fn max_retries(&self) -> u8 {
        self.opts.max_retries
    }

    pub fn new(opts: Opts) -> (l: Self)
        ensures
            l.queue() == Seq::<Event<C>>::empty(),
            l.max_retries() == opts.max_retries,
    {
        EventLoop {
            user_events: VecDeque::new(),
            io_events: VecDeque::new(),
            timer_events: VecDeque::new(),
            opts,
        }
    }

    /// Queues a callback as a fresh event, behind those already queued.
    pub fn push_event(&mut self, callback: C)
        ensures
            final(self).queue() == old(self).queue().push(Event { callback, attempt: 0 }),
            final(self).max_retries() == old(self).max_retries(),
    {
        let event = Event { callback: callback, attempt: 0 };
        self.user_events.push_back(event)
    }

    /// Takes the next event off the queue and says whether its callback is
    /// to be run.
    pub fn dispatch_next(&mut self) -> (d: Dispatch<C>)
        ensures
            final(self).max_retries() == old(self).max_retries(),
            old(self).queue().len() == 0 ==> d is Idle && final(self).queue() == old(self).queue(),
            old(self).queue().len() > 0 ==> {
                &&& final(self).queue() == old(self).queue().drop_first()
                &&& if old(self).queue()[0].attempt <= old(self).max_retries() {
                    d == Dispatch::Run(old(self).queue()[0])
                } else {
                    d == Dispatch::GiveUp(old(self).queue()[0])
                }
            },
    {
        match self.user_events.pop_front() {
            Some(event) => {
                proof {
                    assert(old(self).user_events@.subrange(1, old(self).user_events@.len() as int)
                        =~= old(self).queue().drop_first());
                }
                if event.attempt <= self.opts.max_retries {
                    Dispatch::Run(event)
                } else {
                    Dispatch::GiveUp(event)
                }
            },
            None => Dispatch::Idle,
        }
    }

    /// Takes back an event whose callback has run: a failed one is queued
    /// again with one more attempt counted; otherwise it is done.
    pub fn complete_event(&mut self, event: Event<C>, outcome: CallbackOutcome)
        requires
            outcome is Failed ==> event.attempt < u8::MAX,
        ensures
            final(self).max_retries() == old(self).max_retries(),
            outcome is Failed ==> final(self).queue() == old(self).queue().push(
                Event { callback: event.callback, attempt: (event.attempt + 1) as u8 },
            ),
            !(outcome is Failed) ==> final(self).queue() == old(self).queue(),
    {
        if let CallbackOutcome::Failed(_) = outcome {
            let mut event = event;
            event.attempt += 1;
            self.user_events.push_back(event);
        }
    }

    fn tear_down() {
    }

    fn add_timer() {
    }

    fn monitor_fd() {
    }
}

} // verus!
