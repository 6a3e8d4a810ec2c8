use rustlab::event_loop::{CallbackOutcome, Dispatch, EventLoop, Opts};
use rustlab::timer_loop::{self, CallbackError, EventType};

/// A callback of the loop under test.
struct Callback(Box<dyn FnMut(&mut EventLoop<Callback>) -> Result<(), String>>);

fn handle_events(event_loop: &mut EventLoop<Callback>) -> Vec<u8> {
    let mut attempts = Vec::new();
    loop {
        match event_loop.dispatch_next() {
            Dispatch::Run(mut event) => {
                attempts.push(event.attempt);
                let outcome = match (event.callback.0)(event_loop) {
                    Ok(()) => CallbackOutcome::Completed,
                    Err(msg) => CallbackOutcome::Failed(msg),
                };
                event_loop.complete_event(event, outcome);
            }
            Dispatch::GiveUp(_) => {}
            Dispatch::Idle => break,
        }
    }
    attempts
}

#[test]
fn lib_callback_updates_ctx() {
    struct Ctx(u8);

    let ctx = std::rc::Rc::new(Ctx(42));
    let update_ctx = move |_: &mut EventLoop<Callback>| {
        let _ = ctx.0;
        Ok(())
    };
    let mut event_loop = EventLoop::new(Opts { max_retries: 1 });
    event_loop.push_event(Callback(Box::new(update_ctx)));

    // when i handle the current events
    let attempts = handle_events(&mut event_loop);
    assert_eq!(attempts, vec![0]);
}

#[test]
fn failing_callback_is_retried_up_to_the_limit() {
    let mut event_loop = EventLoop::new(Opts { max_retries: 2 });
    event_loop.push_event(Callback(Box::new(|_| Err(String::from("nope")))));
    let attempts = handle_events(&mut event_loop);
    assert_eq!(attempts, vec![0, 1, 2]);
}

#[test]
fn callbacks_can_push_events() {
    let mut event_loop = EventLoop::new(Opts { max_retries: 0 });
    event_loop.push_event(Callback(Box::new(|l: &mut EventLoop<Callback>| {
        l.push_event(Callback(Box::new(|_| Ok(()))));
        Ok(())
    })));
    assert_eq!(handle_events(&mut event_loop), vec![0, 0]);
}

#[test]
fn timers_fire_in_deadline_order_and_not_before() {
    let mut event_loop = timer_loop::EventLoop::new(timer_loop::Opts { max_retries: 1 });
    event_loop.add_timer(0, "late", 30);
    event_loop.add_timer(0, "early", 10);
    event_loop.add_timer(5, "middle", 15);
    let mut none = event_loop.expired_events(10);
    assert!(none.next().is_none());
    let mut due = event_loop.expired_events(25);
    let first = due.next().unwrap();
    assert_eq!(first.callback, "early");
    assert_eq!(due.next().unwrap().callback, "middle");
    assert!(due.next().is_none());
    // an erring callback is scheduled again with one more attempt
    event_loop.handle_callback_result(25, first, Err(CallbackError::Error(String::from("e"))));
    let mut later = event_loop.expired_events(36);
    assert_eq!(later.next().unwrap().callback, "late");
    let retried = later.next().unwrap();
    assert_eq!(retried.callback, "early");
    assert_eq!(retried.attempt, 1);
    assert_eq!(retried.event_type, EventType::Timer(10));
    // no attempts left: dropped
    event_loop.handle_callback_result(36, retried, Err(CallbackError::Error(String::from("e"))));
    assert!(event_loop.expired_events(u64::MAX).next().is_none());
}

#[test]
fn panicking_or_completed_timer_callbacks_are_done() {
    let mut event_loop = timer_loop::EventLoop::new(timer_loop::Opts { max_retries: 5 });
    event_loop.add_timer(0, 1u8, 1);
    event_loop.add_timer(0, 2u8, 2);
    let mut due = event_loop.expired_events(3);
    let a = due.next().unwrap();
    let b = due.next().unwrap();
    event_loop.handle_callback_result(3, a, Err(CallbackError::Panic(String::from("boom"))));
    event_loop.handle_callback_result(3, b, Ok(()));
    assert!(event_loop.expired_events(u64::MAX).next().is_none());
}

#[test]
fn panicked_callbacks_are_not_retried() {
    let mut event_loop: EventLoop<u8> = EventLoop::new(Opts { max_retries: 3 });
    event_loop.push_event(1);
    event_loop.push_event(2);
    let first = match event_loop.dispatch_next() {
        Dispatch::Run(event) => event,
        _ => panic!("expected an event to run"),
    };
    assert_eq!((first.callback, first.attempt), (1, 0));
    event_loop.complete_event(first, CallbackOutcome::Panicked(String::from("boom")));
    let second = match event_loop.dispatch_next() {
        Dispatch::Run(event) => event,
        _ => panic!("expected an event to run"),
    };
    assert_eq!(second.callback, 2);
    event_loop.complete_event(second, CallbackOutcome::Failed(String::from("again")));
    match event_loop.dispatch_next() {
        Dispatch::Run(event) => assert_eq!((event.callback, event.attempt), (2, 1)),
        _ => panic!("expected the failed event again"),
    }
    assert!(matches!(event_loop.dispatch_next(), Dispatch::Idle));
}

#[test]
fn events_past_their_retries_are_given_up() {
    let mut event_loop: EventLoop<u8> = EventLoop::new(Opts { max_retries: 0 });
    event_loop.push_event(5);
    let event = match event_loop.dispatch_next() {
        Dispatch::Run(event) => event,
        _ => panic!("expected an event to run"),
    };
    event_loop.complete_event(event, CallbackOutcome::Failed(String::from("no")));
    match event_loop.dispatch_next() {
        Dispatch::GiveUp(event) => assert_eq!(event.attempt, 1),
        _ => panic!("expected the event to be given up"),
    }
}
