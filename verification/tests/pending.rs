use bevy_spicy_networking_tokio_quinn::{PendingEvent, PendingHandler, Wait};

type Event = PendingEvent<&'static str, u32, &'static str>;

fn entries(handler: PendingHandler<&'static str>) -> Vec<&'static str> {
    match handler.wait() {
        Wait::Arrival => Vec::new(),
        Wait::ArrivalOrCompletion(entries) => entries,
    }
}

fn resume(event: Event) -> (Vec<&'static str>, Option<u32>) {
    let (handler, forwarded) = PendingHandler::resume(event);
    (entries(handler), forwarded)
}

#[test]
fn new_handler_waits_for_arrivals_only() {
    let handler: PendingHandler<u8> = PendingHandler::new();
    assert!(matches!(handler.wait(), Wait::Arrival));
}

#[test]
fn arrival_goes_behind_what_is_in_progress() {
    let (pending, forwarded) = resume(PendingEvent::Arrived {
        arrival: Some("c"),
        waiting: vec!["a", "b"],
    });
    assert_eq!(pending, vec!["a", "b", "c"]);
    assert_eq!(forwarded, None);
}

#[test]
fn first_arrival_is_in_progress() {
    let (pending, forwarded) = resume(PendingEvent::Arrived {
        arrival: Some("a"),
        waiting: vec![],
    });
    assert_eq!(pending, vec!["a"]);
    assert_eq!(forwarded, None);
}

#[test]
fn closed_queue_drops_what_is_in_progress() {
    let (pending, forwarded) = resume(PendingEvent::Arrived {
        arrival: None,
        waiting: vec!["a", "b"],
    });
    assert!(pending.is_empty());
    assert_eq!(forwarded, None);
}

#[test]
fn closed_queue_with_nothing_in_progress() {
    let (handler, forwarded) = PendingHandler::resume(Event::Arrived {
        arrival: None,
        waiting: vec![],
    });
    assert!(matches!(handler.wait(), Wait::Arrival));
    assert_eq!(forwarded, None);
}

#[test]
fn success_is_forwarded() {
    let (pending, forwarded) = resume(PendingEvent::Completed {
        outcome: Ok(7),
        index: 0,
        waiting: vec![],
    });
    assert!(pending.is_empty());
    assert_eq!(forwarded, Some(7));
}

#[test]
fn failure_is_not_forwarded() {
    let (pending, forwarded) = resume(PendingEvent::Completed {
        outcome: Err("timed out"),
        index: 2,
        waiting: vec!["a", "b"],
    });
    assert_eq!(pending, vec!["a", "b"]);
    assert_eq!(forwarded, None);
}

#[test]
fn completion_of_last_keeps_the_others() {
    let (pending, forwarded) = resume(PendingEvent::Completed {
        outcome: Ok(1),
        index: 2,
        waiting: vec!["a", "b"],
    });
    assert_eq!(pending, vec!["a", "b"]);
    assert_eq!(forwarded, Some(1));
}

#[test]
fn completion_of_first_keeps_the_others() {
    // "a" of "a", "b", "c" completed; "c" has taken its place.
    let (pending, forwarded) = resume(PendingEvent::Completed {
        outcome: Ok(1),
        index: 0,
        waiting: vec!["c", "b"],
    });
    assert_eq!(pending, vec!["c", "b"]);
    assert_eq!(forwarded, Some(1));
}

#[test]
fn completion_in_the_middle_keeps_the_others() {
    let (pending, forwarded) = resume(PendingEvent::Completed {
        outcome: Err("refused"),
        index: 1,
        waiting: vec!["a", "d", "c"],
    });
    assert_eq!(pending, vec!["a", "d", "c"]);
    assert_eq!(forwarded, None);
}

#[test]
fn no_arrival_is_lost() {
    let mut outputs: Vec<u32> = Vec::new();
    let mut failures: usize = 0;
    let mut handler: PendingHandler<&'static str> = PendingHandler::new();
    for name in ["a", "b", "c", "d"] {
        let waiting = entries(handler);
        let (next, forwarded) = PendingHandler::resume(Event::Arrived {
            arrival: Some(name),
            waiting,
        });
        handler = next;
        outputs.extend(forwarded);
    }
    let mut completed: Vec<&'static str> = Vec::new();
    for (index, outcome) in [(1usize, Ok(10)), (0, Err("refused")), (1, Ok(30))] {
        let mut waiting = entries(handler);
        completed.push(waiting.swap_remove(index));
        failures += outcome.is_err() as usize;
        let (next, forwarded) = PendingHandler::resume(Event::Completed {
            outcome,
            index,
            waiting,
        });
        handler = next;
        outputs.extend(forwarded);
    }
    let waiting = entries(handler);
    assert_eq!(completed, vec!["b", "a", "d"]);
    assert_eq!(outputs, vec![10, 30]);
    assert_eq!(waiting, vec!["c"]);
    assert_eq!(outputs.len() + failures + waiting.len(), 4);
    assert!(!completed.contains(&waiting[0]));
}
