use bevy_spicy_networking_tokio_quinn::{SendAction, SendEvent, SendLoop, SendStop};

type Event = SendEvent<&'static str, &'static str, &'static str>;
type Action = SendAction<&'static str, &'static str, &'static str>;

fn start() -> SendLoop {
    let (send, action): (SendLoop, Action) = SendLoop::start();
    assert!(matches!(action, SendAction::Await));
    send
}

#[test]
fn encodings_are_written_in_order() {
    let mut send = start();
    let mut written: Vec<Vec<u8>> = Vec::new();
    for text in ["b", "a", ""] {
        let action = send.handle(Event::Next(Some(text)));
        assert!(matches!(action, SendAction::Encode(packet) if packet == text));
        match send.handle(Event::Encoded(Ok(text.as_bytes().to_vec()))) {
            SendAction::Write(bytes) => written.push(bytes),
            _ => panic!("not written"),
        }
        assert!(matches!(send.handle(Event::Written(Ok(()))), SendAction::Await));
    }
    assert_eq!(written, vec![b"b".to_vec(), b"a".to_vec(), vec![]]);
}

#[test]
fn packet_that_cannot_be_encoded_is_skipped() {
    let mut send = start();
    send.handle(Event::Next(Some("bad")));
    let action = send.handle(Event::Encoded(Err("unsupported")));
    assert!(matches!(action, SendAction::Skip("unsupported")));
    let action = send.handle(Event::Next(Some("good")));
    assert!(matches!(action, SendAction::Encode("good")));
}

#[test]
fn end_of_the_queue_ends_the_loop() {
    let mut send = start();
    match send.handle(Event::Next(None)) {
        SendAction::Stop(reason) => assert_eq!(reason, SendStop::NoMorePackets),
        _ => panic!("the loop goes on"),
    }
}

#[test]
fn write_failure_ends_the_loop() {
    let mut send = start();
    send.handle(Event::Next(Some("packet")));
    send.handle(Event::Encoded(Ok(vec![1])));
    match send.handle(Event::Written(Err("stopped"))) {
        SendAction::Stop(reason) => assert_eq!(reason, SendStop::WriteFailed("stopped")),
        _ => panic!("the loop goes on"),
    }
}
