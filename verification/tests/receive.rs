use bevy_spicy_networking_tokio_quinn::{ReceiveAction, ReceiveEvent, ReceiveLoop, ReceiveStop};

type Event = ReceiveEvent<String, &'static str, &'static str>;
type Action = ReceiveAction<String, &'static str, &'static str>;

fn start(limit: usize) -> ReceiveLoop {
    let (receive, action): (ReceiveLoop, Action) = ReceiveLoop::start(limit);
    assert!(matches!(action, ReceiveAction::Read { max_length, ordered: false } if max_length == limit));
    receive
}

fn reason(action: Action) -> ReceiveStop<&'static str, &'static str> {
    match action {
        ReceiveAction::Stop(reason) => reason,
        _ => panic!("the loop goes on"),
    }
}

#[test]
fn packets_are_delivered_in_order() {
    let mut receive = start(8);
    let mut taken: Vec<String> = Vec::new();
    for bytes in [vec![1u8, 2], vec![3u8], vec![]] {
        let action = receive.handle(Event::Read(Ok(Some(bytes.clone()))));
        let chunk = match action {
            ReceiveAction::Decode(chunk) => chunk,
            _ => panic!("not decoded"),
        };
        assert_eq!(chunk, bytes);
        match receive.handle(Event::Decoded(Ok(format!("{:?}", chunk)))) {
            ReceiveAction::Deliver(packet) => taken.push(packet),
            _ => panic!("not delivered"),
        }
        let action = receive.handle(Event::Delivered(true));
        assert!(matches!(action, ReceiveAction::Read { max_length: 8, ordered: false }));
    }
    assert_eq!(taken, vec!["[1, 2]", "[3]", "[]"]);
}

#[test]
fn read_failure_ends_the_loop() {
    let mut receive = start(8);
    let action = receive.handle(Event::Read(Err("reset")));
    assert_eq!(reason(action), ReceiveStop::ReadFailed("reset"));
}

#[test]
fn undecodable_chunk_ends_the_loop() {
    let mut receive = start(8);
    receive.handle(Event::Read(Ok(Some(vec![0xff]))));
    let action = receive.handle(Event::Decoded(Err("unexpected end")));
    assert_eq!(reason(action), ReceiveStop::Undecodable("unexpected end"));
}

#[test]
fn missing_receiver_ends_the_loop() {
    let mut receive = start(8);
    receive.handle(Event::Read(Ok(Some(vec![1]))));
    receive.handle(Event::Decoded(Ok("packet".to_string())));
    let action = receive.handle(Event::Delivered(false));
    assert_eq!(reason(action), ReceiveStop::ReceiverGone);
}

#[test]
fn chunk_over_the_limit_ends_the_loop() {
    let mut receive = start(3);
    let action = receive.handle(Event::Read(Ok(Some(vec![1, 2, 3, 4]))));
    assert_eq!(reason(action), ReceiveStop::PacketTooLong { length: 4 });
}

#[test]
fn chunk_at_the_limit_is_decoded() {
    let mut receive = start(3);
    let action = receive.handle(Event::Read(Ok(Some(vec![1, 2, 3]))));
    assert!(matches!(action, ReceiveAction::Decode(chunk) if chunk == vec![1, 2, 3]));
}

#[test]
fn oversized_packet_disconnects() {
    let text = "a packet that is longer than the limit".to_string();
    let encoding = bincode::serialize(&text).unwrap();
    let limit: usize = 16;
    assert!(encoding.len() > limit);
    let mut receive = start(limit);
    let action = receive.handle(Event::Read(Ok(Some(encoding[..limit].to_vec()))));
    let chunk = match action {
        ReceiveAction::Decode(chunk) => chunk,
        _ => panic!("not decoded"),
    };
    let decoded: Result<String, bincode::Error> = bincode::deserialize(&chunk);
    assert!(decoded.is_err());
    let action = receive.handle(Event::Decoded(decoded.map_err(|_| "cut off")));
    assert_eq!(reason(action), ReceiveStop::Undecodable("cut off"));
}
