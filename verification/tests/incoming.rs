use bevy_spicy_networking_tokio_quinn::{
    IncomingAction, IncomingEvent, IncomingHandler, IoError, IoErrorKind, NetworkError,
};

#[test]
fn begins_with_listening() {
    let (_, action) = IncomingHandler::start::<u8>();
    assert!(matches!(action, IncomingAction::Listen));
}

#[test]
fn connections_are_handed_on_in_order() {
    let (mut handler, _) = IncomingHandler::start::<u8>();
    for connection in [3u8, 1, 2] {
        let action = handler.handle(IncomingEvent::Next(Some(connection)));
        assert!(matches!(action, IncomingAction::HandOn(c) if c == connection));
        let action = handler.handle(IncomingEvent::<u8>::HandedOn(true));
        assert!(matches!(action, IncomingAction::Listen));
    }
}

#[test]
fn refused_connection_ends_the_handler() {
    let (mut handler, _) = IncomingHandler::start::<u8>();
    handler.handle(IncomingEvent::Next(Some(1u8)));
    let action = handler.handle(IncomingEvent::<u8>::HandedOn(false));
    assert!(matches!(action, IncomingAction::Stop));
}

#[test]
fn listen_failure_is_reported_and_does_not_end_the_handler() {
    for noted in [true, false] {
        let (mut handler, _) = IncomingHandler::start::<u8>();
        match handler.handle(IncomingEvent::<u8>::Next(None)) {
            IncomingAction::Report(error) => assert_eq!(
                error,
                NetworkError::Listen(IoError {
                    kind: IoErrorKind::Other,
                    message: "incoming connection failed!".to_string(),
                })
            ),
            _ => panic!("nothing reported"),
        }
        let action = handler.handle(IncomingEvent::<u8>::Reported(noted));
        assert!(matches!(action, IncomingAction::Listen));
        let action = handler.handle(IncomingEvent::Next(Some(9u8)));
        assert!(matches!(action, IncomingAction::HandOn(9)));
    }
}
