use meca_hid::poll::{start, step, PollAction, PollEvent, PollState, RECONNECT_MS, RETRY_OPEN_MS};

#[test]
fn reader_opens_reads_and_delivers() {
    let (s, a) = start();
    assert_eq!((s, a), (PollState::Connecting, PollAction::OpenAfter(0)));
    let (s, a) = step(s, PollEvent::OpenFailed);
    assert_eq!((s, a), (PollState::Connecting, PollAction::OpenAfter(500)));
    assert_eq!(RETRY_OPEN_MS, 500);
    let (s, a) = step(s, PollEvent::Opened);
    assert_eq!((s, a), (PollState::Reading, PollAction::Read));
    let (s, a) = step(s, PollEvent::ReadDone);
    assert_eq!((s, a), (PollState::Delivering, PollAction::Deliver));
    let (s, a) = step(s, PollEvent::Delivered);
    assert_eq!((s, a), (PollState::Reading, PollAction::Read));
    let (s, a) = step(s, PollEvent::ReadFailed);
    assert_eq!((s, a), (PollState::Connecting, PollAction::OpenAfter(200)));
    assert_eq!(RECONNECT_MS, 200);
}

#[test]
fn reader_stops_only_when_receiver_is_gone() {
    let (s, a) = step(PollState::Delivering, PollEvent::ReceiverGone);
    assert_eq!((s, a), (PollState::Stopped, PollAction::Stop));
    for e in [
        PollEvent::Opened,
        PollEvent::OpenFailed,
        PollEvent::ReadDone,
        PollEvent::ReadFailed,
        PollEvent::Delivered,
        PollEvent::ReceiverGone,
    ] {
        assert_eq!(step(PollState::Stopped, e), (PollState::Stopped, PollAction::Stop));
        assert_ne!(step(PollState::Connecting, e).0, PollState::Stopped);
        assert_ne!(step(PollState::Reading, e).0, PollState::Stopped);
    }
    // An event that does not answer the pending action asks for it again.
    assert_eq!(step(PollState::Reading, PollEvent::Opened), (PollState::Reading, PollAction::Read));
}
