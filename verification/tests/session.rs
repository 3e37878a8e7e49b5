use yellowstone_grpc_geyser::commitment::CommitmentLevel;
use yellowstone_grpc_geyser::session::{
    heartbeat_step, reader_follow_up, reader_step, Control, HeartbeatStep, Inbound,
    ReaderFollowUp, ReaderStep, ReceiveError, Session, SessionStep, TrySend,
    HEARTBEAT_INTERVAL_SECS,
};

#[test]
fn new_session_is_open() {
    let session = Session::new(7, "nothing", CommitmentLevel::Processed);
    assert_eq!(session.id(), 7);
    assert_eq!(*session.filter(), "nothing");
    assert_eq!(session.commitment(), CommitmentLevel::Processed);
    assert!(session.is_open());
}

#[test]
fn session_takes_batches_at_its_commitment() {
    let session = Session::new(0, (), CommitmentLevel::Confirmed);
    assert!(!session.takes(CommitmentLevel::Processed));
    assert!(session.takes(CommitmentLevel::Confirmed));
    assert!(!session.takes(CommitmentLevel::Finalized));
}

#[test]
fn filter_update_takes_effect_with_the_next_batch() {
    let mut session = Session::new(0, "first", CommitmentLevel::Processed);
    assert!(session.takes(CommitmentLevel::Processed));
    let step = session.on_control(Control::Filter("second", CommitmentLevel::Finalized));
    assert_eq!(step, SessionStep::Continue);
    assert_eq!(*session.filter(), "second");
    assert_eq!(session.commitment(), CommitmentLevel::Finalized);
    assert!(!session.takes(CommitmentLevel::Processed));
    assert!(session.takes(CommitmentLevel::Finalized));
    assert!(session.is_open());
}

#[test]
fn close_ends_the_session() {
    let mut session = Session::new(0, 1u8, CommitmentLevel::Processed);
    assert_eq!(session.on_control(Control::Close), SessionStep::End);
    assert!(!session.is_open());
    assert!(!session.takes(CommitmentLevel::Processed));
    let mut session = Session::new(0, 1u8, CommitmentLevel::Processed);
    assert_eq!(session.on_control(Control::Disconnected), SessionStep::End);
    assert!(!session.is_open());
}

#[test]
fn lag_kill() {
    let mut session = Session::new(0, (), CommitmentLevel::Processed);
    let mut delivered = 0;
    let mut free = 1;
    let mut notice = false;
    for _ in 0..100 {
        if !session.takes(CommitmentLevel::Processed) {
            continue;
        }
        let outcome = if free > 0 {
            free -= 1;
            TrySend::Sent
        } else {
            TrySend::Full
        };
        match session.on_send(outcome) {
            SessionStep::Continue => delivered += 1,
            SessionStep::Lagged => notice = true,
            SessionStep::End => panic!("a full queue ends the session with a notice"),
        }
    }
    assert_eq!(delivered, 1);
    assert!(notice);
    assert!(!session.is_open());
}

#[test]
fn closed_queue_ends_the_session_silently() {
    let mut session = Session::new(0, (), CommitmentLevel::Processed);
    assert_eq!(session.on_send(TrySend::Sent), SessionStep::Continue);
    assert!(session.is_open());
    assert_eq!(session.on_send(TrySend::Closed), SessionStep::End);
    assert!(!session.is_open());
}

#[test]
fn lagging_behind_the_bus_ends_the_session_with_a_notice() {
    let mut session = Session::new(0, (), CommitmentLevel::Processed);
    assert_eq!(session.on_receive_error(ReceiveError::Lagged(12)), SessionStep::Lagged);
    assert!(!session.is_open());
    let mut session = Session::new(0, (), CommitmentLevel::Processed);
    assert_eq!(session.on_receive_error(ReceiveError::Closed), SessionStep::End);
    assert!(!session.is_open());
}

#[test]
fn ended_session_stays_ended() {
    let mut session = Session::new(3, "old", CommitmentLevel::Confirmed);
    session.on_control(Control::Close);
    assert_eq!(
        session.on_control(Control::Filter("new", CommitmentLevel::Processed)),
        SessionStep::End
    );
    assert_eq!(*session.filter(), "old");
    assert_eq!(session.commitment(), CommitmentLevel::Confirmed);
    assert_eq!(session.on_send(TrySend::Sent), SessionStep::End);
    assert_eq!(session.on_send(TrySend::Full), SessionStep::End);
    assert_eq!(session.on_receive_error(ReceiveError::Lagged(1)), SessionStep::End);
    assert!(!session.takes(CommitmentLevel::Confirmed));
    assert!(!session.is_open());
    assert_eq!(session.id(), 3);
}

#[test]
fn reader_compiles_requests_and_closes_at_the_end() {
    assert!(matches!(reader_step(Inbound::Request(5)), ReaderStep::Compile(5)));
    assert!(matches!(reader_step(Inbound::<u8>::End), ReaderStep::Close));
    assert!(matches!(reader_step(Inbound::<u8>::Failed), ReaderStep::Close));
}

#[test]
fn reader_reports_requests_that_fail() {
    assert_eq!(reader_follow_up(true, true), ReaderFollowUp::Nothing);
    assert_eq!(reader_follow_up(false, true), ReaderFollowUp::InvalidArgument);
    assert_eq!(reader_follow_up(true, false), ReaderFollowUp::InvalidArgument);
    assert_eq!(reader_follow_up(false, false), ReaderFollowUp::InvalidArgument);
}

#[test]
fn heartbeat_stops_when_the_client_is_gone() {
    assert_eq!(HEARTBEAT_INTERVAL_SECS, 10);
    assert_eq!(heartbeat_step(TrySend::Sent), HeartbeatStep::Continue);
    assert_eq!(heartbeat_step(TrySend::Full), HeartbeatStep::Continue);
    assert_eq!(heartbeat_step(TrySend::Closed), HeartbeatStep::Close);
}
