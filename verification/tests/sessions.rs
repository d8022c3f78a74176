use see_k::connection::{
    cancelled, CancelInfo, ConnectionGuard, SessionEvent, SessionNext, SessionWait, Supervisor,
    WatchEvent, WatchStep,
};
use see_k::error::TransportError;

fn info(cancel: bool, reason: &str, connection_number: u64) -> CancelInfo {
    CancelInfo { cancel, reason: reason.to_string(), connection_number }
}

#[test]
fn a_connection_begins_uncancelled() {
    let status = CancelInfo::active(7);
    assert!(!status.cancel);
    assert_eq!(status.reason, "Not Canceled");
    assert_eq!(status.connection_number, 7);
    let copy = status.clone();
    assert_eq!((copy.cancel, copy.reason.as_str(), copy.connection_number), (false, "Not Canceled", 7));
}

#[test]
fn waiting_for_cancellation_looks_again_after_each_change() {
    assert_eq!(cancelled(WatchEvent::Current { cancel: false }), WatchStep::Wait);
    assert_eq!(cancelled(WatchEvent::Changed), WatchStep::Look);
    assert_eq!(cancelled(WatchEvent::Current { cancel: true }), WatchStep::Cancelled);
    assert_eq!(cancelled(WatchEvent::Abandoned), WatchStep::Cancelled);
}

#[test]
fn a_guard_without_status_only_closes() {
    let mut guard: ConnectionGuard<u8, ()> = ConnectionGuard::new(9);
    assert!(guard.armed);
    assert_eq!(guard.conn, 9);
    let release = guard.release(None).unwrap();
    assert!(release.publish.is_none());
    assert_eq!(release.code, 0);
    assert_eq!(release.close, b"seek connection task ended".to_vec());
}

#[test]
fn a_disarmed_guard_does_nothing() {
    let mut guard: ConnectionGuard<(), ()> = ConnectionGuard::new(());
    guard.disarm();
    guard.status = Some(((), 4));
    assert!(guard.release(Some(info(false, "Not Canceled", 4))).is_none());
    assert_eq!(guard.reason, "seek connection task ended");
}

#[test]
fn a_guard_publishes_its_reason() {
    let mut guard: ConnectionGuard<(), &str> = ConnectionGuard::new(());
    guard.status = Some(("status", 4));
    guard.reason = "caf\u{e9}".to_string();
    let release = guard.release(Some(info(false, "Not Canceled", 4))).unwrap();
    let published = release.publish.unwrap();
    assert!(published.cancel);
    assert_eq!(published.reason, "caf\u{e9}");
    assert_eq!(published.connection_number, 4);
    assert_eq!(release.close, "caf\u{e9}".as_bytes().to_vec());
}

#[test]
fn an_earlier_cancellation_keeps_its_reason() {
    let mut guard: ConnectionGuard<(), ()> = ConnectionGuard::new(());
    guard.status = Some(((), 4));
    let release = guard.release(Some(info(true, "application finished", 4))).unwrap();
    assert!(release.publish.is_none());
    assert_eq!(release.close, b"application finished".to_vec());
    assert_eq!(guard.reason, "application finished");
}

#[test]
fn a_session_goes_on_until_the_last_direction_finished() {
    let mut guard: ConnectionGuard<(), ()> = ConnectionGuard::new(());
    let mut supervisor = Supervisor::new(2);
    let all = vec![SessionWait::Cancelled, SessionWait::Closed, SessionWait::Task];
    for _ in 0..3 {
        assert_eq!(supervisor.waits(), all);
        assert_eq!(supervisor.supervise(&mut guard, SessionEvent::Finished), SessionNext::Wait);
        assert_eq!(guard.reason, "seek connection task ended");
    }
    assert_eq!(
        supervisor.supervise(&mut guard, SessionEvent::Finished),
        SessionNext::Abort { running: 0 }
    );
    assert_eq!(guard.reason, "seek all stream directions closed");
    assert_eq!(supervisor.waits(), vec![SessionWait::Cancelled, SessionWait::Closed]);
}

#[test]
fn a_session_ends_for_the_first_reason() {
    let ended = |event: SessionEvent| {
        let mut guard: ConnectionGuard<(), ()> = ConnectionGuard::new(());
        let left = match event {
            SessionEvent::Cancelled | SessionEvent::Closed(_) => 2,
            _ => 1,
        };
        assert_eq!(
            Supervisor::new(1).supervise(&mut guard, event),
            SessionNext::Abort { running: left }
        );
        assert!(guard.armed);
        guard.reason
    };
    assert_eq!(ended(SessionEvent::Cancelled), "seek connection task ended");
    assert_eq!(
        ended(SessionEvent::Closed("timed out".to_string())),
        "seek connection closed: timed out"
    );
    let error = TransportError::InvalidFrame("io error".to_string());
    assert_eq!(ended(SessionEvent::Failed(error)), "seek invalid frame: io error");
    assert_eq!(
        ended(SessionEvent::Lost("task 3 panicked".to_string())),
        "seek stream task failed: task 3 panicked"
    );
}

#[test]
fn a_session_without_lanes_waits_for_no_task() {
    assert_eq!(Supervisor::new(0).waits(), vec![SessionWait::Cancelled, SessionWait::Closed]);
}

#[test]
fn the_end_of_a_session_is_published() {
    let end = |event: SessionEvent, status: CancelInfo| {
        let mut guard: ConnectionGuard<(), ()> = ConnectionGuard::new(());
        guard.status = Some(((), 4));
        let next = Supervisor::new(3).supervise(&mut guard, event);
        assert!(matches!(next, SessionNext::Abort { .. }));
        let release = guard.release(Some(status.clone())).unwrap();
        let after = release.publish.unwrap_or(status);
        assert!(after.cancel);
        assert_eq!(release.close, after.reason.as_bytes().to_vec());
        (after.reason, after.connection_number)
    };
    let closed = || SessionEvent::Closed("reset".to_string());
    assert_eq!(
        end(closed(), info(false, "Not Canceled", 4)),
        ("seek connection closed: reset".to_string(), 4)
    );
    assert_eq!(end(closed(), info(true, "done", 4)), ("done".to_string(), 4));
    assert_eq!(
        end(SessionEvent::Cancelled, info(false, "Not Canceled", 4)),
        ("seek connection task ended".to_string(), 4)
    );
}
