use see_k::error::TransportError;
use see_k::lane::{
    frame_reader, stopped_normally, RxAction, RxEvent, RxLane, RxWait, StopNotice, TxAction,
    TxEvent, TxLane, TxWait, WriteFault, STOP_CODE,
};
use see_k::wire::{ReadReply, ReadRequest, MAX_MESSAGE_BYTES};

fn ended<T>(action: RxAction<T>) -> (Option<u64>, String) {
    match action {
        RxAction::End { stop, result: Ok(()) } => (stop, String::new()),
        RxAction::End { stop, result: Err(e) } => (stop, e.message()),
        _ => panic!("the lane goes on"),
    }
}

fn closed<M>(action: TxAction<M>) -> (bool, String) {
    match action {
        TxAction::End { finish, result: Ok(()) } => (finish, String::new()),
        TxAction::End { finish, result: Err(e) } => (finish, e.message()),
        _ => panic!("the lane goes on"),
    }
}

/// Receives one body as the number of its bytes.
fn receive(lane: &mut RxLane, body: Vec<u8>) -> usize {
    let frame: RxEvent<usize> = RxEvent::Frame(Ok(Some(body)));
    let body = match lane.run_rx(frame) {
        RxAction::Decode(body) => body,
        _ => panic!("a body is decoded"),
    };
    assert!(lane.waits().is_empty());
    match lane.run_rx(RxEvent::Decoded(Ok(body.len()))) {
        RxAction::Deliver(message) => message,
        _ => panic!("a message is delivered"),
    }
}

/// Sends one message whose body is `body`; returns what is written.
fn send(lane: &mut TxLane, body: Vec<u8>) -> Vec<u8> {
    match lane.run_tx(TxEvent::Message(Some("message"))) {
        TxAction::Encode(message) => assert_eq!(message, "message"),
        _ => panic!("a message is encoded"),
    }
    assert!(lane.waits().is_empty());
    match lane.run_tx(TxEvent::<&str>::Encoded(Ok(body))) {
        TxAction::Write { header, body } => [header.to_vec(), body].concat(),
        _ => panic!("a frame is written"),
    }
}

#[test]
fn a_receiving_lane_reads_again_after_each_delivery() {
    let mut lane = RxLane::new();
    let reading = vec![RxWait::Cancelled, RxWait::OutputClosed, RxWait::Frame];
    for len in [0usize, 49_999, 50_001, 150_000, 2_000_000] {
        assert_eq!(lane.waits(), reading);
        assert_eq!(receive(&mut lane, vec![7; len]), len);
        assert_eq!(lane.waits(), vec![RxWait::Cancelled, RxWait::Delivered]);
        let action: RxAction<usize> = lane.run_rx(RxEvent::Delivered { taken: true });
        assert!(matches!(action, RxAction::Read));
    }
}

#[test]
fn a_receiving_lane_ends_quietly_when_nobody_wants_messages() {
    let mut lane = RxLane::new();
    assert_eq!(ended(lane.run_rx(RxEvent::<u8>::OutputClosed)), (Some(0), String::new()));
    let mut lane = RxLane::new();
    receive(&mut lane, vec![1]);
    let refused = lane.run_rx(RxEvent::<u8>::Delivered { taken: false });
    assert_eq!(ended(refused), (Some(0), String::new()));
    assert!(lane.waits().is_empty());
}

#[test]
fn a_receiving_lane_is_cancelled_in_every_wait() {
    let mut lane = RxLane::new();
    assert_eq!(ended(lane.run_rx(RxEvent::<u8>::Cancelled)), (None, String::new()));
    let mut lane = RxLane::new();
    receive(&mut lane, vec![1]);
    assert_eq!(ended(lane.run_rx(RxEvent::<u8>::Cancelled)), (None, String::new()));
}

#[test]
fn a_receiving_lane_ends_with_its_stream() {
    let mut lane = RxLane::new();
    assert_eq!(ended(lane.run_rx(RxEvent::<u8>::Frame(Ok(None)))), (None, String::new()));
    let mut lane = RxLane::new();
    let fault = TransportError::TruncatedFrame("ended".to_string());
    assert_eq!(
        ended(lane.run_rx(RxEvent::<u8>::Frame(Err(fault)))),
        (None, "seek truncated frame: ended".to_string())
    );
}

#[test]
fn a_malformed_frame_ends_a_receiving_lane() {
    let mut lane = RxLane::new();
    let action: RxAction<u64> = lane.run_rx(RxEvent::Frame(Ok(Some(vec![255]))));
    assert!(matches!(action, RxAction::Decode(body) if body == vec![255]));
    let action: RxAction<u64> = lane.run_rx(RxEvent::Decoded(Err("too short".to_string())));
    assert_eq!(ended(action), (None, "seek invalid frame: too short".to_string()));
}

#[test]
fn a_body_over_the_limit_is_not_decoded() {
    let mut lane = RxLane::new();
    let action: RxAction<u64> =
        lane.run_rx(RxEvent::Frame(Ok(Some(vec![0; MAX_MESSAGE_BYTES + 1]))));
    assert_eq!(ended(action), (None, "seek message exceeds 64 MiB".to_string()));
}

#[test]
fn a_sending_lane_takes_the_next_message_after_each_frame() {
    let mut lane = TxLane::new();
    for body in [vec![], vec![1, 2, 3]] {
        assert_eq!(lane.waits(), vec![TxWait::Cancelled, TxWait::Stopped, TxWait::Message]);
        let mut frame = vec![0, 0, 0, body.len() as u8];
        frame.extend_from_slice(&body);
        assert_eq!(send(&mut lane, body), frame);
        assert_eq!(lane.waits(), vec![TxWait::Cancelled, TxWait::Written]);
        assert!(matches!(lane.run_tx(TxEvent::<u8>::Written(Ok(()))), TxAction::Take));
    }
}

#[test]
fn a_sending_lane_finishes_its_stream_when_no_message_is_left() {
    let mut lane = TxLane::new();
    assert_eq!(closed(lane.run_tx(TxEvent::<u8>::Message(None))), (true, String::new()));
    assert!(lane.waits().is_empty());
}

#[test]
fn a_sending_lane_is_cancelled_in_every_wait() {
    let mut lane = TxLane::new();
    assert_eq!(closed(lane.run_tx(TxEvent::<u8>::Cancelled)), (false, String::new()));
    let mut lane = TxLane::new();
    send(&mut lane, vec![1]);
    assert_eq!(closed(lane.run_tx(TxEvent::<u8>::Cancelled)), (false, String::new()));
}

#[test]
fn only_code_zero_stops_a_sending_lane_normally() {
    let stopped = |notice: StopNotice| closed(TxLane::new().run_tx(TxEvent::<u8>::Stopped(notice)));
    assert_eq!(stopped(StopNotice::Acknowledged), (false, String::new()));
    let shown = || "Ok(Some(5))".to_string();
    assert_eq!(stopped(StopNotice::Stopped { code: 0, shown: shown() }), (false, String::new()));
    assert_eq!(
        stopped(StopNotice::Stopped { code: 5, shown: shown() }),
        (false, "seek send stream stopped: Ok(Some(5))".to_string())
    );
    assert_eq!(
        stopped(StopNotice::Lost("Err(lost)".to_string())),
        (false, "seek send stream stopped: Err(lost)".to_string())
    );
}

#[test]
fn only_code_zero_fails_a_write_normally() {
    let written = |fault: WriteFault| {
        let mut lane = TxLane::new();
        send(&mut lane, vec![1]);
        closed(lane.run_tx(TxEvent::<u8>::Written(Err(fault))))
    };
    let shown = || "sending stopped by peer".to_string();
    let normal = WriteFault::Stopped { code: 0, shown: shown() };
    assert!(stopped_normally(&normal));
    assert_eq!(written(normal), (false, String::new()));
    let abnormal = WriteFault::Stopped { code: 3, shown: shown() };
    assert!(!stopped_normally(&abnormal));
    assert_eq!(written(abnormal), (false, "seek write: sending stopped by peer".to_string()));
    let lost = WriteFault::Other("connection lost".to_string());
    assert!(!stopped_normally(&lost));
    assert_eq!(written(lost), (false, "seek write: connection lost".to_string()));
}

#[test]
fn a_message_that_cannot_be_sent_ends_a_sending_lane() {
    let encoded = |result: Result<Vec<u8>, String>| {
        let mut lane = TxLane::new();
        assert!(matches!(lane.run_tx(TxEvent::Message(Some(1u8))), TxAction::Encode(1)));
        closed(lane.run_tx(TxEvent::<u8>::Encoded(result)))
    };
    assert_eq!(encoded(Err("why".to_string())), (false, "seek encode: why".to_string()));
    assert_eq!(
        encoded(Ok(vec![0; MAX_MESSAGE_BYTES + 1])),
        (false, "seek message exceeds 64 MiB".to_string())
    );
}

#[test]
fn what_one_end_sends_the_other_receives_in_order() {
    let mut tx = TxLane::new();
    let mut rx = RxLane::new();
    let mut stream = Vec::new();
    for id in 0..8_100usize {
        stream.extend(send(&mut tx, vec![1; id % 17]));
        assert!(matches!(tx.run_tx(TxEvent::<u8>::Written(Ok(()))), TxAction::Take));
    }
    let mut at = 0;
    for id in 0..8_100usize {
        let mut reader = frame_reader();
        let body = loop {
            let len = match reader.request().unwrap() {
                ReadRequest::UpTo { .. } => 1 + id % 4,
                ReadRequest::Exact { len } => len,
            };
            at += len;
            if let Some(body) = reader.feed(ReadReply::Bytes(stream[at - len..at].to_vec())) {
                break body.unwrap().unwrap();
            }
        };
        assert_eq!(receive(&mut rx, body), id % 17);
        let action: RxAction<usize> = rx.run_rx(RxEvent::Delivered { taken: true });
        assert!(matches!(action, RxAction::Read));
    }
    assert_eq!(at, stream.len());
}

#[test]
fn lanes_read_frames_up_to_the_message_limit() {
    let read = |len: usize| {
        let mut reader = frame_reader();
        assert_eq!(reader.request(), Some(ReadRequest::UpTo { max: 4 }));
        let header = (len as u32).to_be_bytes().to_vec();
        assert!(reader.feed(ReadReply::Bytes(header)).is_none());
        let outcome = reader.feed(ReadReply::Bytes(Vec::new()));
        (outcome.map(|outcome| outcome.map_err(|e| e.message())), reader.request())
    };
    assert_eq!(MAX_MESSAGE_BYTES, 64 * 1024 * 1024);
    assert_eq!(read(MAX_MESSAGE_BYTES), (None, Some(ReadRequest::Exact { len: MAX_MESSAGE_BYTES })));
    let (outcome, request) = read(MAX_MESSAGE_BYTES + 1);
    assert!(matches!(outcome, Some(Err(_))));
    assert_eq!(request, None);
}

#[test]
fn an_unwanted_direction_ends_normally_at_both_ends() {
    let (code, error) = ended(RxLane::new().run_rx(RxEvent::<u8>::OutputClosed));
    assert_eq!((code, error.as_str()), (Some(STOP_CODE), ""));
    let code = code.unwrap();
    let shown = || "stopped".to_string();
    let notice = StopNotice::Stopped { code, shown: shown() };
    assert_eq!(
        closed(TxLane::new().run_tx(TxEvent::<u8>::Stopped(notice))),
        (false, String::new())
    );
    let mut writing = TxLane::new();
    send(&mut writing, vec![1]);
    let fault = WriteFault::Stopped { code, shown: shown() };
    assert_eq!(
        closed(writing.run_tx(TxEvent::<u8>::Written(Err(fault)))),
        (false, String::new())
    );
}
