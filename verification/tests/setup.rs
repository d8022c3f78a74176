use see_k::connection::ConnectionGuard;
use see_k::error::TransportError;
use see_k::handshake::{prepare_client, prepare_server, Handshake, SetupAction, SetupReply};
use see_k::manifest::{check_magic, check_manifest, manifest, send_manifest, MAGIC, READY};
use see_k::wire::{header, FrameReader, ReadReply, ReadRequest};

/// What one peer wrote, and how far the other has read it.
#[derive(Default)]
struct Pipe {
    bytes: Vec<u8>,
    at: usize,
}

impl Pipe {
    fn of(bytes: &[u8]) -> Pipe {
        Pipe { bytes: bytes.to_vec(), at: 0 }
    }

    fn exact(&mut self, len: usize) -> Option<Vec<u8>> {
        if self.bytes.len() - self.at < len {
            return None;
        }
        self.at += len;
        Some(self.bytes[self.at - len..self.at].to_vec())
    }

    fn frame(&mut self, limit: usize) -> Result<Option<Vec<u8>>, TransportError> {
        let mut reader = FrameReader::new(limit);
        loop {
            let reply = match reader.request().unwrap() {
                ReadRequest::UpTo { max } => {
                    let n = max.min(self.bytes.len() - self.at);
                    match self.exact(n) {
                        Some(bytes) if n > 0 => ReadReply::Bytes(bytes),
                        _ => ReadReply::Finished,
                    }
                }
                ReadRequest::Exact { len } => match self.exact(len) {
                    Some(bytes) => ReadReply::Bytes(bytes),
                    None => ReadReply::Failed("ended".to_string()),
                },
            };
            if let Some(outcome) = reader.feed(reply) {
                return outcome;
            }
        }
    }
}

struct Peer {
    handshake: Handshake,
    guard: ConnectionGuard<&'static str, ()>,
    outcome: Option<Result<(), TransportError>>,
    control: Vec<u8>,
    lanes: Vec<Vec<u8>>,
    accepted: usize,
}

impl Peer {
    fn new(handshake: Handshake) -> Peer {
        Peer {
            handshake,
            guard: ConnectionGuard::new("conn"),
            outcome: None,
            control: Vec::new(),
            lanes: Vec::new(),
            accepted: 0,
        }
    }

    /// Goes on until the handshake is over or the other peer has to act;
    /// `last` says that it will not.
    fn go(&mut self, control: &mut Pipe, lanes: &[Vec<u8>], last: bool) {
        while self.outcome.is_none() {
            let failed = || SetupReply::Failed("ended".to_string());
            let reply = match self.handshake.action().unwrap() {
                SetupAction::AcceptControl | SetupAction::OpenControl => SetupReply::Done,
                SetupAction::ReadControl { len } => match control.exact(len) {
                    Some(bytes) => SetupReply::Bytes(bytes),
                    None if last => failed(),
                    None => return,
                },
                SetupAction::ReadFrame { limit } => SetupReply::Frame(control.frame(limit)),
                SetupAction::WriteControl(bytes) => {
                    self.control.extend(bytes);
                    SetupReply::Done
                }
                SetupAction::AcceptLane => {
                    if self.accepted < lanes.len() {
                        self.accepted += 1;
                        SetupReply::Done
                    } else if last {
                        failed()
                    } else {
                        return;
                    }
                }
                SetupAction::OpenLane => {
                    self.lanes.push(Vec::new());
                    SetupReply::Done
                }
                SetupAction::ReadLane { len } => {
                    SetupReply::Bytes(lanes[self.accepted - 1][..len].to_vec())
                }
                SetupAction::WriteLane(bytes) => {
                    self.lanes.last_mut().unwrap().extend(bytes);
                    SetupReply::Done
                }
                SetupAction::FinishControl => SetupReply::Done,
            };
            self.outcome = self.handshake.feed(&mut self.guard, reply);
        }
        assert!(self.handshake.action().is_none());
    }

    fn message(&self) -> String {
        match self.outcome.as_ref().unwrap() {
            Ok(()) => "ready".to_string(),
            Err(e) => e.message(),
        }
    }
}

/// Lets two peers talk to each other; returns them when both are through.
fn connect(server: Handshake, client: Handshake) -> (Peer, Peer) {
    let mut server = Peer::new(server);
    let mut client = Peer::new(client);
    let mut read_by_server = 0;
    let mut read_by_client = 0;
    for round in 0..6 {
        let mut to_client = Pipe { bytes: server.control.clone(), at: read_by_client };
        client.go(&mut to_client, &[], round == 5);
        read_by_client = to_client.at;
        let mut to_server = Pipe { bytes: client.control.clone(), at: read_by_server };
        let lanes = client.lanes.clone();
        server.go(&mut to_server, &lanes, round == 5);
        read_by_server = to_server.at;
    }
    (server, client)
}

fn names(names: &[&str]) -> String {
    manifest(names)
}

#[test]
fn manifest_is_one_name_a_line() {
    assert_eq!(manifest(&[]), "");
    assert_eq!(manifest(&["a::Command"]), "a::Command");
    assert_eq!(manifest(&["a::Command", "a::Reply"]), "a::Command\na::Reply");
    assert_eq!(manifest(&["x", "y", "z"]), ["x", "y", "z"].join("\n"));
}

#[test]
fn manifests_tell_order_and_number_apart() {
    assert_ne!(manifest(&["a", "b"]), manifest(&["b", "a"]));
    assert_ne!(manifest(&["a", "b"]), manifest(&["ab"]));
    assert_ne!(manifest(&["a", ""]), manifest(&["a"]));
}

#[test]
fn peers_with_the_same_types_connect() {
    let types = ["t::Command", "t::Reply"];
    let (server, client) =
        connect(prepare_server(names(&types), 2), prepare_client(names(&types), 2));
    assert_eq!(server.message(), "ready");
    assert_eq!(client.message(), "ready");
    assert!(!server.guard.armed);
    assert!(!client.guard.armed);
    let text = names(&types);
    let mut preamble = b"SEEK\0\0\0\x02".to_vec();
    preamble.extend_from_slice(&(text.len() as u32).to_be_bytes());
    preamble.extend_from_slice(text.as_bytes());
    assert_eq!(client.control, preamble);
    preamble.push(1);
    assert_eq!(server.control, preamble);
    assert_eq!(client.lanes, vec![vec![0, 0, 0, 0], vec![0, 0, 0, 1]]);
    assert_eq!(server.accepted, 2);
}

#[test]
fn reordered_types_are_refused_by_both_peers() {
    let (server, client) = connect(
        prepare_server(names(&["t::Command", "t::Reply"]), 2),
        prepare_client(names(&["t::Reply", "t::Command"]), 2),
    );
    assert_eq!(server.message(), "seek ordered type identities differ between peers");
    assert_eq!(client.message(), "seek protocol header: ended");
    assert!(server.control.is_empty());
    assert!(client.lanes.is_empty());
    assert!(server.guard.armed && client.guard.armed);
}

#[test]
fn another_protocol_version_is_refused_without_an_answer() {
    let mut server = Peer::new(prepare_server(names(&["t::Command"]), 1));
    server.go(&mut Pipe::of(b"SEEK\0\0\0\x01"), &[], true);
    assert_eq!(server.message(), "seek wire protocol mismatch; update both peers");
    assert!(server.control.is_empty());
    assert!(server.guard.armed);
}

#[test]
fn a_missing_or_oversized_manifest_is_refused() {
    let mut server = Peer::new(prepare_server(names(&["t::Command"]), 1));
    server.go(&mut Pipe::of(&MAGIC), &[], true);
    assert_eq!(server.message(), "seek missing type manifest");

    let mut server = Peer::new(prepare_server(names(&["t::Command"]), 1));
    let mut bytes = MAGIC.to_vec();
    bytes.extend_from_slice(&header(65_537));
    server.go(&mut Pipe::of(&bytes), &[], true);
    assert_eq!(server.message(), "seek frame length 65537 exceeds limit 65536");

    let mut client = Peer::new(prepare_client("x".repeat(65_537), 1));
    client.go(&mut Pipe::default(), &[], true);
    assert_eq!(client.message(), "seek type manifest too large");
    assert!(client.control.is_empty());
}

#[test]
fn the_largest_manifest_connects() {
    let text = "y".repeat(65_536);
    let (server, client) = connect(prepare_server(text.clone(), 1), prepare_client(text, 1));
    assert_eq!((server.message(), client.message()), ("ready".into(), "ready".into()));
}

#[test]
fn lanes_must_come_in_order() {
    let text = names(&["a", "b"]);
    let mut client = Peer::new(prepare_client(text.clone(), 2));
    client.go(&mut Pipe::default(), &[], false);
    let mut server = Peer::new(prepare_server(text, 2));
    let lanes = [vec![0, 0, 0, 1], vec![0, 0, 0, 0]];
    server.go(&mut Pipe::of(&client.control), &lanes, true);
    assert_eq!(server.message(), "seek lane identifier mismatch");
    assert_ne!(server.control.last(), Some(&READY));
}

#[test]
fn a_wrong_readiness_byte_is_refused() {
    let text = names(&["a"]);
    let mut client = Peer::new(prepare_client(text.clone(), 1));
    client.go(&mut Pipe::default(), &[], false);
    let mut answer = client.control.clone();
    answer.push(2);
    client.go(&mut Pipe::of(&answer), &[], true);
    assert_eq!(client.message(), "seek invalid readiness acknowledgement");
    assert!(client.guard.armed);
}

#[test]
fn faults_are_reported_by_stage() {
    fn fault(mut handshake: Handshake, replies: Vec<SetupReply>) -> String {
        let mut guard: ConnectionGuard<(), ()> = ConnectionGuard::new(());
        for reply in replies {
            assert!(handshake.feed(&mut guard, reply).is_none());
        }
        let failed = SetupReply::Failed("why".to_string());
        let outcome = handshake.feed(&mut guard, failed).unwrap();
        assert!(guard.armed);
        outcome.unwrap_err().message()
    }
    let server = || prepare_server("m".to_string(), 1);
    let client = || prepare_client("m".to_string(), 1);
    let done = || SetupReply::Done;
    let magic = || SetupReply::Bytes(MAGIC.to_vec());
    let body = || SetupReply::Frame(Ok(Some(b"m".to_vec())));
    let greeted = || vec![done(), magic(), body(), done(), done(), done()];
    let answered = || vec![done(), done(), done(), done(), magic(), body()];
    let with = |mut replies: Vec<SetupReply>, more: Vec<SetupReply>| {
        replies.extend(more);
        replies
    };
    assert_eq!(fault(server(), vec![]), "why");
    assert_eq!(fault(server(), vec![done()]), "seek protocol header: why");
    assert_eq!(fault(server(), vec![done(), magic(), body()]), "seek protocol header: why");
    assert_eq!(fault(server(), greeted()), "why");
    assert_eq!(fault(server(), with(greeted(), vec![done()])), "seek lane header: why");
    let laned = vec![done(), SetupReply::Bytes(vec![0; 4])];
    assert_eq!(fault(server(), with(greeted(), laned)), "why");
    assert_eq!(fault(client(), vec![]), "why");
    assert_eq!(fault(client(), vec![done()]), "seek protocol header: why");
    assert_eq!(fault(client(), vec![done(), done()]), "seek type manifest: why");
    assert_eq!(fault(client(), vec![done(), done(), done()]), "seek type manifest: why");
    assert_eq!(fault(client(), answered()), "why");
    assert_eq!(fault(client(), with(answered(), vec![done()])), "why");
    assert_eq!(fault(client(), with(answered(), vec![done(), done()])), "seek readiness: why");
}

#[test]
fn a_frame_error_ends_the_setup() {
    let mut guard: ConnectionGuard<(), ()> = ConnectionGuard::new(());
    let mut server = prepare_server("m".to_string(), 1);
    assert!(server.feed(&mut guard, SetupReply::Done).is_none());
    assert!(server.feed(&mut guard, SetupReply::Bytes(MAGIC.to_vec())).is_none());
    let frame = SetupReply::Frame(Err(TransportError::TruncatedFrame("why".to_string())));
    let error = server.feed(&mut guard, frame).unwrap().unwrap_err();
    assert_eq!(error.message(), "seek truncated frame: why");
}

#[test]
fn parts_of_the_preamble_are_judged_exactly() {
    assert!(check_magic(b"SEEK\0\0\0\x02").is_ok());
    assert!(check_magic(b"SEEK\0\0\0").is_err());
    assert!(check_manifest(Some("caf\u{e9}".as_bytes().to_vec()), "caf\u{e9}").is_ok());
    assert!(matches!(
        check_manifest(Some(b"a".to_vec()), "b"),
        Err(TransportError::ManifestMismatch)
    ));
    assert!(matches!(check_manifest(None, ""), Err(TransportError::MissingManifest)));
    assert!(send_manifest(&"\u{e9}".repeat(32_768)).is_ok());
    assert!(send_manifest(&"\u{e9}".repeat(32_769)).is_err());
}
