//! Setting up a connection.
//!
//! The client opens a control stream. Each peer sends its preamble on it and
//! checks the other's, the server first checking and the client first sending.
//! The client then opens the lanes in order, each with its position in a
//! header, and the server acknowledges them all with the readiness byte.
//! Nothing is handed to the application before the handshake is complete.

use vstd::prelude::*;
use vstd::string::*;
use vstd::utf8;

use crate::connection::ConnectionGuard;
use crate::error::TransportError;
use crate::manifest;
use crate::manifest::{MAGIC, MAGIC_BYTES, READY};
use crate::wire;
use crate::wire::{HEADER_BYTES, MAX_MANIFEST_BYTES};

verus! {

/// The number of lanes that a lane header can number.
pub const MAX_LANES: u64 = 0x1_0000_0000;

/// Which end of the connection this is.
#[derive(Debug, Clone, Copy, PartialEq, Eq, Structural)]
pub enum Role {
    Server,
    Client,
}

/// Where a handshake stands: what it does next.
#[derive(Debug, Clone, Copy, PartialEq, Eq, Structural)]
pub enum Stage {
    /// Get the control stream.
    Control,
    /// Read the protocol header of the peer.
    CheckMagic,
    /// Read the manifest of the peer.
    CheckManifest,
    /// Write the protocol header.
    SendMagic,
    /// Write the frame header of the manifest.
    SendHeader,
    /// Write the manifest.
    SendBody,
    /// Get the stream of a lane.
    LaneStream(usize),
    /// Exchange the header of a lane.
    LaneHeader(usize),
    /// Exchange the readiness byte.
    Ready,
    /// Finish the control stream.
    Finish,
    /// Nothing: the handshake is complete, or has failed.
    Done,
}

/// What to do for a handshake.
#[derive(Debug)]
pub enum SetupAction {
    /// Accept the first bidirectional stream; it is the control stream.
    AcceptControl,
    /// Open a bidirectional stream as the control stream.
    OpenControl,
    /// Read exactly `len` bytes off the control stream.
    ReadControl { len: usize },
    /// Read one frame of at most `limit` bytes off the control stream.
    ReadFrame { limit: usize },
    /// Write all the bytes to the control stream.
    WriteControl(Vec<u8>),
    /// Accept the next bidirectional stream as the next lane.
    AcceptLane,
    /// Open a bidirectional stream as the next lane.
    OpenLane,
    /// Read exactly `len` bytes off the newest lane.
    ReadLane { len: usize },
    /// Write all the bytes to the newest lane.
    WriteLane(Vec<u8>),
    /// Finish the control stream.
    FinishControl,
}

/// What came of a [`SetupAction`].
#[derive(Debug)]
pub enum SetupReply {
    /// It was done.
    Done,
    /// These bytes were read.
    Bytes(Vec<u8>),
    /// Reading the frame came to this.
    Frame(Result<Option<Vec<u8>>, TransportError>),
    /// It failed.
    Failed(String),
}

/// The model of a [`SetupAction`].
pub enum ActionView {
    AcceptControl,
    OpenControl,
    ReadControl { len: usize },
    ReadFrame { limit: usize },
    WriteControl(Seq<u8>),
    AcceptLane,
    OpenLane,
    ReadLane { len: usize },
    WriteLane(Seq<u8>),
    FinishControl,
}

impl View for SetupAction {
    type V = ActionView;

    open spec fn view(&self) -> ActionView {
        match self {
            SetupAction::AcceptControl => ActionView::AcceptControl,
            SetupAction::OpenControl => ActionView::OpenControl,
            SetupAction::ReadControl { len } => ActionView::ReadControl { len: *len },
            SetupAction::ReadFrame { limit } => ActionView::ReadFrame { limit: *limit },
            SetupAction::WriteControl(bytes) => ActionView::WriteControl(bytes@),
            SetupAction::AcceptLane => ActionView::AcceptLane,
            SetupAction::OpenLane => ActionView::OpenLane,
            SetupAction::ReadLane { len } => ActionView::ReadLane { len: *len },
            SetupAction::WriteLane(bytes) => ActionView::WriteLane(bytes@),
            SetupAction::FinishControl => ActionView::FinishControl,
        }
    }
}

/// The model of a [`SetupReply`].
pub enum SetupReplyView {
    Done,
    Bytes(Seq<u8>),
    Frame(Result<Option<Seq<u8>>, TransportError>),
    Failed(String),
}

impl View for SetupReply {
    type V = SetupReplyView;

    open spec fn view(&self) -> SetupReplyView {
        match self {
            SetupReply::Done => SetupReplyView::Done,
            SetupReply::Bytes(bytes) => SetupReplyView::Bytes(bytes@),
            SetupReply::Frame(result) => SetupReplyView::Frame(wire::frame_result_view(*result)),
            SetupReply::Failed(e) => SetupReplyView::Failed(*e),
        }
    }
}

/// Whether `reply` can be what came of `action`.
pub open spec fn replies_to(action: ActionView, reply: SetupReplyView) -> bool {
    match (action, reply) {
        (ActionView::ReadFrame { .. }, SetupReplyView::Frame(_)) => true,
        (ActionView::ReadFrame { .. }, _) => false,
        (ActionView::ReadControl { len }, SetupReplyView::Bytes(bytes)) => bytes.len() == len,
        (ActionView::ReadLane { len }, SetupReplyView::Bytes(bytes)) => bytes.len() == len,
        (_, SetupReplyView::Failed(_)) => true,
        (ActionView::ReadControl { .. }, _) => false,
        (ActionView::ReadLane { .. }, _) => false,
        (_, SetupReplyView::Done) => true,
        _ => false,
    }
}

/// The model of a [`Handshake`]: `manifest` is the own manifest, in bytes.
pub struct SetupState {
    pub role: Role,
    pub manifest: Seq<u8>,
    pub lanes: usize,
    pub stage: Stage,
}

/// The outcome of a step: nothing yet, or the end of the handshake.
pub type SetupOutcome = Option<Result<(), TransportError>>;

impl SetupState {
    /// A handshake at its beginning.
    pub open spec fn initial(role: Role, manifest: Seq<u8>, lanes: usize) -> SetupState {
        SetupState { role, manifest, lanes, stage: Stage::Control }
    }

    /// A handshake at a lane is at one of its own.
    pub open spec fn wf(self) -> bool {
        match self.stage {
            Stage::LaneStream(lane) => lane < self.lanes,
            Stage::LaneHeader(lane) => lane < self.lanes,
            _ => true,
        }
    }

    /// The action that is due.
    pub open spec fn action(self) -> Option<ActionView> {
        match (self.stage, self.role) {
            (Stage::Control, Role::Server) => Some(ActionView::AcceptControl),
            (Stage::Control, Role::Client) => Some(ActionView::OpenControl),
            (Stage::CheckMagic, _) => Some(ActionView::ReadControl { len: MAGIC_BYTES }),
            (Stage::CheckManifest, _) => Some(ActionView::ReadFrame { limit: MAX_MANIFEST_BYTES }),
            (Stage::SendMagic, _) => Some(ActionView::WriteControl(MAGIC@)),
            (Stage::SendHeader, _) => Some(
                ActionView::WriteControl(wire::be32(self.manifest.len() as int)),
            ),
            (Stage::SendBody, _) => Some(ActionView::WriteControl(self.manifest)),
            (Stage::LaneStream(_), Role::Server) => Some(ActionView::AcceptLane),
            (Stage::LaneStream(_), Role::Client) => Some(ActionView::OpenLane),
            (Stage::LaneHeader(_), Role::Server) => Some(
                ActionView::ReadLane { len: HEADER_BYTES },
            ),
            (Stage::LaneHeader(lane), Role::Client) => Some(
                ActionView::WriteLane(wire::be32(lane as int)),
            ),
            (Stage::Ready, Role::Server) => Some(ActionView::WriteControl(seq![READY])),
            (Stage::Ready, Role::Client) => Some(ActionView::ReadControl { len: 1 }),
            (Stage::Finish, _) => Some(ActionView::FinishControl),
            (Stage::Done, _) => None,
        }
    }

    /// The handshake goes on at `stage`.
    pub open spec fn at(self, stage: Stage) -> (SetupState, SetupOutcome) {
        (SetupState { stage, ..self }, None)
    }

    /// The handshake fails.
    pub open spec fn fail(self, error: TransportError) -> (SetupState, SetupOutcome) {
        (SetupState { stage: Stage::Done, ..self }, Some(Err(error)))
    }

    /// The handshake goes on with sending the manifest, if it may be sent.
    pub open spec fn send(self) -> (SetupState, SetupOutcome) {
        if self.manifest.len() > MAX_MANIFEST_BYTES {
            self.fail(TransportError::ManifestTooLarge)
        } else {
            self.at(Stage::SendMagic)
        }
    }

    /// The handshake goes on with lane `lane`, or past the lanes.
    pub open spec fn lane(self, lane: int) -> (SetupState, SetupOutcome) {
        if lane < self.lanes {
            self.at(Stage::LaneStream(lane as usize))
        } else {
            self.at(Stage::Ready)
        }
    }

    /// The error that a failed action amounts to.
    pub open spec fn fault(self, e: String) -> TransportError {
        match (self.stage, self.role) {
            (Stage::CheckMagic, _) => TransportError::ProtocolHeader(e),
            (Stage::SendMagic, _) => TransportError::ProtocolHeader(e),
            (Stage::SendHeader, _) => TransportError::TypeManifest(e),
            (Stage::SendBody, _) => TransportError::TypeManifest(e),
            (Stage::LaneHeader(_), Role::Server) => TransportError::LaneHeader(e),
            (Stage::Ready, Role::Client) => TransportError::Readiness(e),
            _ => TransportError::Connection(e),
        }
    }

    /// What `reply` makes of the handshake.
    pub open spec fn step(self, reply: SetupReplyView) -> (SetupState, SetupOutcome) {
        match (self.stage, reply) {
            (_, SetupReplyView::Failed(e)) => self.fail(self.fault(e)),
            (Stage::Control, _) => if self.role is Server {
                self.at(Stage::CheckMagic)
            } else {
                self.send()
            },
            (Stage::CheckMagic, SetupReplyView::Bytes(magic)) => if magic == MAGIC@ {
                self.at(Stage::CheckManifest)
            } else {
                self.fail(TransportError::ProtocolMismatch)
            },
            (Stage::CheckManifest, SetupReplyView::Frame(Err(e))) => self.fail(e),
            (Stage::CheckManifest, SetupReplyView::Frame(Ok(None))) => self.fail(
                TransportError::MissingManifest,
            ),
            (Stage::CheckManifest, SetupReplyView::Frame(Ok(Some(actual)))) => if actual
                != self.manifest {
                self.fail(TransportError::ManifestMismatch)
            } else if self.role is Server {
                self.send()
            } else {
                self.lane(0)
            },
            (Stage::SendMagic, _) => self.at(Stage::SendHeader),
            (Stage::SendHeader, _) => self.at(Stage::SendBody),
            (Stage::SendBody, _) => if self.role is Server {
                self.lane(0)
            } else {
                self.at(Stage::CheckMagic)
            },
            (Stage::LaneStream(lane), _) => self.at(Stage::LaneHeader(lane)),
            (Stage::LaneHeader(lane), SetupReplyView::Bytes(header)) => if wire::be32_value(header)
                == lane {
                self.lane(lane + 1)
            } else {
                self.fail(TransportError::LaneMismatch)
            },
            (Stage::LaneHeader(lane), _) => self.lane(lane + 1),
            (Stage::Ready, SetupReplyView::Bytes(ready)) => if ready == seq![READY] {
                self.at(Stage::Finish)
            } else {
                self.fail(TransportError::InvalidReadiness)
            },
            (Stage::Ready, _) => self.at(Stage::Finish),
            (Stage::Finish, _) => (SetupState { stage: Stage::Done, ..self }, Some(Ok(()))),
            _ => (self, None),
        }
    }
}

/// The handshake of one peer.
///
/// As long as [`Handshake::action`] asks for something, do it and hand what
/// came of it to [`Handshake::feed`], which says when the handshake is over.
#[derive(Debug)]
pub struct Handshake {
    role: Role,
    manifest: String,
    lanes: usize,
    stage: Stage,
}

impl View for Handshake {
    type V = SetupState;

    closed spec fn view(&self) -> SetupState {
        SetupState {
            role: self.role,
            manifest: utf8::encode_utf8(self.manifest@),
            lanes: self.lanes,
            stage: self.stage,
        }
    }
}

/// Judges the header of the lane at position `lane`.
fn check_lane(header: &[u8], lane: usize) -> (result: Result<(), TransportError>)
    requires
        header@.len() == HEADER_BYTES,
    ensures
        result == if wire::be32_value(header@) == lane {
            Ok(())
        } else {
            Err::<(), TransportError>(TransportError::LaneMismatch)
        },
{
    if wire::header_value(header) as usize == lane {
        Ok(())
    } else {
        Err(TransportError::LaneMismatch)
    }
}

/// Judges the readiness byte.
fn check_ready(ready: &[u8]) -> (result: Result<(), TransportError>)
    requires
        ready@.len() == 1,
    ensures
        result == if ready@ == seq![READY] {
            Ok(())
        } else {
            Err::<(), TransportError>(TransportError::InvalidReadiness)
        },
{
    if ready[0] == READY {
        assert(ready@ =~= seq![READY]);
        Ok(())
    } else {
        Err(TransportError::InvalidReadiness)
    }
}

/// The server's side of the handshake, for `lanes` lanes.
pub fn prepare_server(manifest: String, lanes: usize) -> (handshake: Handshake)
    ensures
        handshake@ == SetupState::initial(Role::Server, utf8::encode_utf8(manifest@), lanes),
{
    Handshake { role: Role::Server, manifest, lanes, stage: Stage::Control }
}

/// The client's side of the handshake, for `lanes` lanes.
pub fn prepare_client(manifest: String, lanes: usize) -> (handshake: Handshake)
    ensures
        handshake@ == SetupState::initial(Role::Client, utf8::encode_utf8(manifest@), lanes),
{
    Handshake { role: Role::Client, manifest, lanes, stage: Stage::Control }
}

impl Handshake {
    /// What to do next; `None` once the handshake is over.
    pub fn action(&self) -> (action: Option<SetupAction>)
        ensures
            action is Some <==> self@.action() is Some,
            action matches Some(due) ==> self@.action() == Some(due@),
    {
        match (self.stage, self.role) {
            (Stage::Control, Role::Server) => Some(SetupAction::AcceptControl),
            (Stage::Control, Role::Client) => Some(SetupAction::OpenControl),
            (Stage::CheckMagic, _) => Some(SetupAction::ReadControl { len: MAGIC_BYTES }),
            (Stage::CheckManifest, _) => Some(
                SetupAction::ReadFrame { limit: MAX_MANIFEST_BYTES },
            ),
            (Stage::SendMagic, _) => {
                let magic = MAGIC;
                Some(SetupAction::WriteControl(vstd::slice::slice_to_vec(magic.as_slice())))
            },
            (Stage::SendHeader, _) => {
                let header = wire::header(self.manifest.as_str().as_bytes().len());
                Some(SetupAction::WriteControl(vstd::slice::slice_to_vec(header.as_slice())))
            },
            (Stage::SendBody, _) => Some(
                SetupAction::WriteControl(self.manifest.as_str().as_bytes_vec()),
            ),
            (Stage::LaneStream(_), Role::Server) => Some(SetupAction::AcceptLane),
            (Stage::LaneStream(_), Role::Client) => Some(SetupAction::OpenLane),
            (Stage::LaneHeader(_), Role::Server) => Some(
                SetupAction::ReadLane { len: HEADER_BYTES },
            ),
            (Stage::LaneHeader(lane), Role::Client) => {
                let header = wire::header(lane);
                Some(SetupAction::WriteLane(vstd::slice::slice_to_vec(header.as_slice())))
            },
            (Stage::Ready, Role::Server) => {
                let ready = vec![READY];
                assert(ready@ =~= seq![READY]);
                Some(SetupAction::WriteControl(ready))
            },
            (Stage::Ready, Role::Client) => Some(SetupAction::ReadControl { len: 1 }),
            (Stage::Finish, _) => Some(SetupAction::FinishControl),
            (Stage::Done, _) => None,
        }
    }

    /// The error that a failed action amounts to.
    fn fault(&self, e: String) -> (error: TransportError)
        ensures
            error == self@.fault(e),
    {
        match (self.stage, self.role) {
            (Stage::CheckMagic, _) => TransportError::ProtocolHeader(e),
            (Stage::SendMagic, _) => TransportError::ProtocolHeader(e),
            (Stage::SendHeader, _) => TransportError::TypeManifest(e),
            (Stage::SendBody, _) => TransportError::TypeManifest(e),
            (Stage::LaneHeader(_), Role::Server) => TransportError::LaneHeader(e),
            (Stage::Ready, Role::Client) => TransportError::Readiness(e),
            _ => TransportError::Connection(e),
        }
    }

    fn at(&mut self, stage: Stage) -> (outcome: Option<Result<(), TransportError>>)
        ensures
            (final(self)@, outcome) == old(self)@.at(stage),
    {
        self.stage = stage;
        None
    }

    fn fail(&mut self, error: TransportError) -> (outcome: Option<Result<(), TransportError>>)
        ensures
            (final(self)@, outcome) == old(self)@.fail(error),
    {
        self.stage = Stage::Done;
        Some(Err(error))
    }

    fn send(&mut self) -> (outcome: Option<Result<(), TransportError>>)
        ensures
            (final(self)@, outcome) == old(self)@.send(),
    {
        match manifest::send_manifest(self.manifest.as_str()) {
            Err(error) => self.fail(error),
            Ok(()) => self.at(Stage::SendMagic),
        }
    }

    fn lane(&mut self, lane: usize) -> (outcome: Option<Result<(), TransportError>>)
        ensures
            (final(self)@, outcome) == old(self)@.lane(lane as int),
    {
        if lane < self.lanes {
            self.at(Stage::LaneStream(lane))
        } else {
            self.at(Stage::Ready)
        }
    }

    /// Takes what came of the action that was due. Returns the outcome of the
    /// handshake once it is known, and disarms the guard of the connection when
    /// the handshake is complete.
    pub fn feed<C, S>(&mut self, guard: &mut ConnectionGuard<C, S>, reply: SetupReply) -> (outcome:
        Option<Result<(), TransportError>>)
        requires
            old(self)@.wf(),
            old(self)@.action() is Some,
            replies_to(old(self)@.action()->0, reply@),
        ensures
            final(self)@.wf(),
            (final(self)@, outcome) == old(self)@.step(reply@),
            final(guard).armed == (old(guard).armed && !(outcome matches Some(Ok(_)))),
            final(guard).conn == old(guard).conn,
            final(guard).status == old(guard).status,
            final(guard).reason == old(guard).reason,
    {
        match (self.stage, reply) {
            (_, SetupReply::Failed(e)) => {
                let error = self.fault(e);
                self.fail(error)
            },
            (Stage::Control, _) => match self.role {
                Role::Server => self.at(Stage::CheckMagic),
                Role::Client => self.send(),
            },
            (Stage::CheckMagic, SetupReply::Bytes(magic)) => {
                match manifest::check_magic(magic.as_slice()) {
                    Err(error) => self.fail(error),
                    Ok(()) => self.at(Stage::CheckManifest),
                }
            },
            (Stage::CheckManifest, SetupReply::Frame(Err(error))) => self.fail(error),
            (Stage::CheckManifest, SetupReply::Frame(Ok(actual))) => {
                match manifest::check_manifest(actual, self.manifest.as_str()) {
                    Err(error) => self.fail(error),
                    Ok(()) => match self.role {
                        Role::Server => self.send(),
                        Role::Client => self.lane(0),
                    },
                }
            },
            (Stage::SendMagic, _) => self.at(Stage::SendHeader),
            (Stage::SendHeader, _) => self.at(Stage::SendBody),
            (Stage::SendBody, _) => match self.role {
                Role::Server => self.lane(0),
                Role::Client => self.at(Stage::CheckMagic),
            },
            (Stage::LaneStream(lane), _) => self.at(Stage::LaneHeader(lane)),
            (Stage::LaneHeader(lane), SetupReply::Bytes(header)) => {
                match check_lane(header.as_slice(), lane) {
                    Err(error) => self.fail(error),
                    Ok(()) => self.lane(lane + 1),
                }
            },
            (Stage::LaneHeader(lane), _) => self.lane(lane + 1),
            (Stage::Ready, SetupReply::Bytes(ready)) => {
                match check_ready(ready.as_slice()) {
                    Err(error) => self.fail(error),
                    Ok(()) => self.at(Stage::Finish),
                }
            },
            (Stage::Ready, _) => self.at(Stage::Finish),
            (Stage::Finish, _) => {
                self.stage = Stage::Done;
                guard.disarm();
                Some(Ok(()))
            },
            _ => None,
        }
    }
}

/// What a handshake comes to, and what it writes: to the control stream, and to
/// each lane in the order in which they were opened.
pub struct SetupRun {
    pub result: Result<(), TransportError>,
    pub control: Seq<u8>,
    pub lanes: Seq<Seq<u8>>,
}

/// What the streams answer to an action of a handshake at lane `lane`, and what
/// is left of the control stream: `control` is what the peer wrote to the
/// control stream, `lanes` what it wrote to each lane. What the peer did not
/// write cannot be read: the action fails with `fault`.
pub open spec fn streams_reply(
    action: ActionView,
    lane: int,
    control: Seq<u8>,
    lanes: Seq<Seq<u8>>,
    fault: String,
) -> (SetupReplyView, Seq<u8>) {
    match action {
        ActionView::ReadControl { len } => if control.len() < len {
            (SetupReplyView::Failed(fault), Seq::empty())
        } else {
            (SetupReplyView::Bytes(control.take(len as int)), control.skip(len as int))
        },
        ActionView::ReadFrame { limit } => {
            let (outcome, rest) = wire::parse_frame(control, limit, fault);
            (SetupReplyView::Frame(outcome), rest)
        },
        ActionView::AcceptLane => if lane < lanes.len() {
            (SetupReplyView::Done, control)
        } else {
            (SetupReplyView::Failed(fault), control)
        },
        ActionView::ReadLane { len } => if lanes[lane].len() < len {
            (SetupReplyView::Failed(fault), control)
        } else {
            (SetupReplyView::Bytes(lanes[lane].take(len as int)), control)
        },
        _ => (SetupReplyView::Done, control),
    }
}

impl SetupState {
    /// The lane that the handshake is at.
    pub open spec fn current_lane(self) -> int {
        match self.stage {
            Stage::LaneStream(lane) => lane as int,
            Stage::LaneHeader(lane) => lane as int,
            _ => 0,
        }
    }

    /// The number of steps that are left at most.
    pub open spec fn rank(self) -> int {
        let lanes = 2 * self.lanes as int;
        let server = self.role is Server;
        match self.stage {
            Stage::Control => lanes + 9,
            Stage::CheckMagic => lanes + if server { 8int } else { 5 },
            Stage::CheckManifest => lanes + if server { 7int } else { 4 },
            Stage::SendMagic => lanes + if server { 6int } else { 8 },
            Stage::SendHeader => lanes + if server { 5int } else { 7 },
            Stage::SendBody => lanes + if server { 4int } else { 6 },
            Stage::LaneStream(lane) => lanes - 2 * lane + 3,
            Stage::LaneHeader(lane) => lanes - 2 * lane + 2,
            Stage::Ready => 2,
            Stage::Finish => 1,
            Stage::Done => 0,
        }
    }

    /// The whole handshake from here on, against what the peer wrote.
    pub open spec fn run(self, control: Seq<u8>, lanes: Seq<Seq<u8>>, fault: String) -> SetupRun
        decreases self.rank(),
    {
        match self.action() {
            None => SetupRun { result: Ok(()), control: Seq::empty(), lanes: Seq::empty() },
            Some(action) => {
                let (reply, rest) = streams_reply(
                    action,
                    self.current_lane(),
                    control,
                    lanes,
                    fault,
                );
                let (next, outcome) = self.step(reply);
                let later = match outcome {
                    Some(result) => SetupRun {
                        result,
                        control: Seq::empty(),
                        lanes: Seq::empty(),
                    },
                    None => if 0 <= next.rank() < self.rank() {
                        next.run(rest, lanes, fault)
                    } else {
                        SetupRun {
                            result: Ok(()),
                            control: Seq::empty(),
                            lanes: Seq::empty(),
                        }
                    },
                };
                match action {
                    ActionView::WriteControl(bytes) => SetupRun {
                        control: bytes + later.control,
                        ..later
                    },
                    ActionView::WriteLane(bytes) => SetupRun {
                        lanes: seq![bytes] + later.lanes,
                        ..later
                    },
                    _ => later,
                }
            },
        }
    }
}

/// A handshake ends: each reply leaves it with fewer steps to take, and its
/// outcome is known exactly when none is left.
pub proof fn law_handshake_terminates(state: SetupState, reply: SetupReplyView)
    requires
        state.wf(),
        state.action() is Some,
        replies_to(state.action()->0, reply),
    ensures
        ({
            let (next, outcome) = state.step(reply);
            &&& next.wf()
            &&& 0 <= next.rank() < state.rank()
            &&& outcome is Some <==> next.action() is None
        }),
{
}

/// Every action but the reading of a frame can fail, and succeeds with what it
/// is for: bytes of the length that was asked for, or nothing. Reading a frame
/// comes to whatever reading a frame can come to.
pub proof fn law_actions_get_their_replies(action: ActionView, reply: SetupReplyView)
    ensures
        replies_to(action, reply) <==> match reply {
            SetupReplyView::Failed(_) => !(action is ReadFrame),
            SetupReplyView::Frame(_) => action is ReadFrame,
            SetupReplyView::Bytes(bytes) => {
                ||| action matches ActionView::ReadControl { len } && bytes.len() == len
                ||| action matches ActionView::ReadLane { len } && bytes.len() == len
            },
            SetupReplyView::Done => !(action is ReadFrame || action is ReadControl || action is
                ReadLane),
        },
{
}

/// The number of actions in a complete handshake for `lanes` lanes.
pub open spec fn script_length(lanes: int) -> int {
    8 + 2 * lanes
}

/// The lane that action `n` of a handshake is about, if it is about one.
pub open spec fn script_lane(n: int) -> int {
    (n - 6) / 2
}

/// Action `n` of a complete handshake for `lanes` lanes.
///
/// The peers get the control stream, exchange their preambles, go through the
/// lanes with two actions for each, exchange the readiness byte and finish the
/// control stream.
pub open spec fn script(role: Role, manifest: Seq<u8>, lanes: int, n: int) -> ActionView {
    let sent = if role is Server {
        n - 3
    } else {
        n - 1
    };
    if n == 0 {
        if role is Server {
            ActionView::AcceptControl
        } else {
            ActionView::OpenControl
        }
    } else if n < 6 && sent == 0 {
        ActionView::WriteControl(MAGIC@)
    } else if n < 6 && sent == 1 {
        ActionView::WriteControl(wire::be32(manifest.len() as int))
    } else if n < 6 && sent == 2 {
        ActionView::WriteControl(manifest)
    } else if n == 1 || n == 4 {
        ActionView::ReadControl { len: 8 }
    } else if n == 2 || n == 5 {
        ActionView::ReadFrame { limit: MAX_MANIFEST_BYTES }
    } else if n < 6 + 2 * lanes {
        match (role, n % 2 == 0) {
            (Role::Server, true) => ActionView::AcceptLane,
            (Role::Server, false) => ActionView::ReadLane { len: 4 },
            (Role::Client, true) => ActionView::OpenLane,
            (Role::Client, false) => ActionView::WriteLane(wire::be32(script_lane(n))),
        }
    } else if n == 6 + 2 * lanes {
        if role is Server {
            ActionView::WriteControl(seq![READY])
        } else {
            ActionView::ReadControl { len: 1 }
        }
    } else {
        ActionView::FinishControl
    }
}

/// Whether the handshake goes on after `reply` to action `n`: the action did not
/// fail, what was read is what is asked of the peer, and the own manifest may be
/// sent where that is due next.
pub open spec fn is_accepted(
    role: Role,
    manifest: Seq<u8>,
    lanes: int,
    n: int,
    reply: SetupReplyView,
) -> bool {
    &&& match (script(role, manifest, lanes, n), reply) {
        (_, SetupReplyView::Failed(_)) => false,
        (ActionView::ReadControl { len: 8 }, reply) => reply == SetupReplyView::Bytes(MAGIC@),
        (ActionView::ReadControl { .. }, reply) => reply == SetupReplyView::Bytes(seq![READY]),
        (ActionView::ReadFrame { .. }, reply) => reply == SetupReplyView::Frame(Ok(Some(manifest))),
        (ActionView::ReadLane { .. }, reply) => reply matches SetupReplyView::Bytes(header)
            && wire::be32_value(header) == script_lane(n),
        _ => true,
    }
    &&& script(role, manifest, lanes, n + 1) == ActionView::WriteControl(MAGIC@) && n < 5
        ==> manifest.len() <= MAX_MANIFEST_BYTES
}

/// Whether `error` is what a handshake complains of when it does not go on after
/// `reply` to action `n`.
pub open spec fn is_complaint(
    role: Role,
    manifest: Seq<u8>,
    lanes: int,
    n: int,
    reply: SetupReplyView,
    error: TransportError,
) -> bool {
    match (script(role, manifest, lanes, n), reply) {
        (ActionView::ReadFrame { .. }, SetupReplyView::Frame(Err(e))) => error == e,
        (ActionView::ReadFrame { .. }, SetupReplyView::Frame(Ok(None))) => error
            is MissingManifest,
        (ActionView::ReadFrame { .. }, SetupReplyView::Frame(Ok(Some(actual)))) => if actual
            == manifest {
            error is ManifestTooLarge
        } else {
            error is ManifestMismatch
        },
        (ActionView::ReadControl { len }, SetupReplyView::Bytes(_)) => if len == 8 {
            error is ProtocolMismatch
        } else {
            error is InvalidReadiness
        },
        (ActionView::ReadLane { .. }, SetupReplyView::Bytes(_)) => error is LaneMismatch,
        (action, SetupReplyView::Failed(e)) => {
            let sent = if role is Server {
                n - 3
            } else {
                n - 1
            };
            if n < 6 && (sent == 0 || action is ReadControl) {
                error == TransportError::ProtocolHeader(e)
            } else if n < 6 && (sent == 1 || sent == 2) {
                error == TransportError::TypeManifest(e)
            } else if action is ReadLane {
                error == TransportError::LaneHeader(e)
            } else if action is ReadControl {
                error == TransportError::Readiness(e)
            } else {
                error == TransportError::Connection(e)
            }
        },
        _ => error is ManifestTooLarge,
    }
}

/// A handshake and its outcome after `replies`, each to the action that was due;
/// `None` where it could not have got them.
pub open spec fn setup_after(start: SetupState, replies: Seq<SetupReplyView>) -> Option<
    (SetupState, SetupOutcome),
>
    decreases replies.len(),
{
    if replies.len() == 0 {
        Some((start, None))
    } else {
        match setup_after(start, replies.drop_last()) {
            Some((state, _)) => match state.action() {
                Some(action) => if replies_to(action, replies.last()) {
                    Some(state.step(replies.last()))
                } else {
                    None
                },
                None => None,
            },
            None => None,
        }
    }
}

/// The actions that the handshake asked for and that `replies` answer, in order.
pub open spec fn setup_actions(start: SetupState, replies: Seq<SetupReplyView>) -> Seq<ActionView>
    decreases replies.len(),
{
    if replies.len() == 0 {
        Seq::empty()
    } else {
        let before = replies.drop_last();
        match setup_after(start, before) {
            Some((state, _)) => match state.action() {
                Some(action) => setup_actions(start, before).push(action),
                None => setup_actions(start, before),
            },
            None => setup_actions(start, before),
        }
    }
}

/// The number of actions that were done before a handshake came to `state`.
spec fn script_position(state: SetupState) -> int {
    let server = state.role is Server;
    match state.stage {
        Stage::Control => 0,
        Stage::CheckMagic => if server {
            1
        } else {
            4
        },
        Stage::CheckManifest => if server {
            2
        } else {
            5
        },
        Stage::SendMagic => if server {
            3
        } else {
            1
        },
        Stage::SendHeader => if server {
            4
        } else {
            2
        },
        Stage::SendBody => if server {
            5
        } else {
            3
        },
        Stage::LaneStream(lane) => 6 + 2 * lane,
        Stage::LaneHeader(lane) => 7 + 2 * lane,
        Stage::Ready => 6 + 2 * state.lanes,
        Stage::Finish => 7 + 2 * state.lanes,
        Stage::Done => 8 + 2 * state.lanes,
    }
}

#[verifier::rlimit(40)]
proof fn lemma_script_step(state: SetupState, reply: SetupReplyView)
    requires
        state.wf(),
        !(state.stage is Done),
        replies_to(state.action()->0, reply),
    ensures
        ({
            let n = script_position(state);
            let (next, outcome) = state.step(reply);
            &&& state.action() == Some(
                script(state.role, state.manifest, state.lanes as int, n),
            )
            &&& next.role == state.role
            &&& next.manifest == state.manifest
            &&& next.lanes == state.lanes
            &&& next.wf()
            &&& is_accepted(state.role, state.manifest, state.lanes as int, n, reply)
                <==> !(outcome matches Some(Err(_)))
            &&& outcome matches Some(Err(error)) ==> next.stage is Done && is_complaint(
                state.role,
                state.manifest,
                state.lanes as int,
                n,
                reply,
                error,
            )
            &&& outcome matches Some(Ok(_)) ==> next.stage is Done
            &&& !(outcome matches Some(Err(_))) ==> script_position(next) == n + 1
            &&& outcome is None <==> !(next.stage is Done)
        }),
{
    assert(MAGIC@.len() == 8);
}

/// A handshake follows its script, whatever the peer does.
///
/// The actions that it asks for are those of the script, one after the other
/// from the first. It is complete exactly when the last of them was done and
/// every reply was accepted; it fails with the first reply that was not, and
/// complains of that one; else the next action of the script is due.
pub proof fn law_handshake_follows_its_script(
    role: Role,
    manifest: Seq<u8>,
    count: usize,
    replies: Seq<SetupReplyView>,
)
    requires
        setup_after(SetupState::initial(role, manifest, count), replies) is Some,
    ensures
        ({
            let start = SetupState::initial(role, manifest, count);
            let lanes = count as int;
            let n = replies.len() as int;
            let (state, outcome) = setup_after(start, replies)->0;
            let last = n > 0 && is_accepted(role, manifest, lanes, n - 1, replies.last());
            &&& state.wf()
            &&& n <= script_length(lanes)
            &&& setup_actions(start, replies) == Seq::new(
                n as nat,
                |i: int| script(role, manifest, lanes, i),
            )
            &&& forall|i: int|
                0 <= i < n - 1 ==> is_accepted(role, manifest, lanes, i, #[trigger] replies[i])
            &&& outcome is None ==> n < script_length(lanes) && state.action() == Some(
                script(role, manifest, lanes, n),
            )
            &&& outcome is Some <==> state.action() is None
            &&& (outcome matches Some(Ok(_))) <==> last && n == script_length(lanes)
            &&& (outcome matches Some(Err(_))) <==> n > 0 && !last
            &&& outcome matches Some(Err(error)) ==> is_complaint(
                role,
                manifest,
                lanes,
                n - 1,
                replies.last(),
                error,
            )
        }),
{
    lemma_script_position(role, manifest, count, replies);
}

#[verifier::rlimit(40)]
proof fn lemma_script_position(
    role: Role,
    manifest: Seq<u8>,
    count: usize,
    replies: Seq<SetupReplyView>,
)
    requires
        setup_after(SetupState::initial(role, manifest, count), replies) is Some,
    ensures
        ({
            let start = SetupState::initial(role, manifest, count);
            let lanes = count as int;
            let n = replies.len() as int;
            let (state, outcome) = setup_after(start, replies)->0;
            let last = n > 0 && is_accepted(role, manifest, lanes, n - 1, replies.last());
            &&& state.role == role
            &&& state.manifest == manifest
            &&& state.lanes == count
            &&& state.wf()
            &&& n <= script_length(lanes)
            &&& !(outcome matches Some(Err(_))) ==> script_position(state) == n
            &&& outcome is None <==> !(state.stage is Done)
            &&& outcome is Some <==> state.action() is None
            &&& outcome is None ==> n < script_length(lanes) && state.action() == Some(
                script(role, manifest, lanes, n),
            )
            &&& setup_actions(start, replies) == Seq::new(
                n as nat,
                |i: int| script(role, manifest, lanes, i),
            )
            &&& forall|i: int|
                0 <= i < n - 1 ==> is_accepted(role, manifest, lanes, i, #[trigger] replies[i])
            &&& (outcome matches Some(Ok(_))) <==> last && n == script_length(lanes)
            &&& (outcome matches Some(Err(_))) <==> n > 0 && !last
            &&& outcome matches Some(Err(error)) ==> is_complaint(
                role,
                manifest,
                lanes,
                n - 1,
                replies.last(),
                error,
            )
        }),
    decreases replies.len(),
{
    let start = SetupState::initial(role, manifest, count);
    let lanes = count as int;
    let n = replies.len() as int;
    let all = Seq::new(n as nat, |i: int| script(role, manifest, lanes, i));
    if n == 0 {
        assert(setup_actions(start, replies) =~= all);
        assert(start.action() == Some(script(role, manifest, lanes, 0)));
    } else {
        let before = replies.drop_last();
        lemma_script_position(role, manifest, count, before);
        let (state, outcome) = setup_after(start, before)->0;
        lemma_script_step(state, replies.last());
        let (next, _) = state.step(replies.last());
        if !(next.stage is Done) {
            let any = if next.action()->0 is ReadFrame {
                SetupReplyView::Frame(Ok(None))
            } else {
                SetupReplyView::Failed(arbitrary())
            };
            lemma_script_step(next, any);
        }
        assert(setup_actions(start, replies) =~= all);
        assert forall|i: int| 0 <= i < n - 1 implies is_accepted(
            role,
            manifest,
            lanes,
            i,
            #[trigger] replies[i],
        ) by {
            assert(before[i] == replies[i]);
            if i == n - 2 {
                assert(before.last() == replies[i]);
            }
        }
    }
}

/// The streams of a connection that is being set up, and what was written to
/// them.
#[verifier::ext_equal]
pub struct OpenStreams {
    /// How many control streams there are.
    pub controls: nat,
    /// What was written to the control stream.
    pub control: Seq<u8>,
    /// What was written to each lane.
    pub lanes: Seq<Seq<u8>>,
    /// How often the control stream was finished.
    pub finished: nat,
}

/// The streams after `actions`: a lane comes into being when it is opened or
/// accepted, and a write to a lane goes to the newest.
pub open spec fn streams_after(actions: Seq<ActionView>) -> OpenStreams
    decreases actions.len(),
{
    if actions.len() == 0 {
        OpenStreams { controls: 0, control: Seq::empty(), lanes: Seq::empty(), finished: 0 }
    } else {
        let before = streams_after(actions.drop_last());
        match actions.last() {
            ActionView::AcceptControl | ActionView::OpenControl => OpenStreams {
                controls: before.controls + 1,
                ..before
            },
            ActionView::WriteControl(bytes) => OpenStreams {
                control: before.control + bytes,
                ..before
            },
            ActionView::AcceptLane | ActionView::OpenLane => OpenStreams {
                lanes: before.lanes.push(Seq::empty()),
                ..before
            },
            ActionView::WriteLane(bytes) => OpenStreams {
                lanes: before.lanes.drop_last().push(before.lanes.last() + bytes),
                ..before
            },
            ActionView::FinishControl => OpenStreams { finished: before.finished + 1, ..before },
            _ => before,
        }
    }
}

/// The first `n` actions of a script.
spec fn script_start(role: Role, manifest: Seq<u8>, lanes: int, n: int) -> Seq<ActionView> {
    Seq::new(n as nat, |i: int| script(role, manifest, lanes, i))
}

proof fn lemma_script_streams_grow(role: Role, manifest: Seq<u8>, lanes: int, n: int)
    requires
        0 <= n,
    ensures
        script_start(role, manifest, lanes, n + 1).len() == n + 1,
        script_start(role, manifest, lanes, n + 1).drop_last() == script_start(
            role,
            manifest,
            lanes,
            n,
        ),
        script_start(role, manifest, lanes, n + 1).last() == script(role, manifest, lanes, n),
{
    assert(script_start(role, manifest, lanes, n + 1).drop_last() =~= script_start(
        role,
        manifest,
        lanes,
        n,
    ));
}

#[verifier::rlimit(40)]
proof fn lemma_greeting_streams(role: Role, manifest: Seq<u8>, lanes: int)
    requires
        0 <= lanes,
    ensures
        streams_after(script_start(role, manifest, lanes, 6)) == (OpenStreams {
            controls: 1,
            control: manifest::preamble(manifest),
            lanes: Seq::empty(),
            finished: 0,
        }),
{
    lemma_script_streams_grow(role, manifest, lanes, 0);
    lemma_script_streams_grow(role, manifest, lanes, 1);
    lemma_script_streams_grow(role, manifest, lanes, 2);
    lemma_script_streams_grow(role, manifest, lanes, 3);
    lemma_script_streams_grow(role, manifest, lanes, 4);
    lemma_script_streams_grow(role, manifest, lanes, 5);
    let s0 = streams_after(script_start(role, manifest, lanes, 0));
    let s1 = streams_after(script_start(role, manifest, lanes, 1));
    let s2 = streams_after(script_start(role, manifest, lanes, 2));
    let s3 = streams_after(script_start(role, manifest, lanes, 3));
    let s4 = streams_after(script_start(role, manifest, lanes, 4));
    let s5 = streams_after(script_start(role, manifest, lanes, 5));
    let s6 = streams_after(script_start(role, manifest, lanes, 6));
    let header = wire::be32(manifest.len() as int);
    assert(s0.controls == 0 && s0.control =~= Seq::<u8>::empty() && s0.finished == 0);
    assert(s1.controls == 1);
    assert(s6.control =~= Seq::<u8>::empty() + MAGIC@ + header + manifest);
    assert(s6.control =~= manifest::preamble(manifest));
    assert(s6.lanes =~= Seq::empty());
}

#[verifier::rlimit(40)]
proof fn lemma_lane_streams(role: Role, manifest: Seq<u8>, lanes: int, k: int)
    requires
        0 <= k <= lanes,
    ensures
        streams_after(script_start(role, manifest, lanes, 6 + 2 * k)) == (OpenStreams {
            controls: 1,
            control: manifest::preamble(manifest),
            lanes: if role is Client {
                lane_headers(0, k)
            } else {
                Seq::new(k as nat, |i: int| Seq::<u8>::empty())
            },
            finished: 0,
        }),
    decreases k,
{
    let after = streams_after(script_start(role, manifest, lanes, 6 + 2 * k));
    if k == 0 {
        lemma_greeting_streams(role, manifest, lanes);
        assert(after.lanes =~= if role is Client {
            lane_headers(0, k)
        } else {
            Seq::new(k as nat, |i: int| Seq::<u8>::empty())
        });
    } else {
        lemma_lane_streams(role, manifest, lanes, k - 1);
        lemma_script_streams_grow(role, manifest, lanes, 4 + 2 * k);
        lemma_script_streams_grow(role, manifest, lanes, 5 + 2 * k);
        assert(script_lane(5 + 2 * k) == k - 1);
        let before = streams_after(script_start(role, manifest, lanes, 4 + 2 * k));
        let opened = streams_after(script_start(role, manifest, lanes, 5 + 2 * k));
        assert(opened.lanes == before.lanes.push(Seq::empty()));
        if role is Client {
            assert(opened.lanes.drop_last() =~= before.lanes);
            assert(Seq::<u8>::empty() + wire::be32(k - 1) =~= wire::be32(k - 1));
            assert(after.lanes =~= before.lanes.push(wire::be32(k - 1)));
            assert(after.lanes =~= lane_headers(0, k));
        } else {
            assert(after.lanes =~= Seq::new(k as nat, |i: int| Seq::<u8>::empty()));
        }
    }
}

#[verifier::rlimit(40)]
proof fn lemma_complete_streams(role: Role, manifest: Seq<u8>, lanes: int)
    requires
        0 <= lanes,
    ensures
        streams_after(script_start(role, manifest, lanes, 8 + 2 * lanes)) == (OpenStreams {
            controls: 1,
            control: if role is Client {
                manifest::preamble(manifest)
            } else {
                manifest::preamble(manifest) + seq![READY]
            },
            lanes: if role is Client {
                lane_headers(0, lanes)
            } else {
                Seq::new(lanes as nat, |i: int| Seq::<u8>::empty())
            },
            finished: 1,
        }),
{
    lemma_lane_streams(role, manifest, lanes, lanes);
    lemma_script_streams_grow(role, manifest, lanes, 6 + 2 * lanes);
    lemma_script_streams_grow(role, manifest, lanes, 7 + 2 * lanes);
    let through = streams_after(script_start(role, manifest, lanes, 6 + 2 * lanes));
    let ready = streams_after(script_start(role, manifest, lanes, 7 + 2 * lanes));
    assert(ready == if role is Server {
        OpenStreams { control: through.control + seq![READY], ..through }
    } else {
        through
    });
}

proof fn lemma_script_pairs(role: Role, manifest: Seq<u8>, lanes: int, n: int)
    requires
        0 <= n,
    ensures
        script(role, manifest, lanes, n) is WriteLane ==> n > 0 && script(
            role,
            manifest,
            lanes,
            n - 1,
        ) is OpenLane,
        script(role, manifest, lanes, n) is ReadLane ==> n > 0 && script(
            role,
            manifest,
            lanes,
            n - 1,
        ) is AcceptLane,
{
}

/// A complete handshake makes exactly the streams that a connection needs: one
/// control stream, which comes first and is finished last, and one stream for
/// each lane. To the control stream goes the own preamble, and from the server
/// the readiness byte behind it. The client writes to each lane its header, and
/// does so directly after it has opened that lane; the server writes nothing
/// to a lane.
#[verifier::rlimit(40)]
pub proof fn law_handshake_opens_a_stream_for_each_lane(
    role: Role,
    manifest: Seq<u8>,
    count: usize,
    replies: Seq<SetupReplyView>,
)
    requires
        setup_after(SetupState::initial(role, manifest, count), replies) matches Some((_, outcome))
            && outcome matches Some(Ok(_)),
    ensures
        ({
            let actions = setup_actions(SetupState::initial(role, manifest, count), replies);
            let streams = streams_after(actions);
            &&& streams.controls == 1
            &&& streams.finished == 1
            &&& streams.lanes.len() == count
            &&& actions.len() > 0
            &&& actions[0] is OpenControl || actions[0] is AcceptControl
            &&& actions.last() is FinishControl
            &&& role is Client ==> {
                &&& streams.control == manifest::preamble(manifest)
                &&& streams.lanes == lane_headers(0, count as int)
                &&& forall|i: int|
                    0 <= i < actions.len() && #[trigger] actions[i] is WriteLane ==> i > 0
                        && actions[i - 1] is OpenLane
            }
            &&& role is Server ==> {
                &&& streams.control == manifest::preamble(manifest) + seq![READY]
                &&& forall|i: int|
                    0 <= i < count ==> #[trigger] streams.lanes[i] == Seq::<u8>::empty()
                &&& forall|i: int|
                    0 <= i < actions.len() && #[trigger] actions[i] is ReadLane ==> i > 0
                        && actions[i - 1] is AcceptLane
            }
        }),
{
    let lanes = count as int;
    law_handshake_follows_its_script(role, manifest, count, replies);
    lemma_complete_streams(role, manifest, lanes);
    let actions = setup_actions(SetupState::initial(role, manifest, count), replies);
    assert(actions =~= script_start(role, manifest, lanes, 8 + 2 * lanes));
    assert forall|i: int| 0 <= i < actions.len() && #[trigger] actions[i] is WriteLane implies i > 0
        && actions[i - 1] is OpenLane by {
        lemma_script_pairs(role, manifest, lanes, i);
    }
    assert forall|i: int| 0 <= i < actions.len() && #[trigger] actions[i] is ReadLane implies i > 0
        && actions[i - 1] is AcceptLane by {
        lemma_script_pairs(role, manifest, lanes, i);
    }
}

/// The headers of the lanes from `from` up to `to`.
pub open spec fn lane_headers(from: int, to: int) -> Seq<Seq<u8>> {
    Seq::new((to - from) as nat, |i: int| wire::be32(from + i))
}

/// Whether lane `i` is there and announces its position.
pub open spec fn lane_in_place(lanes: Seq<Seq<u8>>, i: int) -> bool {
    &&& i < lanes.len()
    &&& lanes[i].len() >= HEADER_BYTES
    &&& wire::be32_value(lanes[i].take(4)) == i
}

/// Whether lanes `from` up to `to` are there and announce their positions.
pub open spec fn lanes_in_order(lanes: Seq<Seq<u8>>, from: int, to: int) -> bool {
    forall|i: int| from <= i < to ==> #[trigger] lane_in_place(lanes, i)
}

/// Whether `control` begins with the preamble of `manifest`.
pub open spec fn begins_with_preamble(control: Seq<u8>, manifest: Seq<u8>) -> bool {
    let length = manifest::preamble(manifest).len();
    control.len() >= length && control.take(length as int) == manifest::preamble(manifest)
}

proof fn lemma_server_lanes(
    state: SetupState,
    lane: int,
    control: Seq<u8>,
    lanes: Seq<Seq<u8>>,
    fault: String,
)
    requires
        state.role is Server,
        0 <= lane <= state.lanes,
    ensures
        ({
            let run = state.lane(lane).0.run(control, lanes, fault);
            if lanes_in_order(lanes, lane, state.lanes as int) {
                run.result == Ok::<(), TransportError>(()) && run.control == seq![READY]
            } else {
                run.result is Err && run.control == Seq::<u8>::empty()
            }
        }),
    decreases state.lanes - lane,
{
    let here = state.lane(lane).0;
    let total = state.lanes as int;
    if lane == state.lanes {
        let finish = state.at(Stage::Finish).0;
        assert(finish.run(control, lanes, fault).result is Ok);
        assert(here.run(control, lanes, fault).control =~= seq![READY]);
        assert(lanes_in_order(lanes, lane, total));
    } else {
        assert(lanes_in_order(lanes, lane, total) <==> lane_in_place(lanes, lane)
            && lanes_in_order(lanes, lane + 1, total)) by {
            if lane_in_place(lanes, lane) && lanes_in_order(lanes, lane + 1, total) {
                assert forall|i: int| lane <= i < total implies #[trigger] lane_in_place(
                    lanes,
                    i,
                ) by {
                    if i > lane {
                        assert(lane + 1 <= i);
                    }
                }
            }
        }
        if lane < lanes.len() {
            let at_header = state.at(Stage::LaneHeader(lane as usize)).0;
            assert(here.run(control, lanes, fault) == at_header.run(control, lanes, fault));
            if lanes[lane].len() >= HEADER_BYTES {
                let header = lanes[lane].take(4);
                if wire::be32_value(header) == lane {
                    let next = state.lane(lane + 1).0;
                    assert(at_header.lane(lane + 1).0 == next);
                    assert(at_header.run(control, lanes, fault) == next.run(
                        control,
                        lanes,
                        fault,
                    ));
                    lemma_server_lanes(state, lane + 1, control, lanes, fault);
                }
            }
        }
    }
}

proof fn lemma_client_lanes(
    state: SetupState,
    lane: int,
    control: Seq<u8>,
    lanes: Seq<Seq<u8>>,
    fault: String,
)
    requires
        state.role is Client,
        0 <= lane <= state.lanes,
    ensures
        ({
            let run = state.lane(lane).0.run(control, lanes, fault);
            &&& run.lanes == lane_headers(lane, state.lanes as int)
            &&& run.control == Seq::<u8>::empty()
            &&& run.result is Ok <==> control.len() >= 1 && control[0] == READY
        }),
    decreases state.lanes - lane,
{
    let here = state.lane(lane).0;
    let total = state.lanes as int;
    reveal_with_fuel(SetupState::run, 3);
    if lane == state.lanes {
        assert(lane_headers(lane, total) =~= Seq::empty());
        if control.len() >= 1 {
            assert(control.take(1)[0] == control[0]);
            assert(control[0] == READY ==> control.take(1) =~= seq![READY]);
        }
    } else {
        lemma_client_lanes(state, lane + 1, control, lanes, fault);
        let at_header = SetupState { stage: Stage::LaneHeader(lane as usize), ..state };
        assert(here.run(control, lanes, fault) == at_header.run(control, lanes, fault));
        let next = state.lane(lane + 1).0;
        assert(at_header.lane(lane + 1).0 == next);
        let later = next.run(control, lanes, fault);
        assert(at_header.run(control, lanes, fault) == SetupRun {
            lanes: seq![wire::be32(lane)] + later.lanes,
            ..later
        });
        assert(lane_headers(lane, total) =~= seq![wire::be32(lane)] + lane_headers(
            lane + 1,
            total,
        ));
    }
}

/// A stream begins with the preamble of `mine` if and only if it begins with
/// the protocol header and the frame that follows holds `mine`.
proof fn lemma_preamble_parses(control: Seq<u8>, mine: Seq<u8>, fault: String)
    requires
        mine.len() <= MAX_MANIFEST_BYTES,
    ensures
        ({
            let (outcome, after) = wire::parse_frame(control.skip(8), MAX_MANIFEST_BYTES, fault);
            let accepted = control.len() >= 8 && control.take(8) == MAGIC@ && outcome == Ok::<
                Option<Seq<u8>>,
                TransportError,
            >(Some(mine));
            &&& begins_with_preamble(control, mine) <==> accepted
            &&& accepted ==> after == control.skip(manifest::preamble(mine).len() as int)
        }),
{
    let body = wire::frame(mine);
    let opening = manifest::preamble(mine);
    let length = opening.len() as int;
    let rest = control.skip(8);
    let (outcome, after) = wire::parse_frame(rest, MAX_MANIFEST_BYTES, fault);
    assert(MAGIC@.len() == 8);
    assert(length == 12 + mine.len());
    if begins_with_preamble(control, mine) {
        assert(control.take(8) =~= control.take(length).take(8));
        assert(opening.take(8) =~= MAGIC@);
        assert(control.take(length).skip(8) =~= rest.take(length - 8));
        assert(opening.skip(8) =~= body);
        assert(rest =~= body + control.skip(length));
        wire::law_frame_round_trip(mine, control.skip(length), MAX_MANIFEST_BYTES, 4, fault);
        wire::law_reading_ignores_fragmentation(rest, MAX_MANIFEST_BYTES, 4, fault);
    } else if control.len() >= 8 && control.take(8) == MAGIC@ && outcome == Ok::<
        Option<Seq<u8>>,
        TransportError,
    >(Some(mine)) {
        wire::law_header_round_trip(0, rest.take(4));
        assert(rest.take(4) == wire::be32(mine.len() as int));
        assert(rest.take(length - 8) =~= body);
        assert(control.take(length) =~= control.take(8) + rest.take(length - 8));
        assert(false);
    }
}

/// What a peer that reads the other's preamble makes of the control stream:
/// it goes on if and only if the stream begins with its own preamble.
proof fn lemma_check(state: SetupState, control: Seq<u8>, lanes: Seq<Seq<u8>>, fault: String)
    requires
        state.stage == Stage::CheckMagic,
        state.manifest.len() <= MAX_MANIFEST_BYTES,
    ensures
        ({
            let run = state.run(control, lanes, fault);
            let rest = control.skip(manifest::preamble(state.manifest).len() as int);
            if begins_with_preamble(control, state.manifest) {
                run == if state.role is Server {
                    state.send().0.run(rest, lanes, fault)
                } else {
                    state.lane(0).0.run(rest, lanes, fault)
                }
            } else {
                &&& run.result is Err
                &&& run.control == Seq::<u8>::empty()
                &&& run.lanes == Seq::<Seq<u8>>::empty()
            }
        }),
{
    let mine = state.manifest;
    lemma_preamble_parses(control, mine, fault);
    if control.len() >= 8 && control.take(8) == MAGIC@ {
        let at_manifest = state.at(Stage::CheckManifest).0;
        let rest = control.skip(8);
        assert(state.run(control, lanes, fault) == at_manifest.run(rest, lanes, fault));
        let (outcome, after) = wire::parse_frame(rest, MAX_MANIFEST_BYTES, fault);
        if outcome == Ok::<Option<Seq<u8>>, TransportError>(Some(mine)) {
            let (next, end) = at_manifest.step(SetupReplyView::Frame(outcome));
            assert(end is None);
            assert(at_manifest.run(rest, lanes, fault) == next.run(after, lanes, fault));
            if state.role is Server {
                assert(next == state.send().0);
            } else {
                assert(next == state.lane(0).0);
            }
        } else {
            let (next, end) = at_manifest.step(SetupReplyView::Frame(outcome));
            assert(end matches Some(Err(_)));
        }
    }
}

/// Sending writes the preamble, then the handshake goes on.
proof fn lemma_send(state: SetupState, control: Seq<u8>, lanes: Seq<Seq<u8>>, fault: String)
    requires
        state.stage == Stage::SendMagic,
    ensures
        ({
            let run = state.run(control, lanes, fault);
            let later = if state.role is Server {
                state.lane(0).0.run(control, lanes, fault)
            } else {
                state.at(Stage::CheckMagic).0.run(control, lanes, fault)
            };
            run == SetupRun { control: manifest::preamble(state.manifest) + later.control, ..later }
        }),
{
    reveal_with_fuel(SetupState::run, 4);
    let later = if state.role is Server {
        state.lane(0).0.run(control, lanes, fault)
    } else {
        state.at(Stage::CheckMagic).0.run(control, lanes, fault)
    };
    let at_header = SetupState { stage: Stage::SendHeader, ..state };
    let at_body = SetupState { stage: Stage::SendBody, ..state };
    let header = wire::be32(state.manifest.len() as int);
    assert(at_body.lane(0) == state.lane(0));
    assert(at_body.run(control, lanes, fault) == SetupRun {
        control: state.manifest + later.control,
        ..later
    });
    assert(at_header.run(control, lanes, fault) == SetupRun {
        control: header + (state.manifest + later.control),
        ..later
    });
    assert(MAGIC@ + (header + (state.manifest + later.control)) =~= manifest::preamble(
        state.manifest,
    ) + later.control);
}

/// The server accepts a client if and only if the control stream begins with
/// the server's own preamble, within the size limit, and all lanes come in
/// order. It writes nothing before the preamble was accepted, and the readiness
/// byte only when all lanes were.
pub proof fn law_server_accepts(
    mine: Seq<u8>,
    count: usize,
    control: Seq<u8>,
    lanes: Seq<Seq<u8>>,
    fault: String,
)
    requires
        mine.len() <= MAX_MANIFEST_BYTES,
    ensures
        ({
            let run = SetupState::initial(Role::Server, mine, count).run(control, lanes, fault);
            let greeted = begins_with_preamble(control, mine);
            let complete = greeted && lanes_in_order(lanes, 0, count as int);
            &&& run.result is Ok <==> complete
            &&& run.control == if complete {
                manifest::preamble(mine) + seq![READY]
            } else if greeted {
                manifest::preamble(mine)
            } else {
                Seq::<u8>::empty()
            }
        }),
{
    reveal_with_fuel(SetupState::run, 2);
    let start = SetupState::initial(Role::Server, mine, count);
    let check = start.at(Stage::CheckMagic).0;
    assert(start.run(control, lanes, fault) == check.run(control, lanes, fault));
    lemma_check(check, control, lanes, fault);
    let rest = control.skip(manifest::preamble(mine).len() as int);
    if begins_with_preamble(control, mine) {
        let send = check.send().0;
        lemma_send(send, rest, lanes, fault);
        lemma_server_lanes(send, 0, rest, lanes, fault);
        assert(manifest::preamble(mine) + Seq::<u8>::empty() =~= manifest::preamble(mine));
    }
}

/// The client accepts a server if and only if the control stream begins with
/// the client's own preamble and the readiness byte follows. It always writes
/// its preamble, and the lane headers once the server's preamble was accepted.
pub proof fn law_client_accepts(
    mine: Seq<u8>,
    count: usize,
    control: Seq<u8>,
    lanes: Seq<Seq<u8>>,
    fault: String,
)
    requires
        mine.len() <= MAX_MANIFEST_BYTES,
    ensures
        ({
            let run = SetupState::initial(Role::Client, mine, count).run(control, lanes, fault);
            let greeted = begins_with_preamble(control, mine);
            let length = manifest::preamble(mine).len() as int;
            &&& run.result is Ok <==> greeted && control.len() > length && control[length] == READY
            &&& run.control == manifest::preamble(mine)
            &&& run.lanes == if greeted {
                lane_headers(0, count as int)
            } else {
                Seq::<Seq<u8>>::empty()
            }
        }),
{
    reveal_with_fuel(SetupState::run, 2);
    let start = SetupState::initial(Role::Client, mine, count);
    let send = start.send().0;
    assert(start.run(control, lanes, fault) == send.run(control, lanes, fault));
    lemma_send(send, control, lanes, fault);
    let check = send.at(Stage::CheckMagic).0;
    lemma_check(check, control, lanes, fault);
    let length = manifest::preamble(mine).len() as int;
    let rest = control.skip(length);
    assert(manifest::preamble(mine) + Seq::<u8>::empty() =~= manifest::preamble(mine));
    if begins_with_preamble(control, mine) {
        lemma_client_lanes(check, 0, rest, lanes, fault);
    }
}

/// A peer whose manifest is over the limit never completes a handshake.
pub proof fn law_oversized_manifest_is_refused(
    role: Role,
    mine: Seq<u8>,
    count: usize,
    control: Seq<u8>,
    lanes: Seq<Seq<u8>>,
    fault: String,
)
    requires
        mine.len() > MAX_MANIFEST_BYTES,
    ensures
        SetupState::initial(role, mine, count).run(control, lanes, fault).result is Err,
        SetupState::initial(role, mine, count).run(control, lanes, fault).control == Seq::<
            u8,
        >::empty(),
{
    reveal_with_fuel(SetupState::run, 4);
    let start = SetupState::initial(role, mine, count);
    let check = start.at(Stage::CheckMagic).0;
    if role is Server {
        assert(start.run(control, lanes, fault) == check.run(control, lanes, fault));
        if control.len() >= 8 && control.take(8) == MAGIC@ {
            let at_manifest = check.at(Stage::CheckManifest).0;
            assert(check.run(control, lanes, fault) == at_manifest.run(
                control.skip(8),
                lanes,
                fault,
            ));
        }
    }
}

/// A peer of another protocol version is refused before its manifest is looked
/// at, and the server writes nothing to it.
pub proof fn law_other_protocols_are_refused(
    mine: Seq<u8>,
    count: usize,
    control: Seq<u8>,
    lanes: Seq<Seq<u8>>,
    fault: String,
)
    requires
        control.len() >= MAGIC_BYTES,
        control.take(8) != MAGIC@,
    ensures
        SetupState::initial(Role::Server, mine, count).run(control, lanes, fault) == (SetupRun {
            result: Err(TransportError::ProtocolMismatch),
            control: Seq::empty(),
            lanes: Seq::empty(),
        }),
{
    reveal_with_fuel(SetupState::run, 3);
}

/// The two ends of a handshake agree.
///
/// Let each peer run against what the other writes. The server is ready if and
/// only if the client is, and they are if and only if their manifests are the
/// same, within the size limit, and the client has all the server's lanes, no
/// more of them than a lane header can number.
pub proof fn law_peers_agree(
    server: Seq<u8>,
    server_lanes: usize,
    client: Seq<u8>,
    client_lanes: usize,
    to_server: Seq<u8>,
    to_client: Seq<u8>,
    lanes: Seq<Seq<u8>>,
    fault: String,
)
    requires
        ({
            let run = SetupState::initial(Role::Client, client, client_lanes).run(
                to_client,
                Seq::empty(),
                fault,
            );
            run.control == to_server && run.lanes == lanes
        }),
        SetupState::initial(Role::Server, server, server_lanes).run(
            to_server,
            lanes,
            fault,
        ).control == to_client,
    ensures
        ({
            let agreed = server == client && server.len() <= MAX_MANIFEST_BYTES && server_lanes
                <= client_lanes && server_lanes <= MAX_LANES;
            &&& SetupState::initial(Role::Server, server, server_lanes).run(
                to_server,
                lanes,
                fault,
            ).result is Ok <==> agreed
            &&& SetupState::initial(Role::Client, client, client_lanes).run(
                to_client,
                Seq::empty(),
                fault,
            ).result is Ok <==> agreed
        }),
{
    let theirs = manifest::preamble(client);
    let ours = manifest::preamble(server);
    if client.len() > MAX_MANIFEST_BYTES {
        law_oversized_manifest_is_refused(
            Role::Client,
            client,
            client_lanes,
            to_client,
            Seq::empty(),
            fault,
        );
        if server.len() > MAX_MANIFEST_BYTES {
            law_oversized_manifest_is_refused(
                Role::Server,
                server,
                server_lanes,
                to_server,
                lanes,
                fault,
            );
        } else {
            law_server_accepts(server, server_lanes, to_server, lanes, fault);
            assert(ours.len() >= 12);
        }
    } else {
        law_client_accepts(client, client_lanes, to_client, Seq::empty(), fault);
        assert(to_server == theirs);
        if server.len() > MAX_MANIFEST_BYTES {
            law_oversized_manifest_is_refused(
                Role::Server,
                server,
                server_lanes,
                to_server,
                lanes,
                fault,
            );
        } else {
            law_server_accepts(server, server_lanes, to_server, lanes, fault);
            assert(theirs.len() == 12 + client.len());
            assert(ours.len() == 12 + server.len());
            if begins_with_preamble(theirs, server) {
                let frames = wire::frame(server) + theirs.skip(ours.len() as int);
                assert(theirs.skip(8) =~= wire::frame(client) + Seq::<u8>::empty());
                assert(theirs =~= theirs.take(ours.len() as int) + theirs.skip(ours.len() as int));
                assert(theirs.skip(8) =~= frames);
                wire::law_frames_are_prefix_free(
                    client,
                    Seq::empty(),
                    server,
                    theirs.skip(ours.len() as int),
                );
            }
            if server == client {
                assert(theirs.take(theirs.len() as int) =~= theirs);
                assert(begins_with_preamble(to_server, server));
                assert((ours + seq![READY]).take(ours.len() as int) =~= ours);
                assert(begins_with_preamble(to_client, client));
                assert(lanes == lane_headers(0, client_lanes as int));
                if server_lanes <= client_lanes && server_lanes <= MAX_LANES {
                    assert forall|i: int| 0 <= i < server_lanes implies #[trigger] lane_in_place(
                        lanes,
                        i,
                    ) by {
                        assert(lanes[i] == wire::be32(i));
                        assert(wire::be32(i).take(4) =~= wire::be32(i));
                        wire::law_header_round_trip(i, wire::be32(i));
                    }
                    assert(lanes_in_order(lanes, 0, server_lanes as int));
                    assert(to_client[ours.len() as int] == READY);
                } else if server_lanes > MAX_LANES {
                    let beyond = MAX_LANES as int;
                    assert(!lane_in_place(lanes, beyond)) by {
                        if lane_in_place(lanes, beyond) {
                            wire::law_header_round_trip(0, lanes[beyond].take(4));
                        }
                    }
                } else {
                    assert(!lane_in_place(lanes, client_lanes as int));
                }
            } else {
                assert(to_client == Seq::<u8>::empty());
            }
        }
    }
}

/// Lanes pair up. Let the server accept the lanes of a client in any order,
/// `order[i]` being the client's lane that it accepts as its lane `i`: it is
/// ready only if each of its lanes is the client's lane of the same position.
pub proof fn law_lanes_pair_up(
    mine: Seq<u8>,
    count: usize,
    control: Seq<u8>,
    order: Seq<int>,
    fault: String,
)
    requires
        mine.len() <= MAX_MANIFEST_BYTES,
        forall|i: int| 0 <= i < order.len() ==> 0 <= #[trigger] order[i] < MAX_LANES,
    ensures
        ({
            let lanes = order.map_values(|lane: int| wire::be32(lane));
            let run = SetupState::initial(Role::Server, mine, count).run(control, lanes, fault);
            run.result is Ok ==> count <= order.len() && forall|i: int|
                0 <= i < count ==> #[trigger] order[i] == i
        }),
{
    let lanes = order.map_values(|lane: int| wire::be32(lane));
    law_server_accepts(mine, count, control, lanes, fault);
    if lanes_in_order(lanes, 0, count as int) {
        if count > order.len() {
            assert(lane_in_place(lanes, order.len() as int));
        }
        assert forall|i: int| 0 <= i < count implies #[trigger] order[i] == i by {
            assert(lane_in_place(lanes, i));
            assert(lanes[i].take(4) =~= wire::be32(order[i]));
            wire::law_header_round_trip(order[i], lanes[i].take(4));
        }
    }
}

/// Whether the manifest of these names fits, and a lane header can number a lane
/// for each.
pub open spec fn can_connect(names: Seq<Seq<char>>) -> bool {
    &&& utf8::encode_utf8(manifest::lines(names)).len() <= MAX_MANIFEST_BYTES
    &&& names.len() <= MAX_LANES
}

/// Peers connect if and only if they were given the same message types in the
/// same order: with one lane per type, both are ready exactly when their lists
/// of type names are equal, and neither the manifest nor the number of lanes is
/// too large.
pub proof fn law_only_same_types_connect(
    server: Seq<Seq<char>>,
    client: Seq<Seq<char>>,
    to_server: Seq<u8>,
    to_client: Seq<u8>,
    lanes: Seq<Seq<u8>>,
    fault: String,
)
    requires
        0 < server.len() <= usize::MAX,
        0 < client.len() <= usize::MAX,
        forall|i: int| 0 <= i < server.len() ==> manifest::on_one_line(#[trigger] server[i]),
        forall|i: int| 0 <= i < client.len() ==> manifest::on_one_line(#[trigger] client[i]),
        ({
            let run = SetupState::initial(
                Role::Client,
                utf8::encode_utf8(manifest::lines(client)),
                client.len() as usize,
            ).run(to_client, Seq::empty(), fault);
            run.control == to_server && run.lanes == lanes
        }),
        SetupState::initial(
            Role::Server,
            utf8::encode_utf8(manifest::lines(server)),
            server.len() as usize,
        ).run(to_server, lanes, fault).control == to_client,
    ensures
        SetupState::initial(
            Role::Server,
            utf8::encode_utf8(manifest::lines(server)),
            server.len() as usize,
        ).run(to_server, lanes, fault).result is Ok <==> server == client && can_connect(server),
        SetupState::initial(
            Role::Client,
            utf8::encode_utf8(manifest::lines(client)),
            client.len() as usize,
        ).run(to_client, Seq::empty(), fault).result is Ok <==> server == client && can_connect(server),
{
    let a = utf8::encode_utf8(manifest::lines(server));
    let b = utf8::encode_utf8(manifest::lines(client));
    law_peers_agree(
        a,
        server.len() as usize,
        b,
        client.len() as usize,
        to_server,
        to_client,
        lanes,
        fault,
    );
    manifest::law_manifest_determines_types(server, client);
}

} // verus!
