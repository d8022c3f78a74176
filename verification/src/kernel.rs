//! The loops that set connections up and hand them to the application.
//!
//! A [`ServerKernel`] takes in what its endpoint accepts, a [`ClientKernel`]
//! dials what it is asked to dial. Setups run side by side, a bounded number of
//! them; a connection that is set up waits for room in the application's
//! mailbox, at most one at a time. `P` is a connection that is set up, `H` the
//! handle that the application gets, `R` a request to dial.

use vstd::prelude::*;

verus! {

/// The time that one setup may take, in seconds.
pub const SETUP_TIMEOUT_SECS: u64 = 30;

/// The number of setups that may run at a time.
pub const MAX_PENDING_SETUPS: usize = 128;

/// The number of messages that the mailbox of one lane direction holds.
pub const MAILBOX_CAPACITY: usize = 8000;

/// The reason that a server closes its endpoint with when it stops.
pub const SERVER_STOPPED: &'static str = "seek server stopped";

/// Why a kernel gave up.
#[derive(Debug, Clone, Copy, PartialEq, Eq, Structural)]
pub enum KernelError {
    /// Every connection number was used.
    IdsExhausted,
    /// Nobody takes new connections any more.
    ReceiverClosed,
}

impl KernelError {
    /// The text that is reported for this error.
    pub open spec fn text(self) -> Seq<char> {
        match self {
            KernelError::IdsExhausted => "seek connection id exhausted"@,
            KernelError::ReceiverClosed => "seek new-connection receiver closed"@,
        }
    }

    /// Renders the error.
    pub fn message(&self) -> (message: &'static str)
        ensures
            message@ == self.text(),
    {
        match self {
            KernelError::IdsExhausted => "seek connection id exhausted",
            KernelError::ReceiverClosed => "seek new-connection receiver closed",
        }
    }
}

/// Where a kernel stands.
#[derive(Debug, Clone, Copy, PartialEq, Eq, Structural)]
pub enum KernelPhase {
    /// It waits for the next event.
    Running,
    /// It waits for the handle of a connection that is being started.
    Starting,
    /// It has stopped.
    Stopped,
}

/// What a server waits for.
#[derive(Debug, Clone, Copy, PartialEq, Eq, Structural)]
pub enum ServerWait {
    /// The server is told to stop.
    CancelRun,
    /// Nobody takes new connections any more.
    ReceiverClosed,
    /// A session ended.
    Session,
    /// The mailbox has room for a connection.
    Permit,
    /// A setup ended.
    Setup,
    /// A connection is coming in.
    Incoming,
}

/// What a server has seen.
#[derive(Debug)]
pub enum ServerEvent<P, H> {
    /// The server is told to stop.
    CancelRun,
    /// Nobody takes new connections any more.
    ReceiverClosed,
    /// A session ended.
    SessionEnded,
    /// The mailbox has room for a connection, or was closed.
    Permit { granted: bool },
    /// A setup ended, with a connection or without.
    SetupEnded(Option<P>),
    /// The connection was started, and this is its handle.
    Started(H),
    /// A connection is coming in, or the endpoint was closed.
    Incoming { open: bool },
}

/// What a server does.
#[derive(Debug)]
pub enum ServerAction<P, H> {
    /// Wait for the next event.
    Wait,
    /// Start the setup of the incoming connection.
    Accept,
    /// Start the session of a connection under number `c_id`.
    Start { prepared: P, c_id: u64 },
    /// Put the handle into the mailbox.
    Publish(H),
    /// Stop with `result`; if `close`, close the endpoint first, with
    /// [`CLOSE_CODE`](crate::connection::CLOSE_CODE) and [`SERVER_STOPPED`]. All
    /// setups and sessions end.
    Stop { close: bool, result: Result<(), KernelError> },
}

/// The model of a [`ServerKernel`].
pub struct ServerState<H> {
    /// The number of the next connection.
    pub next_c_id: u64,
    /// How many setups are running.
    pub setups: int,
    /// How many sessions are running.
    pub sessions: int,
    /// The connection that waits for room in the mailbox.
    pub pending: Option<H>,
    pub phase: KernelPhase,
}

/// `item` alone, or nothing.
pub open spec fn optional<A>(present: bool, item: A) -> Seq<A> {
    if present {
        seq![item]
    } else {
        Seq::empty()
    }
}

impl<H> ServerState<H> {
    /// A server that has just begun to run.
    pub open spec fn initial(next_c_id: u64) -> ServerState<H> {
        ServerState {
            next_c_id,
            setups: 0,
            sessions: 0,
            pending: None,
            phase: KernelPhase::Running,
        }
    }

    /// What every server keeps.
    pub open spec fn wf(self) -> bool {
        &&& 0 <= self.setups <= MAX_PENDING_SETUPS
        &&& 0 <= self.sessions <= self.next_c_id
        &&& self.phase is Starting ==> self.pending is None
    }

    /// What the server waits for, in the order in which it counts.
    pub open spec fn waits(self) -> Seq<ServerWait> {
        if self.phase is Running {
            seq![ServerWait::CancelRun, ServerWait::ReceiverClosed] + optional(
                self.sessions > 0,
                ServerWait::Session,
            ) + optional(self.pending is Some, ServerWait::Permit) + optional(
                self.setups > 0 && self.pending is None,
                ServerWait::Setup,
            ) + optional(self.setups < MAX_PENDING_SETUPS, ServerWait::Incoming)
        } else {
            Seq::empty()
        }
    }

    /// Whether the server can see `event`.
    pub open spec fn expects<P>(self, event: ServerEvent<P, H>) -> bool {
        match event {
            ServerEvent::CancelRun => self.phase is Running,
            ServerEvent::ReceiverClosed => self.phase is Running,
            ServerEvent::SessionEnded => self.phase is Running && self.sessions > 0,
            ServerEvent::Permit { .. } => self.phase is Running && self.pending is Some,
            ServerEvent::SetupEnded(_) => self.phase is Running && self.setups > 0
                && self.pending is None,
            ServerEvent::Started(_) => self.phase is Starting,
            ServerEvent::Incoming { .. } => self.phase is Running && self.setups
                < MAX_PENDING_SETUPS,
        }
    }

    /// The server stops.
    pub open spec fn stop<P>(self, close: bool, result: Result<(), KernelError>) -> (
        ServerState<H>,
        ServerAction<P, H>,
    ) {
        (
            ServerState { phase: KernelPhase::Stopped, ..self },
            ServerAction::Stop { close, result },
        )
    }

    /// What `event` makes of the server.
    pub open spec fn step<P>(self, event: ServerEvent<P, H>) -> (
        ServerState<H>,
        ServerAction<P, H>,
    ) {
        match event {
            ServerEvent::CancelRun => self.stop(true, Ok(())),
            ServerEvent::ReceiverClosed => self.stop(true, Err(KernelError::ReceiverClosed)),
            ServerEvent::SessionEnded => (
                ServerState { sessions: self.sessions - 1, ..self },
                ServerAction::Wait,
            ),
            ServerEvent::Permit { granted } => if granted {
                (
                    ServerState { pending: None, ..self },
                    ServerAction::Publish(self.pending->0),
                )
            } else {
                self.stop(true, Err(KernelError::ReceiverClosed))
            },
            ServerEvent::SetupEnded(None) => (
                ServerState { setups: self.setups - 1, ..self },
                ServerAction::Wait,
            ),
            ServerEvent::SetupEnded(Some(prepared)) => {
                let ended = ServerState { setups: self.setups - 1, ..self };
                if self.next_c_id == u64::MAX {
                    ended.stop(false, Err(KernelError::IdsExhausted))
                } else {
                    (
                        ServerState {
                            next_c_id: (self.next_c_id + 1) as u64,
                            sessions: self.sessions + 1,
                            phase: KernelPhase::Starting,
                            ..ended
                        },
                        ServerAction::Start { prepared, c_id: self.next_c_id },
                    )
                }
            },
            ServerEvent::Started(handle) => (
                ServerState { pending: Some(handle), phase: KernelPhase::Running, ..self },
                ServerAction::Wait,
            ),
            ServerEvent::Incoming { open } => if open {
                (ServerState { setups: self.setups + 1, ..self }, ServerAction::Accept)
            } else {
                self.stop(true, Ok(()))
            },
        }
    }
}

/// One run of a server.
///
/// Wait for the first of [`ServerKernel::waits`] that is ready, hand it to
/// [`ServerKernel::run`], and do what that says, until it says to stop.
#[derive(Debug)]
pub struct ServerKernel<H> {
    next_c_id: u64,
    setups: usize,
    sessions: u64,
    pending: Option<H>,
    phase: KernelPhase,
}

impl<H> View for ServerKernel<H> {
    type V = ServerState<H>;

    closed spec fn view(&self) -> ServerState<H> {
        ServerState {
            next_c_id: self.next_c_id,
            setups: self.setups as int,
            sessions: self.sessions as int,
            pending: self.pending,
            phase: self.phase,
        }
    }
}

impl<H> ServerKernel<H> {
    /// A run whose first connection gets number `next_c_id`.
    pub fn new(next_c_id: u64) -> (kernel: Self)
        ensures
            kernel@ == ServerState::<H>::initial(next_c_id),
            kernel@.wf(),
    {
        ServerKernel {
            next_c_id,
            setups: 0,
            sessions: 0,
            pending: None,
            phase: KernelPhase::Running,
        }
    }

    /// The number that the next connection gets.
    pub fn next_c_id(&self) -> (id: u64)
        ensures
            id == self@.next_c_id,
    {
        self.next_c_id
    }

    /// What to wait for, the first that is ready in this order counting.
    pub fn waits(&self) -> (waits: Vec<ServerWait>)
        ensures
            waits@ == self@.waits(),
    {
        let mut waits: Vec<ServerWait> = Vec::new();
        match self.phase {
            KernelPhase::Running => {
                waits.push(ServerWait::CancelRun);
                waits.push(ServerWait::ReceiverClosed);
                if self.sessions > 0 {
                    waits.push(ServerWait::Session);
                }
                if self.pending.is_some() {
                    waits.push(ServerWait::Permit);
                }
                if self.setups > 0 && self.pending.is_none() {
                    waits.push(ServerWait::Setup);
                }
                if self.setups < MAX_PENDING_SETUPS {
                    waits.push(ServerWait::Incoming);
                }
            },
            _ => {},
        }
        assert(waits@ =~= self@.waits());
        waits
    }

    fn stop<P>(&mut self, close: bool, result: Result<(), KernelError>) -> (action: ServerAction<
        P,
        H,
    >)
        ensures
            (final(self)@, action) == old(self)@.stop::<P>(close, result),
    {
        self.phase = KernelPhase::Stopped;
        ServerAction::Stop { close, result }
    }

    /// Takes an event and says what to do about it.
    pub fn run<P>(&mut self, event: ServerEvent<P, H>) -> (action: ServerAction<P, H>)
        requires
            old(self)@.wf(),
            old(self)@.expects(event),
        ensures
            final(self)@.wf(),
            (final(self)@, action) == old(self)@.step(event),
    {
        match event {
            ServerEvent::CancelRun => self.stop(true, Ok(())),
            ServerEvent::ReceiverClosed => self.stop(true, Err(KernelError::ReceiverClosed)),
            ServerEvent::SessionEnded => {
                self.sessions = self.sessions - 1;
                ServerAction::Wait
            },
            ServerEvent::Permit { granted } => {
                if granted {
                    match self.pending.take() {
                        Some(handle) => ServerAction::Publish(handle),
                        None => ServerAction::Wait,
                    }
                } else {
                    self.stop(true, Err(KernelError::ReceiverClosed))
                }
            },
            ServerEvent::SetupEnded(None) => {
                self.setups = self.setups - 1;
                ServerAction::Wait
            },
            ServerEvent::SetupEnded(Some(prepared)) => {
                self.setups = self.setups - 1;
                let c_id: u64 = self.next_c_id;
                match c_id.checked_add(1) {
                    None => self.stop(false, Err(KernelError::IdsExhausted)),
                    Some(next) => {
                        self.next_c_id = next;
                        self.sessions = self.sessions + 1;
                        self.phase = KernelPhase::Starting;
                        ServerAction::Start { prepared, c_id }
                    },
                }
            },
            ServerEvent::Started(handle) => {
                self.pending = Some(handle);
                self.phase = KernelPhase::Running;
                ServerAction::Wait
            },
            ServerEvent::Incoming { open } => {
                if open {
                    self.setups = self.setups + 1;
                    ServerAction::Accept
                } else {
                    self.stop(true, Ok(()))
                }
            },
        }
    }
}

/// What a client waits for.
#[derive(Debug, Clone, Copy, PartialEq, Eq, Structural)]
pub enum ClientWait {
    /// Nobody takes new connections any more.
    ReceiverClosed,
    /// A session ended.
    Session,
    /// The mailbox has room for a connection.
    Permit,
    /// A setup ended.
    Setup,
    /// A request to dial, or the end of requests.
    Request,
}

/// What a client has seen.
#[derive(Debug)]
pub enum ClientEvent<R, P> {
    /// Nobody takes new connections any more.
    ReceiverClosed,
    /// A session ended.
    SessionEnded,
    /// The mailbox has room for a connection, or was closed.
    Permit { granted: bool },
    /// A setup ended, with the connection of a number or without.
    SetupEnded(Option<(P, u64)>),
    /// A request to dial, or the end of requests.
    Request(Option<R>),
}

/// What a client does.
#[derive(Debug)]
pub enum ClientAction<R, P> {
    /// Wait for the next event.
    Wait,
    /// Start the setup of the requested connection under number `c_id`.
    Dial { request: R, c_id: u64 },
    /// Start the session of the connection, and put its handle into the
    /// mailbox.
    Publish { prepared: P, c_id: u64 },
    /// Stop with `result`. All setups end; if `detach`, the sessions go on.
    Stop { detach: bool, result: Result<(), KernelError> },
}

/// How a client goes on.
#[derive(Debug)]
pub enum ClientNext {
    /// There is nothing left to do: stop, and let the sessions go on.
    Stop,
    /// Wait for the first of these that is ready.
    Wait(Vec<ClientWait>),
}

/// The model of a [`ClientKernel`].
pub struct ClientState<P> {
    /// The number of the next connection.
    pub next_c_id: u64,
    /// How many setups are running.
    pub setups: int,
    /// How many sessions are running.
    pub sessions: int,
    /// The connection that waits for room in the mailbox, and its number.
    pub pending: Option<(P, u64)>,
    /// Whether the end of requests was seen.
    pub requests_closed: bool,
    pub phase: KernelPhase,
}

impl<P> ClientState<P> {
    /// A client that has just begun to run.
    pub open spec fn initial(next_c_id: u64) -> ClientState<P> {
        ClientState {
            next_c_id,
            setups: 0,
            sessions: 0,
            pending: None,
            requests_closed: false,
            phase: KernelPhase::Running,
        }
    }

    /// The number of connections waiting for room in the mailbox.
    pub open spec fn waiting(self) -> int {
        if self.pending is Some {
            1
        } else {
            0
        }
    }

    /// What every client keeps.
    pub open spec fn wf(self) -> bool {
        &&& 0 <= self.setups <= MAX_PENDING_SETUPS
        &&& 0 <= self.sessions
        &&& self.sessions + self.setups + self.waiting() <= self.next_c_id
    }

    /// Whether everything that was asked for was dealt with and nothing more
    /// can be asked for, or the client was stopped.
    pub open spec fn finished(self) -> bool {
        self.requests_closed && self.setups == 0 && self.pending is None || !(self.phase is Running)
    }

    /// What the client waits for, in the order in which it counts.
    pub open spec fn waits(self) -> Seq<ClientWait> {
        seq![ClientWait::ReceiverClosed] + optional(self.sessions > 0, ClientWait::Session)
            + optional(self.pending is Some, ClientWait::Permit) + optional(
            self.setups > 0 && self.pending is None,
            ClientWait::Setup,
        ) + optional(
            !self.requests_closed && self.setups < MAX_PENDING_SETUPS,
            ClientWait::Request,
        )
    }

    /// Whether the client can see `event`.
    pub open spec fn expects<R>(self, event: ClientEvent<R, P>) -> bool {
        &&& self.phase is Running
        &&& match event {
            ClientEvent::ReceiverClosed => true,
            ClientEvent::SessionEnded => self.sessions > 0,
            ClientEvent::Permit { .. } => self.pending is Some,
            ClientEvent::SetupEnded(_) => self.setups > 0 && self.pending is None,
            ClientEvent::Request(_) => !self.requests_closed && self.setups < MAX_PENDING_SETUPS,
        }
    }

    /// The client stops.
    pub open spec fn stop<R>(self, detach: bool, result: Result<(), KernelError>) -> (
        ClientState<P>,
        ClientAction<R, P>,
    ) {
        (
            ClientState { phase: KernelPhase::Stopped, ..self },
            ClientAction::Stop { detach, result },
        )
    }

    /// What `event` makes of the client.
    pub open spec fn step<R>(self, event: ClientEvent<R, P>) -> (
        ClientState<P>,
        ClientAction<R, P>,
    ) {
        match event {
            ClientEvent::ReceiverClosed => self.stop(true, Ok(())),
            ClientEvent::SessionEnded => (
                ClientState { sessions: self.sessions - 1, ..self },
                ClientAction::Wait,
            ),
            ClientEvent::Permit { granted } => if granted {
                let (prepared, c_id) = self.pending->0;
                (
                    ClientState { pending: None, sessions: self.sessions + 1, ..self },
                    ClientAction::Publish { prepared, c_id },
                )
            } else {
                self.stop(true, Ok(()))
            },
            ClientEvent::SetupEnded(ended) => (
                ClientState { setups: self.setups - 1, pending: ended, ..self },
                ClientAction::Wait,
            ),
            ClientEvent::Request(None) => (
                ClientState { requests_closed: true, ..self },
                ClientAction::Wait,
            ),
            ClientEvent::Request(Some(request)) => if self.next_c_id == u64::MAX {
                self.stop(false, Err(KernelError::IdsExhausted))
            } else {
                (
                    ClientState {
                        next_c_id: (self.next_c_id + 1) as u64,
                        setups: self.setups + 1,
                        ..self
                    },
                    ClientAction::Dial { request, c_id: self.next_c_id },
                )
            },
        }
    }
}

/// One run of a client.
///
/// As long as [`ClientKernel::next`] says to wait, wait for the first that is
/// ready, hand it to [`ClientKernel::run`], and do what that says, until it
/// says to stop.
#[derive(Debug)]
pub struct ClientKernel<P> {
    next_c_id: u64,
    setups: usize,
    sessions: u64,
    pending: Option<(P, u64)>,
    requests_closed: bool,
    phase: KernelPhase,
}

impl<P> View for ClientKernel<P> {
    type V = ClientState<P>;

    closed spec fn view(&self) -> ClientState<P> {
        ClientState {
            next_c_id: self.next_c_id,
            setups: self.setups as int,
            sessions: self.sessions as int,
            pending: self.pending,
            requests_closed: self.requests_closed,
            phase: self.phase,
        }
    }
}

impl<P> ClientKernel<P> {
    /// A run whose first connection gets number `next_c_id`.
    pub fn new(next_c_id: u64) -> (kernel: Self)
        ensures
            kernel@ == ClientState::<P>::initial(next_c_id),
            kernel@.wf(),
    {
        ClientKernel {
            next_c_id,
            setups: 0,
            sessions: 0,
            pending: None,
            requests_closed: false,
            phase: KernelPhase::Running,
        }
    }

    /// The number that the next connection gets.
    pub fn next_c_id(&self) -> (id: u64)
        ensures
            id == self@.next_c_id,
    {
        self.next_c_id
    }

    /// Whether to stop, or what to wait for, the first that is ready in this
    /// order counting.
    pub fn next(&self) -> (next: ClientNext)
        ensures
            next is Stop <==> self@.finished(),
            next matches ClientNext::Wait(waits) ==> waits@ == self@.waits(),
    {
        match self.phase {
            KernelPhase::Running => {},
            _ => {
                return ClientNext::Stop;
            },
        }
        if self.requests_closed && self.setups == 0 && self.pending.is_none() {
            return ClientNext::Stop;
        }
        let mut waits: Vec<ClientWait> = Vec::new();
        waits.push(ClientWait::ReceiverClosed);
        if self.sessions > 0 {
            waits.push(ClientWait::Session);
        }
        if self.pending.is_some() {
            waits.push(ClientWait::Permit);
        }
        if self.setups > 0 && self.pending.is_none() {
            waits.push(ClientWait::Setup);
        }
        if !self.requests_closed && self.setups < MAX_PENDING_SETUPS {
            waits.push(ClientWait::Request);
        }
        assert(waits@ =~= self@.waits());
        ClientNext::Wait(waits)
    }

    fn stop<R>(&mut self, detach: bool, result: Result<(), KernelError>) -> (action: ClientAction<
        R,
        P,
    >)
        ensures
            (final(self)@, action) == old(self)@.stop::<R>(detach, result),
    {
        self.phase = KernelPhase::Stopped;
        ClientAction::Stop { detach, result }
    }

    /// Takes an event and says what to do about it.
    pub fn run<R>(&mut self, event: ClientEvent<R, P>) -> (action: ClientAction<R, P>)
        requires
            old(self)@.wf(),
            old(self)@.expects(event),
        ensures
            final(self)@.wf(),
            (final(self)@, action) == old(self)@.step(event),
    {
        match event {
            ClientEvent::ReceiverClosed => self.stop(true, Ok(())),
            ClientEvent::SessionEnded => {
                self.sessions = self.sessions - 1;
                ClientAction::Wait
            },
            ClientEvent::Permit { granted } => {
                if granted {
                    match self.pending.take() {
                        Some((prepared, c_id)) => {
                            self.sessions = self.sessions + 1;
                            ClientAction::Publish { prepared, c_id }
                        },
                        None => ClientAction::Wait,
                    }
                } else {
                    self.stop(true, Ok(()))
                }
            },
            ClientEvent::SetupEnded(ended) => {
                self.setups = self.setups - 1;
                self.pending = ended;
                ClientAction::Wait
            },
            ClientEvent::Request(None) => {
                self.requests_closed = true;
                ClientAction::Wait
            },
            ClientEvent::Request(Some(request)) => {
                let c_id: u64 = self.next_c_id;
                match c_id.checked_add(1) {
                    None => self.stop(false, Err(KernelError::IdsExhausted)),
                    Some(next) => {
                        self.next_c_id = next;
                        self.setups = self.setups + 1;
                        ClientAction::Dial { request, c_id }
                    },
                }
            },
        }
    }
}

/// A server after `events`, the first connection having number `first`; `None`
/// where it could not have seen them.
pub open spec fn server_after<P, H>(first: u64, events: Seq<ServerEvent<P, H>>) -> Option<
    ServerState<H>,
>
    decreases events.len(),
{
    if events.len() == 0 {
        Some(ServerState::initial(first))
    } else {
        match server_after(first, events.drop_last()) {
            Some(state) => if state.expects(events.last()) {
                Some(state.step(events.last()).0)
            } else {
                None
            },
            None => None,
        }
    }
}

/// The numbers under which the server started connections, in order.
pub open spec fn server_numbers<P, H>(first: u64, events: Seq<ServerEvent<P, H>>) -> Seq<u64>
    decreases events.len(),
{
    if events.len() == 0 {
        Seq::empty()
    } else {
        let before = server_numbers(first, events.drop_last());
        match server_after(first, events.drop_last()) {
            Some(state) => match state.step(events.last()).1 {
                ServerAction::Start { c_id, .. } => before.push(c_id),
                _ => before,
            },
            None => before,
        }
    }
}

/// The handles of the connections that were started, in order.
pub open spec fn server_handles<P, H>(events: Seq<ServerEvent<P, H>>) -> Seq<H>
    decreases events.len(),
{
    if events.len() == 0 {
        Seq::empty()
    } else {
        let before = server_handles(events.drop_last());
        match events.last() {
            ServerEvent::Started(handle) => before.push(handle),
            _ => before,
        }
    }
}

/// The handles that the server put into the mailbox, in order.
pub open spec fn server_published<P, H>(first: u64, events: Seq<ServerEvent<P, H>>) -> Seq<H>
    decreases events.len(),
{
    if events.len() == 0 {
        Seq::empty()
    } else {
        let before = server_published(first, events.drop_last());
        match server_after(first, events.drop_last()) {
            Some(state) => match state.step(events.last()).1 {
                ServerAction::Publish(handle) => before.push(handle),
                _ => before,
            },
            None => before,
        }
    }
}

/// `item`, if there is one.
pub open spec fn held<A>(item: Option<A>) -> Seq<A> {
    match item {
        Some(item) => seq![item],
        None => Seq::empty(),
    }
}

/// Whatever a server sees, it numbers its connections without gaps in the order
/// in which they were set up, and hands every one of them to the application,
/// once and in that order; at most one of them waits. It never runs more
/// setups than it may.
pub proof fn law_server_numbers_and_publishes_in_order<P, H>(
    first: u64,
    events: Seq<ServerEvent<P, H>>,
)
    requires
        server_after(first, events) is Some,
    ensures
        ({
            let state = server_after(first, events)->0;
            let numbers = server_numbers(first, events);
            let handles = server_handles(events);
            &&& state.wf()
            &&& state.next_c_id == first + numbers.len()
            &&& forall|i: int| 0 <= i < numbers.len() ==> #[trigger] numbers[i] == first + i
            &&& handles == server_published(first, events) + held(state.pending)
            &&& numbers.len() == handles.len() + if state.phase is Starting {
                1int
            } else {
                0
            }
        }),
    decreases events.len(),
{
    if events.len() > 0 {
        let before = events.drop_last();
        law_server_numbers_and_publishes_in_order(first, before);
        let state = server_after(first, before)->0;
        let event = events.last();
        let (next, action) = state.step(event);
        let handles = server_handles(before);
        let published = server_published(first, before);
        match event {
            ServerEvent::Started(handle) => {
                assert(state.pending is None);
                assert(handles =~= published);
                assert(handles.push(handle) =~= published + seq![handle]);
            },
            ServerEvent::Permit { granted } => {
                if granted {
                    assert(published.push(state.pending->0) =~= handles);
                    assert(handles + Seq::<H>::empty() =~= handles);
                }
            },
            _ => {},
        }
    }
}

/// What the server does after `events`. Before it has seen anything, it waits.
pub open spec fn server_action<P, H>(first: u64, events: Seq<ServerEvent<P, H>>) -> ServerAction<
    P,
    H,
> {
    if events.len() == 0 {
        ServerAction::Wait
    } else {
        server_after(first, events.drop_last())->0.step(events.last()).1
    }
}

/// The number of incoming connections that the server saw.
pub open spec fn server_incoming<P, H>(events: Seq<ServerEvent<P, H>>) -> nat
    decreases events.len(),
{
    if events.len() == 0 {
        0
    } else {
        let before = server_incoming(events.drop_last());
        match events.last() {
            ServerEvent::Incoming { open: true } => before + 1,
            _ => before,
        }
    }
}

/// The number of connections whose setup the server started.
pub open spec fn server_accepted<P, H>(first: u64, events: Seq<ServerEvent<P, H>>) -> nat
    decreases events.len(),
{
    if events.len() == 0 {
        0
    } else {
        server_accepted(first, events.drop_last()) + if server_action(first, events) is Accept {
            1nat
        } else {
            0
        }
    }
}

/// The number of setups that ended, with a connection or without.
pub open spec fn server_setups_ended<P, H>(events: Seq<ServerEvent<P, H>>) -> nat
    decreases events.len(),
{
    if events.len() == 0 {
        0
    } else {
        server_setups_ended(events.drop_last()) + if events.last() is SetupEnded {
            1nat
        } else {
            0
        }
    }
}

/// The connections that were set up, in order.
pub open spec fn server_set_up<P, H>(events: Seq<ServerEvent<P, H>>) -> Seq<P>
    decreases events.len(),
{
    if events.len() == 0 {
        Seq::empty()
    } else {
        let before = server_set_up(events.drop_last());
        match events.last() {
            ServerEvent::SetupEnded(Some(prepared)) => before.push(prepared),
            _ => before,
        }
    }
}

/// The connections whose session the server started, in order, each with the
/// number that it got.
pub open spec fn server_started<P, H>(first: u64, events: Seq<ServerEvent<P, H>>) -> Seq<(P, u64)>
    decreases events.len(),
{
    if events.len() == 0 {
        Seq::empty()
    } else {
        let before = server_started(first, events.drop_last());
        match server_action(first, events) {
            ServerAction::Start { prepared, c_id } => before.push((prepared, c_id)),
            _ => before,
        }
    }
}

/// The number of sessions that ended.
pub open spec fn server_sessions_ended<P, H>(events: Seq<ServerEvent<P, H>>) -> nat
    decreases events.len(),
{
    if events.len() == 0 {
        0
    } else {
        server_sessions_ended(events.drop_last()) + if events.last() is SessionEnded {
            1nat
        } else {
            0
        }
    }
}

/// Every connection that comes in is set up, however many others are being set
/// up, and every connection that was set up gets a session under the next
/// number; only when the numbers have run out the last one does not. What runs
/// is what was started and has not ended.
pub proof fn law_server_takes_in_every_connection<P, H>(
    first: u64,
    events: Seq<ServerEvent<P, H>>,
)
    requires
        server_after(first, events) is Some,
    ensures
        ({
            let state = server_after(first, events)->0;
            let started = server_started(first, events);
            let set_up = server_set_up(events);
            let exhausted = state.phase is Stopped && events.last() is SetupEnded;
            &&& server_accepted(first, events) == server_incoming(events)
            &&& state.setups == server_accepted(first, events) - server_setups_ended(events)
            &&& state.sessions == started.len() - server_sessions_ended(events)
            &&& started.len() == server_numbers(first, events).len()
            &&& forall|i: int|
                0 <= i < started.len() ==> #[trigger] started[i] == (set_up[i], (first + i) as u64)
            &&& set_up.len() == started.len() + if exhausted {
                1int
            } else {
                0
            }
            &&& exhausted ==> first + started.len() == u64::MAX
        }),
    decreases events.len(),
{
    law_server_numbers_and_publishes_in_order(first, events);
    if events.len() > 0 {
        let before = events.drop_last();
        law_server_takes_in_every_connection(first, before);
        law_server_numbers_and_publishes_in_order(first, before);
    }
}

/// How a server goes on, told by what it does.
///
/// It starts a setup exactly when a connection comes in, a session exactly when
/// a setup ended with a connection and a number is left, and hands a connection
/// over exactly when the mailbox has room. It stops exactly when it is told to,
/// the endpoint was closed, nobody takes connections any more, or no number is
/// left; the first two are no errors, the others are told apart. Its endpoint
/// is closed unless the numbers ran out.
pub proof fn law_server_goes_on_until_it_stops<P, H>(
    state: ServerState<H>,
    event: ServerEvent<P, H>,
)
    requires
        state.expects(event),
    ensures
        ({
            let (next, action) = state.step(event);
            let refused = event is ReceiverClosed || event == ServerEvent::<P, H>::Permit {
                granted: false,
            };
            let told = event is CancelRun || event == ServerEvent::<P, H>::Incoming { open: false };
            let set_up = event matches ServerEvent::SetupEnded(Some(_));
            let exhausted = set_up && state.next_c_id == u64::MAX;
            &&& action is Accept <==> event == ServerEvent::<P, H>::Incoming { open: true }
            &&& action is Start <==> set_up && !exhausted
            &&& action matches ServerAction::Start { prepared, c_id } ==> event
                == ServerEvent::<P, H>::SetupEnded(Some(prepared)) && c_id == state.next_c_id
                && next.next_c_id == c_id + 1
            &&& action is Publish <==> event == ServerEvent::<P, H>::Permit { granted: true }
            &&& action matches ServerAction::Publish(handle) ==> state.pending == Some(handle)
                && next.pending is None
            &&& action is Stop <==> refused || told || exhausted
            &&& action matches ServerAction::Stop { close, result } ==> {
                &&& close <==> !exhausted
                &&& result is Ok <==> told
                &&& result == Err::<(), KernelError>(KernelError::ReceiverClosed) <==> refused
                &&& result == Err::<(), KernelError>(KernelError::IdsExhausted) <==> exhausted
            }
            &&& next.phase is Stopped <==> action is Stop
            &&& next.phase is Starting <==> action is Start
            &&& !(action is Start) ==> next.next_c_id == state.next_c_id
            &&& event matches ServerEvent::Started(handle) ==> next.pending == Some(handle)
        }),
{
}

/// The place of a wait among those of a server: what comes first counts first.
pub open spec fn server_rank(wait: ServerWait) -> int {
    match wait {
        ServerWait::CancelRun => 0,
        ServerWait::ReceiverClosed => 1,
        ServerWait::Session => 2,
        ServerWait::Permit => 3,
        ServerWait::Setup => 4,
        ServerWait::Incoming => 5,
    }
}

/// A running server always waits to be told to stop and for the end of the
/// mailbox, for a session if one is running, for room if a connection waits for
/// it, for a setup if one is running and no connection waits, and for a
/// connection if it may run another setup: for each once, and in this order. A
/// server that does not run waits for nothing; it takes the handle of a
/// connection exactly while that is being started.
pub proof fn law_server_waits_in_order<P, H>(state: ServerState<H>)
    ensures
        forall|handle: H| #[trigger]
            state.expects(ServerEvent::<P, H>::Started(handle)) <==> state.phase is Starting,
        ({
            let waits = state.waits();
            let running = state.phase is Running;
            &&& waits.contains(ServerWait::CancelRun) <==> running
            &&& waits.contains(ServerWait::ReceiverClosed) <==> running
            &&& waits.contains(ServerWait::Session) <==> running && state.sessions > 0
            &&& waits.contains(ServerWait::Permit) <==> running && state.pending is Some
            &&& waits.contains(ServerWait::Setup) <==> running && state.setups > 0
                && state.pending is None
            &&& waits.contains(ServerWait::Incoming) <==> running && state.setups
                < MAX_PENDING_SETUPS
            &&& forall|i: int, j: int|
                0 <= i < j < waits.len() ==> server_rank(#[trigger] waits[i]) < server_rank(
                    #[trigger] waits[j],
                )
        }),
{
    if state.phase is Running {
        let first = seq![ServerWait::CancelRun, ServerWait::ReceiverClosed];
        let a = state.sessions > 0;
        let b = state.pending is Some;
        let c = state.setups > 0 && state.pending is None;
        let d = state.setups < MAX_PENDING_SETUPS;
        let second = first + optional(a, ServerWait::Session);
        let third = second + optional(b, ServerWait::Permit);
        let fourth = third + optional(c, ServerWait::Setup);
        assert forall|wanted: ServerWait|
            #[trigger] first.contains(wanted) <==> wanted is CancelRun || wanted is
                ReceiverClosed by {
            assert(first[0] == ServerWait::CancelRun && first[1] == ServerWait::ReceiverClosed);
        }
        assert forall|wanted: ServerWait| #[trigger] state.waits().contains(wanted) <==> {
            ||| first.contains(wanted)
            ||| a && wanted == ServerWait::Session
            ||| b && wanted == ServerWait::Permit
            ||| c && wanted == ServerWait::Setup
            ||| d && wanted == ServerWait::Incoming
        } by {
            lemma_optional_contains(first, a, ServerWait::Session, wanted);
            lemma_optional_contains(second, b, ServerWait::Permit, wanted);
            lemma_optional_contains(third, c, ServerWait::Setup, wanted);
            lemma_optional_contains(fourth, d, ServerWait::Incoming, wanted);
        }
    }
}

/// Whether every handle that a server was given carries the number under which
/// its connection was started, `number` telling the number of a handle.
pub open spec fn handles_carry_numbers<P, H>(
    first: u64,
    events: Seq<ServerEvent<P, H>>,
    number: spec_fn(H) -> u64,
) -> bool
    decreases events.len(),
{
    events.len() > 0 ==> {
        let before = events.drop_last();
        &&& handles_carry_numbers(first, before, number)
        &&& events.last() matches ServerEvent::Started(handle) ==> server_numbers(
            first,
            before,
        ).len() > 0 && number(handle) == server_numbers(first, before).last()
    }
}

/// The connections that a server hands to the application are numbered one
/// after the other from `first` on, so no two have the same number.
pub proof fn law_server_handles_are_numbered_in_order<P, H>(
    first: u64,
    events: Seq<ServerEvent<P, H>>,
    number: spec_fn(H) -> u64,
)
    requires
        server_after(first, events) is Some,
        handles_carry_numbers(first, events, number),
    ensures
        forall|i: int|
            0 <= i < server_handles(events).len() ==> number(#[trigger] server_handles(events)[i])
                == first + i,
        forall|i: int|
            0 <= i < server_published(first, events).len() ==> number(
                #[trigger] server_published(first, events)[i],
            ) == first + i,
    decreases events.len(),
{
    law_server_numbers_and_publishes_in_order(first, events);
    if events.len() > 0 {
        let before = events.drop_last();
        law_server_numbers_and_publishes_in_order(first, before);
        law_server_handles_are_numbered_in_order(first, before, number);
    }
    let published = server_published(first, events);
    assert forall|i: int| 0 <= i < published.len() implies number(#[trigger] published[i]) == first
        + i by {
        assert(server_handles(events)[i] == published[i]);
    }
}

/// The number of the next connection never goes down.
pub proof fn law_numbers_never_go_down<R, P, H>(
    server: ServerState<H>,
    seen_by_server: ServerEvent<P, H>,
    client: ClientState<P>,
    seen_by_client: ClientEvent<R, P>,
)
    ensures
        server.step(seen_by_server).0.next_c_id >= server.next_c_id,
        client.step(seen_by_client).0.next_c_id >= client.next_c_id,
{
}

/// A server can always be stopped: whenever it waits, it looks first whether it
/// is told to stop, whatever is pending and however full the mailbox is, and it
/// then closes its endpoint and ends without an error.
pub proof fn law_server_can_always_be_stopped<P, H>(state: ServerState<H>)
    requires
        state.phase is Running,
    ensures
        state.waits().len() > 0,
        state.waits()[0] == ServerWait::CancelRun,
        state.expects(ServerEvent::<P, H>::CancelRun),
        state.step(ServerEvent::<P, H>::CancelRun).1 == (ServerAction::<P, H>::Stop {
            close: true,
            result: Ok(()),
        }),
{
}

/// What a server waited for when it saw `event`; the handle of a connection is
/// not waited for.
pub open spec fn server_wait<P, H>(event: ServerEvent<P, H>) -> Option<ServerWait> {
    match event {
        ServerEvent::CancelRun => Some(ServerWait::CancelRun),
        ServerEvent::ReceiverClosed => Some(ServerWait::ReceiverClosed),
        ServerEvent::SessionEnded => Some(ServerWait::Session),
        ServerEvent::Permit { .. } => Some(ServerWait::Permit),
        ServerEvent::SetupEnded(_) => Some(ServerWait::Setup),
        ServerEvent::Started(_) => None,
        ServerEvent::Incoming { .. } => Some(ServerWait::Incoming),
    }
}

/// What a client waited for when it saw `event`.
pub open spec fn client_wait<R, P>(event: ClientEvent<R, P>) -> ClientWait {
    match event {
        ClientEvent::ReceiverClosed => ClientWait::ReceiverClosed,
        ClientEvent::SessionEnded => ClientWait::Session,
        ClientEvent::Permit { .. } => ClientWait::Permit,
        ClientEvent::SetupEnded(_) => ClientWait::Setup,
        ClientEvent::Request(_) => ClientWait::Request,
    }
}

proof fn lemma_optional_contains<A>(items: Seq<A>, present: bool, item: A, wanted: A)
    ensures
        (items + optional(present, item)).contains(wanted) <==> items.contains(wanted) || present
            && wanted == item,
{
    let all = items + optional(present, item);
    if items.contains(wanted) {
        let i = choose|i: int| 0 <= i < items.len() && items[i] == wanted;
        assert(all[i] == wanted);
    }
    if present {
        assert(all[items.len() as int] == item);
    }
    if all.contains(wanted) {
        let i = choose|i: int| 0 <= i < all.len() && all[i] == wanted;
        if i < items.len() {
            assert(items[i] == wanted);
        }
    }
}

/// A server can see exactly the events that it says to wait for.
pub proof fn law_server_expects_what_it_waits_for<P, H>(
    server: ServerState<H>,
    event: ServerEvent<P, H>,
)
    requires
        server_wait(event) is Some,
    ensures
        server.expects(event) <==> server.waits().contains(server_wait(event)->0),
{
    if server.phase is Running {
        let wanted = server_wait(event)->0;
        let first = seq![ServerWait::CancelRun, ServerWait::ReceiverClosed];
        assert(first.contains(wanted) <==> wanted is CancelRun || wanted is ReceiverClosed) by {
            assert(first[0] == ServerWait::CancelRun && first[1] == ServerWait::ReceiverClosed);
        }
        let second = first + optional(server.sessions > 0, ServerWait::Session);
        let third = second + optional(server.pending is Some, ServerWait::Permit);
        let setup = server.setups > 0 && server.pending is None;
        let fourth = third + optional(setup, ServerWait::Setup);
        lemma_optional_contains(first, server.sessions > 0, ServerWait::Session, wanted);
        lemma_optional_contains(second, server.pending is Some, ServerWait::Permit, wanted);
        lemma_optional_contains(third, setup, ServerWait::Setup, wanted);
        lemma_optional_contains(
            fourth,
            server.setups < MAX_PENDING_SETUPS,
            ServerWait::Incoming,
            wanted,
        );
    }
}

/// A client can see exactly the events that it says to wait for.
pub proof fn law_client_expects_what_it_waits_for<R, P>(
    client: ClientState<P>,
    event: ClientEvent<R, P>,
)
    requires
        client.phase is Running,
    ensures
        client.expects(event) <==> client.waits().contains(client_wait(event)),
{
    let wanted = client_wait(event);
    let first = seq![ClientWait::ReceiverClosed];
    assert(first.contains(wanted) <==> wanted is ReceiverClosed) by {
        assert(first[0] == ClientWait::ReceiverClosed);
    }
    let second = first + optional(client.sessions > 0, ClientWait::Session);
    let third = second + optional(client.pending is Some, ClientWait::Permit);
    let setup = client.setups > 0 && client.pending is None;
    let fourth = third + optional(setup, ClientWait::Setup);
    lemma_optional_contains(first, client.sessions > 0, ClientWait::Session, wanted);
    lemma_optional_contains(second, client.pending is Some, ClientWait::Permit, wanted);
    lemma_optional_contains(third, setup, ClientWait::Setup, wanted);
    lemma_optional_contains(
        fourth,
        !client.requests_closed && client.setups < MAX_PENDING_SETUPS,
        ClientWait::Request,
        wanted,
    );
}

/// One connection does not stand in the way of another: a setup that fails
/// changes nothing but the number of setups, and while setups are stuck or a
/// connection waits for room, a kernel takes in the next one as long as it
/// runs fewer setups than it may.
pub proof fn law_setups_are_independent<R, P, H>(server: ServerState<H>, client: ClientState<P>)
    requires
        server.phase is Running,
        client.phase is Running,
    ensures
        server.step(ServerEvent::<P, H>::SetupEnded(None)) == (
            ServerState { setups: server.setups - 1, ..server },
            ServerAction::<P, H>::Wait,
        ),
        client.pending is None ==> client.step(ClientEvent::<R, P>::SetupEnded(None)) == (
            ClientState { setups: client.setups - 1, ..client },
            ClientAction::<R, P>::Wait,
        ),
        server.setups < MAX_PENDING_SETUPS <==> server.waits().contains(ServerWait::Incoming),
        !client.requests_closed && client.setups < MAX_PENDING_SETUPS
            <==> client.waits().contains(ClientWait::Request),
{
    law_server_expects_what_it_waits_for(server, ServerEvent::<P, H>::Incoming { open: true });
    law_client_expects_what_it_waits_for(client, ClientEvent::<R, P>::Request(None));
}

/// A client after `events`, the first connection having number `first`; `None`
/// where it could not have seen them.
pub open spec fn client_after<R, P>(first: u64, events: Seq<ClientEvent<R, P>>) -> Option<
    ClientState<P>,
>
    decreases events.len(),
{
    if events.len() == 0 {
        Some(ClientState::initial(first))
    } else {
        match client_after(first, events.drop_last()) {
            Some(state) => if state.expects(events.last()) {
                Some(state.step(events.last()).0)
            } else {
                None
            },
            None => None,
        }
    }
}

/// The requests that the client dialed, in order, each with its number.
pub open spec fn client_dialed<R, P>(first: u64, events: Seq<ClientEvent<R, P>>) -> Seq<(R, u64)>
    decreases events.len(),
{
    if events.len() == 0 {
        Seq::empty()
    } else {
        let before = client_dialed(first, events.drop_last());
        match client_after(first, events.drop_last()) {
            Some(state) => match state.step(events.last()).1 {
                ClientAction::Dial { request, c_id } => before.push((request, c_id)),
                _ => before,
            },
            None => before,
        }
    }
}

/// The requests that the client saw, in order.
pub open spec fn client_requests<R, P>(events: Seq<ClientEvent<R, P>>) -> Seq<R>
    decreases events.len(),
{
    if events.len() == 0 {
        Seq::empty()
    } else {
        let before = client_requests(events.drop_last());
        match events.last() {
            ClientEvent::Request(Some(request)) => before.push(request),
            _ => before,
        }
    }
}

/// The connections that were set up, in order, each with its number.
pub open spec fn client_set_up<R, P>(events: Seq<ClientEvent<R, P>>) -> Seq<(P, u64)>
    decreases events.len(),
{
    if events.len() == 0 {
        Seq::empty()
    } else {
        let before = client_set_up(events.drop_last());
        match events.last() {
            ClientEvent::SetupEnded(Some(ended)) => before.push(ended),
            _ => before,
        }
    }
}

/// The connections that the client handed to the application, in order.
pub open spec fn client_published<R, P>(first: u64, events: Seq<ClientEvent<R, P>>) -> Seq<
    (P, u64),
>
    decreases events.len(),
{
    if events.len() == 0 {
        Seq::empty()
    } else {
        let before = client_published(first, events.drop_last());
        match client_after(first, events.drop_last()) {
            Some(state) => match state.step(events.last()).1 {
                ClientAction::Publish { prepared, c_id } => before.push((prepared, c_id)),
                _ => before,
            },
            None => before,
        }
    }
}

/// Whatever a client sees, it numbers the requests without gaps in the order in
/// which they came, and hands every connection that was set up to the
/// application, under its own number, once and in the order in which they were
/// set up; at most one of them waits. Only what was handed over has a session.
pub proof fn law_client_numbers_and_publishes_in_order<R, P>(
    first: u64,
    events: Seq<ClientEvent<R, P>>,
)
    requires
        client_after(first, events) is Some,
    ensures
        ({
            let state = client_after(first, events)->0;
            let dialed = client_dialed(first, events);
            let requests = client_requests(events);
            &&& state.wf()
            &&& state.next_c_id == first + dialed.len()
            &&& dialed.len() <= requests.len()
            &&& state.phase is Running ==> dialed.len() == requests.len()
            &&& forall|i: int|
                0 <= i < dialed.len() ==> #[trigger] dialed[i] == (requests[i], (first + i) as u64)
            &&& client_set_up(events) == client_published(first, events) + held(state.pending)
            &&& state.sessions <= client_published(first, events).len()
        }),
    decreases events.len(),
{
    if events.len() > 0 {
        let before = events.drop_last();
        law_client_numbers_and_publishes_in_order(first, before);
        let state = client_after(first, before)->0;
        let event = events.last();
        let set_up = client_set_up(before);
        let published = client_published(first, before);
        match event {
            ClientEvent::SetupEnded(Some(ended)) => {
                assert(set_up =~= published);
                assert(set_up.push(ended) =~= published + seq![ended]);
            },
            ClientEvent::SetupEnded(None) => {
                assert(state.pending is None);
            },
            ClientEvent::Permit { granted } => {
                if granted {
                    let (prepared, c_id) = state.pending->0;
                    assert(published.push((prepared, c_id)) =~= set_up);
                    assert(set_up + Seq::<(P, u64)>::empty() =~= set_up);
                }
            },
            _ => {},
        }
    }
}

/// The number of setups that ended, with a connection or without.
pub open spec fn client_setups_ended<R, P>(events: Seq<ClientEvent<R, P>>) -> nat
    decreases events.len(),
{
    if events.len() == 0 {
        0
    } else {
        client_setups_ended(events.drop_last()) + if events.last() is SetupEnded {
            1nat
        } else {
            0
        }
    }
}

/// The number of sessions that ended.
pub open spec fn client_sessions_ended<R, P>(events: Seq<ClientEvent<R, P>>) -> nat
    decreases events.len(),
{
    if events.len() == 0 {
        0
    } else {
        client_sessions_ended(events.drop_last()) + if events.last() is SessionEnded {
            1nat
        } else {
            0
        }
    }
}

/// Whether the client saw the end of requests.
pub open spec fn saw_last_request<R, P>(events: Seq<ClientEvent<R, P>>) -> bool {
    exists|i: int|
        0 <= i < events.len() && #[trigger] events[i] == ClientEvent::<R, P>::Request(None)
}

/// What a client runs is what it started and has not ended: a setup for each
/// request that it dialed, a session for each connection that it handed over.
proof fn lemma_client_counts<R, P>(first: u64, events: Seq<ClientEvent<R, P>>)
    requires
        client_after(first, events) is Some,
    ensures
        ({
            let state = client_after(first, events)->0;
            &&& state.setups == client_dialed(first, events).len() - client_setups_ended(events)
            &&& state.sessions == client_published(first, events).len() - client_sessions_ended(
                events,
            )
            &&& state.requests_closed <==> saw_last_request(events)
        }),
    decreases events.len(),
{
    if events.len() > 0 {
        let before = events.drop_last();
        let n = before.len() as int;
        lemma_client_counts(first, before);
        assert(events[n] == events.last());
        assert(forall|i: int| 0 <= i < n ==> before[i] == events[i]);
        if saw_last_request(events) && !saw_last_request(before) {
            let i = choose|i: int|
                0 <= i < events.len() && #[trigger] events[i] == ClientEvent::<R, P>::Request(None);
            assert(i == n);
        }
        if saw_last_request(before) {
            let i = choose|i: int|
                0 <= i < n && #[trigger] before[i] == ClientEvent::<R, P>::Request(None);
            assert(events[i] == ClientEvent::<R, P>::Request(None));
        }
    }
}

/// A client ends only when all is dealt with. As long as it runs, it is to stop
/// if and only if it saw the end of requests, every dial has ended, and every
/// connection that was set up was handed over. A client that has stopped is to
/// do nothing more.
pub proof fn law_client_deals_with_every_request<R, P>(
    first: u64,
    events: Seq<ClientEvent<R, P>>,
)
    requires
        client_after(first, events) is Some,
    ensures
        ({
            let state = client_after(first, events)->0;
            let requests = client_requests(events);
            let all_ended = client_setups_ended(events) == requests.len();
            let all_handed_over = client_published(first, events) == client_set_up(events);
            &&& state.phase is Running ==> (state.finished() <==> saw_last_request(events)
                && all_ended && all_handed_over)
            &&& !(state.phase is Running) ==> state.finished()
            &&& state.setups == client_dialed(first, events).len() - client_setups_ended(events)
            &&& state.sessions == client_published(first, events).len() - client_sessions_ended(
                events,
            )
            &&& state.requests_closed <==> saw_last_request(events)
        }),
{
    law_client_numbers_and_publishes_in_order(first, events);
    lemma_client_counts(first, events);
    let state = client_after(first, events)->0;
    let published = client_published(first, events);
    assert(state.pending is None ==> published + held(state.pending) =~= published);
    assert(state.pending is Some ==> (published + held(state.pending)).len() == published.len()
        + 1);
}

/// How a client goes on, told by what it does.
///
/// It dials exactly when it gets a request and a number is left, and hands a
/// connection over exactly when the mailbox has room. It stops exactly when
/// nobody takes connections any more or no number is left.
pub proof fn law_client_goes_on_until_it_stops<R, P>(
    state: ClientState<P>,
    event: ClientEvent<R, P>,
)
    requires
        state.expects(event),
    ensures
        ({
            let (next, action) = state.step(event);
            let refused = event is ReceiverClosed || event == ClientEvent::<R, P>::Permit {
                granted: false,
            };
            let asked = event matches ClientEvent::Request(Some(_));
            let exhausted = asked && state.next_c_id == u64::MAX;
            &&& action is Dial <==> asked && !exhausted
            &&& action matches ClientAction::Dial { request, c_id } ==> event == ClientEvent::<
                R,
                P,
            >::Request(Some(request)) && c_id == state.next_c_id && next.next_c_id == c_id + 1
            &&& action is Publish <==> event == ClientEvent::<R, P>::Permit { granted: true }
            &&& action matches ClientAction::Publish { prepared, c_id } ==> state.pending == Some(
                (prepared, c_id),
            ) && next.pending is None
            &&& action is Stop <==> refused || exhausted
            &&& action matches ClientAction::Stop { detach, result } ==> {
                &&& detach <==> refused
                &&& result is Ok <==> refused
                &&& result == Err::<(), KernelError>(KernelError::IdsExhausted) <==> exhausted
            }
            &&& next.phase is Stopped <==> action is Stop
            &&& !(action is Dial) ==> next.next_c_id == state.next_c_id
            &&& event matches ClientEvent::SetupEnded(ended) ==> next.pending == ended
        }),
{
}

/// The place of a wait among those of a client: what comes first counts first.
pub open spec fn client_rank(wait: ClientWait) -> int {
    match wait {
        ClientWait::ReceiverClosed => 0,
        ClientWait::Session => 1,
        ClientWait::Permit => 2,
        ClientWait::Setup => 3,
        ClientWait::Request => 4,
    }
}

/// A client always waits for the end of the mailbox, for a session if one is
/// running, for room if a connection waits for it, for a setup if one is running
/// and no connection waits, and for a request if more may come and it may run
/// another setup: for each once, and in this order.
pub proof fn law_client_waits_in_order<P>(state: ClientState<P>)
    ensures
        ({
            let waits = state.waits();
            &&& waits.contains(ClientWait::ReceiverClosed)
            &&& waits.contains(ClientWait::Session) <==> state.sessions > 0
            &&& waits.contains(ClientWait::Permit) <==> state.pending is Some
            &&& waits.contains(ClientWait::Setup) <==> state.setups > 0 && state.pending is None
            &&& waits.contains(ClientWait::Request) <==> !state.requests_closed && state.setups
                < MAX_PENDING_SETUPS
            &&& forall|i: int, j: int|
                0 <= i < j < waits.len() ==> client_rank(#[trigger] waits[i]) < client_rank(
                    #[trigger] waits[j],
                )
        }),
{
    let first = seq![ClientWait::ReceiverClosed];
    let a = state.sessions > 0;
    let b = state.pending is Some;
    let c = state.setups > 0 && state.pending is None;
    let d = !state.requests_closed && state.setups < MAX_PENDING_SETUPS;
    let second = first + optional(a, ClientWait::Session);
    let third = second + optional(b, ClientWait::Permit);
    let fourth = third + optional(c, ClientWait::Setup);
    assert forall|wanted: ClientWait|
        #[trigger] first.contains(wanted) <==> wanted is ReceiverClosed by {
        assert(first[0] == ClientWait::ReceiverClosed);
    }
    assert forall|wanted: ClientWait| #[trigger] state.waits().contains(wanted) <==> {
        ||| first.contains(wanted)
        ||| a && wanted == ClientWait::Session
        ||| b && wanted == ClientWait::Permit
        ||| c && wanted == ClientWait::Setup
        ||| d && wanted == ClientWait::Request
    } by {
        lemma_optional_contains(first, a, ClientWait::Session, wanted);
        lemma_optional_contains(second, b, ClientWait::Permit, wanted);
        lemma_optional_contains(third, c, ClientWait::Setup, wanted);
        lemma_optional_contains(fourth, d, ClientWait::Request, wanted);
    }
}

/// Whether every connection that was set up was reported under a number that had
/// been dialed, and under none that was reported before.
pub open spec fn reports_what_was_dialed<R, P>(first: u64, events: Seq<ClientEvent<R, P>>) -> bool
    decreases events.len(),
{
    events.len() > 0 ==> {
        let before = events.drop_last();
        &&& reports_what_was_dialed(first, before)
        &&& events.last() matches ClientEvent::SetupEnded(Some(ended)) ==> {
            &&& was_dialed(first, before, ended.1)
            &&& forall|i: int|
                0 <= i < client_set_up(before).len() ==> (#[trigger] client_set_up(before)[i]).1
                    != ended.1
        }
    }
}

/// Whether the client dialed a request under number `c_id`.
pub open spec fn was_dialed<R, P>(first: u64, events: Seq<ClientEvent<R, P>>, c_id: u64) -> bool {
    exists|i: int|
        0 <= i < client_dialed(first, events).len() && (#[trigger] client_dialed(
            first,
            events,
        )[i]).1 == c_id
}

/// The connections that a client hands to the application have numbers of their
/// own: each has the number of the request that was dialed under it, counted
/// from `first` in the order of the requests and whether or not other requests
/// succeeded, and no two have the same number.
pub proof fn law_client_connections_keep_their_numbers<R, P>(
    first: u64,
    events: Seq<ClientEvent<R, P>>,
)
    requires
        client_after(first, events) is Some,
        reports_what_was_dialed(first, events),
    ensures
        ({
            let state = client_after(first, events)->0;
            let published = client_published(first, events);
            let dialed = client_dialed(first, events);
            let requests = client_requests(events);
            &&& forall|i: int|
                #![trigger published[i]]
                0 <= i < published.len() ==> {
                    let c_id = published[i].1;
                    let k = c_id - first;
                    &&& first <= c_id < state.next_c_id
                    &&& k < requests.len()
                    &&& dialed[k] == (requests[k], c_id)
                }
            &&& forall|i: int, j: int|
                0 <= i < j < published.len() ==> (#[trigger] published[i]).1 != (
                #[trigger] published[j]).1
        }),
{
    law_client_numbers_and_publishes_in_order(first, events);
    lemma_set_up_numbers(first, events);
    let published = client_published(first, events);
    let set_up = client_set_up(events);
    let dialed = client_dialed(first, events);
    assert forall|i: int| 0 <= i < published.len() implies #[trigger] published[i]
        == set_up[i] by {}
    assert forall|i: int| #![trigger published[i]] 0 <= i < published.len() implies {
        let c_id = published[i].1;
        let k = c_id - first;
        &&& first <= c_id < client_after(first, events)->0.next_c_id
        &&& k < client_requests(events).len()
        &&& dialed[k] == (client_requests(events)[k], c_id)
    } by {
        assert(published[i] == set_up[i]);
        let k = choose|k: int| 0 <= k < dialed.len() && (#[trigger] dialed[k]).1 == set_up[i].1;
        assert(dialed[k] == (client_requests(events)[k], (first + k) as u64));
    }
    assert forall|i: int, j: int| 0 <= i < j < published.len() implies (#[trigger] published[i]).1
        != (#[trigger] published[j]).1 by {
        assert(published[i] == set_up[i] && published[j] == set_up[j]);
    }
}

proof fn lemma_set_up_numbers<R, P>(first: u64, events: Seq<ClientEvent<R, P>>)
    requires
        client_after(first, events) is Some,
        reports_what_was_dialed(first, events),
    ensures
        forall|i: int|
            0 <= i < client_set_up(events).len() ==> was_dialed(
                first,
                events,
                (#[trigger] client_set_up(events)[i]).1,
            ),
        forall|i: int, j: int|
            0 <= i < j < client_set_up(events).len() ==> (#[trigger] client_set_up(events)[i]).1
                != (#[trigger] client_set_up(events)[j]).1,
    decreases events.len(),
{
    if events.len() > 0 {
        let before = events.drop_last();
        lemma_set_up_numbers(first, before);
        let was = client_dialed(first, before);
        let now = client_dialed(first, events);
        assert(was.len() <= now.len());
        assert forall|c_id: u64| was_dialed(first, before, c_id) implies #[trigger] was_dialed(
            first,
            events,
            c_id,
        ) by {
            let i = choose|i: int| 0 <= i < was.len() && (#[trigger] was[i]).1 == c_id;
            assert(now[i] == was[i]);
        }
        let set_up = client_set_up(events);
        assert forall|i: int| 0 <= i < set_up.len() implies was_dialed(
            first,
            events,
            (#[trigger] set_up[i]).1,
        ) by {
            if i < client_set_up(before).len() {
                assert(set_up[i] == client_set_up(before)[i]);
            }
            assert(was_dialed(first, before, set_up[i].1));
        }
    }
}

/// The sessions of a client outlive it: however it stops but for want of
/// numbers, it stops without an error and its sessions go on.
pub proof fn law_client_sessions_outlive_it<R, P>(
    state: ClientState<P>,
    event: ClientEvent<R, P>,
)
    requires
        state.expects(event),
    ensures
        state.step(event).1 matches ClientAction::Stop { detach, result } ==> {
            let exhausted = event is Request && state.next_c_id == u64::MAX;
            &&& detach == !exhausted
            &&& result == if exhausted {
                Err::<(), KernelError>(KernelError::IdsExhausted)
            } else {
                Ok(())
            }
        },
{
}

} // verus!
