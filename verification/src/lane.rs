//! The two directions of a lane.
//!
//! [`RxLane`] turns the frames of a stream into messages for a mailbox, and
//! [`TxLane`] the messages of a mailbox into frames on a stream. Each takes the
//! next item only when it is done with the last one, so a full mailbox or a
//! blocked stream holds everything back and loses nothing.

use vstd::prelude::*;

use crate::codec;
use crate::error::TransportError;
use crate::wire;
use crate::wire::{FrameReader, MAX_MESSAGE_BYTES};

verus! {

/// The code with which the receiving end of a lane stops a stream that it does
/// not want any more. To the sending end it is a normal end.
pub const STOP_CODE: u64 = 0;

/// A reader for the next frame of a lane, of at most [`MAX_MESSAGE_BYTES`].
pub fn frame_reader() -> (reader: FrameReader)
    ensures
        reader.wf(),
        reader@ == (wire::FrameReaderView {
            limit: MAX_MESSAGE_BYTES,
            state: wire::FrameState::Start,
        }),
{
    FrameReader::new(MAX_MESSAGE_BYTES)
}

/// Where a receiving lane stands.
#[derive(Debug, Clone, Copy, PartialEq, Eq, Structural)]
pub enum RxPhase {
    /// It waits for a frame.
    Reading,
    /// Its frame is at the codec.
    Decoding,
    /// It waits for room in the mailbox.
    Delivering,
    /// It has ended.
    Done,
}

/// What a receiving lane waits for.
#[derive(Debug, Clone, Copy, PartialEq, Eq, Structural)]
pub enum RxWait {
    /// The connection is cancelled.
    Cancelled,
    /// Nobody takes messages out of the mailbox any more.
    OutputClosed,
    /// A frame was read.
    Frame,
    /// The mailbox took the message or refused it.
    Delivered,
}

/// What a receiving lane has seen.
#[derive(Debug)]
pub enum RxEvent<T> {
    /// The connection is cancelled.
    Cancelled,
    /// Nobody takes messages out of the mailbox any more.
    OutputClosed,
    /// Reading a frame came to this.
    Frame(Result<Option<Vec<u8>>, TransportError>),
    /// The codec made this of the frame.
    Decoded(Result<T, String>),
    /// The mailbox took the message, or was closed.
    Delivered { taken: bool },
}

/// What a receiving lane does.
#[derive(Debug)]
pub enum RxAction<T> {
    /// Read a frame with a [`frame_reader`].
    Read,
    /// Hand the body to the codec.
    Decode(Vec<u8>),
    /// Put the message into the mailbox.
    Deliver(T),
    /// End with `result`; if `stop` holds a code, stop the stream with it first.
    End { stop: Option<u64>, result: Result<(), TransportError> },
}

/// The model of an [`RxEvent`].
pub enum RxInput<T> {
    Cancelled,
    OutputClosed,
    Frame(Result<Option<Seq<u8>>, TransportError>),
    Decoded(Result<T, String>),
    Delivered { taken: bool },
}

/// The model of an [`RxAction`].
pub enum RxOutput<T> {
    Read,
    Decode(Seq<u8>),
    Deliver(T),
    End { stop: Option<u64>, result: Result<(), TransportError> },
}

impl<T> View for RxEvent<T> {
    type V = RxInput<T>;

    open spec fn view(&self) -> RxInput<T> {
        match self {
            RxEvent::Cancelled => RxInput::Cancelled,
            RxEvent::OutputClosed => RxInput::OutputClosed,
            RxEvent::Frame(result) => RxInput::Frame(wire::frame_result_view(*result)),
            RxEvent::Decoded(result) => RxInput::Decoded(*result),
            RxEvent::Delivered { taken } => RxInput::Delivered { taken: *taken },
        }
    }
}

impl<T> View for RxAction<T> {
    type V = RxOutput<T>;

    open spec fn view(&self) -> RxOutput<T> {
        match self {
            RxAction::Read => RxOutput::Read,
            RxAction::Decode(body) => RxOutput::Decode(body@),
            RxAction::Deliver(message) => RxOutput::Deliver(*message),
            RxAction::End { stop, result } => RxOutput::End { stop: *stop, result: *result },
        }
    }
}

/// What a lane in `phase` waits for, in the order in which it counts.
pub open spec fn rx_waits(phase: RxPhase) -> Seq<RxWait> {
    match phase {
        RxPhase::Reading => seq![RxWait::Cancelled, RxWait::OutputClosed, RxWait::Frame],
        RxPhase::Delivering => seq![RxWait::Cancelled, RxWait::Delivered],
        _ => Seq::empty(),
    }
}

/// Whether a lane in `phase` can see `input`.
pub open spec fn rx_expects<T>(phase: RxPhase, input: RxInput<T>) -> bool {
    match (phase, input) {
        (RxPhase::Reading, RxInput::Cancelled) => true,
        (RxPhase::Reading, RxInput::OutputClosed) => true,
        (RxPhase::Reading, RxInput::Frame(_)) => true,
        (RxPhase::Decoding, RxInput::Decoded(_)) => true,
        (RxPhase::Delivering, RxInput::Cancelled) => true,
        (RxPhase::Delivering, RxInput::Delivered { .. }) => true,
        _ => false,
    }
}

/// The lane ends with `result`.
pub open spec fn rx_end<T>(stop: Option<u64>, result: Result<(), TransportError>) -> (
    RxPhase,
    RxOutput<T>,
) {
    (RxPhase::Done, RxOutput::End { stop, result })
}

/// What `input` makes of a lane in `phase`.
pub open spec fn rx_step<T>(phase: RxPhase, input: RxInput<T>) -> (RxPhase, RxOutput<T>) {
    match input {
        RxInput::Cancelled => rx_end(None, Ok(())),
        RxInput::OutputClosed => rx_end(Some(STOP_CODE), Ok(())),
        RxInput::Frame(Err(e)) => rx_end(None, Err(e)),
        RxInput::Frame(Ok(None)) => rx_end(None, Ok(())),
        RxInput::Frame(Ok(Some(body))) => if body.len() > MAX_MESSAGE_BYTES {
            rx_end(None, Err(TransportError::MessageTooLarge))
        } else {
            (RxPhase::Decoding, RxOutput::Decode(body))
        },
        RxInput::Decoded(Err(e)) => rx_end(None, Err(TransportError::InvalidFrame(e))),
        RxInput::Decoded(Ok(message)) => (RxPhase::Delivering, RxOutput::Deliver(message)),
        RxInput::Delivered { taken: true } => (RxPhase::Reading, RxOutput::Read),
        RxInput::Delivered { taken: false } => rx_end(Some(STOP_CODE), Ok(())),
    }
}

/// The receiving direction of a lane. It begins with reading a frame.
#[derive(Debug)]
pub struct RxLane {
    phase: RxPhase,
}

impl View for RxLane {
    type V = RxPhase;

    closed spec fn view(&self) -> RxPhase {
        self.phase
    }
}

impl RxLane {
    /// A lane that has not read anything.
    pub fn new() -> (lane: RxLane)
        ensures
            lane@ == RxPhase::Reading,
    {
        RxLane { phase: RxPhase::Reading }
    }

    /// What to wait for, the first that is ready in this order counting.
    pub fn waits(&self) -> (waits: Vec<RxWait>)
        ensures
            waits@ == rx_waits(self@),
    {
        let mut waits: Vec<RxWait> = Vec::new();
        match self.phase {
            RxPhase::Reading => {
                waits.push(RxWait::Cancelled);
                waits.push(RxWait::OutputClosed);
                waits.push(RxWait::Frame);
            },
            RxPhase::Delivering => {
                waits.push(RxWait::Cancelled);
                waits.push(RxWait::Delivered);
            },
            _ => {},
        }
        assert(waits@ =~= rx_waits(self.phase));
        waits
    }

    /// Takes an event and says what to do about it.
    pub fn run_rx<T>(&mut self, event: RxEvent<T>) -> (action: RxAction<T>)
        requires
            rx_expects(old(self)@, event@),
        ensures
            (final(self)@, action@) == rx_step(old(self)@, event@),
    {
        match event {
            RxEvent::Cancelled => {
                self.phase = RxPhase::Done;
                RxAction::End { stop: None, result: Ok(()) }
            },
            RxEvent::OutputClosed => {
                self.phase = RxPhase::Done;
                RxAction::End { stop: Some(STOP_CODE), result: Ok(()) }
            },
            RxEvent::Frame(Err(e)) => {
                self.phase = RxPhase::Done;
                RxAction::End { stop: None, result: Err(e) }
            },
            RxEvent::Frame(Ok(None)) => {
                self.phase = RxPhase::Done;
                RxAction::End { stop: None, result: Ok(()) }
            },
            RxEvent::Frame(Ok(Some(body))) => {
                match codec::check_body(body.len()) {
                    Err(e) => {
                        self.phase = RxPhase::Done;
                        RxAction::End { stop: None, result: Err(e) }
                    },
                    Ok(()) => {
                        self.phase = RxPhase::Decoding;
                        RxAction::Decode(body)
                    },
                }
            },
            RxEvent::Decoded(decoded) => {
                match codec::decode(decoded) {
                    Err(e) => {
                        self.phase = RxPhase::Done;
                        RxAction::End { stop: None, result: Err(e) }
                    },
                    Ok(message) => {
                        self.phase = RxPhase::Delivering;
                        RxAction::Deliver(message)
                    },
                }
            },
            RxEvent::Delivered { taken } => {
                if taken {
                    self.phase = RxPhase::Reading;
                    RxAction::Read
                } else {
                    self.phase = RxPhase::Done;
                    RxAction::End { stop: Some(STOP_CODE), result: Ok(()) }
                }
            },
        }
    }
}

/// Where a sending lane stands.
#[derive(Debug, Clone, Copy, PartialEq, Eq, Structural)]
pub enum TxPhase {
    /// It waits for a message.
    Waiting,
    /// Its message is at the codec.
    Encoding,
    /// Its frame is being written.
    Writing,
    /// It has ended.
    Done,
}

/// What a sending lane waits for.
#[derive(Debug, Clone, Copy, PartialEq, Eq, Structural)]
pub enum TxWait {
    /// The connection is cancelled.
    Cancelled,
    /// The stream was stopped or lost.
    Stopped,
    /// A message came out of the mailbox, or none will.
    Message,
    /// The frame was written, or cannot be.
    Written,
}

/// How a stream came to its end while nothing was being written to it.
#[derive(Debug)]
pub enum StopNotice {
    /// The peer has all of it.
    Acknowledged,
    /// The peer stopped it with `code`; `shown` is the notice as a text.
    Stopped { code: u64, shown: String },
    /// It was lost with its connection.
    Lost(String),
}

/// Why a write failed.
#[derive(Debug)]
pub enum WriteFault {
    /// The peer stopped the stream with `code`; `shown` is the error as a text.
    Stopped { code: u64, shown: String },
    /// Anything else.
    Other(String),
}

/// What a sending lane has seen.
#[derive(Debug)]
pub enum TxEvent<M> {
    /// The connection is cancelled.
    Cancelled,
    /// The stream came to its end.
    Stopped(StopNotice),
    /// A message came out of the mailbox, or the mailbox is closed and empty.
    Message(Option<M>),
    /// The codec made this of the message.
    Encoded(Result<Vec<u8>, String>),
    /// Writing the frame came to this.
    Written(Result<(), WriteFault>),
}

/// What a sending lane does.
#[derive(Debug)]
pub enum TxAction<M> {
    /// Take a message out of the mailbox.
    Take,
    /// Hand the message to the codec.
    Encode(M),
    /// Write the header, then the body, to the stream.
    Write { header: [u8; 4], body: Vec<u8> },
    /// End with `result`; if `finish`, finish the stream first.
    End { finish: bool, result: Result<(), TransportError> },
}

/// The model of a [`TxEvent`].
pub enum TxInput<M> {
    Cancelled,
    Stopped(StopNotice),
    Message(Option<M>),
    Encoded(Result<Seq<u8>, String>),
    Written(Result<(), WriteFault>),
}

/// The model of a [`TxAction`]: what is written is one run of bytes.
pub enum TxOutput<M> {
    Take,
    Encode(M),
    Write(Seq<u8>),
    End { finish: bool, result: Result<(), TransportError> },
}

impl<M> View for TxEvent<M> {
    type V = TxInput<M>;

    open spec fn view(&self) -> TxInput<M> {
        match self {
            TxEvent::Cancelled => TxInput::Cancelled,
            TxEvent::Stopped(notice) => TxInput::Stopped(*notice),
            TxEvent::Message(message) => TxInput::Message(*message),
            TxEvent::Encoded(Ok(body)) => TxInput::Encoded(Ok(body@)),
            TxEvent::Encoded(Err(e)) => TxInput::Encoded(Err(*e)),
            TxEvent::Written(result) => TxInput::Written(*result),
        }
    }
}

impl<M> View for TxAction<M> {
    type V = TxOutput<M>;

    open spec fn view(&self) -> TxOutput<M> {
        match self {
            TxAction::Take => TxOutput::Take,
            TxAction::Encode(message) => TxOutput::Encode(*message),
            TxAction::Write { header, body } => TxOutput::Write(header@ + body@),
            TxAction::End { finish, result } => TxOutput::End {
                finish: *finish,
                result: *result,
            },
        }
    }
}

/// Whether a write failed only because the peer no longer wants the stream.
pub open spec fn stopped_normally_spec(fault: WriteFault) -> bool {
    fault matches WriteFault::Stopped { code, .. } && code == STOP_CODE
}

/// Whether a write failed only because the peer no longer wants the stream:
/// it stopped the stream with [`STOP_CODE`].
pub fn stopped_normally(fault: &WriteFault) -> (normal: bool)
    ensures
        normal == stopped_normally_spec(*fault),
{
    match fault {
        WriteFault::Stopped { code, .. } => *code == STOP_CODE,
        WriteFault::Other(_) => false,
    }
}

/// The text of a write error.
pub open spec fn fault_text(fault: WriteFault) -> String {
    match fault {
        WriteFault::Stopped { shown, .. } => shown,
        WriteFault::Other(e) => e,
    }
}

/// What a lane in `phase` waits for, in the order in which it counts.
pub open spec fn tx_waits(phase: TxPhase) -> Seq<TxWait> {
    match phase {
        TxPhase::Waiting => seq![TxWait::Cancelled, TxWait::Stopped, TxWait::Message],
        TxPhase::Writing => seq![TxWait::Cancelled, TxWait::Written],
        _ => Seq::empty(),
    }
}

/// Whether a lane in `phase` can see `input`.
pub open spec fn tx_expects<M>(phase: TxPhase, input: TxInput<M>) -> bool {
    match (phase, input) {
        (TxPhase::Waiting, TxInput::Cancelled) => true,
        (TxPhase::Waiting, TxInput::Stopped(_)) => true,
        (TxPhase::Waiting, TxInput::Message(_)) => true,
        (TxPhase::Encoding, TxInput::Encoded(_)) => true,
        (TxPhase::Writing, TxInput::Cancelled) => true,
        (TxPhase::Writing, TxInput::Written(_)) => true,
        _ => false,
    }
}

/// The lane ends with `result`.
pub open spec fn tx_end<M>(finish: bool, result: Result<(), TransportError>) -> (
    TxPhase,
    TxOutput<M>,
) {
    (TxPhase::Done, TxOutput::End { finish, result })
}

/// What `input` makes of a lane in `phase`.
pub open spec fn tx_step<M>(phase: TxPhase, input: TxInput<M>) -> (TxPhase, TxOutput<M>) {
    match input {
        TxInput::Cancelled => tx_end(false, Ok(())),
        TxInput::Stopped(StopNotice::Acknowledged) => tx_end(false, Ok(())),
        TxInput::Stopped(StopNotice::Stopped { code, shown }) => if code == STOP_CODE {
            tx_end(false, Ok(()))
        } else {
            tx_end(false, Err(TransportError::SendStopped(shown)))
        },
        TxInput::Stopped(StopNotice::Lost(e)) => tx_end(
            false,
            Err(TransportError::SendStopped(e)),
        ),
        TxInput::Message(None) => tx_end(true, Ok(())),
        TxInput::Message(Some(message)) => (TxPhase::Encoding, TxOutput::Encode(message)),
        TxInput::Encoded(Err(e)) => tx_end(false, Err(TransportError::Encode(e))),
        TxInput::Encoded(Ok(body)) => if body.len() > MAX_MESSAGE_BYTES {
            tx_end(false, Err(TransportError::MessageTooLarge))
        } else {
            (TxPhase::Writing, TxOutput::Write(wire::frame(body)))
        },
        TxInput::Written(Ok(())) => (TxPhase::Waiting, TxOutput::Take),
        TxInput::Written(Err(fault)) => if stopped_normally_spec(fault) {
            tx_end(false, Ok(()))
        } else {
            tx_end(false, Err(TransportError::Write(fault_text(fault))))
        },
    }
}

/// The sending direction of a lane. It begins with taking a message.
#[derive(Debug)]
pub struct TxLane {
    phase: TxPhase,
}

impl View for TxLane {
    type V = TxPhase;

    closed spec fn view(&self) -> TxPhase {
        self.phase
    }
}

impl TxLane {
    /// A lane that has not sent anything.
    pub fn new() -> (lane: TxLane)
        ensures
            lane@ == TxPhase::Waiting,
    {
        TxLane { phase: TxPhase::Waiting }
    }

    /// What to wait for, the first that is ready in this order counting.
    pub fn waits(&self) -> (waits: Vec<TxWait>)
        ensures
            waits@ == tx_waits(self@),
    {
        let mut waits: Vec<TxWait> = Vec::new();
        match self.phase {
            TxPhase::Waiting => {
                waits.push(TxWait::Cancelled);
                waits.push(TxWait::Stopped);
                waits.push(TxWait::Message);
            },
            TxPhase::Writing => {
                waits.push(TxWait::Cancelled);
                waits.push(TxWait::Written);
            },
            _ => {},
        }
        assert(waits@ =~= tx_waits(self.phase));
        waits
    }

    /// Takes an event and says what to do about it.
    pub fn run_tx<M>(&mut self, event: TxEvent<M>) -> (action: TxAction<M>)
        requires
            tx_expects(old(self)@, event@),
        ensures
            (final(self)@, action@) == tx_step(old(self)@, event@),
    {
        match event {
            TxEvent::Cancelled => {
                self.phase = TxPhase::Done;
                TxAction::End { finish: false, result: Ok(()) }
            },
            TxEvent::Stopped(notice) => {
                self.phase = TxPhase::Done;
                match notice {
                    StopNotice::Acknowledged => TxAction::End { finish: false, result: Ok(()) },
                    StopNotice::Stopped { code, shown } => if code == STOP_CODE {
                        TxAction::End { finish: false, result: Ok(()) }
                    } else {
                        TxAction::End {
                            finish: false,
                            result: Err(TransportError::SendStopped(shown)),
                        }
                    },
                    StopNotice::Lost(e) => TxAction::End {
                        finish: false,
                        result: Err(TransportError::SendStopped(e)),
                    },
                }
            },
            TxEvent::Message(None) => {
                self.phase = TxPhase::Done;
                TxAction::End { finish: true, result: Ok(()) }
            },
            TxEvent::Message(Some(message)) => {
                self.phase = TxPhase::Encoding;
                TxAction::Encode(message)
            },
            TxEvent::Encoded(serialized) => {
                match codec::encode(serialized) {
                    Err(e) => {
                        self.phase = TxPhase::Done;
                        TxAction::End { finish: false, result: Err(e) }
                    },
                    Ok(body) => {
                        self.phase = TxPhase::Writing;
                        let header = wire::header(body.len());
                        TxAction::Write { header, body }
                    },
                }
            },
            TxEvent::Written(Ok(())) => {
                self.phase = TxPhase::Waiting;
                TxAction::Take
            },
            TxEvent::Written(Err(fault)) => {
                self.phase = TxPhase::Done;
                if stopped_normally(&fault) {
                    TxAction::End { finish: false, result: Ok(()) }
                } else {
                    match fault {
                        WriteFault::Stopped { shown, .. } => TxAction::End {
                            finish: false,
                            result: Err(TransportError::Write(shown)),
                        },
                        WriteFault::Other(e) => TxAction::End {
                            finish: false,
                            result: Err(TransportError::Write(e)),
                        },
                    }
                }
            },
        }
    }
}

/// The phase of a receiving lane after `inputs`; `None` where it could not
/// have seen them.
pub open spec fn rx_phase<T>(inputs: Seq<RxInput<T>>) -> Option<RxPhase>
    decreases inputs.len(),
{
    if inputs.len() == 0 {
        Some(RxPhase::Reading)
    } else {
        match rx_phase(inputs.drop_last()) {
            Some(phase) => if rx_expects(phase, inputs.last()) {
                Some(rx_step(phase, inputs.last()).0)
            } else {
                None
            },
            None => None,
        }
    }
}

/// What a receiving lane does after `inputs`. Before it has seen anything, it
/// reads.
pub open spec fn rx_output<T>(inputs: Seq<RxInput<T>>) -> RxOutput<T> {
    if inputs.len() == 0 {
        RxOutput::Read
    } else {
        rx_step(rx_phase(inputs.drop_last())->0, inputs.last()).1
    }
}

/// The bodies of the frames that were read and are within the limit, in order.
pub open spec fn rx_bodies<T>(inputs: Seq<RxInput<T>>) -> Seq<Seq<u8>>
    decreases inputs.len(),
{
    if inputs.len() == 0 {
        Seq::empty()
    } else {
        let before = rx_bodies(inputs.drop_last());
        match inputs.last() {
            RxInput::Frame(Ok(Some(body))) => if body.len() <= MAX_MESSAGE_BYTES {
                before.push(body)
            } else {
                before
            },
            _ => before,
        }
    }
}

/// The bodies that the lane handed to the codec: those in its `Decode` actions,
/// in order.
pub open spec fn rx_decoding<T>(inputs: Seq<RxInput<T>>) -> Seq<Seq<u8>>
    decreases inputs.len(),
{
    if inputs.len() == 0 {
        Seq::empty()
    } else {
        let before = rx_decoding(inputs.drop_last());
        match rx_output(inputs) {
            RxOutput::Decode(body) => before.push(body),
            _ => before,
        }
    }
}

/// The messages that the codec answered with, in order.
pub open spec fn rx_decoded<T>(inputs: Seq<RxInput<T>>) -> Seq<T>
    decreases inputs.len(),
{
    if inputs.len() == 0 {
        Seq::empty()
    } else {
        let before = rx_decoded(inputs.drop_last());
        match inputs.last() {
            RxInput::Decoded(Ok(message)) => before.push(message),
            _ => before,
        }
    }
}

/// The messages that were offered to the mailbox: those in the lane's `Deliver`
/// actions, in order.
pub open spec fn rx_messages<T>(inputs: Seq<RxInput<T>>) -> Seq<T>
    decreases inputs.len(),
{
    if inputs.len() == 0 {
        Seq::empty()
    } else {
        let before = rx_messages(inputs.drop_last());
        match rx_output(inputs) {
            RxOutput::Deliver(message) => before.push(message),
            _ => before,
        }
    }
}

/// The messages that the mailbox took, in order: whenever it took one, the last
/// that was offered to it.
pub open spec fn rx_taken<T>(inputs: Seq<RxInput<T>>) -> Seq<T>
    decreases inputs.len(),
{
    if inputs.len() == 0 {
        Seq::empty()
    } else {
        let before = rx_taken(inputs.drop_last());
        match inputs.last() {
            RxInput::Delivered { taken: true } => before.push(
                rx_messages(inputs.drop_last()).last(),
            ),
            _ => before,
        }
    }
}

/// A receiving lane passes on what it gets: the bodies that it hands to the
/// codec are those of the frames that it read, and the messages that it offers
/// to the mailbox are those that the codec answered with; each unchanged, once
/// and in order.
pub proof fn law_receiving_passes_on_what_it_gets<T>(inputs: Seq<RxInput<T>>)
    requires
        rx_phase(inputs) is Some,
    ensures
        rx_decoding(inputs) == rx_bodies(inputs),
        rx_messages(inputs) == rx_decoded(inputs),
    decreases inputs.len(),
{
    if inputs.len() > 0 {
        law_receiving_passes_on_what_it_gets(inputs.drop_last());
    }
}

/// How a receiving lane goes on, told by what it does.
///
/// It reads on exactly when the mailbox took a message, asks the codec exactly
/// when it got a body within the limit, and offers a message exactly when the
/// codec answered with one; else it ends. It stops its stream exactly when
/// nobody takes messages out of the mailbox any more, which is no error. It
/// ends with an error exactly when a frame could not be read, is over the limit
/// or could not be decoded, and the error tells which and why.
pub proof fn law_receiving_goes_on_until_its_end<T>(phase: RxPhase, input: RxInput<T>)
    requires
        rx_expects(phase, input),
    ensures
        ({
            let output = rx_step(phase, input).1;
            let unwanted = input is OutputClosed || input == RxInput::<T>::Delivered {
                taken: false,
            };
            &&& output is Read <==> input == RxInput::<T>::Delivered { taken: true }
            &&& output is Decode <==> (input matches RxInput::Frame(Ok(Some(body))) && body.len()
                <= MAX_MESSAGE_BYTES)
            &&& output is Deliver <==> (input matches RxInput::Decoded(Ok(_)))
            &&& output matches RxOutput::End { stop, result } ==> {
                &&& stop == if unwanted {
                    Some(STOP_CODE)
                } else {
                    None
                }
                &&& result is Ok <==> unwanted || input is Cancelled || input == RxInput::<
                    T,
                >::Frame(Ok(None))
                &&& result matches Err(error) ==> {
                    ||| input == RxInput::<T>::Frame(Err(error))
                    ||| error is MessageTooLarge && (input matches RxInput::Frame(Ok(Some(body)))
                        && body.len() > MAX_MESSAGE_BYTES)
                    ||| error matches TransportError::InvalidFrame(e) && input == RxInput::<
                        T,
                    >::Decoded(Err(e))
                }
            }
        }),
{
}

/// What a receiving lane waits for fits what it does: when it reads, for
/// cancellation, for the end of the mailbox and for a frame, in this order; when
/// it offers a message, for cancellation and for the mailbox; else for nothing.
pub proof fn law_receiving_waits_for_what_it_does<T>(inputs: Seq<RxInput<T>>)
    requires
        rx_phase(inputs) is Some,
    ensures
        rx_waits(rx_phase(inputs)->0) == match rx_output(inputs) {
            RxOutput::Read => seq![RxWait::Cancelled, RxWait::OutputClosed, RxWait::Frame],
            RxOutput::Deliver(_) => seq![RxWait::Cancelled, RxWait::Delivered],
            _ => Seq::<RxWait>::empty(),
        },
        rx_output(inputs) is Decode <==> rx_phase(inputs)->0 is Decoding,
        rx_output(inputs) is End <==> rx_phase(inputs)->0 is Done,
{
}

/// Backpressure is lossless: as long as a receiving lane has not ended, every
/// frame that it took has become one message, but for the one that is at the
/// codec, and the mailbox has taken every message but the one that is waiting
/// for room, in the order in which they were offered.
/// The next frame is read only when the mailbox has taken them all.
pub proof fn law_receiving_is_lossless<T>(inputs: Seq<RxInput<T>>)
    requires
        rx_phase(inputs) is Some,
    ensures
        rx_taken(inputs).is_prefix_of(rx_messages(inputs)),
        ({
            let bodies = rx_bodies(inputs).len();
            let messages = rx_messages(inputs).len();
            let taken = rx_taken(inputs).len();
            match rx_phase(inputs)->0 {
                RxPhase::Reading => bodies == messages == taken,
                RxPhase::Decoding => bodies == messages + 1 && messages == taken,
                RxPhase::Delivering => bodies == messages == taken + 1,
                RxPhase::Done => taken <= messages <= bodies <= taken + 1,
            }
        }),
    decreases inputs.len(),
{
    if inputs.len() > 0 {
        let before = inputs.drop_last();
        law_receiving_is_lossless(before);
        if inputs.last() is Delivered && rx_messages(before).len() > 0 {
            assert(rx_messages(before) =~= rx_messages(before).drop_last().push(
                rx_messages(before).last(),
            ));
        }
    }
}

/// The phase of a sending lane after `inputs`; `None` where it could not have
/// seen them.
pub open spec fn tx_phase<M>(inputs: Seq<TxInput<M>>) -> Option<TxPhase>
    decreases inputs.len(),
{
    if inputs.len() == 0 {
        Some(TxPhase::Waiting)
    } else {
        match tx_phase(inputs.drop_last()) {
            Some(phase) => if tx_expects(phase, inputs.last()) {
                Some(tx_step(phase, inputs.last()).0)
            } else {
                None
            },
            None => None,
        }
    }
}

/// What a sending lane does after `inputs`. Before it has seen anything, it takes
/// a message.
pub open spec fn tx_output<M>(inputs: Seq<TxInput<M>>) -> TxOutput<M> {
    if inputs.len() == 0 {
        TxOutput::Take
    } else {
        tx_step(tx_phase(inputs.drop_last())->0, inputs.last()).1
    }
}

/// The messages that a sending lane handed to the codec: those in its `Encode`
/// actions, in order.
pub open spec fn tx_encoding<M>(inputs: Seq<TxInput<M>>) -> Seq<M>
    decreases inputs.len(),
{
    if inputs.len() == 0 {
        Seq::empty()
    } else {
        let before = tx_encoding(inputs.drop_last());
        match tx_output(inputs) {
            TxOutput::Encode(message) => before.push(message),
            _ => before,
        }
    }
}

/// The messages that a sending lane took, in order.
pub open spec fn tx_messages<M>(inputs: Seq<TxInput<M>>) -> Seq<M>
    decreases inputs.len(),
{
    if inputs.len() == 0 {
        Seq::empty()
    } else {
        let before = tx_messages(inputs.drop_last());
        match inputs.last() {
            TxInput::Message(Some(message)) => before.push(message),
            _ => before,
        }
    }
}

/// The bodies that the codec made and that were small enough to be sent, in
/// order.
pub open spec fn tx_bodies<M>(inputs: Seq<TxInput<M>>) -> Seq<Seq<u8>>
    decreases inputs.len(),
{
    if inputs.len() == 0 {
        Seq::empty()
    } else {
        let before = tx_bodies(inputs.drop_last());
        match inputs.last() {
            TxInput::Encoded(Ok(body)) => if body.len() <= MAX_MESSAGE_BYTES {
                before.push(body)
            } else {
                before
            },
            _ => before,
        }
    }
}

/// Everything that a sending lane was told to write, in order.
pub open spec fn tx_written<M>(inputs: Seq<TxInput<M>>) -> Seq<u8>
    decreases inputs.len(),
{
    if inputs.len() == 0 {
        Seq::empty()
    } else {
        let before = tx_written(inputs.drop_last());
        match tx_output(inputs) {
            TxOutput::Write(bytes) => before + bytes,
            _ => before,
        }
    }
}

/// A sending lane passes on what it gets: the messages that it hands to the
/// codec are those that it took out of the mailbox, unchanged, once and in
/// order.
pub proof fn law_sending_passes_on_what_it_gets<M>(inputs: Seq<TxInput<M>>)
    requires
        tx_phase(inputs) is Some,
    ensures
        tx_encoding(inputs) == tx_messages(inputs),
    decreases inputs.len(),
{
    if inputs.len() > 0 {
        law_sending_passes_on_what_it_gets(inputs.drop_last());
    }
}

/// How a sending lane goes on, told by what it does.
///
/// It takes the next message exactly when a frame was written, asks the codec
/// exactly when it took a message, and writes exactly when the codec made a
/// body within the limit of it; else it ends. It finishes its stream exactly
/// when no message is left, which is no error. It ends with an error exactly
/// when a message cannot be encoded or is over the limit, or the stream is
/// lost or was stopped with a code other than [`STOP_CODE`], and the error tells
/// which and why.
pub proof fn law_sending_goes_on_until_its_end<M>(phase: TxPhase, input: TxInput<M>)
    requires
        tx_expects(phase, input),
    ensures
        ({
            let output = tx_step(phase, input).1;
            &&& output is Take <==> (input matches TxInput::Written(Ok(_)))
            &&& output is Encode <==> (input matches TxInput::Message(Some(_)))
            &&& output is Write <==> (input matches TxInput::Encoded(Ok(body)) && body.len()
                <= MAX_MESSAGE_BYTES)
            &&& output matches TxOutput::End { finish, result } ==> {
                &&& finish <==> input == TxInput::<M>::Message(None)
                &&& result is Ok <==> {
                    ||| finish
                    ||| input is Cancelled
                    ||| input == TxInput::<M>::Stopped(StopNotice::Acknowledged)
                    ||| input matches TxInput::Stopped(StopNotice::Stopped { code, .. }) && code
                        == STOP_CODE
                    ||| input matches TxInput::Written(Err(WriteFault::Stopped { code, .. }))
                        && code == STOP_CODE
                }
                &&& result matches Err(error) ==> {
                    ||| error matches TransportError::Encode(e) && input == TxInput::<M>::Encoded(
                        Err(e),
                    )
                    ||| error is MessageTooLarge && (input matches TxInput::Encoded(Ok(body))
                        && body.len() > MAX_MESSAGE_BYTES)
                    ||| error matches TransportError::SendStopped(e) && input == TxInput::<
                        M,
                    >::Stopped(StopNotice::Lost(e))
                    ||| error matches TransportError::SendStopped(e) && (input matches
                        TxInput::Stopped(StopNotice::Stopped { shown, .. }) && e == shown)
                    ||| error matches TransportError::Write(e) && input == TxInput::<M>::Written(
                        Err(WriteFault::Other(e)),
                    )
                    ||| error matches TransportError::Write(e) && (input matches TxInput::Written(
                        Err(WriteFault::Stopped { shown, .. }),
                    ) && e == shown)
                }
            }
        }),
{
}

/// What a sending lane waits for fits what it does: when it takes a message, for
/// cancellation, for the end of the stream and for a message, in this order;
/// when it writes, for cancellation and for the stream; else for nothing.
pub proof fn law_sending_waits_for_what_it_does<M>(inputs: Seq<TxInput<M>>)
    requires
        tx_phase(inputs) is Some,
    ensures
        tx_waits(tx_phase(inputs)->0) == match tx_output(inputs) {
            TxOutput::Take => seq![TxWait::Cancelled, TxWait::Stopped, TxWait::Message],
            TxOutput::Write(_) => seq![TxWait::Cancelled, TxWait::Written],
            _ => Seq::<TxWait>::empty(),
        },
        tx_output(inputs) is Encode <==> tx_phase(inputs)->0 is Encoding,
        tx_output(inputs) is End <==> tx_phase(inputs)->0 is Done,
{
}

proof fn lemma_frames_push(bodies: Seq<Seq<u8>>, body: Seq<u8>)
    ensures
        wire::frames(bodies.push(body)) == wire::frames(bodies) + wire::frame(body),
    decreases bodies.len(),
{
    let longer = bodies.push(body);
    if bodies.len() == 0 {
        assert(wire::frames(longer.drop_first()) =~= Seq::empty());
        assert(longer[0] == body);
        assert(wire::frames(longer) =~= wire::frame(body));
        assert(wire::frames(bodies) + wire::frame(body) =~= wire::frame(body));
    } else {
        assert(longer.drop_first() =~= bodies.drop_first().push(body));
        lemma_frames_push(bodies.drop_first(), body);
        assert(wire::frames(longer) =~= wire::frames(bodies) + wire::frame(body));
    }
}

/// What a sending lane writes are the frames of the bodies that the codec made,
/// in order, one for each message that it took but for the one that is at the
/// codec. All frames are small enough for the receiver.
pub proof fn law_sending_is_in_order<M>(inputs: Seq<TxInput<M>>)
    requires
        tx_phase(inputs) is Some,
    ensures
        tx_written(inputs) == wire::frames(tx_bodies(inputs)),
        forall|i: int|
            0 <= i < tx_bodies(inputs).len() ==> (#[trigger] tx_bodies(inputs)[i]).len()
                <= MAX_MESSAGE_BYTES,
        match tx_phase(inputs)->0 {
            TxPhase::Waiting | TxPhase::Writing => tx_bodies(inputs).len() == tx_messages(
                inputs,
            ).len(),
            TxPhase::Encoding => tx_bodies(inputs).len() + 1 == tx_messages(inputs).len(),
            TxPhase::Done => tx_bodies(inputs).len() <= tx_messages(inputs).len()
                <= tx_bodies(inputs).len() + 1,
        },
    decreases inputs.len(),
{
    if inputs.len() > 0 {
        let before = inputs.drop_last();
        law_sending_is_in_order(before);
        match inputs.last() {
            TxInput::Encoded(Ok(body)) => if body.len() <= MAX_MESSAGE_BYTES {
                lemma_frames_push(tx_bodies(before), body);
            },
            _ => {},
        }
    }
}

/// From end to end: what a sending lane writes, a receiving lane reads as the
/// same bodies in the same order, and then finds the stream finished, however
/// the stream cuts it in pieces.
pub proof fn law_lane_carries_bodies_in_order<M>(
    inputs: Seq<TxInput<M>>,
    pieces: Seq<nat>,
    fault: String,
)
    requires
        tx_phase(inputs) is Some,
        pieces.len() == tx_bodies(inputs).len() + 1,
        forall|i: int| 0 <= i < pieces.len() ==> 1 <= #[trigger] pieces[i] <= wire::HEADER_BYTES,
    ensures
        wire::read_frames(tx_written(inputs), MAX_MESSAGE_BYTES, pieces, fault) == tx_bodies(
            inputs,
        ).map_values(
            |body: Seq<u8>| Ok::<Option<Seq<u8>>, TransportError>(Some(body)),
        ).push(Ok::<Option<Seq<u8>>, TransportError>(None)),
{
    law_sending_is_in_order(inputs);
    wire::law_frames_read_in_order(tx_bodies(inputs), MAX_MESSAGE_BYTES, pieces, fault);
}

/// Whether every answer of the codec to a receiving lane is what `decode` makes
/// of the body that it was handed.
pub open spec fn rx_decodes<T>(
    inputs: Seq<RxInput<T>>,
    decode: spec_fn(Seq<u8>) -> Result<T, String>,
) -> bool
    decreases inputs.len(),
{
    inputs.len() > 0 ==> {
        let before = inputs.drop_last();
        &&& rx_decodes(before, decode)
        &&& inputs.last() matches RxInput::Decoded(result) ==> rx_decoding(before).len() > 0
            && result == decode(rx_decoding(before).last())
    }
}

/// What a receiving lane read off its stream, in order.
pub open spec fn rx_frames<T>(inputs: Seq<RxInput<T>>) -> Seq<wire::FrameOutcome>
    decreases inputs.len(),
{
    if inputs.len() == 0 {
        Seq::empty()
    } else {
        let before = rx_frames(inputs.drop_last());
        match inputs.last() {
            RxInput::Frame(outcome) => before.push(outcome),
            _ => before,
        }
    }
}

/// Each message that a receiving lane offers to the mailbox is what the codec
/// made of the frame at the same place in the stream.
pub proof fn law_messages_are_the_frames_decoded<T>(
    inputs: Seq<RxInput<T>>,
    decode: spec_fn(Seq<u8>) -> Result<T, String>,
)
    requires
        rx_phase(inputs) is Some,
        rx_decodes(inputs, decode),
    ensures
        rx_messages(inputs).len() <= rx_bodies(inputs).len() <= rx_frames(inputs).len(),
        !(rx_phase(inputs)->0 is Done) ==> rx_bodies(inputs).len() == rx_frames(inputs).len(),
        forall|i: int|
            0 <= i < rx_messages(inputs).len() ==> decode(rx_bodies(inputs)[i]) == Ok::<T, String>(
                #[trigger] rx_messages(inputs)[i],
            ),
        forall|i: int|
            0 <= i < rx_bodies(inputs).len() ==> rx_frames(inputs)[i] == Ok::<
                Option<Seq<u8>>,
                TransportError,
            >(Some(#[trigger] rx_bodies(inputs)[i])),
    decreases inputs.len(),
{
    law_receiving_is_lossless(inputs);
    law_receiving_passes_on_what_it_gets(inputs);
    if inputs.len() > 0 {
        let before = inputs.drop_last();
        law_receiving_is_lossless(before);
        law_receiving_passes_on_what_it_gets(before);
        law_messages_are_the_frames_decoded(before, decode);
    }
}

/// Whether every answer of the codec to a sending lane is what `encode` makes of
/// the message that it was handed.
pub open spec fn tx_encodes<M>(
    inputs: Seq<TxInput<M>>,
    encode: spec_fn(M) -> Result<Seq<u8>, String>,
) -> bool
    decreases inputs.len(),
{
    inputs.len() > 0 ==> {
        let before = inputs.drop_last();
        &&& tx_encodes(before, encode)
        &&& inputs.last() matches TxInput::Encoded(result) ==> tx_encoding(before).len() > 0
            && result == encode(tx_encoding(before).last())
    }
}

/// Each body that a sending lane writes is what the codec made of the message
/// at the same place in the mailbox.
pub proof fn law_bodies_are_the_messages_encoded<M>(
    inputs: Seq<TxInput<M>>,
    encode: spec_fn(M) -> Result<Seq<u8>, String>,
)
    requires
        tx_phase(inputs) is Some,
        tx_encodes(inputs, encode),
    ensures
        tx_bodies(inputs).len() <= tx_messages(inputs).len(),
        forall|i: int|
            0 <= i < tx_bodies(inputs).len() ==> encode(tx_messages(inputs)[i]) == Ok::<
                Seq<u8>,
                String,
            >(#[trigger] tx_bodies(inputs)[i]),
    decreases inputs.len(),
{
    law_sending_is_in_order(inputs);
    if inputs.len() > 0 {
        let before = inputs.drop_last();
        law_sending_is_in_order(before);
        law_sending_passes_on_what_it_gets(before);
        law_bodies_are_the_messages_encoded(before, encode);
    }
}

/// Whether a receiving lane found its stream finished.
pub open spec fn found_finished<T>(inputs: Seq<RxInput<T>>) -> bool {
    let frames = rx_frames(inputs);
    frames.len() > 0 && frames.last() == Ok::<Option<Seq<u8>>, TransportError>(None)
}

/// A receiving lane that found its stream finished has ended, and all that it
/// read before is in the mailbox.
proof fn lemma_finished_stream<T>(
    inputs: Seq<RxInput<T>>,
    decode: spec_fn(Seq<u8>) -> Result<T, String>,
)
    requires
        rx_phase(inputs) is Some,
        rx_decodes(inputs, decode),
        found_finished(inputs),
    ensures
        rx_phase(inputs)->0 is Done,
        rx_taken(inputs) == rx_messages(inputs),
        rx_messages(inputs).len() + 1 == rx_frames(inputs).len(),
    decreases inputs.len(),
{
    let before = inputs.drop_last();
    if inputs.last() is Frame {
        law_receiving_is_lossless(before);
        law_messages_are_the_frames_decoded(before, decode);
        assert(rx_taken(before) =~= rx_messages(before));
    } else {
        lemma_finished_stream(before, decode);
    }
}

/// Whether a sending lane has finished its stream.
pub open spec fn has_finished<M>(inputs: Seq<TxInput<M>>) -> bool {
    inputs.len() > 0 && inputs.last() == TxInput::<M>::Message(None)
}

/// What arrives is what was sent. Let the codec give back every message that
/// was sent, and let a receiving lane read what a sending lane wrote, however
/// the stream cuts it in pieces: then the messages that it offers to the
/// mailbox are those that were sent, from the first on, in order, with none
/// left out and none twice. Once it is back at reading and has read as many as
/// were sent, or has found the stream finished, the mailbox has taken all that
/// were written: all that were sent, where the sending lane has written each or
/// has finished its stream.
pub proof fn law_what_arrives_is_what_was_sent<M>(
    sent: Seq<TxInput<M>>,
    received: Seq<RxInput<M>>,
    encode: spec_fn(M) -> Result<Seq<u8>, String>,
    decode: spec_fn(Seq<u8>) -> Result<M, String>,
    pieces: Seq<nat>,
    fault: String,
)
    requires
        forall|i: int|
            0 <= i < tx_messages(sent).len() ==> (encode(#[trigger] tx_messages(sent)[i]) matches Ok(
                body,
            ) ==> decode(body) == Ok::<M, String>(tx_messages(sent)[i])),
        tx_phase(sent) is Some,
        tx_encodes(sent, encode),
        rx_phase(received) is Some,
        rx_decodes(received, decode),
        pieces.len() == tx_bodies(sent).len() + 1,
        forall|i: int| 0 <= i < pieces.len() ==> 1 <= #[trigger] pieces[i] <= wire::HEADER_BYTES,
        rx_frames(received).is_prefix_of(
            wire::read_frames(tx_written(sent), MAX_MESSAGE_BYTES, pieces, fault),
        ),
    ensures
        rx_taken(received).is_prefix_of(rx_messages(received)),
        rx_messages(received).is_prefix_of(tx_messages(sent)),
        rx_phase(received)->0 is Reading && rx_frames(received).len() == tx_messages(sent).len()
            ==> rx_taken(received) == tx_messages(sent),
        found_finished(received) ==> rx_taken(received) == tx_messages(sent).take(
            tx_bodies(sent).len() as int,
        ),
        found_finished(received) && (has_finished(sent) || tx_phase(sent)->0 is Waiting || tx_phase(
            sent,
        )->0 is Writing) ==> rx_taken(received) == tx_messages(sent),
{
    let bodies = tx_bodies(sent);
    let outcomes = wire::read_frames(tx_written(sent), MAX_MESSAGE_BYTES, pieces, fault);
    let frames = rx_frames(received);
    let got = rx_messages(received);
    law_lane_carries_bodies_in_order(sent, pieces, fault);
    law_bodies_are_the_messages_encoded(sent, encode);
    law_messages_are_the_frames_decoded(received, decode);
    law_receiving_is_lossless(received);
    assert forall|i: int| 0 <= i < got.len() implies i < tx_messages(sent).len() && #[trigger] got[i]
        == tx_messages(sent)[i] by {
        let body = rx_bodies(received)[i];
        assert(frames[i] == Ok::<Option<Seq<u8>>, TransportError>(Some(body)));
        assert(frames[i] == outcomes[i]);
        if i >= bodies.len() {
            assert(outcomes[i] == Ok::<Option<Seq<u8>>, TransportError>(None));
        }
        assert(outcomes[i] == Ok::<Option<Seq<u8>>, TransportError>(Some(bodies[i])));
        assert(encode(tx_messages(sent)[i]) == Ok::<Seq<u8>, String>(bodies[i]));
    }
    if got.len() > 0 {
        assert(got[got.len() - 1] == tx_messages(sent)[got.len() - 1]);
    }
    assert(rx_messages(received).is_prefix_of(tx_messages(sent))) by {
        assert(got =~= tx_messages(sent).subrange(0, got.len() as int));
    }
    if rx_phase(received)->0 is Reading {
        assert(rx_taken(received) =~= got);
    }
    if found_finished(received) {
        lemma_finished_stream(received, decode);
        let last = frames.len() - 1;
        assert(frames[last] == outcomes[last]);
        if last < bodies.len() {
            assert(outcomes[last] == Ok::<Option<Seq<u8>>, TransportError>(Some(bodies[last])));
        }
        assert(got.len() == bodies.len());
        assert(got =~= tx_messages(sent).take(bodies.len() as int));
        law_sending_is_in_order(sent);
        if has_finished(sent) {
            law_sending_is_in_order(sent.drop_last());
        }
    }
}

/// An unwanted direction is a normal end at both ends: a receiving lane whose
/// messages nobody takes stops its stream with a code and ends without an
/// error, and so does a sending lane that is told of that code, whether it was
/// waiting or writing.
pub proof fn law_unwanted_direction_ends_normally<T, M>(rx: RxPhase, tx: TxPhase, shown: String)
    ensures
        rx_step::<T>(rx, RxInput::OutputClosed) == rx_end::<T>(Some(STOP_CODE), Ok(())),
        rx_step::<T>(rx, RxInput::Delivered { taken: false }) == rx_end::<T>(
            Some(STOP_CODE),
            Ok(()),
        ),
        tx_step::<M>(
            tx,
            TxInput::Stopped(StopNotice::Stopped { code: STOP_CODE, shown }),
        ) == tx_end::<M>(false, Ok(())),
        tx_step::<M>(
            tx,
            TxInput::Written(Err(WriteFault::Stopped { code: STOP_CODE, shown })),
        ) == tx_end::<M>(false, Ok(())),
{
}

/// What a receiving lane waited for when it saw `input`; the codec is not
/// waited for.
pub open spec fn rx_wait<T>(input: RxInput<T>) -> Option<RxWait> {
    match input {
        RxInput::Cancelled => Some(RxWait::Cancelled),
        RxInput::OutputClosed => Some(RxWait::OutputClosed),
        RxInput::Frame(_) => Some(RxWait::Frame),
        RxInput::Decoded(_) => None,
        RxInput::Delivered { .. } => Some(RxWait::Delivered),
    }
}

/// What a sending lane waited for when it saw `input`; the codec is not waited
/// for.
pub open spec fn tx_wait<M>(input: TxInput<M>) -> Option<TxWait> {
    match input {
        TxInput::Cancelled => Some(TxWait::Cancelled),
        TxInput::Stopped(_) => Some(TxWait::Stopped),
        TxInput::Message(_) => Some(TxWait::Message),
        TxInput::Encoded(_) => None,
        TxInput::Written(_) => Some(TxWait::Written),
    }
}

/// A lane can see exactly the events that it says to wait for, and an answer of
/// the codec when it has asked it.
pub proof fn law_lanes_expect_what_they_wait_for<T, M>(
    rx: RxPhase,
    received: RxInput<T>,
    tx: TxPhase,
    sent: TxInput<M>,
)
    ensures
        rx_expects(rx, received) <==> match rx_wait(received) {
            Some(wait) => rx_waits(rx).contains(wait),
            None => rx == RxPhase::Decoding,
        },
        tx_expects(tx, sent) <==> match tx_wait(sent) {
            Some(wait) => tx_waits(tx).contains(wait),
            None => tx == TxPhase::Encoding,
        },
{
    let r = rx_waits(rx);
    if rx is Reading {
        assert(r[0] == RxWait::Cancelled && r[1] == RxWait::OutputClosed && r[2] == RxWait::Frame);
    } else if rx is Delivering {
        assert(r[0] == RxWait::Cancelled && r[1] == RxWait::Delivered);
    }
    let t = tx_waits(tx);
    if tx is Waiting {
        assert(t[0] == TxWait::Cancelled && t[1] == TxWait::Stopped && t[2] == TxWait::Message);
    } else if tx is Writing {
        assert(t[0] == TxWait::Cancelled && t[1] == TxWait::Written);
    }
}

/// Cancellation comes first: whenever a lane waits, it looks for cancellation
/// before anything else, and ends without an error when it finds it.
pub proof fn law_cancellation_comes_first<T, M>(rx: RxPhase, tx: TxPhase)
    ensures
        rx_waits(rx).len() > 0 ==> rx_waits(rx)[0] == RxWait::Cancelled,
        tx_waits(tx).len() > 0 ==> tx_waits(tx)[0] == TxWait::Cancelled,
        rx_step::<T>(rx, RxInput::Cancelled) == rx_end::<T>(None, Ok(())),
        tx_step::<M>(tx, TxInput::Cancelled) == tx_end::<M>(false, Ok(())),
{
}

} // verus!
