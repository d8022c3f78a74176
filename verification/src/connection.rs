//! The life of one connection: its public status, the guard that ends it, and
//! the supervision of its stream tasks.

use vstd::prelude::*;
use vstd::string::*;
use vstd::utf8;

use crate::error::TransportError;
use crate::text;

verus! {

/// The public status of a connection. Setting `cancel` ends the connection.
#[derive(Debug)]
pub struct CancelInfo {
    pub cancel: bool,
    pub reason: String,
    pub connection_number: u64,
}

/// The model of a [`CancelInfo`].
pub struct CancelView {
    pub cancel: bool,
    pub reason: Seq<char>,
    pub connection_number: u64,
}

impl View for CancelInfo {
    type V = CancelView;

    open spec fn view(&self) -> CancelView {
        CancelView {
            cancel: self.cancel,
            reason: self.reason@,
            connection_number: self.connection_number,
        }
    }
}

impl Clone for CancelInfo {
    fn clone(&self) -> (copy: CancelInfo)
        ensures
            copy@ == self@,
    {
        CancelInfo {
            cancel: self.cancel,
            reason: self.reason.clone(),
            connection_number: self.connection_number,
        }
    }
}

/// The status of connection `c_id` when it begins.
pub open spec fn active_status(c_id: u64) -> CancelView {
    CancelView { cancel: false, reason: "Not Canceled"@, connection_number: c_id }
}

impl CancelInfo {
    /// The status of connection `c_id` when it begins.
    pub fn active(c_id: u64) -> (info: CancelInfo)
        ensures
            info@ == active_status(c_id),
    {
        CancelInfo { cancel: false, reason: "Not Canceled".to_owned(), connection_number: c_id }
    }
}

/// What a task that waits for cancellation has seen.
#[derive(Debug, Clone, Copy, PartialEq, Eq, Structural)]
pub enum WatchEvent {
    /// The current status, and whether it says to cancel.
    Current { cancel: bool },
    /// The status has changed.
    Changed,
    /// Nobody is left who could change the status.
    Abandoned,
}

/// What such a task does next.
#[derive(Debug, Clone, Copy, PartialEq, Eq, Structural)]
pub enum WatchStep {
    /// Look at the current status.
    Look,
    /// Wait for the status to change.
    Wait,
    /// The connection is cancelled.
    Cancelled,
}

/// What is done after `event`.
pub open spec fn watch_step(event: WatchEvent) -> WatchStep {
    match event {
        WatchEvent::Current { cancel: true } => WatchStep::Cancelled,
        WatchEvent::Current { cancel: false } => WatchStep::Wait,
        WatchEvent::Changed => WatchStep::Look,
        WatchEvent::Abandoned => WatchStep::Cancelled,
    }
}

/// One step of waiting for cancellation. The wait begins with a look, and ends
/// when the status says so or can no longer change.
pub fn cancelled(event: WatchEvent) -> (step: WatchStep)
    ensures
        step == watch_step(event),
{
    match event {
        WatchEvent::Current { cancel } => if cancel {
            WatchStep::Cancelled
        } else {
            WatchStep::Wait
        },
        WatchEvent::Changed => WatchStep::Look,
        WatchEvent::Abandoned => WatchStep::Cancelled,
    }
}

/// Ends a connection `conn` when its setup or session ends in any way, unless
/// it was disarmed. Once the connection has a public status, `status` holds the
/// handle to publish it with and the number of the connection.
#[derive(Debug)]
pub struct ConnectionGuard<C, S> {
    pub conn: C,
    pub status: Option<(S, u64)>,
    pub reason: String,
    /// Whether the guard still ends the connection.
    pub armed: bool,
}

/// The code that connections and endpoints are closed with.
pub const CLOSE_CODE: u32 = 0;

/// What an armed guard does at the end of a connection.
#[derive(Debug)]
pub struct Release {
    /// The status to publish first, if there is one to publish.
    pub publish: Option<CancelInfo>,
    /// The code to close the connection with.
    pub code: u32,
    /// The reason to close the connection with.
    pub close: Vec<u8>,
}

/// The model of a [`Release`], with the reason in characters.
pub struct ReleaseView {
    pub publish: Option<CancelView>,
    pub code: u32,
    pub reason: Seq<char>,
}

/// What the guard of a connection does, if it is armed: `number` is the number
/// of the connection where it has a public status, which is then `current`. A
/// status that is cancelled already stands, and its reason with it.
pub open spec fn release_spec(
    number: Option<u64>,
    reason: Seq<char>,
    current: Option<CancelView>,
) -> ReleaseView {
    match (number, current) {
        (Some(number), Some(info)) => if info.cancel {
            ReleaseView { publish: None, code: CLOSE_CODE, reason: info.reason }
        } else {
            ReleaseView {
                publish: Some(CancelView { cancel: true, reason, connection_number: number }),
                code: CLOSE_CODE,
                reason,
            }
        },
        _ => ReleaseView { publish: None, code: CLOSE_CODE, reason },
    }
}

impl<C, S> ConnectionGuard<C, S> {
    /// The number of the connection, if it has a public status.
    pub open spec fn number(&self) -> Option<u64> {
        match self.status {
            Some((_, number)) => Some(number),
            None => None,
        }
    }

    /// An armed guard of a connection without a public status.
    pub fn new(conn: C) -> (guard: Self)
        ensures
            guard.conn == conn,
            guard.status is None,
            guard.reason@ == "seek connection task ended"@,
            guard.armed,
    {
        ConnectionGuard {
            conn,
            status: None,
            reason: "seek connection task ended".to_owned(),
            armed: true,
        }
    }

    /// Leaves the connection alone from now on.
    pub fn disarm(&mut self)
        ensures
            !final(self).armed,
            final(self).conn == old(self).conn,
            final(self).status == old(self).status,
            final(self).reason == old(self).reason,
    {
        self.armed = false;
    }

    /// What is due at the end of the connection; nothing for a disarmed guard.
    /// `current` is the public status at that moment, where there is one.
    pub fn release(&mut self, current: Option<CancelInfo>) -> (release: Option<Release>)
        ensures
            final(self).conn == old(self).conn,
            final(self).status == old(self).status,
            final(self).armed == old(self).armed,
            release is Some <==> old(self).armed,
            release is None ==> final(self).reason == old(self).reason,
            release matches Some(due) ==> {
                let current = match current {
                    Some(info) => Some(info@),
                    None => None,
                };
                let expected = release_spec(old(self).number(), old(self).reason@, current);
                &&& (due.publish is Some <==> expected.publish is Some)
                &&& (due.publish matches Some(info) ==> expected.publish == Some(info@))
                &&& due.code == expected.code
                &&& due.close@ == utf8::encode_utf8(expected.reason)
                &&& final(self).reason@ == expected.reason
            },
    {
        if !self.armed {
            return None;
        }
        let mut publish: Option<CancelInfo> = None;
        match (&self.status, current) {
            (Some((_, number)), Some(previous)) => {
                if previous.cancel {
                    self.reason = previous.reason;
                } else {
                    publish = Some(
                        CancelInfo {
                            cancel: true,
                            reason: self.reason.clone(),
                            connection_number: *number,
                        },
                    );
                }
            },
            _ => {},
        }
        let close = self.reason.as_str().as_bytes_vec();
        Some(Release { publish, code: CLOSE_CODE, close })
    }
}

/// After the end of a connection its public status says that it is cancelled,
/// with the reason that the connection was closed with; and a reason that was
/// given before is kept.
pub proof fn law_release_leaves_cancelled_status(
    number: u64,
    reason: Seq<char>,
    current: CancelView,
)
    ensures
        ({
            let release = release_spec(Some(number), reason, Some(current));
            let after = match release.publish {
                Some(info) => info,
                None => current,
            };
            &&& after.cancel
            &&& after.reason == release.reason
            &&& current.cancel ==> after == current
            &&& !current.cancel ==> after.reason == reason && after.connection_number == number
        }),
{
}

/// What a supervisor waits for.
#[derive(Debug, Clone, Copy, PartialEq, Eq, Structural)]
pub enum SessionWait {
    /// The status of the connection says to cancel.
    Cancelled,
    /// The connection was closed.
    Closed,
    /// One of the stream tasks ended.
    Task,
}

/// What a supervisor has seen.
#[derive(Debug)]
pub enum SessionEvent {
    /// The status of the connection says to cancel.
    Cancelled,
    /// The connection was closed, for the reason in this text.
    Closed(String),
    /// A stream task ended as it should.
    Finished,
    /// A stream task ended with an error.
    Failed(TransportError),
    /// A stream task was lost: it panicked or was aborted.
    Lost(String),
}

/// What one event does to a session with `running` tasks: how many are left,
/// and if the session ends with it, whether with a reason of its own.
pub enum SessionStep {
    /// The session goes on.
    Go { running: int },
    /// The session ends, and the guard keeps its reason.
    Keep { running: int },
    /// The session ends for this reason.
    End { running: int, reason: Seq<char> },
}

/// How a session goes on.
#[derive(Debug, Clone, Copy, PartialEq, Eq, Structural)]
pub enum SessionNext {
    /// Wait for the next event.
    Wait,
    /// End: abort the `running` tasks that have not ended, whatever they wait
    /// for, then release the guard.
    Abort { running: usize },
}

/// The effect of an event on a session with `running` stream tasks.
pub open spec fn session_step(running: int, event: SessionEvent) -> SessionStep {
    match event {
        SessionEvent::Cancelled => SessionStep::Keep { running },
        SessionEvent::Closed(e) => SessionStep::End {
            running,
            reason: "seek connection closed: "@ + e@,
        },
        SessionEvent::Finished => if running == 1 {
            SessionStep::End { running: 0, reason: "seek all stream directions closed"@ }
        } else {
            SessionStep::Go { running: running - 1 }
        },
        SessionEvent::Failed(error) => SessionStep::End {
            running: running - 1,
            reason: error.text(),
        },
        SessionEvent::Lost(e) => SessionStep::End {
            running: running - 1,
            reason: "seek stream task failed: "@ + e@,
        },
    }
}

/// What is left of the tasks after an event.
pub open spec fn running_after(step: SessionStep) -> int {
    match step {
        SessionStep::Go { running } => running,
        SessionStep::Keep { running } => running,
        SessionStep::End { running, .. } => running,
    }
}

/// The number of stream tasks of a connection: two for each lane.
pub open spec fn task_count(lanes: int) -> int {
    2 * lanes
}

/// What a session with `running` tasks waits for, in the order in which it
/// counts.
pub open spec fn session_waits(running: int) -> Seq<SessionWait> {
    if running > 0 {
        seq![SessionWait::Cancelled, SessionWait::Closed, SessionWait::Task]
    } else {
        seq![SessionWait::Cancelled, SessionWait::Closed]
    }
}

/// Watches over the stream tasks of a connection, two for each lane.
#[derive(Debug)]
pub struct Supervisor {
    running: usize,
}

impl Supervisor {
    /// The number of tasks that have not ended.
    pub closed spec fn running(&self) -> int {
        self.running as int
    }

    /// The supervisor of a connection whose tasks have just begun.
    pub fn new(lanes: usize) -> (supervisor: Supervisor)
        requires
            2 * lanes <= usize::MAX,
        ensures
            supervisor.running() == task_count(lanes as int),
    {
        Supervisor { running: 2 * lanes }
    }

    /// What to wait for, the first that is ready in this order counting.
    pub fn waits(&self) -> (waits: Vec<SessionWait>)
        ensures
            waits@ == session_waits(self.running()),
    {
        let mut waits: Vec<SessionWait> = Vec::new();
        waits.push(SessionWait::Cancelled);
        waits.push(SessionWait::Closed);
        if self.running > 0 {
            waits.push(SessionWait::Task);
            assert(waits@ =~= seq![
                SessionWait::Cancelled,
                SessionWait::Closed,
                SessionWait::Task,
            ]);
        } else {
            assert(waits@ =~= seq![SessionWait::Cancelled, SessionWait::Closed]);
        }
        waits
    }

    /// Takes an event. Returns how the session goes on; at its end the guard
    /// holds the reason.
    pub fn supervise<C, S>(
        &mut self,
        guard: &mut ConnectionGuard<C, S>,
        event: SessionEvent,
    ) -> (next: SessionNext)
        requires
            event is Finished || event is Failed || event is Lost ==> old(self).running() > 0,
        ensures
            final(guard).conn == old(guard).conn,
            final(guard).status == old(guard).status,
            final(guard).armed == old(guard).armed,
            ({
                let step = session_step(old(self).running(), event);
                &&& final(self).running() == running_after(step)
                &&& match next {
                    SessionNext::Wait => step is Go,
                    SessionNext::Abort { running } => !(step is Go) && running == running_after(
                        step,
                    ),
                }
                &&& final(guard).reason@ == match step {
                    SessionStep::End { reason, .. } => reason,
                    _ => old(guard).reason@,
                }
            }),
    {
        match event {
            SessionEvent::Cancelled => {},
            SessionEvent::Closed(e) => {
                guard.reason = text::joined("seek connection closed: ", e.as_str());
            },
            SessionEvent::Finished => {
                self.running = self.running - 1;
                if self.running > 0 {
                    return SessionNext::Wait;
                }
                guard.reason = "seek all stream directions closed".to_owned();
            },
            SessionEvent::Failed(error) => {
                self.running = self.running - 1;
                guard.reason = error.message();
            },
            SessionEvent::Lost(e) => {
                self.running = self.running - 1;
                guard.reason = text::joined("seek stream task failed: ", e.as_str());
            },
        }
        SessionNext::Abort { running: self.running }
    }
}

/// A session with `running` tasks after `finished` of them ended as they
/// should, one after the other.
pub open spec fn after_finished(running: int, finished: nat) -> SessionStep
    decreases finished,
{
    if finished == 0 {
        SessionStep::Go { running }
    } else {
        match after_finished(running, (finished - 1) as nat) {
            SessionStep::Go { running } => session_step(running, SessionEvent::Finished),
            step => step,
        }
    }
}

/// A finished direction does not close the other lanes: a session goes on
/// until the last of its stream tasks has ended.
pub proof fn law_session_outlives_finished_directions(running: int, finished: nat)
    requires
        0 < running,
        finished <= running,
    ensures
        after_finished(running, finished) == if finished < running {
            SessionStep::Go { running: running - finished }
        } else {
            SessionStep::End { running: 0, reason: "seek all stream directions closed"@ }
        },
    decreases finished,
{
    if finished > 0 {
        law_session_outlives_finished_directions(running, (finished - 1) as nat);
    }
}

/// The stream tasks of a connection are those of its lanes, the same number for
/// each: one that receives and one that sends.
pub proof fn law_each_lane_has_its_tasks(a: int, b: int)
    ensures
        task_count(a + b) == task_count(a) + task_count(b),
        task_count(1) == 2,
{
}

/// A session always waits for cancellation first and for the end of the
/// connection next, and for its tasks exactly as long as one is running.
pub proof fn law_session_waits_in_order(running: int)
    ensures
        session_waits(running).len() >= 2,
        session_waits(running)[0] == SessionWait::Cancelled,
        session_waits(running)[1] == SessionWait::Closed,
        running > 0 <==> session_waits(running).contains(SessionWait::Task),
        session_waits(running).no_duplicates(),
{
    if running > 0 {
        assert(session_waits(running)[2] == SessionWait::Task);
    }
}

/// What a task that waits for cancellation does after `events`: at first it
/// looks at the status.
pub open spec fn watch_after(events: Seq<WatchEvent>) -> WatchStep {
    if events.len() == 0 {
        WatchStep::Look
    } else {
        watch_step(events.last())
    }
}

/// Waiting for cancellation ends exactly when the status was seen to say so or
/// can no longer change. Until then the task looks at the status at first and
/// after each change, and waits after each look.
pub proof fn law_cancellation_is_not_missed(events: Seq<WatchEvent>)
    ensures
        watch_after(events) is Cancelled <==> events.len() > 0 && (events.last() is Abandoned
            || events.last() == (WatchEvent::Current { cancel: true })),
        watch_after(events) is Look <==> events.len() == 0 || events.last() is Changed,
        watch_after(events) is Wait <==> events.len() > 0 && events.last()
            == (WatchEvent::Current { cancel: false }),
{
}

/// A connection begins with a status under its own number that is not cancelled
/// and reads the same for all; at its end the status is cancelled under that
/// number, for the reason of its guard.
pub proof fn law_status_keeps_its_number(c_id: u64, other: u64, reason: Seq<char>)
    ensures
        ({
            let status = active_status(c_id);
            &&& !status.cancel
            &&& status.connection_number == c_id
            &&& status.reason == active_status(other).reason
            &&& release_spec(Some(c_id), reason, Some(status)).publish == Some(
                CancelView { cancel: true, reason, connection_number: status.connection_number },
            )
        }),
{
}

/// Only a task that ended as it should leaves a session going, and only if
/// another is still running. Every other event ends it: cancellation without a
/// reason of its own, a failed task with the text of its error, a lost task or a
/// closed connection with a reason that ends in the text that was reported.
/// Each task that ended is one less to abort; nothing else changes their number.
pub proof fn law_only_finished_tasks_keep_a_session(running: int, event: SessionEvent)
    requires
        running >= 0,
        event is Finished || event is Failed || event is Lost ==> running > 0,
    ensures
        ({
            let step = session_step(running, event);
            let ended = event is Finished || event is Failed || event is Lost;
            &&& step is Go <==> event is Finished && running > 1
            &&& step is Keep <==> event is Cancelled
            &&& running_after(step) == running - if ended {
                1int
            } else {
                0
            }
            &&& event matches SessionEvent::Failed(error) ==> step == (SessionStep::End {
                running: running - 1,
                reason: error.text(),
            })
            &&& event matches SessionEvent::Lost(e) ==> ends_in(step->End_reason, e@)
            &&& event matches SessionEvent::Closed(e) ==> ends_in(step->End_reason, e@)
        }),
{
    let step = session_step(running, event);
    match event {
        SessionEvent::Lost(e) => {
            assert(step->End_reason.skip(step->End_reason.len() - e@.len()) =~= e@);
        },
        SessionEvent::Closed(e) => {
            assert(step->End_reason.skip(step->End_reason.len() - e@.len()) =~= e@);
        },
        _ => {},
    }
}

/// Whether `text` ends in `end`.
pub open spec fn ends_in(text: Seq<char>, end: Seq<char>) -> bool {
    text.len() >= end.len() && text.skip(text.len() - end.len()) == end
}

/// The reason of a lost task or a closed connection is the same words before
/// whatever was reported, and it does not depend on how many tasks run. Lost
/// tasks and closed connections are told apart.
pub proof fn law_session_reasons_are_uniform(m: int, n: int, e: String, f: String)
    ensures
        ({
            let lost = session_step(m, SessionEvent::Lost(e))->End_reason;
            let closed = session_step(m, SessionEvent::Closed(e))->End_reason;
            let others = session_step(n, SessionEvent::Lost(f))->End_reason;
            let shut = session_step(n, SessionEvent::Closed(f))->End_reason;
            &&& lost.take(lost.len() - e@.len()) == others.take(others.len() - f@.len())
            &&& closed.take(closed.len() - e@.len()) == shut.take(shut.len() - f@.len())
            &&& lost != closed
        }),
{
    let a = "seek stream task failed: "@;
    let b = "seek connection closed: "@;
    reveal_strlit("seek stream task failed: ");
    reveal_strlit("seek connection closed: ");
    assert((a + e@).take(a.len() as int) =~= a);
    assert((a + f@).take(a.len() as int) =~= a);
    assert((b + e@).take(b.len() as int) =~= b);
    assert((b + f@).take(b.len() as int) =~= b);
    assert((a + e@)[5] != (b + e@)[5]);
}

/// A session that began with `running` tasks after `events`: the step that the
/// last of them was, or the one that ended it before.
pub open spec fn session_after(running: int, events: Seq<SessionEvent>) -> SessionStep
    decreases events.len(),
{
    if events.len() == 0 {
        SessionStep::Go { running }
    } else {
        match session_after(running, events.drop_last()) {
            SessionStep::Go { running } => session_step(running, events.last()),
            step => step,
        }
    }
}

/// A session goes on exactly as long as all that it has seen are tasks that
/// ended as they should, and not the last of them.
pub proof fn law_session_ends_with_the_first_fault(running: int, events: Seq<SessionEvent>)
    requires
        running > 0,
    ensures
        session_after(running, events) is Go <==> events.len() < running && forall|i: int|
            0 <= i < events.len() ==> #[trigger] events[i] is Finished,
        session_after(running, events) is Go ==> session_after(running, events)
            == (SessionStep::Go { running: running - events.len() }),
    decreases events.len(),
{
    if events.len() > 0 {
        let before = events.drop_last();
        law_session_ends_with_the_first_fault(running, before);
        assert(events.last() == events[events.len() - 1]);
        assert(forall|i: int| 0 <= i < before.len() ==> before[i] == events[i]);
        if session_after(running, before) is Go {
            law_only_finished_tasks_keep_a_session(running - before.len(), events.last());
        }
    }
}

/// A guard with a public status publishes that its connection is cancelled,
/// under the connection's own number and with its own reason, unless the status
/// says so already; one without a status publishes nothing. Either way the
/// connection is closed under the same code, with the reason that is published,
/// that was published before, or that the guard holds.
pub proof fn law_guard_publishes_once<C, S>(
    guard: ConnectionGuard<C, S>,
    current: Option<CancelView>,
)
    requires
        guard.status is Some <==> current is Some,
    ensures
        ({
            let release = release_spec(guard.number(), guard.reason@, current);
            &&& release.code == CLOSE_CODE
            &&& release.publish is Some <==> (current matches Some(info) && !info.cancel)
            &&& release.publish matches Some(info) ==> {
                &&& info.cancel
                &&& info.reason == guard.reason@
                &&& release.reason == guard.reason@
                &&& guard.status matches Some((_, number)) && number == info.connection_number
            }
            &&& release.publish is None ==> release.reason == match current {
                Some(info) => info.reason,
                None => guard.reason@,
            }
        }),
{
}

/// However a session ends, its public status then says that it is cancelled,
/// and the connection was closed with the reason that stands there: one that
/// was given before, or else that of the event, or that of the guard where the
/// event gives none.
pub proof fn law_session_end_is_published(
    running: int,
    event: SessionEvent,
    number: u64,
    reason: Seq<char>,
    current: CancelView,
)
    requires
        !(session_step(running, event) is Go),
    ensures
        ({
            let ended = match session_step(running, event) {
                SessionStep::End { reason, .. } => reason,
                _ => reason,
            };
            let release = release_spec(Some(number), ended, Some(current));
            let after = match release.publish {
                Some(info) => info,
                None => current,
            };
            &&& after.cancel
            &&& after.reason == release.reason
            &&& release.reason == if current.cancel {
                current.reason
            } else {
                ended
            }
        }),
{
}

} // verus!
