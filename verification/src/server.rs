//! The decisions of an HTTP accept loop with bounded connections.
//!
//! A client that holds a connection open without sending a request, or vanishes before it sends
//! one, would keep its socket forever. So a connection that does not deliver a request head within
//! [`HEADER_READ_TIMEOUT`] is closed, TCP keepalive probes a socket that is idle and half-open,
//! and [`TCP_USER_TIMEOUT`] bounds how long a response may stay unacknowledged. Whoever runs the
//! loop performs the I/O; what to do after each outcome, and how many connections are open, is
//! decided here.

use vstd::prelude::*;

verus! {

use vstd::arithmetic::div_mod::{
    lemma_add_mod_noop_right,
    lemma_mod_add_multiples_vanish,
    lemma_mod_self_0,
    lemma_small_mod,
};

/// How many seconds a connection may go without delivering a complete request head, whether it is
/// new or idle between two requests, before it is closed.
pub const HEADER_READ_TIMEOUT: u64 = 30;

/// After how many seconds without traffic the first keepalive probe goes out.
pub const TCP_KEEPALIVE_TIME: u64 = 60;

/// How many seconds lie between two keepalive probes.
pub const TCP_KEEPALIVE_INTERVAL: u64 = 10;

/// How many probes Linux leaves unanswered, unless told otherwise, before it gives a peer up.
pub const TCP_KEEPALIVE_PROBES: u64 = 9;

/// How many seconds transmitted data may stay unacknowledged before the kernel closes the
/// connection.
pub const TCP_USER_TIMEOUT: u64 = 150;

/// How many seconds the loop waits after it could not accept, so that it does not spin where
/// file descriptors have run out.
pub const ACCEPT_BACKOFF: u64 = 1;

/// The gauge that samples the number of open connections.
pub const ACTIVE_CONNECTIONS_METRIC: &'static str = "carbide_pxe_active_connections";

/// What that gauge shows.
pub const ACTIVE_CONNECTIONS_HELP: &'static str = "Number of PXE HTTP connections currently open";

/// The counter of connections that were closed for want of a request head.
pub const HEADER_READ_TIMEOUTS_METRIC: &'static str =
    "carbide_pxe_connection_header_read_timeouts_total";

/// What that counter shows.
pub const HEADER_READ_TIMEOUTS_HELP: &'static str =
    "Number of PXE HTTP connections closed because no request head arrived within the header read timeout.";

/// Law: a peer that vanishes while a response is written is given up on the same schedule as one
/// that vanishes while it is idle.
pub proof fn law_one_schedule()
    ensures
        TCP_KEEPALIVE_TIME + TCP_KEEPALIVE_PROBES * TCP_KEEPALIVE_INTERVAL == TCP_USER_TIMEOUT,
{
}

/// Connections that are accepted and not yet finished.
pub struct Connections {
    active: usize,
}

/// Holds one slot among the active connections.
pub struct ActiveConnection {
    held: (),
}

/// The number of connections once one more is open. As for every atomic counter, zero follows the
/// greatest number.
pub open spec fn opened(active: usize) -> usize {
    if active == usize::MAX {
        0
    } else {
        (active + 1) as usize
    }
}

/// The number of connections once one of them is finished.
pub open spec fn closed_one(active: usize) -> usize {
    if active == 0 {
        usize::MAX
    } else {
        (active - 1) as usize
    }
}

impl Connections {
    /// How many connections are open.
    pub closed spec fn active(&self) -> usize {
        self.active
    }

    /// No connection is open.
    pub fn new() -> (r: Self)
        ensures
            r.active() == 0,
    {
        Connections { active: 0 }
    }
}

/// How many connections are open, as the gauge samples it.
pub fn active_connections(connections: &Connections) -> (r: usize)
    ensures
        r == connections.active(),
{
    connections.active
}

impl ActiveConnection {
    /// Takes a slot for a connection that was accepted.
    pub fn open(connections: &mut Connections) -> (r: Self)
        ensures
            final(connections).active() == opened(old(connections).active()),
            old(connections).active() < usize::MAX ==> final(connections).active()
                == old(connections).active() + 1,
    {
        connections.active = connections.active.wrapping_add(1);
        ActiveConnection { held: () }
    }

    /// Gives the slot of a finished connection back.
    pub fn close(self, connections: &mut Connections)
        ensures
            final(connections).active() == closed_one(old(connections).active()),
            old(connections).active() > 0 ==> final(connections).active()
                == old(connections).active() - 1,
    {
        connections.active = connections.active.wrapping_sub(1);
    }
}

/// The kinds of I/O errors.
#[derive(Clone, Copy, Debug, PartialEq, Eq, Structural)]
pub enum ErrorKind {
    NotFound,
    PermissionDenied,
    ConnectionRefused,
    ConnectionReset,
    ConnectionAborted,
    NotConnected,
    AddrInUse,
    AddrNotAvailable,
    BrokenPipe,
    AlreadyExists,
    WouldBlock,
    InvalidInput,
    InvalidData,
    TimedOut,
    WriteZero,
    Interrupted,
    Unsupported,
    UnexpectedEof,
    OutOfMemory,
    Other,
}

impl ErrorKind {
    /// Whether the error is one of the connection that was to be accepted, and not of the
    /// listener.
    pub open spec fn is_of_connection(self) -> bool {
        ||| self == ErrorKind::ConnectionRefused
        ||| self == ErrorKind::ConnectionAborted
        ||| self == ErrorKind::ConnectionReset
    }
}

/// Whether the error is one of the connection that was to be accepted.
pub fn is_connection_error(kind: &ErrorKind) -> (r: bool)
    ensures
        r == kind.is_of_connection(),
{
    matches!(
        *kind,
        ErrorKind::ConnectionRefused | ErrorKind::ConnectionAborted | ErrorKind::ConnectionReset
    )
}

/// A step of the accept loop.
#[derive(Clone, Copy, Debug, PartialEq, Eq, Structural)]
pub enum LoopStep {
    /// Accept a connection.
    Accept,
    /// Wait this many seconds.
    Wait { seconds: u64 },
    /// Enable keepalive on the connection that was accepted.
    EnableKeepalive,
    /// Set the user timeout of the connection that was accepted, where the platform has it.
    SetUserTimeout,
    /// Take a slot for the connection and serve it in the background.
    Serve,
}

/// What is to be reported of a step.
#[derive(Clone, Copy, Debug, PartialEq, Eq, Structural)]
pub enum LoopReport {
    /// Nothing.
    Silent,
    /// No connection could be accepted.
    AcceptFailed,
    /// Keepalive could not be enabled.
    KeepaliveFailed,
    /// The user timeout could not be set.
    UserTimeoutFailed,
}

/// The step after `step`, which failed with an error of this kind if there is one.
pub open spec fn step_after(step: LoopStep, failure: Option<ErrorKind>) -> LoopStep {
    match step {
        LoopStep::Accept => match failure {
            None => LoopStep::EnableKeepalive,
            Some(kind) => if kind.is_of_connection() {
                LoopStep::Accept
            } else {
                LoopStep::Wait { seconds: ACCEPT_BACKOFF }
            },
        },
        LoopStep::Wait { .. } => LoopStep::Accept,
        LoopStep::EnableKeepalive => LoopStep::SetUserTimeout,
        LoopStep::SetUserTimeout => LoopStep::Serve,
        LoopStep::Serve => LoopStep::Accept,
    }
}

/// What is to be reported of `step`, which failed with an error of this kind if there is one.
pub open spec fn report_after(step: LoopStep, failure: Option<ErrorKind>) -> LoopReport {
    match failure {
        None => LoopReport::Silent,
        Some(kind) => match step {
            LoopStep::Accept => if kind.is_of_connection() {
                LoopReport::Silent
            } else {
                LoopReport::AcceptFailed
            },
            LoopStep::EnableKeepalive => LoopReport::KeepaliveFailed,
            LoopStep::SetUserTimeout => LoopReport::UserTimeoutFailed,
            LoopStep::Wait { .. } | LoopStep::Serve => LoopReport::Silent,
        },
    }
}

/// Goes on from a step, which failed with an error of this kind if there is one: to the next step,
/// with what is to be reported.
pub fn next_step(step: LoopStep, failure: Option<ErrorKind>) -> (r: (LoopStep, LoopReport))
    ensures
        r.0 == step_after(step, failure),
        r.1 == report_after(step, failure),
{
    match step {
        LoopStep::Accept => match failure {
            None => (LoopStep::EnableKeepalive, LoopReport::Silent),
            Some(kind) => if is_connection_error(&kind) {
                (LoopStep::Accept, LoopReport::Silent)
            } else {
                (LoopStep::Wait { seconds: ACCEPT_BACKOFF }, LoopReport::AcceptFailed)
            },
        },
        LoopStep::Wait { .. } => (LoopStep::Accept, LoopReport::Silent),
        LoopStep::EnableKeepalive => {
            let report = if failure.is_some() {
                LoopReport::KeepaliveFailed
            } else {
                LoopReport::Silent
            };
            (LoopStep::SetUserTimeout, report)
        },
        LoopStep::SetUserTimeout => {
            let report = if failure.is_some() {
                LoopReport::UserTimeoutFailed
            } else {
                LoopReport::Silent
            };
            (LoopStep::Serve, report)
        },
        LoopStep::Serve => (LoopStep::Accept, LoopReport::Silent),
    }
}

/// The step that the loop comes to when its steps, from `step` on, fail so.
pub open spec fn step_after_all(step: LoopStep, failures: Seq<Option<ErrorKind>>) -> LoopStep
    decreases failures.len(),
{
    if failures.len() == 0 {
        step
    } else {
        step_after(step_after_all(step, failures.drop_last()), failures.last())
    }
}

/// Law: only a connection that was refused, aborted or reset makes an error one of the connection.
pub proof fn law_connection_errors(kind: ErrorKind)
    ensures
        kind.is_of_connection() <==> matches!(
            kind,
            ErrorKind::ConnectionRefused | ErrorKind::ConnectionAborted
                | ErrorKind::ConnectionReset
        ),
{
}

/// Law: a failure is reported where no connection could be accepted, unless that was the
/// connection's own error, and where an option could not be set; and nothing else is.
pub proof fn law_failures_are_reported(kind: ErrorKind, seconds: u64)
    ensures
        report_after(LoopStep::Accept, Some(kind)) == if matches!(
            kind,
            ErrorKind::ConnectionRefused | ErrorKind::ConnectionAborted
                | ErrorKind::ConnectionReset
        ) {
            LoopReport::Silent
        } else {
            LoopReport::AcceptFailed
        },
        report_after(LoopStep::EnableKeepalive, Some(kind)) == LoopReport::KeepaliveFailed,
        report_after(LoopStep::SetUserTimeout, Some(kind)) == LoopReport::UserTimeoutFailed,
        report_after(LoopStep::Wait { seconds }, Some(kind)) == LoopReport::Silent,
        report_after(LoopStep::Serve, Some(kind)) == LoopReport::Silent,
        forall|step: LoopStep| #[trigger] report_after(step, None) == LoopReport::Silent,
{
}

/// Law: the loop goes from a step to the next whatever became of it, but for accepting: there the
/// connection's own error makes it accept again, and any other makes it wait one second.
pub proof fn law_next_step(kind: ErrorKind, outcome: Option<ErrorKind>, seconds: u64)
    ensures
        step_after(LoopStep::Accept, None) == LoopStep::EnableKeepalive,
        step_after(LoopStep::Accept, Some(kind)) == if matches!(
            kind,
            ErrorKind::ConnectionRefused | ErrorKind::ConnectionAborted
                | ErrorKind::ConnectionReset
        ) {
            LoopStep::Accept
        } else {
            LoopStep::Wait { seconds: 1 }
        },
        step_after(LoopStep::Wait { seconds }, outcome) == LoopStep::Accept,
        step_after(LoopStep::EnableKeepalive, outcome) == LoopStep::SetUserTimeout,
        step_after(LoopStep::SetUserTimeout, outcome) == LoopStep::Serve,
        step_after(LoopStep::Serve, outcome) == LoopStep::Accept,
{
}

/// Law: a connection that completed is not reported, one that timed out is reported with the number
/// of connections that are open, and one that failed is reported as closed with an error.
pub proof fn law_what_is_reported_of_an_end(active: usize)
    ensures
        report_of(ConnectionEnd::Completed, active) == ConnectionReport::Silent,
        report_of(ConnectionEnd::TimedOut, active) == (ConnectionReport::HeaderReadTimedOut {
            active_connection_count: active,
        }),
        report_of(ConnectionEnd::Failed, active) == ConnectionReport::ClosedWithError,
{
}

/// Law: a connection that was accepted is served, even where a socket option could not be set, and
/// the loop then accepts again.
pub proof fn law_accepted_is_served(keepalive: Option<ErrorKind>, user_timeout: Option<ErrorKind>)
    ensures
        step_after_all(LoopStep::Accept, seq![None, keepalive, user_timeout]) == LoopStep::Serve,
        forall|served: Option<ErrorKind>| #[trigger]
            step_after(LoopStep::Serve, served) == LoopStep::Accept,
{
    let failures = seq![None, keepalive, user_timeout];
    assert(failures.drop_last() =~= seq![None, keepalive]);
    assert(failures.drop_last().drop_last() =~= seq![None]);
    assert(failures.drop_last().drop_last().drop_last() =~= Seq::<Option<ErrorKind>>::empty());
    reveal_with_fuel(step_after_all, 4);
}

/// Law: no failure to accept ends the loop. One of the connection makes it accept again at once;
/// after any other it waits first, so that it does not spin.
pub proof fn law_failed_accept_is_retried(kind: ErrorKind, waited: Option<ErrorKind>)
    ensures
        kind.is_of_connection() ==> step_after(LoopStep::Accept, Some(kind)) == LoopStep::Accept,
        !kind.is_of_connection() ==> {
            let step = step_after(LoopStep::Accept, Some(kind));
            &&& step matches LoopStep::Wait { seconds } && seconds > 0
            &&& step_after(step, waited) == LoopStep::Accept
        },
{
}

/// How a connection ended.
#[derive(Clone, Copy, Debug, PartialEq, Eq, Structural)]
pub enum ConnectionEnd {
    /// Without an error.
    Completed,
    /// No request head arrived in time.
    TimedOut,
    /// With another error, such as a client that left in the middle of a response.
    Failed,
}

/// What is to be reported of a connection that ended.
#[derive(Clone, Copy, Debug, PartialEq, Eq, Structural)]
pub enum ConnectionReport {
    /// Nothing.
    Silent,
    /// It is to be counted as closed for want of a request head. So many connections were open,
    /// itself among them.
    HeaderReadTimedOut { active_connection_count: usize },
    /// It closed with an error.
    ClosedWithError,
}

/// What is to be reported of a connection that ended so while `active` connections were open.
pub open spec fn report_of(end: ConnectionEnd, active: usize) -> ConnectionReport {
    match end {
        ConnectionEnd::Completed => ConnectionReport::Silent,
        ConnectionEnd::TimedOut => ConnectionReport::HeaderReadTimedOut {
            active_connection_count: active,
        },
        ConnectionEnd::Failed => ConnectionReport::ClosedWithError,
    }
}

/// What is to be reported of a connection that ended so. Its slot is still held: it counts among
/// the active connections.
pub fn report_end(connections: &Connections, end: ConnectionEnd) -> (r: ConnectionReport)
    ensures
        r == report_of(end, connections.active()),
{
    match end {
        ConnectionEnd::Completed => ConnectionReport::Silent,
        ConnectionEnd::TimedOut => ConnectionReport::HeaderReadTimedOut {
            active_connection_count: active_connections(connections),
        },
        ConnectionEnd::Failed => ConnectionReport::ClosedWithError,
    }
}

/// A step of the task that serves a connection. The task holds the slot of the connection until it
/// has taken the step [`TaskStep::Release`].
#[derive(Clone, Copy, Debug, PartialEq, Eq, Structural)]
pub enum TaskStep {
    /// Serve the connection until it ends.
    Serve,
    /// Report how it ended.
    Report(ConnectionReport),
    /// Give the slot back.
    Release,
    /// Nothing is left to do.
    Finished,
}

/// The step after `step`, where the connection ended so and `active` connections are open.
pub open spec fn task_step_after(step: TaskStep, end: ConnectionEnd, active: usize) -> TaskStep {
    match step {
        TaskStep::Serve => TaskStep::Report(report_of(end, active)),
        TaskStep::Report(_) => TaskStep::Release,
        TaskStep::Release | TaskStep::Finished => TaskStep::Finished,
    }
}

/// Goes on from a step of the task that serves a connection, which ended so.
pub fn next_task_step(step: TaskStep, connections: &Connections, end: ConnectionEnd) -> (r:
    TaskStep)
    ensures
        r == task_step_after(step, end, connections.active()),
{
    match step {
        TaskStep::Serve => TaskStep::Report(report_end(connections, end)),
        TaskStep::Report(_) => TaskStep::Release,
        TaskStep::Release | TaskStep::Finished => TaskStep::Finished,
    }
}

/// Law: however a connection ended, its task reports it once, then gives its slot back once, and
/// then is finished; and the report is a timeout exactly where the connection timed out, with the
/// number of connections that were open when it ended.
pub proof fn law_slot_is_released_after_the_report(
    end: ConnectionEnd,
    at_end: usize,
    at_report: usize,
    at_release: usize,
)
    ensures
        ({
            let ended = task_step_after(TaskStep::Serve, end, at_end);
            let reported = task_step_after(ended, end, at_report);
            let released = task_step_after(reported, end, at_release);
            &&& ended == TaskStep::Report(report_of(end, at_end))
            &&& reported == TaskStep::Release
            &&& released == TaskStep::Finished
            &&& forall|e: ConnectionEnd, n: usize| #[trigger]
                task_step_after(released, e, n) == TaskStep::Finished
        }),
        report_of(end, at_end) is HeaderReadTimedOut <==> end == ConnectionEnd::TimedOut,
        report_of(end, at_end) matches ConnectionReport::HeaderReadTimedOut {
            active_connection_count,
        } ==> active_connection_count == at_end,
{
}

/// Something that happens among the connections, which are told apart by numbers.
pub enum ServerEvent {
    /// A connection was accepted, and its task took a slot.
    Opened { id: nat },
    /// The task of a connection took the step it was at. `end` says how the connection ended.
    Stepped { id: nat, end: ConnectionEnd },
}

/// The connections of a server.
pub struct ServerView {
    /// The step that the task of each connection is at.
    pub tasks: Map<nat, TaskStep>,
    /// The number of active connections.
    pub active: usize,
    /// What was reported, in order.
    pub reported: Seq<ConnectionReport>,
}

impl ServerView {
    /// A server without connections.
    pub open spec fn start() -> ServerView {
        ServerView { tasks: Map::empty(), active: 0, reported: Seq::empty() }
    }

    /// Whether the event can happen: only a new connection is opened, and only a connection that
    /// was opened has a task.
    pub open spec fn allows(self, event: ServerEvent) -> bool {
        match event {
            ServerEvent::Opened { id } => !self.tasks.contains_key(id),
            ServerEvent::Stepped { id, .. } => self.tasks.contains_key(id),
        }
    }

    /// The server after the event. A task goes on by [`task_step_after`].
    pub open spec fn after(self, event: ServerEvent) -> ServerView {
        match event {
            ServerEvent::Opened { id } => ServerView {
                tasks: self.tasks.insert(id, TaskStep::Serve),
                active: opened(self.active),
                reported: self.reported,
            },
            ServerEvent::Stepped { id, end } => ServerView {
                tasks: self.tasks.insert(
                    id,
                    task_step_after(self.tasks[id], end, self.active),
                ),
                active: if self.tasks[id] == TaskStep::Release {
                    closed_one(self.active)
                } else {
                    self.active
                },
                reported: match self.tasks[id] {
                    TaskStep::Report(report) => self.reported.push(report),
                    _ => self.reported,
                },
            },
        }
    }

    /// The connections whose task holds a slot.
    pub open spec fn holding(self) -> Set<nat> {
        Set::new(|id: nat| self.tasks.contains_key(id) && self.tasks[id] != TaskStep::Finished)
    }

    /// The connections that timed out and are yet to be reported.
    pub open spec fn unreported_timeouts(self) -> Set<nat> {
        Set::new(
            |id: nat|
                self.tasks.contains_key(id) && (self.tasks[id] matches TaskStep::Report(report)
                    && report is HeaderReadTimedOut),
        )
    }
}

/// A server after these events.
pub open spec fn server_after(events: Seq<ServerEvent>) -> ServerView
    decreases events.len(),
{
    if events.len() == 0 {
        ServerView::start()
    } else {
        server_after(events.drop_last()).after(events.last())
    }
}

/// Whether these events can happen one after another.
pub open spec fn can_happen(events: Seq<ServerEvent>) -> bool
    decreases events.len(),
{
    events.len() > 0 ==> can_happen(events.drop_last()) && server_after(events.drop_last()).allows(
        events.last(),
    )
}

/// How many connections timed out in the course of these events.
pub open spec fn timeouts(events: Seq<ServerEvent>) -> nat
    decreases events.len(),
{
    if events.len() == 0 {
        0
    } else {
        timeouts(events.drop_last()) + match events.last() {
            ServerEvent::Stepped { id, end } => if server_after(events.drop_last()).tasks[id]
                == TaskStep::Serve && end == ConnectionEnd::TimedOut {
                1nat
            } else {
                0nat
            },
            _ => 0nat,
        }
    }
}

/// How many of these reports count a connection as closed for want of a request head.
pub open spec fn counted_timeouts(reports: Seq<ConnectionReport>) -> nat
    decreases reports.len(),
{
    if reports.len() == 0 {
        0
    } else {
        counted_timeouts(reports.drop_last()) + if reports.last() is HeaderReadTimedOut {
            1nat
        } else {
            0nat
        }
    }
}

/// Law: one connection more or less is one more or less, and the count wraps around.
pub proof fn law_count_of_connections(active: usize)
    ensures
        active < usize::MAX ==> opened(active) == active + 1,
        opened(usize::MAX) == 0,
        active > 0 ==> closed_one(active) == active - 1,
        closed_one(0) == usize::MAX,
{
}

/// Law: closing undoes opening, and opening undoes closing, whatever the number of connections.
pub proof fn law_close_undoes_open(active: usize)
    ensures
        closed_one(opened(active)) == active,
        opened(closed_one(active)) == active,
{
}

/// One slot more or less moves the number of active connections by one, and wraps around.
proof fn lemma_count_wraps(active: usize, held: nat)
    requires
        active as int == held as int % (usize::MAX + 1),
    ensures
        opened(active) as int == (held + 1) as int % (usize::MAX + 1),
        held > 0 ==> closed_one(active) as int == (held - 1) % (usize::MAX + 1),
{
    let m: int = usize::MAX + 1;
    lemma_add_mod_noop_right(1, held as int, m);
    lemma_add_mod_noop_right(-1, held as int, m);
    if active == usize::MAX {
        lemma_mod_self_0(m);
    } else {
        lemma_small_mod((active + 1) as nat, m as nat);
    }
    if active == 0 {
        lemma_mod_add_multiples_vanish(-1, m);
        lemma_small_mod((m - 1) as nat, m as nat);
    } else {
        lemma_small_mod((active - 1) as nat, m as nat);
    }
}

/// Law: the number of active connections is that of the connections whose task holds a slot, in
/// whatever order they were opened and ended; beyond the greatest number it wraps around.
pub proof fn law_active_counts_held_slots(events: Seq<ServerEvent>)
    requires
        can_happen(events),
    ensures
        server_after(events).holding().finite(),
        server_after(events).active as int == server_after(events).holding().len() as int % (
        usize::MAX + 1),
        server_after(events).holding().len() <= usize::MAX ==> server_after(events).active
            == server_after(events).holding().len(),
    decreases events.len(),
{
    let m: int = usize::MAX + 1;
    let now = server_after(events);
    if events.len() == 0 {
        assert(now.holding() =~= Set::empty());
        lemma_small_mod(0, m as nat);
    } else {
        let before = server_after(events.drop_last());
        law_active_counts_held_slots(events.drop_last());
        lemma_count_wraps(before.active, before.holding().len());
        match events.last() {
            ServerEvent::Opened { id } => {
                assert(now.holding() =~= before.holding().insert(id));
            },
            ServerEvent::Stepped { id, end } => {
                if before.tasks[id] == TaskStep::Release {
                    assert(before.holding().contains(id));
                    assert(now.holding() =~= before.holding().remove(id));
                } else {
                    assert(now.holding() =~= before.holding());
                }
            },
        }
    }
    if now.holding().len() <= usize::MAX {
        lemma_small_mod(now.holding().len(), m as nat);
    }
}

/// Law: once the task of every connection is finished, however the connections ended, no
/// connection is active.
pub proof fn law_all_finished_releases_all(events: Seq<ServerEvent>)
    requires
        can_happen(events),
        forall|id: nat| #[trigger]
            server_after(events).tasks.contains_key(id) ==> server_after(events).tasks[id]
                == TaskStep::Finished,
    ensures
        server_after(events).active == 0,
{
    law_active_counts_held_slots(events);
    assert(server_after(events).holding() =~= Set::empty());
}

/// Law: a connection that timed out is reported while its slot is still held, and counts itself
/// among the connections that were open when it ended.
pub proof fn law_timeout_counts_itself(events: Seq<ServerEvent>, id: nat)
    requires
        can_happen(events),
        events.len() <= usize::MAX,
        server_after(events).unreported_timeouts().contains(id),
    ensures
        server_after(events).holding().contains(id),
        server_after(events).active >= 1,
        server_after(events).tasks[id] matches TaskStep::Report(
            ConnectionReport::HeaderReadTimedOut { active_connection_count },
        ) && active_connection_count >= 1,
    decreases events.len(),
{
    let now = server_after(events);
    lemma_few_held(events);
    law_active_counts_held_slots(events);
    lemma_member_counts(now.holding(), id);
    if events.len() > 0 {
        let init = events.drop_last();
        let before = server_after(init);
        match events.last() {
            ServerEvent::Stepped { id: moved, end } if moved == id => {
                lemma_few_held(init);
                law_active_counts_held_slots(init);
                assert(before.holding().contains(id));
                lemma_member_counts(before.holding(), id);
            },
            _ => {
                assert(before.unreported_timeouts().contains(id));
                law_timeout_counts_itself(init, id);
            },
        }
    }
}

/// A set with a member is not empty.
proof fn lemma_member_counts(ids: Set<nat>, id: nat)
    requires
        ids.finite(),
        ids.contains(id),
    ensures
        ids.len() >= 1,
{
    assert(ids =~= ids.remove(id).insert(id));
}

/// There are no more slots held than events.
proof fn lemma_few_held(events: Seq<ServerEvent>)
    requires
        can_happen(events),
    ensures
        server_after(events).holding().len() <= events.len(),
    decreases events.len(),
{
    law_active_counts_held_slots(events);
    let now = server_after(events);
    if events.len() == 0 {
        assert(now.holding() =~= Set::empty());
    } else {
        let before = server_after(events.drop_last());
        lemma_few_held(events.drop_last());
        law_active_counts_held_slots(events.drop_last());
        match events.last() {
            ServerEvent::Opened { id } => {
                assert(now.holding() =~= before.holding().insert(id));
            },
            ServerEvent::Stepped { id, end } => {
                if before.tasks[id] == TaskStep::Release {
                    assert(now.holding() =~= before.holding().remove(id));
                } else {
                    assert(now.holding() =~= before.holding());
                }
            },
        }
    }
}

/// Law: exactly the connections that timed out are counted as such, each once: so many are counted
/// or yet to be. One that ends otherwise, as by an aborted transfer, is not.
pub proof fn law_timeouts_are_counted(events: Seq<ServerEvent>)
    requires
        can_happen(events),
    ensures
        server_after(events).unreported_timeouts().finite(),
        counted_timeouts(server_after(events).reported) + server_after(
            events,
        ).unreported_timeouts().len() == timeouts(events),
    decreases events.len(),
{
    let now = server_after(events);
    if events.len() == 0 {
        assert(now.unreported_timeouts() =~= Set::empty());
    } else {
        let before = server_after(events.drop_last());
        law_timeouts_are_counted(events.drop_last());
        match events.last() {
            ServerEvent::Opened { id } => {
                assert(now.unreported_timeouts() =~= before.unreported_timeouts());
            },
            ServerEvent::Stepped { id, end } => {
                match before.tasks[id] {
                    TaskStep::Serve => {
                        if end == ConnectionEnd::TimedOut {
                            assert(now.unreported_timeouts()
                                =~= before.unreported_timeouts().insert(id));
                        } else {
                            assert(now.unreported_timeouts() =~= before.unreported_timeouts());
                        }
                    },
                    TaskStep::Report(report) => {
                        assert(now.reported.drop_last() =~= before.reported);
                        if report is HeaderReadTimedOut {
                            assert(before.unreported_timeouts().contains(id));
                            assert(now.unreported_timeouts()
                                =~= before.unreported_timeouts().remove(id));
                        } else {
                            assert(now.unreported_timeouts() =~= before.unreported_timeouts());
                        }
                    },
                    _ => {
                        assert(now.unreported_timeouts() =~= before.unreported_timeouts());
                    },
                }
            },
        }
    }
}

} // verus!
