//! The decisions of the server: what becomes of an accepted connection,
//! and what becomes of a readiness event.
//!
//! The server does no I/O. The listener and the readiness loop perform
//! what it asks for (a socket option, a handshake, a registration, a
//! receive, a close) and hand back how that went. Every call is one short
//! step on the state that the two share, so the state is never held while
//! I/O is under way.

use crate::frame::{frames_of, remainder_of};
use crate::readiness::Event;
use crate::registry::{distinct, lists, place, without, Registry};
use crate::stats::{Stats, StatsView};
use crate::stream::{RecvError, Stream, StreamView};
use crate::task::{route_all, routed_all, task_views, Task, TaskView};
use vstd::prelude::*;

verus! {

/// Something that the readiness loop is asked to do.
#[derive(Clone, Debug, PartialEq, Eq)]
pub enum Action {
    /// Take `fd` out of the readiness set. A descriptor that is no longer
    /// in it is no error.
    Deregister { fd: i32 },
    /// Close `fd`.
    Close { fd: i32 },
    /// Hand `task` to the worker pool.
    Submit { task: Task },
}

/// The mathematical content of an `Action`.
pub enum ActionView {
    Deregister { fd: i32 },
    Close { fd: i32 },
    Submit { task: TaskView },
}

impl View for Action {
    type V = ActionView;

    open spec fn view(&self) -> ActionView {
        match *self {
            Action::Deregister { fd } => ActionView::Deregister { fd },
            Action::Close { fd } => ActionView::Close { fd },
            Action::Submit { task } => ActionView::Submit { task: task@ },
        }
    }
}

/// The content of each action of `actions`.
pub open spec fn action_views(actions: Seq<Action>) -> Seq<ActionView> {
    Seq::new(actions.len(), |i: int| actions[i]@)
}

/// The end of a connection that the application knows: out of the
/// readiness set, closed, and only then the application is told.
pub open spec fn closing(fd: i32) -> Seq<ActionView> {
    seq![
        ActionView::Deregister { fd },
        ActionView::Close { fd },
        ActionView::Submit { task: TaskView::NotifyClosed { fd } },
    ]
}

/// The end of a descriptor that the server does not know: out of the
/// readiness set and closed.
pub open spec fn dropping(fd: i32) -> Seq<ActionView> {
    seq![ActionView::Deregister { fd }, ActionView::Close { fd }]
}

/// `tasks` handed to the worker pool, one after another.
pub open spec fn submitting(tasks: Seq<TaskView>) -> Seq<ActionView> {
    Seq::new(tasks.len(), |i: int| ActionView::Submit { task: tasks[i] })
}

/// An option that every accepted socket is given.
#[derive(Clone, Copy, Debug, PartialEq, Eq)]
pub enum SocketOption {
    /// Reads and writes do not block.
    Nonblocking,
    /// Small writes are sent at once.
    NoDelay,
    /// The kernel probes an idle connection.
    KeepAlive,
}

/// What the listener does next with an accepted connection.
#[derive(Clone, Copy, Debug, PartialEq, Eq)]
pub enum Step {
    /// Set this option on the socket.
    Configure(SocketOption),
    /// Perform the TLS handshake, blocking.
    Handshake,
    /// Add the descriptor to the readiness set, readable and
    /// edge-triggered. The connection is on the list already.
    Register,
    /// Close the descriptor: the connection is given up.
    Abandon,
    /// Nothing: the connection is served.
    Serve,
}

/// An accepted connection on its way into the server.
#[derive(Clone, Copy, Debug, PartialEq, Eq)]
pub struct Admission {
    /// The descriptor of the accepted socket.
    pub fd: i32,
    /// Whether the connection is to be wrapped in TLS.
    pub tls: bool,
    /// What the listener does next.
    pub step: Step,
}

/// What follows the socket option `applied`: on failure the connection is
/// given up; else the next option, and after the last one the handshake
/// where TLS is configured, the registration where it is not.
pub open spec fn after_option(applied: SocketOption, ok: bool, tls: bool) -> Step {
    if !ok {
        Step::Abandon
    } else {
        match applied {
            SocketOption::Nonblocking => Step::Configure(SocketOption::NoDelay),
            SocketOption::NoDelay => Step::Configure(SocketOption::KeepAlive),
            SocketOption::KeepAlive => if tls {
                Step::Handshake
            } else {
                Step::Register
            },
        }
    }
}

/// What follows the step of `adm`, given whether it succeeded.
pub open spec fn next_step(adm: Admission, ok: bool) -> Step {
    match adm.step {
        Step::Configure(applied) => after_option(applied, ok, adm.tls),
        Step::Handshake => if ok {
            Step::Register
        } else {
            Step::Abandon
        },
        Step::Register => if ok {
            Step::Serve
        } else {
            Step::Abandon
        },
        Step::Abandon => Step::Abandon,
        Step::Serve => Step::Serve,
    }
}

/// Whether nothing follows `step`.
pub open spec fn ended(step: Step) -> bool {
    step is Abandon || step is Serve
}

/// Whether the step of `adm`, with this outcome, puts the connection on
/// the list.
pub open spec fn enlists(adm: Admission, ok: bool) -> bool {
    (adm.step is Configure || adm.step is Handshake) && next_step(adm, ok) is Register
}

impl Admission {
    /// Whether the step of this admission, with this outcome, puts the
    /// connection on the list.
    pub fn enlists(&self, ok: bool) -> (b: bool)
        ensures
            b == enlists(*self, ok),
    {
        match self.step {
            Step::Configure(applied) => match setup_new_socket(applied, ok, self.tls) {
                Step::Register => true,
                _ => false,
            },
            Step::Handshake => ok,
            _ => false,
        }
    }

    /// Whether nothing follows the step of this admission.
    pub fn ended(&self) -> (b: bool)
        ensures
            b == ended(self.step),
    {
        match self.step {
            Step::Abandon => true,
            Step::Serve => true,
            _ => false,
        }
    }
}

/// Decides what follows a socket option on an accepted socket.
pub fn setup_new_socket(applied: SocketOption, ok: bool, tls: bool) -> (next: Step)
    ensures
        next == after_option(applied, ok, tls),
{
    if !ok {
        Step::Abandon
    } else {
        match applied {
            SocketOption::Nonblocking => Step::Configure(SocketOption::NoDelay),
            SocketOption::NoDelay => Step::Configure(SocketOption::KeepAlive),
            SocketOption::KeepAlive => if tls {
                Step::Handshake
            } else {
                Step::Register
            },
        }
    }
}

/// The mathematical content of a `Server`.
pub struct ServerView {
    /// The live connections, in the order of the list.
    pub streams: Seq<StreamView>,
    /// The counters.
    pub stats: StatsView,
}

impl ServerView {
    /// A server without connections that has counted nothing.
    pub open spec fn fresh() -> ServerView {
        ServerView { streams: Seq::empty(), stats: StatsView::zero() }
    }

    /// Whether the list is in order: no descriptor is listed twice.
    pub open spec fn wf(self) -> bool {
        distinct(self.streams)
    }

    /// Whether a connection on `fd` is listed.
    pub open spec fn lists(self, fd: i32) -> bool {
        lists(self.streams, fd)
    }

    /// The listed connection on `fd`.
    pub open spec fn stream(self, fd: i32) -> StreamView
        recommends
            self.lists(fd),
    {
        self.streams[place(self.streams, fd)]
    }

    /// One more descriptor opened.
    pub open spec fn opened(self) -> ServerView {
        ServerView { streams: self.streams, stats: self.stats.opened() }
    }

    /// One more descriptor closed.
    pub open spec fn closed(self) -> ServerView {
        ServerView { streams: self.streams, stats: self.stats.closed() }
    }

    /// `s` put at the end of the list, and counted.
    pub open spec fn listed(self, s: StreamView) -> ServerView {
        ServerView { streams: self.streams.push(s), stats: self.stats.received() }
    }

    /// The connection on `fd` taken off the list to be worked on.
    pub open spec fn taken(self, fd: i32) -> ServerView {
        ServerView { streams: without(self.streams, fd), stats: self.stats }
    }

    /// The connection on `fd` struck off the list for good, and counted as
    /// lost if it was listed.
    pub open spec fn struck(self, fd: i32) -> ServerView {
        ServerView {
            streams: without(self.streams, fd),
            stats: if self.lists(fd) {
                self.stats.lost()
            } else {
                self.stats
            },
        }
    }

    /// The server after the first step on the event `e`: a descriptor that
    /// is not listed is closed; a listed connection is taken off the list,
    /// and closed unless the event says that it can be read.
    pub open spec fn after_event(self, e: Event) -> ServerView {
        if !self.lists(e.fd) {
            self.closed()
        } else if e.readable() {
            self.taken(e.fd)
        } else {
            self.taken(e.fd).closed()
        }
    }

    /// What the loop is asked to do for the event `e`; `None` where it is
    /// to receive on the connection that was taken off the list.
    pub open spec fn event_actions(self, e: Event) -> Option<Seq<ActionView>> {
        if !self.lists(e.fd) {
            Some(dropping(e.fd))
        } else if e.readable() {
            None
        } else {
            Some(closing(e.fd))
        }
    }

    /// The server after a receive on `s` that ended with `result`: after
    /// success the connection is listed again, without the frames that
    /// were complete; after an error it is closed.
    pub open spec fn after_read(self, s: StreamView, result: Result<(), RecvError>) -> ServerView {
        if result is Ok {
            self.listed(StreamView { fd: s.fd, rx: remainder_of(s.rx), fresh: s.fresh })
        } else {
            self.closed()
        }
    }

    /// The server after the step of `adm` came out as `ok`.
    pub open spec fn after_step(self, adm: Admission, ok: bool) -> ServerView {
        match adm.step {
            Step::Configure(_) | Step::Handshake => match next_step(adm, ok) {
                Step::Abandon => self.closed(),
                Step::Register => self.listed(
                    StreamView { fd: adm.fd, rx: Seq::empty(), fresh: false },
                ),
                _ => self,
            },
            Step::Register => if ok {
                self
            } else {
                self.struck(adm.fd).closed()
            },
            _ => self,
        }
    }
}

/// What the loop is asked to do after a receive on `s` that ended with
/// `result`: after success one task for each complete frame, in the order
/// of arrival; after an error the end of the connection.
pub open spec fn read_actions(s: StreamView, result: Result<(), RecvError>) -> Seq<ActionView> {
    if result is Ok {
        submitting(routed_all(s.fd, frames_of(s.rx)))
    } else {
        closing(s.fd)
    }
}

/// How the loop goes on with a readiness event.
#[derive(Debug)]
pub enum EventPlan {
    /// Perform `actions`; the event is done with.
    Finished { actions: Vec<Action> },
    /// Receive on `stream`, which has been taken off the list, and hand it
    /// to `handle_read_event` with the result.
    Receive { stream: Stream },
}

/// The state that the listener and the readiness loop share: the list of
/// live connections and the counters.
#[derive(Debug)]
pub struct Server {
    registry: Registry,
    stats: Stats,
}

impl View for Server {
    type V = ServerView;

    closed spec fn view(&self) -> ServerView {
        ServerView { streams: self.registry@, stats: self.stats@ }
    }
}

/// Wraps each task into the request to submit it.
fn submit_all(tasks: Vec<Task>) -> (actions: Vec<Action>)
    ensures
        action_views(actions@) == submitting(task_views(tasks@)),
{
    let ghost all = task_views(tasks@);
    let mut actions: Vec<Action> = Vec::new();
    for task in it: tasks
        invariant
            it.seq() == tasks@,
            all == task_views(tasks@),
            actions@.len() == it.index(),
            forall|k: int|
                0 <= k < actions@.len() ==> (#[trigger] actions@[k])@ == (ActionView::Submit {
                    task: all[k],
                }),
    {
        assert(task@ == all[actions@.len() as int]);
        actions.push(Action::Submit { task });
    }
    assert(action_views(actions@) =~= submitting(all));
    actions
}

impl Server {
    /// Whether the state is in order: no descriptor is listed twice.
    pub open spec fn wf(&self) -> bool {
        self@.wf()
    }

    /// A server without connections.
    pub fn new() -> (s: Server)
        ensures
            s@ == ServerView::fresh(),
            s.wf(),
    {
        Server { registry: Registry::new(), stats: Stats::new() }
    }

    /// The counters as they stand.
    pub fn stats(&self) -> (stats: Stats)
        ensures
            stats@ == self@.stats,
    {
        self.stats
    }

    /// The number of live connections on the list.
    pub fn connections(&self) -> (n: usize)
        ensures
            n == self@.streams.len(),
    {
        self.registry.len()
    }

    /// Whether a connection on `fd` is on the list.
    pub fn contains(&self, fd: i32) -> (b: bool)
        ensures
            b == self@.lists(fd),
    {
        self.registry.contains(fd)
    }

    /// Counts the descriptor that is about to be closed and returns the
    /// request to close it.
    pub fn close_fd(&mut self, fd: i32) -> (action: Action)
        requires
            old(self)@.stats.fds_closed < u64::MAX,
        ensures
            final(self)@ == old(self)@.closed(),
            action@ == (ActionView::Close { fd }),
    {
        self.stats.fd_closed();
        Action::Close { fd }
    }

    /// Puts `stream` at the end of the list of live connections and counts
    /// it. Its descriptor must not be on the list: a descriptor is not
    /// used again while its connection is live.
    pub fn add_stream_to_master_list(&mut self, stream: Stream)
        requires
            old(self).wf(),
            !old(self)@.lists(stream@.fd),
            old(self)@.stats.connections_received < u64::MAX,
        ensures
            final(self)@ == old(self)@.listed(stream@),
            final(self).wf(),
    {
        self.registry.insert(stream);
        self.stats.conn_recv();
    }

    /// Strikes the connection on `fd` off the list, and counts it as lost
    /// if it was there.
    pub fn remove_fd_from_list(&mut self, fd: i32)
        requires
            old(self).wf(),
            old(self)@.stats.connections_lost < u64::MAX,
        ensures
            final(self)@ == old(self)@.struck(fd),
            final(self).wf(),
    {
        if self.registry.remove(fd) {
            self.stats.conn_lost();
        }
    }

    /// Takes in whether the descriptor `fd`, whose connection is on the
    /// list, could be added to the readiness set. Where it could not, the
    /// connection is struck off the list again and given up.
    pub fn add_to_epoll(&mut self, fd: i32, ok: bool) -> (next: Step)
        requires
            old(self).wf(),
            old(self)@.stats.fds_closed < u64::MAX,
            old(self)@.stats.connections_lost < u64::MAX,
        ensures
            ok ==> next == Step::Serve && final(self)@ == old(self)@,
            !ok ==> next == Step::Abandon && final(self)@ == old(self)@.struck(fd).closed(),
            final(self).wf(),
    {
        if ok {
            Step::Serve
        } else {
            self.remove_fd_from_list(fd);
            let _ = self.close_fd(fd);
            Step::Abandon
        }
    }

    /// Counts a connection that the listener has accepted on `fd` and
    /// says what to do with it first. `tls` says whether the connection is
    /// to be wrapped in TLS.
    pub fn handle_new_connection(&mut self, fd: i32, tls: bool) -> (adm: Admission)
        requires
            old(self)@.stats.fds_opened < u64::MAX,
        ensures
            final(self)@ == old(self)@.opened(),
            adm == (Admission { fd, tls, step: Step::Configure(SocketOption::Nonblocking) }),
    {
        self.stats.fd_opened();
        Admission { fd, tls, step: Step::Configure(SocketOption::Nonblocking) }
    }

    /// Takes in how the step of `adm` went and says what follows. The
    /// connection is put on the list before its registration is asked for,
    /// so that no event can arrive for a descriptor that is not listed; a
    /// failure gives the connection up, off the list where it was on it.
    pub fn advance(&mut self, adm: Admission, ok: bool) -> (next: Admission)
        requires
            old(self).wf(),
            old(self)@.stats.fds_closed < u64::MAX,
            old(self)@.stats.connections_received < u64::MAX,
            old(self)@.stats.connections_lost < u64::MAX,
            enlists(adm, ok) ==> !old(self)@.lists(adm.fd),
        ensures
            next == (Admission { fd: adm.fd, tls: adm.tls, step: next_step(adm, ok) }),
            final(self)@ == old(self)@.after_step(adm, ok),
            final(self).wf(),
    {
        let step = match adm.step {
            Step::Configure(applied) => setup_new_socket(applied, ok, adm.tls),
            Step::Handshake => if ok {
                Step::Register
            } else {
                Step::Abandon
            },
            Step::Register => self.add_to_epoll(adm.fd, ok),
            Step::Abandon => Step::Abandon,
            Step::Serve => Step::Serve,
        };
        match adm.step {
            Step::Configure(_) | Step::Handshake => match step {
                Step::Abandon => {
                    let _ = self.close_fd(adm.fd);
                },
                Step::Register => {
                    self.add_stream_to_master_list(Stream::new(adm.fd));
                },
                _ => {},
            },
            _ => {},
        }
        Admission { fd: adm.fd, tls: adm.tls, step }
    }

    /// The first step on a readiness event. A descriptor that is not on
    /// the list is taken out of the readiness set and closed. A listed
    /// connection is taken off the list: where the event says that it can
    /// be read, it is handed out for the receive; where not, it has hung
    /// up or failed, and it is closed and the application told.
    pub fn handle_epoll_event(&mut self, event: Event) -> (plan: EventPlan)
        requires
            old(self).wf(),
            old(self)@.stats.fds_closed < u64::MAX,
        ensures
            final(self)@ == old(self)@.after_event(event),
            final(self).wf(),
            match plan {
                EventPlan::Finished { actions } => old(self)@.event_actions(event) == Some(
                    action_views(actions@),
                ),
                EventPlan::Receive { stream } => old(self)@.event_actions(event).is_none()
                    && stream@ == old(self)@.stream(event.fd),
            },
    {
        let fd = event.fd;
        match self.registry.take(fd) {
            None => {
                let mut actions: Vec<Action> = Vec::new();
                actions.push(Action::Deregister { fd });
                let close = self.close_fd(fd);
                actions.push(close);
                assert(action_views(actions@) =~= dropping(fd));
                EventPlan::Finished { actions }
            },
            Some(stream) => {
                if event.is_readable() {
                    EventPlan::Receive { stream }
                } else {
                    let mut actions: Vec<Action> = Vec::new();
                    actions.push(Action::Deregister { fd });
                    let close = self.close_fd(fd);
                    actions.push(close);
                    actions.push(Action::Submit { task: Task::NotifyClosed { fd } });
                    assert(action_views(actions@) =~= closing(fd));
                    EventPlan::Finished { actions }
                }
            },
        }
    }

    /// The second step on a readable connection, after the receive on
    /// `stream` has ended with `result`. After success every complete
    /// message is routed to the workers in the order of arrival and the
    /// connection is listed again. After an error the connection is
    /// closed, and the application is told once the close has been asked
    /// for; the messages that the receive had brought are dropped.
    pub fn handle_read_event(&mut self, stream: Stream, result: Result<(), RecvError>) -> (actions:
        Vec<Action>)
        requires
            old(self).wf(),
            !old(self)@.lists(stream@.fd),
            old(self)@.stats.fds_closed < u64::MAX,
            old(self)@.stats.connections_received < u64::MAX,
        ensures
            final(self)@ == old(self)@.after_read(stream@, result),
            action_views(actions@) == read_actions(stream@, result),
            final(self).wf(),
    {
        let fd = stream.as_fd();
        match result {
            Ok(_) => {
                let mut stream = stream;
                let frames = stream.drain_rx_queue();
                let tasks = route_all(fd, frames);
                let actions = submit_all(tasks);
                self.add_stream_to_master_list(stream);
                actions
            },
            Err(_) => {
                let mut actions: Vec<Action> = Vec::new();
                actions.push(Action::Deregister { fd });
                let close = self.close_fd(fd);
                actions.push(close);
                actions.push(Action::Submit { task: Task::NotifyClosed { fd } });
                assert(action_views(actions@) =~= closing(fd));
                actions
            },
        }
    }
}

} // verus!
