//! What the readiness loop hands to the workers: one task per message, in
//! the order of arrival, and the in-band request for statistics that is
//! answered instead of being delivered.

use crate::frame::contents;
use vstd::prelude::*;

verus! {

/// The length of a request for statistics.
pub const STATS_REQUEST_LEN: usize = 6;

/// The byte that a request for statistics starts with, twice.
pub const STATS_MARK: u8 = 0x04;

/// A unit of work for a worker.
#[derive(Clone, Debug, PartialEq, Eq)]
pub enum Task {
    /// Hand `payload` to the application, with the connection on `fd`.
    Deliver { fd: i32, payload: Vec<u8> },
    /// Tell the application that the connection on `fd` has been closed.
    NotifyClosed { fd: i32 },
    /// Serialise the statistics of the last `window` seconds and send
    /// them on `fd`. `window` holds the bits of a 32-bit IEEE-754 number.
    EmitStats { fd: i32, window: u32 },
}

/// The mathematical content of a `Task`.
pub enum TaskView {
    Deliver { fd: i32, payload: Seq<u8> },
    NotifyClosed { fd: i32 },
    EmitStats { fd: i32, window: u32 },
}

impl View for Task {
    type V = TaskView;

    open spec fn view(&self) -> TaskView {
        match *self {
            Task::Deliver { fd, payload } => TaskView::Deliver { fd, payload: payload@ },
            Task::NotifyClosed { fd } => TaskView::NotifyClosed { fd },
            Task::EmitStats { fd, window } => TaskView::EmitStats { fd, window },
        }
    }
}

/// Whether `payload` is a request for statistics: six bytes, of which the
/// first two are the mark.
pub open spec fn is_stats_request(payload: Seq<u8>) -> bool {
    payload.len() == STATS_REQUEST_LEN && payload[0] == STATS_MARK && payload[1] == STATS_MARK
}

/// The window of a request for statistics: its last four bytes read as a
/// 32-bit number, lowest byte first.
pub open spec fn stats_window(payload: Seq<u8>) -> int
    recommends
        is_stats_request(payload),
{
    payload[2] as int + payload[3] as int * 0x100 + payload[4] as int * 0x1_0000 + payload[5] as int
        * 0x100_0000
}

/// The task that a message received on `fd` becomes.
pub open spec fn routed(fd: i32, payload: Seq<u8>) -> TaskView {
    if is_stats_request(payload) {
        TaskView::EmitStats { fd, window: stats_window(payload) as u32 }
    } else {
        TaskView::Deliver { fd, payload }
    }
}

/// The tasks that the messages received on `fd` become, one for each, in
/// their order.
pub open spec fn routed_all(fd: i32, payloads: Seq<Seq<u8>>) -> Seq<TaskView> {
    Seq::new(payloads.len(), |i: int| routed(fd, payloads[i]))
}

/// The content of each task of `tasks`.
pub open spec fn task_views(tasks: Seq<Task>) -> Seq<TaskView> {
    Seq::new(tasks.len(), |i: int| tasks[i]@)
}

/// The payloads that `tasks` deliver to the application, in their order.
pub open spec fn delivered(tasks: Seq<TaskView>) -> Seq<Seq<u8>>
    decreases tasks.len(),
{
    if tasks.len() == 0 {
        Seq::empty()
    } else {
        match tasks.last() {
            TaskView::Deliver { fd, payload } => delivered(tasks.drop_last()).push(payload),
            _ => delivered(tasks.drop_last()),
        }
    }
}

/// The messages among `payloads` that are meant for the application:
/// those that are no request for statistics, in their order.
pub open spec fn for_application(payloads: Seq<Seq<u8>>) -> Seq<Seq<u8>>
    decreases payloads.len(),
{
    if payloads.len() == 0 {
        Seq::empty()
    } else if is_stats_request(payloads.last()) {
        for_application(payloads.drop_last())
    } else {
        for_application(payloads.drop_last()).push(payloads.last())
    }
}

/// Tells a request for statistics from a message for the application.
pub fn check_stats_request(payload: &Vec<u8>) -> (b: bool)
    ensures
        b == is_stats_request(payload@),
{
    payload.len() == STATS_REQUEST_LEN && payload[0] == STATS_MARK && payload[1] == STATS_MARK
}

/// Reads the window out of a request for statistics; `None` where
/// `payload` is no such request.
pub fn read_stats_window(payload: &Vec<u8>) -> (window: Option<u32>)
    ensures
        is_stats_request(payload@) ==> window.is_some() && window.unwrap() == stats_window(
            payload@,
        ),
        !is_stats_request(payload@) ==> window.is_none(),
{
    if check_stats_request(payload) {
        let b0: u32 = payload[2] as u32;
        let b1: u32 = payload[3] as u32;
        let b2: u32 = payload[4] as u32;
        let b3: u32 = payload[5] as u32;
        Some(b0 + b1 * 0x100 + b2 * 0x1_0000 + b3 * 0x100_0000)
    } else {
        None
    }
}

/// Turns a message received on `fd` into the task for it: a request for
/// statistics is answered, anything else is delivered unchanged.
pub fn route(fd: i32, payload: Vec<u8>) -> (task: Task)
    ensures
        task@ == routed(fd, payload@),
{
    match read_stats_window(&payload) {
        Some(window) => Task::EmitStats { fd, window },
        None => Task::Deliver { fd, payload },
    }
}

/// Turns the messages received on `fd` into tasks: exactly one for each
/// message, in the order of the messages.
pub fn route_all(fd: i32, payloads: Vec<Vec<u8>>) -> (tasks: Vec<Task>)
    ensures
        task_views(tasks@) == routed_all(fd, contents(payloads@)),
{
    let ghost all = contents(payloads@);
    let mut tasks: Vec<Task> = Vec::new();
    for payload in it: payloads
        invariant
            it.seq() == payloads@,
            all == contents(payloads@),
            tasks@.len() == it.index(),
            forall|k: int| 0 <= k < tasks@.len() ==> (#[trigger] tasks@[k])@ == routed(fd, all[k]),
    {
        assert(payload@ == all[tasks@.len() as int]);
        tasks.push(route(fd, payload));
    }
    assert(task_views(tasks@) =~= routed_all(fd, all));
    tasks
}

} // verus!
