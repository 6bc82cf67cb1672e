//! What the server exchanges with the readiness facility of the kernel:
//! the mask a connection is registered with, the events that come back,
//! and the reading of a system call's return value.

use vstd::prelude::*;

verus! {

/// Data can be read from the descriptor.
pub const READABLE: u32 = 0x001;

/// The descriptor is in an error state.
pub const ERROR: u32 = 0x008;

/// The peer has hung up.
pub const HANG_UP: u32 = 0x010;

/// Readiness is reported once for each change, not for as long as it
/// lasts.
pub const EDGE_TRIGGERED: u32 = 0x8000_0000;

/// The mask that every connection is registered with: readable, reported
/// on the edge.
pub const REGISTRATION: u32 = 0x8000_0001;

/// The timeout that lets a wait block until an event arrives.
pub const WAIT_FOREVER: i32 = -1;

/// The number of events that one wait takes at most, unless configured.
pub const DEFAULT_BATCH: usize = 100;

/// A readiness event: the descriptor it is for and what is ready on it.
#[derive(Clone, Copy, Debug, PartialEq, Eq)]
pub struct Event {
    /// The descriptor.
    pub fd: i32,
    /// The set of conditions, one bit each.
    pub mask: u32,
}

impl Event {
    /// Whether the event says that the descriptor can be read.
    pub open spec fn readable(self) -> bool {
        self.mask & READABLE != 0
    }

    /// Whether the event says that the descriptor can be read.
    pub fn is_readable(&self) -> (b: bool)
        ensures
            b == self.readable(),
    {
        self.mask & READABLE != 0
    }

    /// The event that the kernel reported as the mask `events` and the
    /// user data `data`: the descriptor is the low 32 bits of the data.
    pub fn from_raw(events: u32, data: u64) -> (e: Event)
        ensures
            e.mask == events,
            e.fd == data as i32,
    {
        Event { fd: #[verifier::truncate] (data as i32), mask: events }
    }
}

/// The user data under which the descriptor `fd` is registered.
pub fn registration_data(fd: i32) -> (data: u64)
    ensures
        data == fd as u64,
        data as i32 == fd,
{
    let data: u64 = #[verifier::truncate] (fd as u64);
    assert((fd as u64) as i32 == fd) by (bit_vector);
    data
}

/// Readable data decides alone. The registration mask asks for readable
/// events on the edge; an event that reports readable data is taken as
/// readable whatever else it reports; and an event that reports nothing
/// but a hang-up or an error is not.
pub proof fn law_readable_decides(fd: i32, mask: u32)
    ensures
        REGISTRATION == EDGE_TRIGGERED | READABLE,
        (Event { fd, mask: mask | READABLE }).readable(),
        !(Event { fd, mask: mask & (HANG_UP | ERROR) }).readable(),
{
    assert(0x8000_0001u32 == 0x8000_0000u32 | 0x001u32) by (bit_vector);
    assert((mask | 0x001u32) & 0x001u32 != 0) by (bit_vector);
    assert((mask & (0x010u32 | 0x008u32)) & 0x001u32 == 0) by (bit_vector);
}

/// The size of the event buffer for a configured batch size: the default
/// where none is configured, and no more than a wait can be asked for.
pub fn batch_size(configured: usize) -> (size: usize)
    ensures
        configured == 0 ==> size == DEFAULT_BATCH,
        0 < configured <= i32::MAX ==> size == configured,
        configured > i32::MAX ==> size == i32::MAX,
{
    if configured == 0 {
        DEFAULT_BATCH
    } else if configured > 0x7fff_ffff {
        0x7fff_ffff
    } else {
        configured
    }
}

/// Reads the return value of a system call: a negative value is a
/// failure, reported as the error number that was current; any other
/// value is the call's result.
pub fn check_return(ret: i32, errno: i32) -> (r: Result<usize, i32>)
    ensures
        ret < 0 ==> r == Err::<usize, i32>(errno),
        ret >= 0 ==> r == Ok::<usize, i32>(ret as usize),
{
    if ret < 0 {
        Err(errno)
    } else {
        Ok(ret as usize)
    }
}

/// The events that a wait has written: the first `written` slots of the
/// buffer it was given, and all of them where it claims more.
pub fn ready_events(buf: Vec<Event>, written: usize) -> (events: Vec<Event>)
    ensures
        written <= buf@.len() ==> events@ == buf@.take(written as int),
        written > buf@.len() ==> events@ == buf@,
{
    let mut events = buf;
    if written <= events.len() {
        events.truncate(written);
        assert(events@ =~= buf@.take(written as int));
    }
    events
}

} // verus!
