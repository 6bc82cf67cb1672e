//! The server over time. An operation is an accepted connection led to
//! its end, or a readiness event handled to its end, with whatever the
//! I/O in between came to. This module says what an operation makes of
//! the shared state, and proves what holds after every sequence of them.

use crate::frame::{frames_of, remainder_of};
use crate::laws::{all_closes, closes, lemma_closing, lemma_submitted};
use crate::readiness::Event;
use crate::registry::{lemma_place_unique, lemma_push, lemma_without, without};
use crate::server::{closing, dropping, ended, next_step, read_actions, ActionView, Admission};
use crate::server::{ServerView, SocketOption, Step};
use crate::stream::{absorbed, step_after, ReadOutcome, RecvError, RecvStep, StreamView};
use crate::task::routed_all;
use vstd::prelude::*;

verus! {

/// What a receive makes of the stream `s` when its reads come to `reads`,
/// one after another: the stream after the last read that was taken in,
/// and the result, or `None` where the reads end before the receive does.
pub open spec fn receive(s: StreamView, reads: Seq<ReadOutcome>) -> (StreamView, Option<
    Result<(), RecvError>,
>)
    decreases reads.len(),
{
    if reads.len() == 0 {
        (s, None)
    } else {
        match step_after(s, reads[0]) {
            RecvStep::Done(result) => (absorbed(s, reads[0]), Some(result)),
            RecvStep::ReadAgain => receive(absorbed(s, reads[0]), reads.drop_first()),
        }
    }
}

/// The bytes of `chunks`, one chunk after another.
pub open spec fn joined(chunks: Seq<Vec<u8>>) -> Seq<u8>
    decreases chunks.len(),
{
    if chunks.len() == 0 {
        Seq::empty()
    } else {
        chunks[0]@ + joined(chunks.drop_first())
    }
}

/// The reads of a transport that holds `chunks` and then runs dry.
pub open spec fn reads_dry(chunks: Seq<Vec<u8>>) -> Seq<ReadOutcome> {
    Seq::new(chunks.len(), |i: int| ReadOutcome::Data(chunks[i])).push(ReadOutcome::WouldBlock)
}

/// A receive keeps the descriptor of its stream.
pub proof fn lemma_receive_keeps_fd(s: StreamView, reads: Seq<ReadOutcome>)
    ensures
        receive(s, reads).0.fd == s.fd,
    decreases reads.len(),
{
    if reads.len() > 0 {
        if step_after(s, reads[0]) is ReadAgain {
            lemma_receive_keeps_fd(absorbed(s, reads[0]), reads.drop_first());
        }
    }
}

/// A receive reads the transport dry: whatever the transport holds when
/// the event arrives, in however many reads it hands it out, all of it is
/// in the receive buffer when the receive ends, and the receive succeeds
/// if it has brought anything.
pub proof fn law_receive_reads_dry(s: StreamView, chunks: Seq<Vec<u8>>)
    requires
        forall|i: int| 0 <= i < chunks.len() ==> (#[trigger] chunks[i])@.len() > 0,
    ensures
        receive(s, reads_dry(chunks)).0.rx == s.rx + joined(chunks),
        receive(s, reads_dry(chunks)).1 == if chunks.len() > 0 || s.fresh {
            Some(Ok::<(), RecvError>(()))
        } else {
            Some(Err::<(), RecvError>(RecvError::WouldBlock))
        },
    decreases chunks.len(),
{
    let reads = reads_dry(chunks);
    if chunks.len() == 0 {
        assert(reads[0] == ReadOutcome::WouldBlock);
        assert(s.rx + joined(chunks) =~= s.rx);
    } else {
        assert(reads[0] == ReadOutcome::Data(chunks[0]));
        let rest = chunks.drop_first();
        assert(reads.drop_first() =~= reads_dry(rest));
        assert forall|i: int| 0 <= i < rest.len() implies (#[trigger] rest[i])@.len() > 0 by {
            assert(rest[i] == chunks[i + 1]);
        }
        law_receive_reads_dry(absorbed(s, reads[0]), rest);
        assert(s.rx + chunks[0]@ + joined(rest) =~= s.rx + joined(chunks));
    }
}

/// What becomes of the server and of the admission `adm` when the steps
/// of the admission come out as `outcomes`, one after another.
pub open spec fn led(s: ServerView, adm: Admission, outcomes: Seq<bool>) -> (
    ServerView,
    Admission,
)
    decreases outcomes.len(),
{
    if outcomes.len() == 0 || ended(adm.step) {
        (s, adm)
    } else {
        led(
            s.after_step(adm, outcomes[0]),
            Admission { fd: adm.fd, tls: adm.tls, step: next_step(adm, outcomes[0]) },
            outcomes.drop_first(),
        )
    }
}

/// The admission of a connection that has just been accepted.
pub open spec fn accepted(fd: i32, tls: bool) -> Admission {
    Admission { fd, tls, step: Step::Configure(SocketOption::Nonblocking) }
}

/// One operation on the server, with what the I/O inside it came to.
pub enum Op {
    /// A connection accepted on `fd`; the steps of its admission came out
    /// as `outcomes`.
    Accept { fd: i32, tls: bool, outcomes: Seq<bool> },
    /// A readiness event; the reads of the receive, if there was one,
    /// came to `reads`.
    Event { event: Event, reads: Seq<ReadOutcome> },
}

/// Whether `op` can happen on `s` and runs to its end: an accepted
/// descriptor is not that of a live connection, the outcomes lead the
/// admission to its end, and the reads lead the receive to its end.
pub open spec fn complete(s: ServerView, op: Op) -> bool {
    match op {
        Op::Accept { fd, tls, outcomes } => !s.lists(fd) && ended(
            led(s.opened(), accepted(fd, tls), outcomes).1.step,
        ),
        Op::Event { event, reads } => s.lists(event.fd) && event.readable() ==> receive(
            s.stream(event.fd),
            reads,
        ).1 is Some,
    }
}

/// Whether `op` is about a descriptor that the server can know: every
/// event is for a listed connection.
pub open spec fn known(s: ServerView, op: Op) -> bool {
    match op {
        Op::Accept { fd, tls, outcomes } => true,
        Op::Event { event, reads } => s.lists(event.fd),
    }
}

/// The server after `op`.
pub open spec fn apply(s: ServerView, op: Op) -> ServerView {
    match op {
        Op::Accept { fd, tls, outcomes } => led(s.opened(), accepted(fd, tls), outcomes).0,
        Op::Event { event, reads } => if s.lists(event.fd) && event.readable() {
            let got = receive(s.stream(event.fd), reads);
            s.after_event(event).after_read(got.0, got.1.unwrap())
        } else {
            s.after_event(event)
        },
    }
}

/// What `op` asks the listener and the loop to do, but for the I/O of the
/// admission and of the receive themselves.
pub open spec fn requests(s: ServerView, op: Op) -> Seq<ActionView> {
    match op {
        Op::Accept { fd, tls, outcomes } => if led(
            s.opened(),
            accepted(fd, tls),
            outcomes,
        ).1.step is Abandon {
            seq![ActionView::Close { fd }]
        } else {
            Seq::empty()
        },
        Op::Event { event, reads } => if s.lists(event.fd) && event.readable() {
            let got = receive(s.stream(event.fd), reads);
            read_actions(got.0, got.1.unwrap())
        } else {
            s.event_actions(event).unwrap()
        },
    }
}

/// The server after `ops`, one after another.
pub open spec fn run(s: ServerView, ops: Seq<Op>) -> ServerView
    decreases ops.len(),
{
    if ops.len() == 0 {
        s
    } else {
        run(apply(s, ops[0]), ops.drop_first())
    }
}

/// Whether each of `ops` is complete and known on the server that the
/// ones before it have left.
pub open spec fn orderly(s: ServerView, ops: Seq<Op>) -> bool
    decreases ops.len(),
{
    ops.len() > 0 ==> complete(s, ops[0]) && known(s, ops[0]) && orderly(
        apply(s, ops[0]),
        ops.drop_first(),
    )
}

/// Whether the counters account for the list: every descriptor that was
/// opened and not closed is that of a listed connection.
pub open spec fn balanced(s: ServerView) -> bool {
    s.stats.fds_opened - s.stats.fds_closed == s.streams.len()
}

/// How far an admission that began on `base` has come, as `s` and `adm`:
/// the descriptor is counted as opened; it is on the list from the moment
/// its registration is asked for; and it is counted as closed, and off
/// the list, once it is given up.
pub open spec fn on_the_way(base: ServerView, s: ServerView, adm: Admission) -> bool {
    &&& s.stats.fds_opened == base.stats.fds_opened + 1
    &&& match adm.step {
        Step::Register | Step::Serve => s.streams == base.streams.push(
            StreamView { fd: adm.fd, rx: Seq::empty(), fresh: false },
        ) && s.stats.fds_closed == base.stats.fds_closed,
        Step::Abandon => s.streams == base.streams && s.stats.fds_closed == base.stats.fds_closed
            + 1,
        _ => s.streams == base.streams && s.stats.fds_closed == base.stats.fds_closed,
    }
}

/// Every step of an admission keeps it on its way.
pub proof fn lemma_led(base: ServerView, s: ServerView, adm: Admission, outcomes: Seq<bool>)
    requires
        base.wf(),
        !base.lists(adm.fd),
        on_the_way(base, s, adm),
    ensures
        on_the_way(base, led(s, adm, outcomes).0, led(s, adm, outcomes).1),
        led(s, adm, outcomes).1.fd == adm.fd,
    decreases outcomes.len(),
{
    if outcomes.len() == 0 || ended(adm.step) {
    } else {
        let ok = outcomes[0];
        let next = Admission { fd: adm.fd, tls: adm.tls, step: next_step(adm, ok) };
        let after = s.after_step(adm, ok);
        let new = StreamView { fd: adm.fd, rx: Seq::empty(), fresh: false };
        if adm.step is Register && !ok {
            lemma_push(base.streams, new);
            lemma_place_unique(s.streams, adm.fd, base.streams.len() as int);
            assert(without(s.streams, adm.fd) =~= base.streams);
        }
        assert(on_the_way(base, after, next));
        lemma_led(base, after, next, outcomes.drop_first());
    }
}

/// An operation that is complete and known keeps the list in order and
/// the counters in balance.
pub proof fn lemma_apply_balanced(s: ServerView, op: Op)
    requires
        s.wf(),
        balanced(s),
        complete(s, op),
        known(s, op),
    ensures
        apply(s, op).wf(),
        balanced(apply(s, op)),
{
    match op {
        Op::Accept { fd, tls, outcomes } => {
            lemma_led(s, s.opened(), accepted(fd, tls), outcomes);
            lemma_push(s.streams, StreamView { fd, rx: Seq::empty(), fresh: false });
        },
        Op::Event { event, reads } => {
            lemma_without(s.streams, event.fd);
            if event.readable() {
                let got = receive(s.stream(event.fd), reads);
                lemma_receive_keeps_fd(s.stream(event.fd), reads);
                if got.1.unwrap() is Ok {
                    let back = StreamView {
                        fd: got.0.fd,
                        rx: remainder_of(got.0.rx),
                        fresh: got.0.fresh,
                    };
                    lemma_push(without(s.streams, event.fd), back);
                }
            }
        },
    }
}

/// At every quiescent moment the descriptors opened and not closed are
/// exactly the listed connections: after any sequence of operations that
/// have run to their end, on known descriptors, the counters of opened
/// and closed descriptors differ by the length of the list.
pub proof fn law_balance(s: ServerView, ops: Seq<Op>)
    requires
        s.wf(),
        balanced(s),
        orderly(s, ops),
    ensures
        run(s, ops).wf(),
        balanced(run(s, ops)),
        run(s, ops).stats.fds_opened - run(s, ops).stats.fds_closed == run(s, ops).streams.len(),
    decreases ops.len(),
{
    if ops.len() > 0 {
        lemma_apply_balanced(s, ops[0]);
        law_balance(apply(s, ops[0]), ops.drop_first());
    }
}

/// A server that starts without connections is in order and in balance.
pub proof fn law_balance_from_start(ops: Seq<Op>)
    requires
        orderly(ServerView::fresh(), ops),
    ensures
        balanced(run(ServerView::fresh(), ops)),
{
    law_balance(ServerView::fresh(), ops);
}

/// The end of another connection asks for no close of `fd`.
pub proof fn lemma_closes_other(other: i32, fd: i32)
    requires
        other != fd,
    ensures
        closes(closing(other), fd) == 0,
        closes(dropping(other), fd) == 0,
{
    let c = closing(other);
    let c2 = c.drop_last();
    let c1 = c2.drop_last();
    assert(c1.drop_last().len() == 0);
    assert(closes(c1.drop_last(), fd) == 0);
    assert(c1.last() == (ActionView::Deregister { fd: other }));
    assert(closes(c1, fd) == 0);
    assert(c2.last() == (ActionView::Close { fd: other }));
    assert(closes(c2, fd) == 0);
    let d = dropping(other);
    let d1 = d.drop_last();
    assert(d1.drop_last().len() == 0);
    assert(closes(d1.drop_last(), fd) == 0);
    assert(d1.last() == (ActionView::Deregister { fd: other }));
    assert(closes(d1, fd) == 0);
    assert(d.last() == (ActionView::Close { fd: other }));
}

/// Every live connection is closed exactly once. Across any operation
/// that runs to its end, a listed connection either stays listed, and no
/// close of its descriptor is asked for; or it leaves the list, and then
/// the close of its descriptor is asked for exactly once and counted
/// exactly once.
pub proof fn law_stays_or_closes_once(s: ServerView, op: Op, fd: i32)
    requires
        s.wf(),
        complete(s, op),
        s.lists(fd),
    ensures
        apply(s, op).wf(),
        apply(s, op).lists(fd) ==> closes(requests(s, op), fd) == 0,
        !apply(s, op).lists(fd) ==> closes(requests(s, op), fd) == 1 && apply(
            s,
            op,
        ).stats.fds_closed == s.stats.fds_closed + 1,
{
    match op {
        Op::Accept { fd: other, tls, outcomes } => {
            let new = StreamView { fd: other, rx: Seq::empty(), fresh: false };
            lemma_led(s, s.opened(), accepted(other, tls), outcomes);
            lemma_push(s.streams, new);
            let r = requests(s, op);
            if r.len() > 0 {
                assert(r.drop_last().len() == 0);
                assert(closes(r.drop_last(), fd) == 0);
                assert(r.last() == (ActionView::Close { fd: other }));
            }
        },
        Op::Event { event, reads } => {
            let other = event.fd;
            lemma_without(s.streams, other);
            if other != fd {
                lemma_closes_other(other, fd);
            } else {
                lemma_closing(fd);
            }
            if s.lists(other) && event.readable() {
                let got = receive(s.stream(other), reads);
                lemma_receive_keeps_fd(s.stream(other), reads);
                if got.1.unwrap() is Ok {
                    let back = StreamView {
                        fd: got.0.fd,
                        rx: remainder_of(got.0.rx),
                        fresh: got.0.fresh,
                    };
                    lemma_push(without(s.streams, other), back);
                    lemma_submitted(routed_all(other, frames_of(got.0.rx)), fd);
                }
            }
        },
    }
}

/// Every close that is asked for is counted: across any operation that
/// runs to its end, the counter of closed descriptors rises by the number
/// of closes that the operation asks for.
pub proof fn law_closes_counted(s: ServerView, op: Op)
    requires
        s.wf(),
        complete(s, op),
    ensures
        apply(s, op).stats.fds_closed == s.stats.fds_closed + all_closes(requests(s, op)),
{
    match op {
        Op::Accept { fd, tls, outcomes } => {
            lemma_led(s, s.opened(), accepted(fd, tls), outcomes);
            let r = requests(s, op);
            if r.len() > 0 {
                assert(r.drop_last().len() == 0);
                assert(all_closes(r.drop_last()) == 0);
                assert(r.last() == (ActionView::Close { fd }));
            }
        },
        Op::Event { event, reads } => {
            let fd = event.fd;
            lemma_closing(fd);
            let d = dropping(fd);
            let d1 = d.drop_last();
            assert(d1.drop_last().len() == 0);
            assert(all_closes(d1.drop_last()) == 0);
            assert(d1.last() == (ActionView::Deregister { fd }));
            assert(all_closes(d1) == 0);
            assert(d.last() == (ActionView::Close { fd }));
            if s.lists(fd) && event.readable() {
                let got = receive(s.stream(fd), reads);
                lemma_receive_keeps_fd(s.stream(fd), reads);
                if got.1.unwrap() is Ok {
                    lemma_submitted(routed_all(fd, frames_of(got.0.rx)), fd);
                }
            }
        },
    }
}

/// What `ops` ask for, one after another, on the server that the ones
/// before have left.
pub open spec fn all_requests(s: ServerView, ops: Seq<Op>) -> Seq<ActionView>
    decreases ops.len(),
{
    if ops.len() == 0 {
        Seq::empty()
    } else {
        requests(s, ops[0]) + all_requests(apply(s, ops[0]), ops.drop_first())
    }
}

/// How often `ops` accept a connection on `fd`.
pub open spec fn accepts(ops: Seq<Op>, fd: i32) -> nat
    decreases ops.len(),
{
    if ops.len() == 0 {
        0
    } else if ops[0] is Accept && ops[0]->Accept_fd == fd {
        accepts(ops.drop_first(), fd) + 1
    } else {
        accepts(ops.drop_first(), fd)
    }
}

/// One if the server lists a connection on `fd`, zero if not.
pub open spec fn live(s: ServerView, fd: i32) -> nat {
    if s.lists(fd) {
        1
    } else {
        0
    }
}

/// The closes of two runs of requests add up.
pub proof fn lemma_closes_add(a: Seq<ActionView>, b: Seq<ActionView>, fd: i32)
    ensures
        closes(a + b, fd) == closes(a, fd) + closes(b, fd),
    decreases b.len(),
{
    if b.len() == 0 {
        assert(a + b =~= a);
    } else {
        lemma_closes_add(a, b.drop_last(), fd);
        assert((a + b).drop_last() =~= a + b.drop_last());
        assert((a + b).last() == b.last());
    }
}

/// Across one operation, a descriptor that is accepted and not closed
/// becomes live, one that is live and closed ceases to be, and nothing
/// else changes whether it is.
pub proof fn lemma_apply_accounts(s: ServerView, op: Op, fd: i32)
    requires
        s.wf(),
        complete(s, op),
        known(s, op),
    ensures
        apply(s, op).wf(),
        live(s, fd) + accepts(seq![op], fd) == live(apply(s, op), fd) + closes(requests(s, op), fd),
{
    let one = seq![op];
    assert(one.drop_first().len() == 0);
    assert(accepts(one.drop_first(), fd) == 0);
    assert(one[0] == op);
    if s.lists(fd) {
        if op is Accept {
            assert(op->Accept_fd != fd);
        }
        law_stays_or_closes_once(s, op, fd);
    } else {
        match op {
            Op::Accept { fd: other, tls, outcomes } => {
                let new = StreamView { fd: other, rx: Seq::empty(), fresh: false };
                lemma_led(s, s.opened(), accepted(other, tls), outcomes);
                lemma_push(s.streams, new);
                let r = requests(s, op);
                if r.len() > 0 {
                    assert(r.drop_last().len() == 0);
                    assert(closes(r.drop_last(), fd) == 0);
                    assert(r.last() == (ActionView::Close { fd: other }));
                }
            },
            Op::Event { event, reads } => {
                let other = event.fd;
                lemma_without(s.streams, other);
                lemma_closes_other(other, fd);
                if event.readable() {
                    let got = receive(s.stream(other), reads);
                    lemma_receive_keeps_fd(s.stream(other), reads);
                    if got.1.unwrap() is Ok {
                        let back = StreamView {
                            fd: got.0.fd,
                            rx: remainder_of(got.0.rx),
                            fresh: got.0.fresh,
                        };
                        lemma_push(without(s.streams, other), back);
                        lemma_submitted(routed_all(other, frames_of(got.0.rx)), fd);
                    }
                }
            },
        }
    }
}

/// Every descriptor that is handed to the server is closed exactly once,
/// unless its connection is live. After any sequence of operations that
/// have run to their end, on known descriptors, each descriptor has been
/// accepted as often as its close has been asked for, and once more if
/// its connection is on the list: no close is asked for twice, and none
/// is forgotten.
pub proof fn law_closed_exactly_once(s: ServerView, ops: Seq<Op>, fd: i32)
    requires
        s.wf(),
        orderly(s, ops),
    ensures
        run(s, ops).wf(),
        live(s, fd) + accepts(ops, fd) == live(run(s, ops), fd) + closes(all_requests(s, ops), fd),
    decreases ops.len(),
{
    if ops.len() > 0 {
        let op = ops[0];
        let rest = ops.drop_first();
        lemma_apply_accounts(s, op, fd);
        law_closed_exactly_once(apply(s, op), rest, fd);
        lemma_closes_add(requests(s, op), all_requests(apply(s, op), rest), fd);
        let one = seq![op];
        assert(one.drop_first().len() == 0);
        assert(accepts(one.drop_first(), fd) == 0);
        assert(one[0] == op);
    } else {
        assert(closes(all_requests(s, ops), fd) == 0);
    }
}

} // verus!
