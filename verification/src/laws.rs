//! The laws of routing and delivery: what the messages of a connection
//! become, whatever the network does.

use crate::frame::{frames_of, law_chunking, remainder_of};
use crate::server::{closing, read_actions, submitting, ActionView};
use crate::stream::{RecvError, StreamView};
use crate::task::{delivered, for_application, is_stats_request, routed, routed_all, TaskView};
use vstd::prelude::*;

verus! {

/// The tasks among `actions` that are handed to the workers, in order.
pub open spec fn submitted(actions: Seq<ActionView>) -> Seq<TaskView>
    decreases actions.len(),
{
    if actions.len() == 0 {
        Seq::empty()
    } else {
        match actions.last() {
            ActionView::Submit { task } => submitted(actions.drop_last()).push(task),
            _ => submitted(actions.drop_last()),
        }
    }
}

/// How often `tasks` tell the application that the connection on `fd`
/// has been closed.
pub open spec fn notices(tasks: Seq<TaskView>, fd: i32) -> nat
    decreases tasks.len(),
{
    if tasks.len() == 0 {
        0
    } else if tasks.last() == (TaskView::NotifyClosed { fd }) {
        notices(tasks.drop_last(), fd) + 1
    } else {
        notices(tasks.drop_last(), fd)
    }
}

/// How often `actions` ask to close `fd`.
pub open spec fn closes(actions: Seq<ActionView>, fd: i32) -> nat
    decreases actions.len(),
{
    if actions.len() == 0 {
        0
    } else if actions.last() == (ActionView::Close { fd }) {
        closes(actions.drop_last(), fd) + 1
    } else {
        closes(actions.drop_last(), fd)
    }
}

/// How often `actions` ask to close a descriptor, whichever it is.
pub open spec fn all_closes(actions: Seq<ActionView>) -> nat
    decreases actions.len(),
{
    if actions.len() == 0 {
        0
    } else if actions.last() is Close {
        all_closes(actions.drop_last()) + 1
    } else {
        all_closes(actions.drop_last())
    }
}

/// Submitting tasks hands over exactly those tasks, and closes nothing.
pub proof fn lemma_submitted(tasks: Seq<TaskView>, fd: i32)
    ensures
        submitted(submitting(tasks)) == tasks,
        closes(submitting(tasks), fd) == 0,
        all_closes(submitting(tasks)) == 0,
    decreases tasks.len(),
{
    if tasks.len() == 0 {
        assert(submitted(submitting(tasks)) =~= tasks);
    } else {
        lemma_submitted(tasks.drop_last(), fd);
        assert(submitting(tasks).drop_last() =~= submitting(tasks.drop_last()));
        assert(submitted(submitting(tasks)) =~= tasks);
    }
}

/// A request for statistics never reaches the application: of the tasks
/// that messages are routed to, those that deliver carry a payload that is
/// no such request, and every such request becomes a task that answers it.
pub proof fn law_stats_request_not_delivered(fd: i32, payloads: Seq<Seq<u8>>, i: int)
    requires
        0 <= i < payloads.len(),
    ensures
        routed_all(fd, payloads)[i] is Deliver ==> !is_stats_request(payloads[i]) && routed_all(
            fd,
            payloads,
        )[i] == (TaskView::Deliver { fd, payload: payloads[i] }),
        is_stats_request(payloads[i]) ==> routed_all(fd, payloads)[i] is EmitStats,
        !(routed_all(fd, payloads)[i] is NotifyClosed),
{
}

/// What routing delivers to the application is the messages that are no
/// request for statistics, unchanged and in their order; and routing tells
/// of no closed connection.
pub proof fn law_routing_delivers(fd: i32, payloads: Seq<Seq<u8>>, any: i32)
    ensures
        delivered(routed_all(fd, payloads)) == for_application(payloads),
        notices(routed_all(fd, payloads), any) == 0,
    decreases payloads.len(),
{
    if payloads.len() > 0 {
        law_routing_delivers(fd, payloads.drop_last(), any);
        assert(routed_all(fd, payloads).drop_last() =~= routed_all(fd, payloads.drop_last()));
        assert(routed_all(fd, payloads).last() == routed(fd, payloads.last()));
    }
}

/// Every message of a receive is accounted for. After a receive that
/// succeeded, each complete frame has exactly one task, in the order of
/// arrival; those for the application are delivered unchanged, and no
/// close is told. After a receive that failed, nothing is delivered, and
/// the close of the connection is asked for and told exactly once each.
pub proof fn law_messages_accounted(s: StreamView, result: Result<(), RecvError>)
    ensures
        result is Ok ==> submitted(read_actions(s, result)) == routed_all(s.fd, frames_of(s.rx))
            && delivered(submitted(read_actions(s, result))) == for_application(frames_of(s.rx))
            && notices(submitted(read_actions(s, result)), s.fd) == 0 && closes(
            read_actions(s, result),
            s.fd,
        ) == 0,
        result is Err ==> delivered(submitted(read_actions(s, result))) == Seq::<Seq<u8>>::empty()
            && notices(submitted(read_actions(s, result)), s.fd) == 1 && closes(
            read_actions(s, result),
            s.fd,
        ) == 1,
{
    if result is Ok {
        lemma_submitted(routed_all(s.fd, frames_of(s.rx)), s.fd);
        law_routing_delivers(s.fd, frames_of(s.rx), s.fd);
    } else {
        lemma_closing(s.fd);
    }
}

/// The end of a connection asks for its close once, tells the application
/// once, and delivers nothing.
pub proof fn lemma_closing(fd: i32)
    ensures
        submitted(closing(fd)) == seq![TaskView::NotifyClosed { fd }],
        delivered(submitted(closing(fd))) == Seq::<Seq<u8>>::empty(),
        notices(submitted(closing(fd)), fd) == 1,
        closes(closing(fd), fd) == 1,
        all_closes(closing(fd)) == 1,
{
    let c = closing(fd);
    let c2 = c.drop_last();
    let c1 = c2.drop_last();
    let c0 = c1.drop_last();
    assert(c0.len() == 0);
    assert(submitted(c0) =~= Seq::<TaskView>::empty());
    assert(closes(c0, fd) == 0);
    assert(c1.last() == (ActionView::Deregister { fd }));
    assert(c2.last() == (ActionView::Close { fd }));
    assert(submitted(c1) =~= Seq::<TaskView>::empty());
    assert(submitted(c2) =~= Seq::<TaskView>::empty());
    let t = submitted(c);
    assert(t =~= seq![TaskView::NotifyClosed { fd }]);
    assert(t.drop_last().len() == 0);
    assert(t.last() == (TaskView::NotifyClosed { fd }));
    assert(delivered(t.drop_last()) =~= Seq::<Seq<u8>>::empty());
    assert(notices(t.drop_last(), fd) == 0);
    assert(closes(c1, fd) == 0);
    assert(closes(c2, fd) == 1);
    assert(all_closes(c0) == 0);
    assert(all_closes(c1) == 0);
    assert(all_closes(c2) == 1);
}

/// Selecting the messages for the application goes through a split of the
/// messages into earlier and later ones.
pub proof fn lemma_for_application_add(a: Seq<Seq<u8>>, b: Seq<Seq<u8>>)
    ensures
        for_application(a + b) == for_application(a) + for_application(b),
    decreases b.len(),
{
    if b.len() == 0 {
        assert(a + b =~= a);
        assert(for_application(a) + for_application(b) =~= for_application(a));
    } else {
        lemma_for_application_add(a, b.drop_last());
        assert((a + b).drop_last() =~= a + b.drop_last());
        assert((a + b).last() == b.last());
        assert(for_application(a + b) =~= for_application(a) + for_application(b));
    }
}

/// On one connection, what has been delivered is always a prefix of what
/// the bytes on the wire hold. After a receive has brought the bytes `a`
/// and the frames in them were delivered, a receive that brings `b` adds
/// the deliveries that make up those of `a + b`; should it fail instead,
/// what was delivered stays a prefix of them.
pub proof fn law_delivery_prefix(a: Seq<u8>, b: Seq<u8>)
    ensures
        for_application(frames_of(a)) + for_application(frames_of(remainder_of(a) + b))
            == for_application(frames_of(a + b)),
        for_application(frames_of(a)).is_prefix_of(for_application(frames_of(a + b))),
{
    law_chunking(a, b);
    lemma_for_application_add(frames_of(a), frames_of(remainder_of(a) + b));
}

} // verus!
