//! The list of live connections, found by their descriptor. No descriptor
//! is listed twice; the order of the list is the order in which the
//! connections were listed last and means nothing else.

use crate::stream::{Stream, StreamView};
use vstd::prelude::*;

verus! {

/// Whether `streams` lists a connection on `fd`.
pub open spec fn lists(streams: Seq<StreamView>, fd: i32) -> bool {
    exists|i: int| 0 <= i < streams.len() && (#[trigger] streams[i]).fd == fd
}

/// Where `streams` lists the connection on `fd`.
pub open spec fn place(streams: Seq<StreamView>, fd: i32) -> int
    recommends
        lists(streams, fd),
{
    choose|i: int| 0 <= i < streams.len() && (#[trigger] streams[i]).fd == fd
}

/// Whether no descriptor is listed twice.
pub open spec fn distinct(streams: Seq<StreamView>) -> bool {
    forall|i: int, j: int|
        0 <= i < j < streams.len() ==> (#[trigger] streams[i]).fd != (#[trigger] streams[j]).fd
}

/// `streams` without the connection on `fd`.
pub open spec fn without(streams: Seq<StreamView>, fd: i32) -> Seq<StreamView> {
    if lists(streams, fd) {
        streams.remove(place(streams, fd))
    } else {
        streams
    }
}

/// In a list without doubles, a descriptor is found at one place only.
pub proof fn lemma_place_unique(streams: Seq<StreamView>, fd: i32, i: int)
    requires
        distinct(streams),
        0 <= i < streams.len(),
        streams[i].fd == fd,
    ensures
        lists(streams, fd),
        place(streams, fd) == i,
{
}

/// Striking a connection off a list without doubles leaves a list without
/// doubles that no longer lists its descriptor, and lists every other
/// descriptor as before.
pub proof fn lemma_without(streams: Seq<StreamView>, fd: i32)
    requires
        distinct(streams),
    ensures
        distinct(without(streams, fd)),
        !lists(without(streams, fd), fd),
        forall|other: i32|
            other != fd ==> (#[trigger] lists(without(streams, fd), other) <==> lists(
                streams,
                other,
            )),
        lists(streams, fd) ==> without(streams, fd).len() == streams.len() - 1,
{
    let rest = without(streams, fd);
    if lists(streams, fd) {
        let at = place(streams, fd);
        assert forall|i: int| 0 <= i < rest.len() implies (#[trigger] rest[i]).fd != fd by {
            if i < at {
                assert(rest[i] == streams[i]);
            } else {
                assert(rest[i] == streams[i + 1]);
            }
        }
        assert forall|other: i32| other != fd implies (#[trigger] lists(rest, other) <==> lists(
            streams,
            other,
        )) by {
            if lists(streams, other) {
                let k = place(streams, other);
                if k < at {
                    assert(rest[k].fd == other);
                } else {
                    assert(rest[k - 1] == streams[k]);
                    assert(rest[k - 1].fd == other);
                }
            }
            if lists(rest, other) {
                let k = place(rest, other);
                if k < at {
                    assert(streams[k].fd == other);
                } else {
                    assert(streams[k + 1] == rest[k]);
                    assert(streams[k + 1].fd == other);
                }
            }
        }
    }
}

/// Listing a connection whose descriptor is not yet listed keeps the list
/// without doubles.
pub proof fn lemma_push(streams: Seq<StreamView>, s: StreamView)
    requires
        distinct(streams),
        !lists(streams, s.fd),
    ensures
        distinct(streams.push(s)),
        lists(streams.push(s), s.fd),
        forall|other: i32|
            other != s.fd ==> (#[trigger] lists(streams.push(s), other) <==> lists(streams, other)),
{
    let more = streams.push(s);
    assert(more[streams.len() as int].fd == s.fd);
    assert forall|other: i32| other != s.fd implies (#[trigger] lists(more, other) <==> lists(
        streams,
        other,
    )) by {
        if lists(streams, other) {
            let k = place(streams, other);
            assert(more[k].fd == other);
        }
        if lists(more, other) {
            let k = place(more, other);
            assert(streams[k].fd == other);
        }
    }
}

/// The live connections.
#[derive(Debug)]
pub struct Registry {
    streams: Vec<Stream>,
}

impl View for Registry {
    type V = Seq<StreamView>;

    closed spec fn view(&self) -> Seq<StreamView> {
        Seq::new(self.streams@.len(), |i: int| self.streams@[i]@)
    }
}

impl Registry {
    /// Whether the list is in order: no descriptor is listed twice.
    pub open spec fn wf(&self) -> bool {
        distinct(self@)
    }

    /// A list without connections.
    pub fn new() -> (r: Registry)
        ensures
            r@ == Seq::<StreamView>::empty(),
            r.wf(),
    {
        let r = Registry { streams: Vec::new() };
        assert(r@ =~= Seq::<StreamView>::empty());
        r
    }

    /// The number of live connections.
    pub fn len(&self) -> (n: usize)
        ensures
            n == self@.len(),
    {
        self.streams.len()
    }

    /// The place of the connection on `fd` in the list, or the length of
    /// the list where it is not listed.
    fn find(&self, fd: i32) -> (at: usize)
        ensures
            at <= self@.len(),
            at < self@.len() ==> self@[at as int].fd == fd,
            at == self@.len() ==> !lists(self@, fd),
            forall|k: int| 0 <= k < at ==> (#[trigger] self@[k]).fd != fd,
    {
        let mut at: usize = 0;
        while at < self.streams.len()
            invariant
                at <= self.streams@.len(),
                self@.len() == self.streams@.len(),
                forall|k: int| 0 <= k < at ==> (#[trigger] self@[k]).fd != fd,
            decreases self.streams@.len() - at,
        {
            if self.streams[at].as_fd() == fd {
                assert(self@[at as int] == self.streams@[at as int]@);
                return at;
            }
            assert(self@[at as int] == self.streams@[at as int]@);
            at = at + 1;
        }
        at
    }

    /// Whether a connection on `fd` is listed.
    pub fn contains(&self, fd: i32) -> (b: bool)
        ensures
            b == lists(self@, fd),
    {
        let at = self.find(fd);
        at < self.streams.len()
    }

    /// Lists `stream`. Its descriptor must not be listed already: a
    /// descriptor is not used again while its connection is live.
    pub fn insert(&mut self, stream: Stream)
        requires
            old(self).wf(),
            !lists(old(self)@, stream@.fd),
        ensures
            final(self)@ == old(self)@.push(stream@),
            final(self).wf(),
    {
        proof {
            lemma_push(self@, stream@);
        }
        self.streams.push(stream);
        assert(self@ =~= old(self)@.push(stream@));
    }

    /// Takes the connection on `fd` off the list and hands it out, so that
    /// it can be worked on while the list is free for others.
    pub fn take(&mut self, fd: i32) -> (taken: Option<Stream>)
        requires
            old(self).wf(),
        ensures
            final(self).wf(),
            final(self)@ == without(old(self)@, fd),
            lists(old(self)@, fd) ==> taken.is_some() && taken.unwrap()@ == old(self)@[place(
                old(self)@,
                fd,
            )],
            !lists(old(self)@, fd) ==> taken.is_none(),
    {
        let at = self.find(fd);
        proof {
            lemma_without(self@, fd);
        }
        if at < self.streams.len() {
            proof {
                lemma_place_unique(self@, fd, at as int);
            }
            let stream = self.streams.remove(at);
            assert(self@ =~= old(self)@.remove(at as int));
            Some(stream)
        } else {
            None
        }
    }

    /// Lists a connection again that `take` has handed out.
    pub fn put_back(&mut self, stream: Stream)
        requires
            old(self).wf(),
            !lists(old(self)@, stream@.fd),
        ensures
            final(self)@ == old(self)@.push(stream@),
            final(self).wf(),
    {
        self.insert(stream)
    }

    /// Strikes the connection on `fd` off the list and says whether there
    /// was one.
    pub fn remove(&mut self, fd: i32) -> (found: bool)
        requires
            old(self).wf(),
        ensures
            final(self).wf(),
            final(self)@ == without(old(self)@, fd),
            found == lists(old(self)@, fd),
    {
        self.take(fd).is_some()
    }
}

} // verus!
