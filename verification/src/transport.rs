//! The byte transport and the record of what was asked of it.
//!
//! A [`Transport`] is whatever moves bytes: a serial port, or an in-memory
//! buffer. Nothing is assumed of one. A [`Link`] owns a transport, checks what
//! comes back from it, and keeps a ghost record of every call it has made, in
//! order. The contracts of the codecs, the handshake and the command loop are
//! stated over that record. Where a transport says what its calls do, as the
//! in-memory one does, the contracts also say that the calls recorded took
//! the transport from what it was to what it is ([`Link::leads_to`]), so that
//! what was read and what is left follow from what was there. A link also remembers the byte order of the host,
//! which it asks of the machine once, when it is made: every frame in native
//! or in swapped order that goes over one link is laid out against that one
//! answer.

use crate::codec::{host_endianness, Endianness};
use vstd::prelude::*;

verus! {

/// Why a call on the transport failed.
#[derive(Clone, Copy, Debug, PartialEq, Eq, Structural)]
pub enum IoError {
    /// The transport's timeout ran out before the call was done.
    TimedOut,
    /// A non-blocking call could not proceed yet.
    WouldBlock,
    /// Fewer bytes came than were asked for.
    ShortRead,
    /// Fewer bytes were taken than were handed over.
    PartialWrite,
    /// More bytes came than the caller allowed for one frame.
    Overrun,
    /// Any other failure of the transport.
    Failed,
}

/// One call made on the transport, with what came back.
pub enum Exchange {
    /// An exact-length read of `len` bytes.
    Read { len: nat, reply: Result<Seq<u8>, IoError> },
    /// A write of all of `data`, with the error if it failed.
    Write { data: Seq<u8>, error: Option<IoError> },
    /// A flush.
    Flush { error: Option<IoError> },
    /// A change of the read and write timeout, in milliseconds.
    SetTimeout { millis: u64, error: Option<IoError> },
}

/// The capabilities that the library needs of a byte transport.
///
/// Nothing is assumed of a transport. Each method promises only what the
/// implementation itself says of it, through the spec function that goes
/// with the method; an implementation that says nothing leaves every outcome
/// open, and [`Link`] checks what the library needs.
pub trait Transport {
    /// What an exact-length read of `len` bytes may do: `after` is the
    /// transport after the call and `reply` what came back.
    open spec fn reads(&self, len: nat, after: &Self, reply: Result<Seq<u8>, IoError>) -> bool {
        true
    }

    /// What a write of all of `data` may do: `after` is the transport after
    /// the call and `error` the error, if it failed.
    open spec fn writes(&self, data: Seq<u8>, after: &Self, error: Option<IoError>) -> bool {
        true
    }

    /// What a flush may do.
    open spec fn flushes(&self, after: &Self, error: Option<IoError>) -> bool {
        true
    }

    /// What a change of the timeout may do.
    open spec fn sets_timeout(&self, millis: u64, after: &Self, error: Option<IoError>) -> bool {
        true
    }

    /// Blocks until `len` bytes have arrived and returns them.
    fn read_exact(&mut self, len: usize) -> (reply: Result<Vec<u8>, IoError>)
        ensures
            old(self).reads(len as nat, final(self), read_reply(reply)),
    ;

    /// Blocks until all of `data` has been handed over.
    fn write_all(&mut self, data: &[u8]) -> (status: Result<(), IoError>)
        ensures
            old(self).writes(data@, final(self), error_of(status)),
    ;

    /// Pushes out what the transport still buffers.
    fn flush(&mut self) -> (status: Result<(), IoError>)
        ensures
            old(self).flushes(final(self), error_of(status)),
    ;

    /// Sets the timeout of reads and writes, in milliseconds.
    fn set_timeout(&mut self, millis: u64) -> (status: Result<(), IoError>)
        ensures
            old(self).sets_timeout(millis, final(self), error_of(status)),
    ;
}

/// The error of a call that gives nothing back but its status, if it failed.
pub open spec fn error_of(status: Result<(), IoError>) -> Option<IoError> {
    match status {
        Ok(_) => None,
        Err(e) => Some(e),
    }
}

/// What a read gave, as plain values.
pub open spec fn read_reply(reply: Result<Vec<u8>, IoError>) -> Result<Seq<u8>, IoError> {
    match reply {
        Ok(bytes) => Ok(bytes@),
        Err(e) => Err(e),
    }
}

/// What the link makes of the reply to a read of `len` bytes: a reply of any
/// other length counts as a short read.
pub open spec fn checked(raw: Result<Seq<u8>, IoError>, len: nat) -> Result<Seq<u8>, IoError> {
    match raw {
        Ok(bytes) => if bytes.len() == len {
            Ok(bytes)
        } else {
            Err(IoError::ShortRead)
        },
        Err(e) => Err(e),
    }
}

/// Whether the call `call` can have taken the transport from `before` to
/// `after`, by what the transport says of itself.
pub open spec fn carried_out<T: Transport>(before: T, call: Exchange, after: T) -> bool {
    match call {
        Exchange::Read { len, reply } => exists|raw: Result<Seq<u8>, IoError>|
            #[trigger] before.reads(len, &after, raw) && reply == checked(raw, len),
        Exchange::Write { data, error } => before.writes(data, &after, error),
        Exchange::Flush { error } => before.flushes(&after, error),
        Exchange::SetTimeout { millis, error } => before.sets_timeout(millis, &after, error),
    }
}

/// Whether call number `i` of `calls`, counted from zero, can have taken the
/// transport from `states[i]` to `states[i + 1]`.
pub open spec fn carried_at<T: Transport>(calls: Seq<Exchange>, states: Seq<T>, i: int) -> bool {
    carried_out(states[i], calls[i], states[i + 1])
}

/// Whether `states` lays out the way of a transport through a run of calls:
/// it holds the transport before each call and after the last.
pub open spec fn laid_out<T: Transport>(
    before: T,
    calls: Seq<Exchange>,
    after: T,
    states: Seq<T>,
) -> bool {
    &&& states.len() == calls.len() + 1
    &&& states[0] == before
    &&& states.last() == after
    &&& forall|i: int| 0 <= i < calls.len() ==> #[trigger] carried_at(calls, states, i)
}

/// Whether the calls `calls`, in that order, can have taken the transport
/// from `before` to `after`, by what the transport says of itself.
pub open spec fn replayed<T: Transport>(before: T, calls: Seq<Exchange>, after: T) -> bool {
    exists|states: Seq<T>| #[trigger] laid_out(before, calls, after, states)
}

/// No call leaves the transport as it is.
pub proof fn lemma_replayed_none<T: Transport>(port: T)
    ensures
        replayed(port, Seq::<Exchange>::empty(), port),
{
    assert(laid_out(port, Seq::<Exchange>::empty(), port, seq![port]));
}

/// A run of calls followed by one more call is a run of calls.
pub proof fn lemma_replayed_push<T: Transport>(
    before: T,
    calls: Seq<Exchange>,
    mid: T,
    call: Exchange,
    after: T,
)
    requires
        replayed(before, calls, mid),
        carried_out(mid, call, after),
    ensures
        replayed(before, calls.push(call), after),
{
    let states = choose|states: Seq<T>| #[trigger] laid_out(before, calls, mid, states);
    let longer = states.push(after);
    let all = calls.push(call);
    assert forall|i: int| 0 <= i < all.len() implies #[trigger] carried_at(all, longer, i) by {
        if i < calls.len() {
            assert(carried_at(calls, states, i));
        }
    }
    assert(laid_out(before, all, after, longer));
}

/// A run of at least one call is its first call followed by the run of the
/// others.
pub proof fn lemma_replayed_first<T: Transport>(before: T, calls: Seq<Exchange>, after: T) -> (mid:
    T)
    requires
        replayed(before, calls, after),
        calls.len() > 0,
    ensures
        carried_out(before, calls[0], mid),
        replayed(mid, calls.drop_first(), after),
{
    let states = choose|states: Seq<T>| #[trigger] laid_out(before, calls, after, states);
    let rest = states.drop_first();
    let others = calls.drop_first();
    assert(carried_at(calls, states, 0));
    assert forall|i: int| 0 <= i < others.len() implies #[trigger] carried_at(others, rest, i) by {
        assert(carried_at(calls, states, i + 1));
    }
    assert(laid_out(states[1], others, after, rest));
    states[1]
}

/// A run of at least one call is the run of all but the last, followed by
/// the last call.
pub proof fn lemma_replayed_last<T: Transport>(before: T, calls: Seq<Exchange>, after: T) -> (mid:
    T)
    requires
        replayed(before, calls, after),
        calls.len() > 0,
    ensures
        replayed(before, calls.drop_last(), mid),
        carried_out(mid, calls.last(), after),
{
    let states = choose|states: Seq<T>| #[trigger] laid_out(before, calls, after, states);
    let front = states.drop_last();
    let others = calls.drop_last();
    assert(carried_at(calls, states, calls.len() - 1));
    assert forall|i: int| 0 <= i < others.len() implies #[trigger] carried_at(others, front, i) by {
        assert(carried_at(calls, states, i));
    }
    assert(laid_out(before, others, states[calls.len() - 1], front));
    states[calls.len() - 1]
}

/// One run of calls after another is a run of calls.
pub proof fn lemma_replayed_concat<T: Transport>(
    before: T,
    first: Seq<Exchange>,
    mid: T,
    second: Seq<Exchange>,
    after: T,
)
    requires
        replayed(before, first, mid),
        replayed(mid, second, after),
    ensures
        replayed(before, first + second, after),
    decreases second.len(),
{
    if second.len() == 0 {
        let states = choose|states: Seq<T>| #[trigger] laid_out(mid, second, after, states);
        assert(mid == after);
        assert(first + second =~= first);
    } else {
        let last = lemma_replayed_last(mid, second, after);
        lemma_replayed_concat(before, first, mid, second.drop_last(), last);
        lemma_replayed_push(before, first + second.drop_last(), last, second.last(), after);
        assert((first + second.drop_last()).push(second.last()) =~= first + second);
    }
}

/// The calls added to a record in two stretches, one after the other, are a
/// run of calls where each stretch is one: `log0`, `log1` and `log2` are the
/// record before, between and after, `port0`, `port1` and `port2` the
/// transport at those times.
pub proof fn lemma_replayed_on<T: Transport>(
    port0: T,
    log0: Seq<Exchange>,
    port1: T,
    log1: Seq<Exchange>,
    port2: T,
    log2: Seq<Exchange>,
)
    requires
        log0.is_prefix_of(log1),
        log1.is_prefix_of(log2),
        replayed(port0, log1.skip(log0.len() as int), port1),
        replayed(port1, log2.skip(log1.len() as int), port2),
    ensures
        log0.is_prefix_of(log2),
        replayed(port0, log2.skip(log0.len() as int), port2),
{
    lemma_replayed_concat(
        port0,
        log1.skip(log0.len() as int),
        port1,
        log2.skip(log1.len() as int),
        port2,
    );
    assert(log2.skip(log0.len() as int) =~= log1.skip(log0.len() as int) + log2.skip(
        log1.len() as int,
    ));
}

/// One call is a run of one call.
pub proof fn lemma_replayed_one<T: Transport>(before: T, call: Exchange, after: T)
    requires
        carried_out(before, call, after),
    ensures
        replayed(before, seq![call], after),
{
    lemma_replayed_none(before);
    lemma_replayed_push(before, Seq::<Exchange>::empty(), before, call, after);
    assert(Seq::<Exchange>::empty().push(call) =~= seq![call]);
}

/// A record that grew from `before` to `after` is `before` followed by what
/// `after` holds beyond it.
pub proof fn lemma_log_grew(before: Seq<Exchange>, after: Seq<Exchange>)
    requires
        before.is_prefix_of(after),
    ensures
        after == before + after.skip(before.len() as int),
{
    assert(after =~= before + after.skip(before.len() as int));
}

/// A transport together with the record of the calls made on it.
pub struct Link<T: Transport> {
    port: T,
    host: Endianness,
    log: Ghost<Seq<Exchange>>,
}

impl<T: Transport> Link<T> {
    /// Every call made on the transport through this link, oldest first.
    pub closed spec fn log(&self) -> Seq<Exchange> {
        self.log@
    }

    /// The transport as a value.
    pub closed spec fn port_view(&self) -> T {
        self.port
    }

    /// The byte order of the host, as the machine gave it when the link was
    /// made. No call on the link changes it.
    pub closed spec fn host(&self) -> Endianness {
        self.host
    }

    /// Whether the link `after` is this link some calls later: the host is
    /// the same, the record has only grown, and the calls added can have
    /// taken the transport from what it was to what it is, by what the
    /// transport says of itself.
    pub open spec fn leads_to(&self, after: &Self) -> bool {
        &&& after.host() == self.host()
        &&& self.log().is_prefix_of(after.log())
        &&& replayed(
            self.port_view(),
            after.log().skip(self.log().len() as int),
            after.port_view(),
        )
    }

    /// Later of later is later.
    pub proof fn lemma_leads_on(&self, then: &Self, after: &Self)
        requires
            self.leads_to(then),
            then.leads_to(after),
        ensures
            self.leads_to(after),
    {
        lemma_replayed_on(
            self.port_view(),
            self.log(),
            then.port_view(),
            then.log(),
            after.port_view(),
            after.log(),
        );
    }

    /// A link leads to itself by no call.
    pub proof fn lemma_leads_nowhere(&self)
        ensures
            self.leads_to(self),
    {
        lemma_replayed_none(self.port_view());
        assert(self.log().skip(self.log().len() as int) =~= Seq::<Exchange>::empty());
    }

    /// Takes ownership of a transport and asks the machine for its byte
    /// order. No call has been made on the transport yet.
    pub fn new(port: T) -> (link: Self)
        ensures
            link.log() == Seq::<Exchange>::empty(),
            link.port_view() == port,
    {
        Link { port, host: host_endianness(), log: Ghost(Seq::empty()) }
    }

    /// The byte order of the host.
    pub fn host_layout(&self) -> (layout: Endianness)
        ensures
            layout == self.host(),
    {
        self.host
    }

    /// The transport, for inspection.
    pub fn port(&self) -> (port: &T)
        ensures
            *port == self.port_view(),
    {
        &self.port
    }

    /// Gives the transport back.
    pub fn into_inner(self) -> (port: T)
        ensures
            port == self.port_view(),
    {
        self.port
    }

    /// Reads exactly `len` bytes.
    ///
    /// One read is made. A reply of any other length counts as a short read.
    pub fn read_exact(&mut self, len: usize) -> (reply: Result<Vec<u8>, IoError>)
        ensures
            final(self).log() == old(self).log().push(
                Exchange::Read { len: len as nat, reply: read_reply(reply) },
            ),
            reply matches Ok(bytes) ==> bytes@.len() == len,
            final(self).host() == old(self).host(),
            carried_out(
                old(self).port_view(),
                Exchange::Read { len: len as nat, reply: read_reply(reply) },
                final(self).port_view(),
            ),
            old(self).leads_to(final(self)),
    {
        let raw = self.port.read_exact(len);
        proof {
            assert(old(self).port_view().reads(len as nat, &self.port, read_reply(raw)));
        }
        let reply = match raw {
            Ok(bytes) => {
                if bytes.len() == len {
                    Ok(bytes)
                } else {
                    Err(IoError::ShortRead)
                }
            },
            Err(e) => Err(e),
        };
        self.log = Ghost(
            self.log@.push(Exchange::Read { len: len as nat, reply: read_reply(reply) }),
        );
        proof {
            let call = Exchange::Read { len: len as nat, reply: read_reply(reply) };
            lemma_replayed_one(old(self).port_view(), call, self.port_view());
            assert(self.log().skip(old(self).log().len() as int) =~= seq![call]);
        }
        reply
    }

    /// Writes all of `data`. One write is made.
    pub fn write_all(&mut self, data: &[u8]) -> (status: Result<(), IoError>)
        ensures
            final(self).log() == old(self).log().push(
                Exchange::Write { data: data@, error: error_of(status) },
            ),
            final(self).host() == old(self).host(),
            carried_out(
                old(self).port_view(),
                Exchange::Write { data: data@, error: error_of(status) },
                final(self).port_view(),
            ),
            old(self).leads_to(final(self)),
    {
        let status = self.port.write_all(data);
        self.log = Ghost(self.log@.push(Exchange::Write { data: data@, error: error_of(status) }));
        proof {
            let call = Exchange::Write { data: data@, error: error_of(status) };
            lemma_replayed_one(old(self).port_view(), call, self.port_view());
            assert(self.log().skip(old(self).log().len() as int) =~= seq![call]);
        }
        status
    }

    /// Flushes the transport. One flush is made.
    pub fn flush(&mut self) -> (status: Result<(), IoError>)
        ensures
            final(self).log() == old(self).log().push(Exchange::Flush { error: error_of(status) }),
            final(self).host() == old(self).host(),
            carried_out(
                old(self).port_view(),
                Exchange::Flush { error: error_of(status) },
                final(self).port_view(),
            ),
            old(self).leads_to(final(self)),
    {
        let status = self.port.flush();
        self.log = Ghost(self.log@.push(Exchange::Flush { error: error_of(status) }));
        proof {
            let call = Exchange::Flush { error: error_of(status) };
            lemma_replayed_one(old(self).port_view(), call, self.port_view());
            assert(self.log().skip(old(self).log().len() as int) =~= seq![call]);
        }
        status
    }

    /// Sets the timeout of reads and writes. One call is made.
    pub fn set_timeout(&mut self, millis: u64) -> (status: Result<(), IoError>)
        ensures
            final(self).log() == old(self).log().push(
                Exchange::SetTimeout { millis, error: error_of(status) },
            ),
            final(self).host() == old(self).host(),
            carried_out(
                old(self).port_view(),
                Exchange::SetTimeout { millis, error: error_of(status) },
                final(self).port_view(),
            ),
            old(self).leads_to(final(self)),
    {
        let status = self.port.set_timeout(millis);
        self.log = Ghost(self.log@.push(Exchange::SetTimeout { millis, error: error_of(status) }));
        proof {
            let call = Exchange::SetTimeout { millis, error: error_of(status) };
            lemma_replayed_one(old(self).port_view(), call, self.port_view());
            assert(self.log().skip(old(self).log().len() as int) =~= seq![call]);
        }
        status
    }
}

} // verus!
