//! An in-memory transport.
//!
//! A [`Loopback`] stands where a serial port would: the host end is the
//! [`Transport`], the far end is scripted by feeding it the bytes that the
//! host will read. With echo switched on, what the host writes comes back to it.

use crate::bytes::append_bytes;
use crate::line::{is_line, is_line_read, single_reads};
use crate::transport::{
    laid_out, lemma_replayed_first, lemma_replayed_last, replayed, Exchange, IoError, Transport,
};
use vstd::prelude::*;

verus! {

/// An in-memory transport with a scripted far end.
pub struct Loopback {
    inbound: Vec<u8>,
    outbound: Vec<u8>,
    echo: bool,
    broken: bool,
    timeout: u64,
}

impl Loopback {
    /// The bytes that the host has not read yet, oldest first.
    pub closed spec fn pending(&self) -> Seq<u8> {
        self.inbound@
    }

    /// Every byte that the host has written, oldest first.
    pub closed spec fn sent(&self) -> Seq<u8> {
        self.outbound@
    }

    /// Whether what the host writes comes back to it.
    pub closed spec fn echoes(&self) -> bool {
        self.echo
    }

    /// Whether every call on the transport fails.
    pub closed spec fn is_broken(&self) -> bool {
        self.broken
    }

    /// The timeout last set, in milliseconds.
    pub closed spec fn timeout_millis(&self) -> u64 {
        self.timeout
    }

    /// A loopback that echoes: every byte written can be read back.
    pub fn new() -> (port: Loopback)
        ensures
            port.pending() == Seq::<u8>::empty(),
            port.sent() == Seq::<u8>::empty(),
            port.echoes(),
            !port.is_broken(),
            port.timeout_millis() == 0,
    {
        Loopback {
            inbound: Vec::new(),
            outbound: Vec::new(),
            echo: true,
            broken: false,
            timeout: 0,
        }
    }

    /// A loopback without echo whose far end has already sent `replies`.
    pub fn scripted(replies: Vec<u8>) -> (port: Loopback)
        ensures
            port.pending() == replies@,
            port.sent() == Seq::<u8>::empty(),
            !port.echoes(),
            !port.is_broken(),
            port.timeout_millis() == 0,
    {
        Loopback { inbound: replies, outbound: Vec::new(), echo: false, broken: false, timeout: 0 }
    }

    /// The far end sends `bytes`.
    pub fn feed(&mut self, bytes: &[u8])
        ensures
            final(self).pending() == old(self).pending() + bytes@,
            final(self).sent() == old(self).sent(),
            final(self).echoes() == old(self).echoes(),
            final(self).is_broken() == old(self).is_broken(),
            final(self).timeout_millis() == old(self).timeout_millis(),
    {
        append_bytes(&mut self.inbound, bytes);
    }

    /// From now on every call on the transport fails, or works again.
    pub fn set_broken(&mut self, broken: bool)
        ensures
            final(self).is_broken() == broken,
            final(self).pending() == old(self).pending(),
            final(self).sent() == old(self).sent(),
            final(self).echoes() == old(self).echoes(),
            final(self).timeout_millis() == old(self).timeout_millis(),
    {
        self.broken = broken;
    }

    /// Every byte that the host has written, oldest first.
    pub fn written(&self) -> (bytes: &Vec<u8>)
        ensures
            bytes@ == self.sent(),
    {
        &self.outbound
    }

    /// The bytes that the host has not read yet, oldest first.
    pub fn unread(&self) -> (bytes: &Vec<u8>)
        ensures
            bytes@ == self.pending(),
    {
        &self.inbound
    }

    /// The timeout last set, in milliseconds.
    pub fn timeout(&self) -> (millis: u64)
        ensures
            millis == self.timeout_millis(),
    {
        self.timeout
    }
}

impl Transport for Loopback {
    /// A read hands out the oldest `len` unread bytes. With fewer waiting it
    /// times out and takes nothing; on a broken loopback it fails.
    open spec fn reads(&self, len: nat, after: &Self, reply: Result<Seq<u8>, IoError>) -> bool {
        &&& after.sent() == self.sent()
        &&& after.echoes() == self.echoes()
        &&& after.is_broken() == self.is_broken()
        &&& after.timeout_millis() == self.timeout_millis()
        &&& match reply {
            Ok(bytes) => {
                &&& !self.is_broken()
                &&& len <= self.pending().len()
                &&& bytes == self.pending().take(len as int)
                &&& after.pending() == self.pending().skip(len as int)
            },
            Err(e) => {
                &&& self.is_broken() || len > self.pending().len()
                &&& e == if self.is_broken() {
                    IoError::Failed
                } else {
                    IoError::TimedOut
                }
                &&& after.pending() == self.pending()
            },
        }
    }

    /// A write is recorded and, with echo on, made readable; on a broken
    /// loopback it fails and changes nothing.
    open spec fn writes(&self, data: Seq<u8>, after: &Self, error: Option<IoError>) -> bool {
        &&& after.echoes() == self.echoes()
        &&& after.is_broken() == self.is_broken()
        &&& after.timeout_millis() == self.timeout_millis()
        &&& error == if self.is_broken() {
            Some(IoError::Failed)
        } else {
            None
        }
        &&& after.sent() == if error is None {
            self.sent() + data
        } else {
            self.sent()
        }
        &&& after.pending() == if error is None && self.echoes() {
            self.pending() + data
        } else {
            self.pending()
        }
    }

    /// Nothing is buffered: a flush changes nothing.
    open spec fn flushes(&self, after: &Self, error: Option<IoError>) -> bool {
        &&& *after == *self
        &&& error == if self.is_broken() {
            Some(IoError::Failed)
        } else {
            None
        }
    }

    /// The timeout is remembered, unless the loopback is broken.
    open spec fn sets_timeout(&self, millis: u64, after: &Self, error: Option<IoError>) -> bool {
        &&& after.pending() == self.pending()
        &&& after.sent() == self.sent()
        &&& after.echoes() == self.echoes()
        &&& after.is_broken() == self.is_broken()
        &&& error == if self.is_broken() {
            Some(IoError::Failed)
        } else {
            None
        }
        &&& after.timeout_millis() == if error is None {
            millis
        } else {
            self.timeout_millis()
        }
    }

    fn read_exact(&mut self, len: usize) -> (reply: Result<Vec<u8>, IoError>) {
        if self.broken {
            return Err(IoError::Failed);
        }
        if self.inbound.len() < len {
            return Err(IoError::TimedOut);
        }
        let rest = self.inbound.split_off(len);
        let mut head: Vec<u8> = Vec::new();
        append_bytes(&mut head, self.inbound.as_slice());
        self.inbound = rest;
        proof {
            assert(head@ =~= old(self).pending().take(len as int));
            assert(self.inbound@ =~= old(self).pending().skip(len as int));
        }
        Ok(head)
    }

    fn write_all(&mut self, data: &[u8]) -> (status: Result<(), IoError>) {
        if self.broken {
            return Err(IoError::Failed);
        }
        append_bytes(&mut self.outbound, data);
        if self.echo {
            append_bytes(&mut self.inbound, data);
        }
        Ok(())
    }

    fn flush(&mut self) -> (status: Result<(), IoError>) {
        if self.broken {
            return Err(IoError::Failed);
        }
        Ok(())
    }

    fn set_timeout(&mut self, millis: u64) -> (status: Result<(), IoError>) {
        if self.broken {
            return Err(IoError::Failed);
        }
        self.timeout = millis;
        Ok(())
    }
}

/// Reads of single bytes take the oldest bytes waiting, in order: whatever
/// run of such reads succeeded on a loopback, the bytes read are the oldest
/// that waited, and what waits afterwards is the rest.
pub proof fn lemma_single_reads_take_the_oldest(before: Loopback, got: Seq<u8>, after: Loopback)
    requires
        replayed(before, single_reads(got), after),
    ensures
        got.len() > 0 ==> !before.is_broken(),
        got.len() <= before.pending().len(),
        got == before.pending().take(got.len() as int),
        after.pending() == before.pending().skip(got.len() as int),
        after.sent() == before.sent(),
        after.echoes() == before.echoes(),
        after.is_broken() == before.is_broken(),
        after.timeout_millis() == before.timeout_millis(),
    decreases got.len(),
{
    let calls = single_reads(got);
    if got.len() == 0 {
        let states = choose|states: Seq<Loopback>| #[trigger] laid_out(before, calls, after, states);
        assert(before == after);
        assert(got =~= before.pending().take(0));
        assert(before.pending().skip(0) =~= before.pending());
    } else {
        let mid = lemma_replayed_first(before, calls, after);
        let rest = got.drop_first();
        assert(calls.drop_first() =~= single_reads(rest));
        assert(calls[0] == Exchange::Read { len: 1, reply: Ok(seq![got[0]]) });
        lemma_single_reads_take_the_oldest(mid, rest, after);
        let waiting = before.pending();
        assert(waiting.take(1) == seq![got[0]]);
        assert(waiting[0] == waiting.take(1)[0]);
        assert(got =~= waiting.take(got.len() as int)) by {
            assert forall|i: int| 0 <= i < got.len() implies got[i] == waiting[i] by {
                if i > 0 {
                    assert(rest[i - 1] == waiting.skip(1).take(rest.len() as int)[i - 1]);
                }
            }
        }
        assert(after.pending() =~= waiting.skip(got.len() as int));
    }
}

/// Line inclusion: where a loopback that works holds a line among the bytes
/// that wait, within the limit, reading up to the terminator gives exactly
/// that line, terminator included, and leaves what follows it.
pub proof fn lemma_line_from_loopback(
    before: Loopback,
    added: Seq<Exchange>,
    after: Loopback,
    terminator: u8,
    limit: nat,
    got: Seq<u8>,
    status: Result<(), IoError>,
    n: int,
)
    requires
        replayed(before, added, after),
        is_line_read(added, terminator, limit, got, status),
        !before.is_broken(),
        1 <= n <= limit,
        n <= before.pending().len(),
        is_line(before.pending().take(n), terminator),
    ensures
        status is Ok,
        got == before.pending().take(n),
        after.pending() == before.pending().skip(n),
        after.sent() == before.sent(),
{
    let waiting = before.pending();
    let line = waiting.take(n);
    assert(line.last() == waiting[n - 1]);
    assert forall|i: int| 0 <= i < n - 1 implies waiting[i] != terminator by {
        assert(line.drop_last()[i] == waiting[i]);
    }
    match status {
        Ok(_) => {
            lemma_single_reads_take_the_oldest(before, got, after);
            assert(got.last() == waiting[got.len() - 1]);
            if got.len() < n {
                assert(waiting[got.len() - 1] != terminator);
            } else if got.len() > n {
                assert(got.drop_last()[n - 1] == waiting[n - 1]);
            }
            assert(got.len() == n);
        },
        Err(e) => {
            if got.len() < limit {
                let calls = single_reads(got).push(Exchange::Read { len: 1, reply: Err(e) });
                let mid = lemma_replayed_last(before, calls, after);
                assert(calls.drop_last() =~= single_reads(got));
                lemma_single_reads_take_the_oldest(before, got, mid);
                if got.len() >= n {
                    assert(got[n - 1] == waiting[n - 1]);
                }
                assert(got.len() < n);
                assert(mid.pending().len() >= 1);
                assert(false);
            } else {
                lemma_single_reads_take_the_oldest(before, got, after);
                assert(got[n - 1] == waiting[n - 1]);
                assert(false);
            }
        },
    }
}

} // verus!
