//! One exchange with the device without blocking.
//!
//! Where the transport is driven by readiness rather than by blocking calls,
//! an exchange is a conversation between this state machine and its driver.
//! The machine says what to do next (a [`Directive`]); the driver does it on
//! the transport, suspending where it has to, and reports what happened (a
//! [`Notice`]). The machine decides; the driver only waits and moves bytes.
//!
//! An exchange writes one request in full, flushes, and then takes one
//! response of bounded size. A request without bytes is written in full by a
//! write that takes nothing. A write that takes a part is followed by a write
//! of the rest; one that takes nothing while bytes are left is a failure. A
//! call that would block is not an error: the machine asks the driver to wait
//! for readiness again. Any other failure ends the exchange.

use crate::transport::IoError;
use vstd::prelude::*;
use vstd::slice::slice_subrange;

verus! {

/// Where an exchange stands.
#[derive(Clone, Copy, Debug, PartialEq, Eq, Structural)]
pub enum Stage {
    /// Waiting until the transport can take bytes.
    AwaitWritable,
    /// A non-blocking write is under way.
    Write,
    /// The request is written in full and a flush is under way.
    Flush,
    /// Waiting until the transport has bytes.
    AwaitReadable,
    /// A non-blocking read is under way.
    Read,
    /// The response was delivered.
    Done,
    /// The exchange was given up.
    Failed,
}

/// What the driver is to do next.
#[derive(Clone, Debug, PartialEq, Eq)]
pub enum Directive {
    /// Suspend until the transport is writable.
    AwaitWritable,
    /// Try to write the bytes that [`Relay::unsent`] gives, without blocking.
    TryWrite,
    /// Flush the transport.
    Flush,
    /// Suspend until the transport is readable.
    AwaitReadable,
    /// Try to read at most `max` bytes, without blocking.
    TryRead { max: usize },
    /// The exchange is done: hand the response to the output.
    Deliver(Vec<u8>),
    /// The exchange failed: report the error and stop.
    Abort(IoError),
    /// The exchange had ended before: there is nothing to do.
    Idle,
}

/// What the driver reports.
#[derive(Clone, Debug, PartialEq, Eq)]
pub enum Notice {
    /// The transport is writable.
    Writable,
    /// The write took this many bytes.
    Wrote(usize),
    /// The flush is done.
    Flushed,
    /// The transport is readable.
    Readable,
    /// The read gave these bytes.
    Received(Vec<u8>),
    /// The call failed.
    Failed(IoError),
}

/// A [`Directive`] as plain values.
pub enum DirectiveView {
    AwaitWritable,
    TryWrite,
    Flush,
    AwaitReadable,
    TryRead { max: nat },
    Deliver(Seq<u8>),
    Abort(IoError),
    Idle,
}

/// A [`Notice`] as plain values.
pub enum NoticeView {
    Writable,
    Wrote(nat),
    Flushed,
    Readable,
    Received(Seq<u8>),
    Failed(IoError),
}

impl View for Directive {
    type V = DirectiveView;

    open spec fn view(&self) -> DirectiveView {
        match self {
            Directive::AwaitWritable => DirectiveView::AwaitWritable,
            Directive::TryWrite => DirectiveView::TryWrite,
            Directive::Flush => DirectiveView::Flush,
            Directive::AwaitReadable => DirectiveView::AwaitReadable,
            Directive::TryRead { max } => DirectiveView::TryRead { max: *max as nat },
            Directive::Deliver(bytes) => DirectiveView::Deliver(bytes@),
            Directive::Abort(e) => DirectiveView::Abort(*e),
            Directive::Idle => DirectiveView::Idle,
        }
    }
}

impl View for Notice {
    type V = NoticeView;

    open spec fn view(&self) -> NoticeView {
        match self {
            Notice::Writable => NoticeView::Writable,
            Notice::Wrote(n) => NoticeView::Wrote(*n as nat),
            Notice::Flushed => NoticeView::Flushed,
            Notice::Readable => NoticeView::Readable,
            Notice::Received(bytes) => NoticeView::Received(bytes@),
            Notice::Failed(e) => NoticeView::Failed(*e),
        }
    }
}

/// One exchange under way.
pub struct Relay {
    request: Vec<u8>,
    written: usize,
    max_response: usize,
    stage: Stage,
}

/// A [`Relay`] as plain values.
pub struct RelayView {
    /// The bytes of the request.
    pub request: Seq<u8>,
    /// How many of them the transport has taken.
    pub written: nat,
    /// The most bytes that the response may have.
    pub max_response: nat,
    /// Where the exchange stands.
    pub stage: Stage,
}

impl View for Relay {
    type V = RelayView;

    closed spec fn view(&self) -> RelayView {
        RelayView {
            request: self.request@,
            written: self.written as nat,
            max_response: self.max_response as nat,
            stage: self.stage,
        }
    }
}

impl RelayView {
    /// What holds of every exchange: no more is written than the request
    /// holds, and reading starts only when all of it is written.
    pub open spec fn wf(self) -> bool {
        &&& self.written <= self.request.len()
        &&& (self.stage == Stage::Flush || self.stage == Stage::AwaitReadable || self.stage
            == Stage::Read || self.stage == Stage::Done) ==> self.written == self.request.len()
    }

    /// The exchange at its start.
    pub open spec fn start(request: Seq<u8>, max_response: nat) -> RelayView {
        RelayView { request, written: 0, max_response, stage: Stage::AwaitWritable }
    }

    /// The same exchange at another stage.
    pub open spec fn at(self, stage: Stage) -> RelayView {
        RelayView { stage, ..self }
    }

    /// What the driver is to do at the stage where the exchange stands.
    pub open spec fn awaited(self) -> DirectiveView {
        match self.stage {
            Stage::AwaitWritable => DirectiveView::AwaitWritable,
            Stage::Write => DirectiveView::TryWrite,
            Stage::Flush => DirectiveView::Flush,
            Stage::AwaitReadable => DirectiveView::AwaitReadable,
            Stage::Read => DirectiveView::TryRead { max: self.max_response },
            Stage::Done | Stage::Failed => DirectiveView::Idle,
        }
    }

    /// The exchange after a notice.
    pub open spec fn next(self, notice: NoticeView) -> RelayView {
        match (self.stage, notice) {
            (Stage::Done, _) | (Stage::Failed, _) => self,
            (Stage::AwaitWritable, NoticeView::Writable) => self.at(Stage::Write),
            (Stage::Write, NoticeView::Wrote(n)) => {
                if self.written + n == self.request.len() {
                    RelayView { written: self.written + n, stage: Stage::Flush, ..self }
                } else if n == 0 || self.written + n > self.request.len() {
                    self.at(Stage::Failed)
                } else {
                    RelayView { written: self.written + n, stage: Stage::AwaitWritable, ..self }
                }
            },
            (Stage::Write, NoticeView::Failed(IoError::WouldBlock)) => self.at(
                Stage::AwaitWritable,
            ),
            (Stage::Flush, NoticeView::Flushed) => self.at(Stage::AwaitReadable),
            (Stage::AwaitReadable, NoticeView::Readable) => self.at(Stage::Read),
            (Stage::Read, NoticeView::Received(bytes)) => {
                if bytes.len() <= self.max_response {
                    self.at(Stage::Done)
                } else {
                    self.at(Stage::Failed)
                }
            },
            (Stage::Read, NoticeView::Failed(IoError::WouldBlock)) => self.at(Stage::AwaitReadable),
            _ => self.at(Stage::Failed),
        }
    }

    /// What the driver is told after a notice.
    pub open spec fn directive(self, notice: NoticeView) -> DirectiveView {
        match (self.stage, notice) {
            (Stage::Done, _) | (Stage::Failed, _) => DirectiveView::Idle,
            (Stage::AwaitWritable, NoticeView::Writable) => DirectiveView::TryWrite,
            (Stage::Write, NoticeView::Wrote(n)) => {
                if self.written + n == self.request.len() {
                    DirectiveView::Flush
                } else if n == 0 || self.written + n > self.request.len() {
                    DirectiveView::Abort(IoError::PartialWrite)
                } else {
                    DirectiveView::AwaitWritable
                }
            },
            (Stage::Write, NoticeView::Failed(IoError::WouldBlock)) => DirectiveView::AwaitWritable,
            (Stage::Flush, NoticeView::Flushed) => DirectiveView::AwaitReadable,
            (Stage::AwaitReadable, NoticeView::Readable) => DirectiveView::TryRead {
                max: self.max_response,
            },
            (Stage::Read, NoticeView::Received(bytes)) => {
                if bytes.len() <= self.max_response {
                    DirectiveView::Deliver(bytes)
                } else {
                    DirectiveView::Abort(IoError::Overrun)
                }
            },
            (Stage::Read, NoticeView::Failed(IoError::WouldBlock)) => DirectiveView::AwaitReadable,
            (_, NoticeView::Failed(e)) => DirectiveView::Abort(e),
            _ => DirectiveView::Abort(IoError::Failed),
        }
    }
}

/// The exchange after a run of notices, the oldest first.
pub open spec fn after_notices(start: RelayView, notices: Seq<NoticeView>) -> RelayView
    decreases notices.len(),
{
    if notices.len() == 0 {
        start
    } else {
        after_notices(start, notices.drop_last()).next(notices.last())
    }
}

/// Every step keeps what holds of every exchange.
pub proof fn lemma_next_keeps_wf(state: RelayView, notice: NoticeView)
    requires
        state.wf(),
    ensures
        state.next(notice).wf(),
{
}

/// Whatever the driver reports, in whatever order, the exchange stays sound:
/// no run of notices leads it out of [`RelayView::wf`].
pub proof fn lemma_run_keeps_wf(start: RelayView, notices: Seq<NoticeView>)
    requires
        start.wf(),
    ensures
        after_notices(start, notices).wf(),
    decreases notices.len(),
{
    if notices.len() > 0 {
        lemma_run_keeps_wf(start, notices.drop_last());
        lemma_next_keeps_wf(after_notices(start, notices.drop_last()), notices.last());
    }
}

/// Write before read: whatever the driver reports, a read is only ever asked
/// for, and a response only ever delivered, when the whole request has been
/// written and flushed.
pub proof fn lemma_read_follows_complete_write(
    start: RelayView,
    notices: Seq<NoticeView>,
    notice: NoticeView,
)
    requires
        start.wf(),
    ensures
        ({
            let state = after_notices(start, notices);
            let told = state.directive(notice);
            told is TryRead || told is Deliver ==> state.written == start.request.len() && (
            state.stage == Stage::AwaitReadable || state.stage == Stage::Read)
        }),
{
    lemma_run_keeps_wf(start, notices);
    lemma_request_is_kept(start, notices);
}

/// The machine and its driver stay in step: what the driver is told after a
/// notice is what the stage reached asks for, unless the exchange ends there.
pub proof fn lemma_directive_is_awaited(state: RelayView, notice: NoticeView)
    ensures
        ({
            let told = state.directive(notice);
            let reached = state.next(notice);
            if reached.stage == Stage::Done || reached.stage == Stage::Failed {
                told is Deliver || told is Abort || told is Idle
            } else {
                told == reached.awaited()
            }
        }),
{
}

/// A response is delivered at most once, and only within the bound: it is
/// the bytes of the read that ended the exchange.
pub proof fn lemma_delivery_is_bounded(state: RelayView, notice: NoticeView)
    requires
        state.directive(notice) is Deliver,
    ensures
        notice == NoticeView::Received(state.directive(notice)->Deliver_0),
        state.directive(notice)->Deliver_0.len() <= state.max_response,
        state.next(notice).stage == Stage::Done,
{
}

/// No notice changes the request or the bound on the response.
pub proof fn lemma_request_is_kept(start: RelayView, notices: Seq<NoticeView>)
    ensures
        after_notices(start, notices).request == start.request,
        after_notices(start, notices).max_response == start.max_response,
    decreases notices.len(),
{
    if notices.len() > 0 {
        lemma_request_is_kept(start, notices.drop_last());
    }
}

/// The exchange as it is meant to go, for every request, the empty one
/// included: the transport becomes writable and takes the whole request, the
/// flush is done, the transport becomes readable and gives a response within
/// the bound. The driver is told in turn to write, to flush, to wait, to
/// read, and at last to deliver that response; the exchange is then done.
pub proof fn lemma_exchange_completes(request: Seq<u8>, max_response: nat, response: Seq<u8>)
    requires
        response.len() <= max_response,
    ensures
        ({
            let s0 = RelayView::start(request, max_response);
            let s1 = s0.next(NoticeView::Writable);
            let s2 = s1.next(NoticeView::Wrote(request.len()));
            let s3 = s2.next(NoticeView::Flushed);
            let s4 = s3.next(NoticeView::Readable);
            let s5 = s4.next(NoticeView::Received(response));
            &&& s0.directive(NoticeView::Writable) == DirectiveView::TryWrite
            &&& s1.directive(NoticeView::Wrote(request.len())) == DirectiveView::Flush
            &&& s2.directive(NoticeView::Flushed) == DirectiveView::AwaitReadable
            &&& s3.directive(NoticeView::Readable) == (DirectiveView::TryRead {
                max: max_response,
            })
            &&& s4.directive(NoticeView::Received(response)) == DirectiveView::Deliver(response)
            &&& s5.stage == Stage::Done
            &&& s5.written == request.len()
        }),
{
}

/// An exchange that has ended stays as it is and asks for nothing more.
pub proof fn lemma_ended_stays_ended(state: RelayView, notice: NoticeView)
    requires
        state.stage == Stage::Done || state.stage == Stage::Failed,
    ensures
        state.next(notice) == state,
        state.directive(notice) == DirectiveView::Idle,
{
}

impl Relay {
    /// No more is written than the request holds, and reading starts only
    /// when all of it is written.
    #[verifier::type_invariant]
    spec fn sound(&self) -> bool {
        self@.wf()
    }

    /// Starts an exchange that sends `request` and takes a response of at
    /// most `max_response` bytes. The driver starts by waiting until the
    /// transport is writable.
    pub fn begin(request: Vec<u8>, max_response: usize) -> (relay: Relay)
        ensures
            relay@ == RelayView::start(request@, max_response as nat),
            relay@.wf(),
    {
        Relay { request, written: 0, max_response, stage: Stage::AwaitWritable }
    }

    /// Starts an exchange that sends nothing and takes a response of at most
    /// `max_response` bytes. The driver starts by waiting until the transport
    /// is readable.
    pub fn listen(max_response: usize) -> (relay: Relay)
        ensures
            relay@ == RelayView::start(Seq::empty(), max_response as nat).at(Stage::AwaitReadable),
            relay@.wf(),
    {
        Relay { request: Vec::new(), written: 0, max_response, stage: Stage::AwaitReadable }
    }

    /// What the driver is to do at the stage where the exchange stands: the
    /// directive that led there.
    pub fn pending(&self) -> (told: Directive)
        ensures
            told@ == self@.awaited(),
    {
        match self.stage {
            Stage::AwaitWritable => Directive::AwaitWritable,
            Stage::Write => Directive::TryWrite,
            Stage::Flush => Directive::Flush,
            Stage::AwaitReadable => Directive::AwaitReadable,
            Stage::Read => Directive::TryRead { max: self.max_response },
            Stage::Done | Stage::Failed => Directive::Idle,
        }
    }

    /// Where the exchange stands.
    pub fn stage(&self) -> (stage: Stage)
        ensures
            stage == self@.stage,
    {
        self.stage
    }

    /// Whether the exchange has ended, well or not.
    pub fn is_over(&self) -> (over: bool)
        ensures
            over == (self@.stage == Stage::Done || self@.stage == Stage::Failed),
    {
        match self.stage {
            Stage::Done | Stage::Failed => true,
            _ => false,
        }
    }

    /// The bytes of the request that the transport has not taken yet.
    pub fn unsent(&self) -> (bytes: &[u8])
        ensures
            self@.wf(),
            bytes@ == self@.request.skip(self@.written as int),
    {
        proof {
            use_type_invariant(self);
        }
        slice_subrange(self.request.as_slice(), self.written, self.request.len())
    }

    /// Takes what the driver reports and says what it is to do next.
    pub fn advance(&mut self, notice: Notice) -> (told: Directive)
        ensures
            old(self)@.wf(),
            final(self)@ == old(self)@.next(notice@),
            told@ == old(self)@.directive(notice@),
            final(self)@.wf(),
    {
        proof {
            use_type_invariant(&*self);
        }
        match self.stage {
            Stage::Done | Stage::Failed => Directive::Idle,
            Stage::AwaitWritable => match notice {
                Notice::Writable => {
                    self.stage = Stage::Write;
                    Directive::TryWrite
                },
                other => self.fail(other),
            },
            Stage::Write => match notice {
                Notice::Wrote(n) => {
                    let left: usize = self.request.len() - self.written;
                    if n == left {
                        self.written = self.written + n;
                        self.stage = Stage::Flush;
                        Directive::Flush
                    } else if n == 0 || n > left {
                        self.stage = Stage::Failed;
                        Directive::Abort(IoError::PartialWrite)
                    } else {
                        self.written = self.written + n;
                        self.stage = Stage::AwaitWritable;
                        Directive::AwaitWritable
                    }
                },
                Notice::Failed(IoError::WouldBlock) => {
                    self.stage = Stage::AwaitWritable;
                    Directive::AwaitWritable
                },
                other => self.fail(other),
            },
            Stage::Flush => match notice {
                Notice::Flushed => {
                    self.stage = Stage::AwaitReadable;
                    Directive::AwaitReadable
                },
                other => self.fail(other),
            },
            Stage::AwaitReadable => match notice {
                Notice::Readable => {
                    self.stage = Stage::Read;
                    Directive::TryRead { max: self.max_response }
                },
                other => self.fail(other),
            },
            Stage::Read => match notice {
                Notice::Received(bytes) => {
                    if bytes.len() <= self.max_response {
                        self.stage = Stage::Done;
                        Directive::Deliver(bytes)
                    } else {
                        self.stage = Stage::Failed;
                        Directive::Abort(IoError::Overrun)
                    }
                },
                Notice::Failed(IoError::WouldBlock) => {
                    self.stage = Stage::AwaitReadable;
                    Directive::AwaitReadable
                },
                other => self.fail(other),
            },
        }
    }

    /// Gives the exchange up over a notice that does not fit its stage or
    /// that reports a failure.
    fn fail(&mut self, notice: Notice) -> (told: Directive)
        ensures
            final(self)@ == old(self)@.at(Stage::Failed),
            told@ == match notice@ {
                NoticeView::Failed(e) => DirectiveView::Abort(e),
                _ => DirectiveView::Abort(IoError::Failed),
            },
    {
        proof {
            use_type_invariant(&*self);
        }
        self.stage = Stage::Failed;
        match notice {
            Notice::Failed(e) => Directive::Abort(e),
            _ => Directive::Abort(IoError::Failed),
        }
    }
}

} // verus!
