//! The command loop over a transport that is driven by readiness.
//!
//! The loop takes one line of input at a time, reads it as a request of the
//! binary protocol and plans one exchange with the device for it: a write
//! sends the payload and takes the response, a read only takes a response. A
//! line that is no request is reported and the loop goes on. The end of the
//! input ends the loop without an exchange; a failed exchange ends it too.
//!
//! The caller owns the input, the output and the transport. It hands each
//! line to [`CooperativeLoop::plan`], carries out the [`Relay`] that comes
//! back, and hands what came of it to [`CooperativeLoop::settle`].

use crate::action::{ActionConversionError, ConversionErrorView};
use crate::line::{content_of, strip_terminator};
use crate::relay::{Relay, RelayView, Stage};
use crate::request::{parsed_request, Request, RequestView};
use crate::transport::IoError;
use vstd::prelude::*;

verus! {

/// What the loop asks of its caller for one line of input.
pub enum Plan {
    /// Carry out this exchange, then settle its outcome.
    Exchange(Relay),
    /// The line was no request: report it and take the next line.
    Skip(ActionConversionError),
    /// The loop has ended: stop.
    Stop,
}

/// A [`Plan`] as plain values.
pub enum PlanView {
    Exchange(RelayView),
    Skip(ConversionErrorView),
    Stop,
}

impl View for Plan {
    type V = PlanView;

    open spec fn view(&self) -> PlanView {
        match self {
            Plan::Exchange(relay) => PlanView::Exchange(relay@),
            Plan::Skip(e) => PlanView::Skip(e@),
            Plan::Stop => PlanView::Stop,
        }
    }
}

/// What the loop asks of its caller after an exchange.
#[derive(Clone, Debug, PartialEq, Eq)]
pub enum Settled {
    /// Hand these bytes to the output, then take the next line.
    Forward(Vec<u8>),
    /// The exchange failed: report the error and stop.
    Fatal(IoError),
    /// The loop had ended before: stop.
    Finished,
}

/// A [`Settled`] as plain values.
pub enum SettledView {
    Forward(Seq<u8>),
    Fatal(IoError),
    Finished,
}

impl View for Settled {
    type V = SettledView;

    open spec fn view(&self) -> SettledView {
        match self {
            Settled::Forward(bytes) => SettledView::Forward(bytes@),
            Settled::Fatal(e) => SettledView::Fatal(*e),
            Settled::Finished => SettledView::Finished,
        }
    }
}

/// The state of the loop between two lines of input.
pub struct CooperativeLoop {
    terminator: u8,
    max_response: usize,
    finished: bool,
}

/// The settings and the state of a [`CooperativeLoop`] as plain values.
pub struct CooperativeView {
    /// The byte that ends every line of input.
    pub terminator: u8,
    /// The most bytes that one response may have.
    pub max_response: nat,
    /// Whether the loop has ended.
    pub finished: bool,
}

impl View for CooperativeLoop {
    type V = CooperativeView;

    closed spec fn view(&self) -> CooperativeView {
        CooperativeView {
            terminator: self.terminator,
            max_response: self.max_response as nat,
            finished: self.finished,
        }
    }
}

/// The exchange that only takes a response of at most `max_response` bytes.
pub open spec fn listening(max_response: nat) -> RelayView {
    RelayView::start(Seq::empty(), max_response).at(Stage::AwaitReadable)
}

/// What is planned for one line of input, `None` at the end of the input.
/// The line is read without the terminator at its end.
pub open spec fn planned(before: CooperativeView, line: Option<Seq<u8>>) -> PlanView {
    if before.finished || line is None {
        PlanView::Stop
    } else {
        match parsed_request(content_of(line->Some_0, before.terminator)) {
            Err(e) => PlanView::Skip(e),
            Ok(RequestView::Write(payload)) => PlanView::Exchange(
                RelayView::start(payload, before.max_response),
            ),
            Ok(RequestView::Read) => PlanView::Exchange(listening(before.max_response)),
        }
    }
}

/// What follows an exchange that gave `response`, or failed with an error.
pub open spec fn settled(
    before: CooperativeView,
    outcome: Result<Seq<u8>, IoError>,
) -> SettledView {
    if before.finished {
        SettledView::Finished
    } else {
        match outcome {
            Ok(response) => SettledView::Forward(response),
            Err(e) => SettledView::Fatal(e),
        }
    }
}

/// The outcome of an exchange as plain values.
pub open spec fn outcome_view(outcome: Result<Vec<u8>, IoError>) -> Result<Seq<u8>, IoError> {
    match outcome {
        Ok(response) => Ok(response@),
        Err(e) => Err(e),
    }
}

/// Clean end of input: at the end of the input nothing is exchanged, and
/// nothing is ever exchanged after it, nor after a failed exchange.
pub proof fn lemma_nothing_after_the_end(before: CooperativeView, line: Option<Seq<u8>>)
    requires
        before.finished || line is None,
    ensures
        planned(before, line) == PlanView::Stop,
{
}

/// Every request that is a write, the empty one included, is planned as an
/// exchange that starts by writing exactly its payload; every read as one
/// that writes nothing.
pub proof fn lemma_plan_of_request(before: CooperativeView, line: Seq<u8>)
    requires
        !before.finished,
        parsed_request(content_of(line, before.terminator)) is Ok,
    ensures
        planned(before, Some(line)) matches PlanView::Exchange(relay) && relay.wf()
            && relay.max_response == before.max_response && match parsed_request(
            content_of(line, before.terminator),
        )->Ok_0 {
            RequestView::Write(payload) => relay.request == payload && relay.stage
                == Stage::AwaitWritable && relay.written == 0,
            RequestView::Read => relay.request.len() == 0 && relay.stage == Stage::AwaitReadable,
        },
{
}

impl CooperativeLoop {
    /// A loop that has not taken any input yet. `terminator` ends every line
    /// of input and `max_response` bounds every response.
    pub fn new(terminator: u8, max_response: usize) -> (state: CooperativeLoop)
        ensures
            state@ == (CooperativeView {
                terminator,
                max_response: max_response as nat,
                finished: false,
            }),
    {
        CooperativeLoop { terminator, max_response, finished: false }
    }

    /// Whether the loop has ended.
    pub fn is_finished(&self) -> (finished: bool)
        ensures
            finished == self@.finished,
    {
        self.finished
    }

    /// Takes one line of input, or its end (`None`), and says what is to be
    /// done for it. The loop ends at the end of the input.
    pub fn plan(&mut self, line: Option<&[u8]>) -> (plan: Plan)
        ensures
            plan@ == planned(
                old(self)@,
                match line {
                    Some(bytes) => Some(bytes@),
                    None => None,
                },
            ),
            final(self)@ == (CooperativeView {
                finished: old(self)@.finished || line is None,
                ..old(self)@
            }),
    {
        if self.finished {
            return Plan::Stop;
        }
        let bytes = match line {
            None => {
                self.finished = true;
                return Plan::Stop;
            },
            Some(bytes) => bytes,
        };
        match Request::try_from(strip_terminator(bytes, self.terminator)) {
            Err(e) => Plan::Skip(e),
            Ok(Request::Write(payload)) => Plan::Exchange(Relay::begin(payload, self.max_response)),
            Ok(Request::Read) => Plan::Exchange(Relay::listen(self.max_response)),
        }
    }

    /// Takes the outcome of the exchange that was planned and says what
    /// follows. The loop ends with a failed exchange.
    pub fn settle(&mut self, outcome: Result<Vec<u8>, IoError>) -> (next: Settled)
        ensures
            next@ == settled(old(self)@, outcome_view(outcome)),
            final(self)@ == (CooperativeView {
                finished: old(self)@.finished || outcome is Err,
                ..old(self)@
            }),
    {
        if self.finished {
            return Settled::Finished;
        }
        match outcome {
            Ok(response) => Settled::Forward(response),
            Err(e) => {
                self.finished = true;
                Settled::Fatal(e)
            },
        }
    }
}

} // verus!
