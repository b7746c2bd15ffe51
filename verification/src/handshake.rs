//! The handshake that admits a transport.
//!
//! Before a freshly opened transport is trusted, the host sends a challenge
//! and checks that the far end answers as the protocol says. An attempt that
//! fails, for a wrong answer or for a failure of the transport, is tried
//! again, up to [`MAX_ATTEMPTS`] attempts in all. Two flavours exist:
//!
//! * text: the challenge and the expected response are lines; the host sends
//!   the response back as its acknowledgement and reads one more line, which
//!   it accepts whatever it holds;
//! * binary: the challenge is the handshake opcode and a session id, the far
//!   end echoes both bytes and then sends the acknowledgement opcode.
//!
//! Every attempt is recorded with what ended it, so that the caller can
//! report each cause.

use crate::bytes::same_bytes;
use crate::line::{
    content_of, has_no, is_line, read_until, single_reads, strip_terminator, terminated,
    write_terminated,
};
use crate::request::{OPCODE_ACK, OPCODE_HANDSHAKE};
use crate::transport::{lemma_log_grew, Exchange, IoError, Link, Transport};
use vstd::prelude::*;

verus! {

/// The number of attempts after which a handshake is given up.
pub const MAX_ATTEMPTS: u8 = 10;

/// The step of an attempt.
#[derive(Clone, Copy, Debug, PartialEq, Eq, Structural)]
pub enum Phase {
    /// The host sends the challenge.
    SendChallenge,
    /// The host waits for the response.
    AwaitResponse,
    /// The host sends its acknowledgement.
    SendAck,
    /// The host waits for the final acknowledgement.
    AwaitFinalAck,
}

/// How one attempt ended.
#[derive(Clone, Debug, PartialEq, Eq)]
pub enum AttemptOutcome {
    /// The far end answered as expected. `ack` is its final acknowledgement
    /// as it arrived.
    Success { ack: Vec<u8> },
    /// The far end answered something else: `received`, as it arrived.
    Mismatch { phase: Phase, received: Vec<u8> },
    /// The transport failed. `partial` is what had arrived of the frame that
    /// was being read.
    TransportError { phase: Phase, error: IoError, partial: Vec<u8> },
}

/// An [`AttemptOutcome`] as plain values.
pub enum OutcomeView {
    Success { ack: Seq<u8> },
    Mismatch { phase: Phase, received: Seq<u8> },
    TransportError { phase: Phase, error: IoError, partial: Seq<u8> },
}

impl View for AttemptOutcome {
    type V = OutcomeView;

    open spec fn view(&self) -> OutcomeView {
        match self {
            AttemptOutcome::Success { ack } => OutcomeView::Success { ack: ack@ },
            AttemptOutcome::Mismatch { phase, received } => OutcomeView::Mismatch {
                phase: *phase,
                received: received@,
            },
            AttemptOutcome::TransportError { phase, error, partial } => OutcomeView::TransportError {
                phase: *phase,
                error: *error,
                partial: partial@,
            },
        }
    }
}

/// The flavour of the handshake and what it expects.
#[derive(Clone, Debug, PartialEq, Eq)]
pub enum Handshake {
    /// Challenge and response are lines of text.
    Text {
        /// The line that the host sends, without terminator.
        challenge: Vec<u8>,
        /// The line that the far end must answer, without terminator.
        response: Vec<u8>,
        /// The byte that ends every line.
        terminator: u8,
        /// The longest line that the host accepts, terminator included.
        limit: usize,
    },
    /// Challenge and response are opcodes.
    Binary {
        /// Tells the candidates apart where several are probed in turn.
        session_id: u8,
    },
}

/// A [`Handshake`] as plain values.
pub enum HandshakeView {
    Text { challenge: Seq<u8>, response: Seq<u8>, terminator: u8, limit: nat },
    Binary { session_id: u8 },
}

impl View for Handshake {
    type V = HandshakeView;

    open spec fn view(&self) -> HandshakeView {
        match self {
            Handshake::Text { challenge, response, terminator, limit } => HandshakeView::Text {
                challenge: challenge@,
                response: response@,
                terminator: *terminator,
                limit: *limit as nat,
            },
            Handshake::Binary { session_id } => HandshakeView::Binary { session_id: *session_id },
        }
    }
}

/// The calls behind a line that did not arrive whole: one read for each byte
/// of `partial`, and the read that failed, unless the limit was reached.
pub open spec fn failed_reads(partial: Seq<u8>, error: IoError, limit: nat) -> Seq<Exchange> {
    if partial.len() < limit {
        single_reads(partial).push(Exchange::Read { len: 1, reply: Err(error) })
    } else {
        single_reads(partial)
    }
}

/// Whether `partial` and `error` can be what is left of a line that did not
/// arrive whole.
pub open spec fn is_failed_line(partial: Seq<u8>, error: IoError, terminator: u8, limit: nat) -> bool {
    &&& has_no(partial, terminator)
    &&& partial.len() <= limit
    &&& partial.len() == limit ==> error == IoError::Overrun
}

/// A successful write of `data`.
pub open spec fn sent(data: Seq<u8>) -> Exchange {
    Exchange::Write { data, error: None }
}

/// A failed write of `data`.
pub open spec fn unsent(data: Seq<u8>, error: IoError) -> Exchange {
    Exchange::Write { data, error: Some(error) }
}

/// The challenge frame of the binary flavour, which is also the echo
/// expected of the far end.
pub open spec fn binary_challenge(session_id: u8) -> Seq<u8> {
    seq![OPCODE_HANDSHAKE, session_id]
}

/// Whether an outcome can end an attempt of the given handshake.
pub open spec fn valid_outcome(rules: HandshakeView, outcome: OutcomeView) -> bool {
    match rules {
        HandshakeView::Text { challenge, response, terminator, limit } => match outcome {
            OutcomeView::Success { ack } => {
                &&& response.len() < limit
                &&& has_no(response, terminator)
                &&& is_line(ack, terminator)
                &&& ack.len() <= limit
            },
            OutcomeView::Mismatch { phase, received } => {
                &&& phase == Phase::AwaitResponse
                &&& is_line(received, terminator)
                &&& received.len() <= limit
                &&& content_of(received, terminator) != response
            },
            OutcomeView::TransportError { phase, error, partial } => match phase {
                Phase::SendChallenge => partial.len() == 0,
                Phase::AwaitResponse => is_failed_line(partial, error, terminator, limit),
                Phase::SendAck => {
                    &&& partial.len() == 0
                    &&& response.len() < limit
                    &&& has_no(response, terminator)
                },
                Phase::AwaitFinalAck => {
                    &&& response.len() < limit
                    &&& has_no(response, terminator)
                    &&& is_failed_line(partial, error, terminator, limit)
                },
            },
        },
        HandshakeView::Binary { session_id } => match outcome {
            OutcomeView::Success { ack } => ack == seq![OPCODE_ACK],
            OutcomeView::Mismatch { phase, received } => match phase {
                Phase::AwaitResponse => received.len() == 2 && received != binary_challenge(
                    session_id,
                ),
                Phase::AwaitFinalAck => received.len() == 1 && received != seq![OPCODE_ACK],
                _ => false,
            },
            OutcomeView::TransportError { phase, error, partial } => {
                &&& partial.len() == 0
                &&& phase != Phase::SendAck
            },
        },
    }
}

/// The calls on the transport that one attempt makes, in order, given how it ended.
pub open spec fn attempt_trace(rules: HandshakeView, outcome: OutcomeView) -> Seq<Exchange> {
    match rules {
        HandshakeView::Text { challenge, response, terminator, limit } => {
            let question = terminated(challenge, terminator);
            let answer = terminated(response, terminator);
            match outcome {
                OutcomeView::Success { ack } => seq![sent(question)] + single_reads(answer) + seq![
                    sent(answer),
                ] + single_reads(ack),
                OutcomeView::Mismatch { phase, received } => seq![sent(question)] + single_reads(
                    received,
                ),
                OutcomeView::TransportError { phase, error, partial } => match phase {
                    Phase::SendChallenge => seq![unsent(question, error)],
                    Phase::AwaitResponse => seq![sent(question)] + failed_reads(
                        partial,
                        error,
                        limit,
                    ),
                    Phase::SendAck => seq![sent(question)] + single_reads(answer) + seq![
                        unsent(answer, error),
                    ],
                    Phase::AwaitFinalAck => seq![sent(question)] + single_reads(answer) + seq![
                        sent(answer),
                    ] + failed_reads(partial, error, limit),
                },
            }
        },
        HandshakeView::Binary { session_id } => {
            let question = binary_challenge(session_id);
            let echo = Exchange::Read { len: 2, reply: Ok(question) };
            match outcome {
                OutcomeView::Success { ack } => seq![
                    sent(question),
                    echo,
                    Exchange::Read { len: 1, reply: Ok(ack) },
                ],
                OutcomeView::Mismatch { phase, received } => match phase {
                    Phase::AwaitFinalAck => seq![
                        sent(question),
                        echo,
                        Exchange::Read { len: 1, reply: Ok(received) },
                    ],
                    _ => seq![sent(question), Exchange::Read { len: 2, reply: Ok(received) }],
                },
                OutcomeView::TransportError { phase, error, partial } => match phase {
                    Phase::SendChallenge => seq![unsent(question, error)],
                    Phase::AwaitResponse => seq![
                        sent(question),
                        Exchange::Read { len: 2, reply: Err(error) },
                    ],
                    _ => seq![sent(question), echo, Exchange::Read { len: 1, reply: Err(error) }],
                },
            }
        },
    }
}

/// One attempt of the text flavour.
fn text_attempt<T: Transport>(
    link: &mut Link<T>,
    challenge: &[u8],
    response: &[u8],
    terminator: u8,
    limit: usize,
) -> (outcome: AttemptOutcome)
    ensures
        ({
            let rules = HandshakeView::Text {
                challenge: challenge@,
                response: response@,
                terminator,
                limit: limit as nat,
            };
            &&& valid_outcome(rules, outcome@)
            &&& final(link).log() == old(link).log() + attempt_trace(rules, outcome@)
        }),
        old(link).leads_to(final(link)),
{
    let ghost log0 = link.log();
    let ghost question = terminated(challenge@, terminator);
    let ghost answer = terminated(response@, terminator);
    let ghost cap = limit as nat;
    let ghost link0 = *link;
    let status = write_terminated(link, challenge, terminator);
    if let Err(error) = status {
        proof {
            assert(link.log() =~= log0 + seq![unsent(question, error)]);
        }
        return AttemptOutcome::TransportError {
            phase: Phase::SendChallenge,
            error,
            partial: Vec::new(),
        };
    }
    let ghost log1 = link.log();
    let ghost link1 = *link;
    let mut line: Vec<u8> = Vec::new();
    let status = read_until(link, terminator, limit, &mut line);
    proof {
        link0.lemma_leads_on(&link1, &*link);
        lemma_log_grew(log1, link.log());
        assert(line@.skip(0) =~= line@);
    }
    if let Err(error) = status {
        proof {
            assert(link.log() =~= log0 + (seq![sent(question)] + failed_reads(line@, error, cap)));
        }
        return AttemptOutcome::TransportError {
            phase: Phase::AwaitResponse,
            error,
            partial: line,
        };
    }
    if !same_bytes(strip_terminator(line.as_slice(), terminator), response) {
        proof {
            assert(link.log() =~= log0 + (seq![sent(question)] + single_reads(line@)));
        }
        return AttemptOutcome::Mismatch { phase: Phase::AwaitResponse, received: line };
    }
    proof {
        assert(line@ =~= answer);
        assert(answer.drop_last() =~= response@);
    }
    let ghost link2 = *link;
    let status = write_terminated(link, response, terminator);
    proof {
        link0.lemma_leads_on(&link2, &*link);
    }
    if let Err(error) = status {
        proof {
            assert(link.log() =~= log0 + (seq![sent(question)] + single_reads(answer) + seq![
                unsent(answer, error),
            ]));
        }
        return AttemptOutcome::TransportError {
            phase: Phase::SendAck,
            error,
            partial: Vec::new(),
        };
    }
    let ghost log2 = link.log();
    let ghost link3 = *link;
    let mut ack: Vec<u8> = Vec::new();
    let status = read_until(link, terminator, limit, &mut ack);
    proof {
        link0.lemma_leads_on(&link3, &*link);
        lemma_log_grew(log2, link.log());
        assert(ack@.skip(0) =~= ack@);
    }
    match status {
        Err(error) => {
            proof {
                assert(link.log() =~= log0 + (seq![sent(question)] + single_reads(answer) + seq![
                    sent(answer),
                ] + failed_reads(ack@, error, cap)));
            }
            AttemptOutcome::TransportError { phase: Phase::AwaitFinalAck, error, partial: ack }
        },
        Ok(()) => {
            proof {
                assert(link.log() =~= log0 + (seq![sent(question)] + single_reads(answer) + seq![
                    sent(answer),
                ] + single_reads(ack@)));
            }
            AttemptOutcome::Success { ack }
        },
    }
}

/// One attempt of the binary flavour.
fn binary_attempt<T: Transport>(link: &mut Link<T>, session_id: u8) -> (outcome: AttemptOutcome)
    ensures
        valid_outcome(HandshakeView::Binary { session_id }, outcome@),
        final(link).log() == old(link).log() + attempt_trace(
            HandshakeView::Binary { session_id },
            outcome@,
        ),
        old(link).leads_to(final(link)),
{
    let ghost log0 = link.log();
    let ghost question = binary_challenge(session_id);
    let mut frame: Vec<u8> = Vec::new();
    frame.push(OPCODE_HANDSHAKE);
    frame.push(session_id);
    proof {
        assert(frame@ =~= question);
    }
    let ghost link0 = *link;
    let status = link.write_all(frame.as_slice());
    if let Err(error) = status {
        proof {
            assert(link.log() =~= log0 + seq![unsent(question, error)]);
        }
        return AttemptOutcome::TransportError {
            phase: Phase::SendChallenge,
            error,
            partial: Vec::new(),
        };
    }
    let ghost link1 = *link;
    let first = link.read_exact(2);
    proof {
        link0.lemma_leads_on(&link1, &*link);
    }
    let echo = match first {
        Err(error) => {
            proof {
                assert(link.log() =~= log0 + seq![
                    sent(question),
                    Exchange::Read { len: 2, reply: Err(error) },
                ]);
            }
            return AttemptOutcome::TransportError {
                phase: Phase::AwaitResponse,
                error,
                partial: Vec::new(),
            };
        },
        Ok(echo) => echo,
    };
    if !same_bytes(echo.as_slice(), frame.as_slice()) {
        proof {
            assert(link.log() =~= log0 + seq![
                sent(question),
                Exchange::Read { len: 2, reply: Ok(echo@) },
            ]);
        }
        return AttemptOutcome::Mismatch { phase: Phase::AwaitResponse, received: echo };
    }
    let ghost answered = Exchange::Read { len: 2, reply: Ok(question) };
    let ghost link2 = *link;
    let second = link.read_exact(1);
    proof {
        link0.lemma_leads_on(&link2, &*link);
    }
    match second {
        Err(error) => {
            proof {
                assert(link.log() =~= log0 + seq![
                    sent(question),
                    answered,
                    Exchange::Read { len: 1, reply: Err(error) },
                ]);
            }
            AttemptOutcome::TransportError {
                phase: Phase::AwaitFinalAck,
                error,
                partial: Vec::new(),
            }
        },
        Ok(ack) => {
            proof {
                assert(link.log() =~= log0 + seq![
                    sent(question),
                    answered,
                    Exchange::Read { len: 1, reply: Ok(ack@) },
                ]);
            }
            if ack[0] == OPCODE_ACK {
                proof {
                    assert(ack@ =~= seq![OPCODE_ACK]);
                }
                AttemptOutcome::Success { ack }
            } else {
                AttemptOutcome::Mismatch { phase: Phase::AwaitFinalAck, received: ack }
            }
        },
    }
}

/// How a handshake ended.
#[derive(Clone, Copy, Debug, PartialEq, Eq, Structural)]
pub enum Verdict {
    /// The far end answered as expected at the given attempt, counted from one.
    Connected { attempt: u8 },
    /// Every attempt failed: the transport is to be discarded.
    ConnectionRefused,
}

/// What follows an attempt.
#[derive(Clone, Copy, Debug, PartialEq, Eq, Structural)]
pub enum Decision {
    /// The handshake is done: the far end answered at this attempt.
    Connected { attempt: u8 },
    /// The attempt failed and another one follows, with this number.
    Retry { attempt: u8 },
    /// The attempt failed and it was the last one allowed.
    Refused,
}

/// The record of a handshake: its verdict and every attempt made, in order.
#[derive(Clone, Debug, PartialEq, Eq)]
pub struct HandshakeReport {
    /// How the handshake ended.
    pub verdict: Verdict,
    /// How each attempt ended, the first attempt first.
    pub attempts: Vec<AttemptOutcome>,
}

/// What follows attempt number `attempt`, counted from one, given whether it
/// succeeded.
pub open spec fn decision(attempt: u8, succeeded: bool) -> Decision {
    if succeeded {
        Decision::Connected { attempt }
    } else if attempt < MAX_ATTEMPTS {
        Decision::Retry { attempt: (attempt + 1) as u8 }
    } else {
        Decision::Refused
    }
}

/// The outcomes of a run of attempts as plain values.
pub open spec fn outcome_views(attempts: Seq<AttemptOutcome>) -> Seq<OutcomeView> {
    Seq::new(attempts.len(), |i: int| attempts[i]@)
}

/// The calls on the transport that a run of attempts makes, in order.
pub open spec fn run_trace(rules: HandshakeView, outcomes: Seq<OutcomeView>) -> Seq<Exchange>
    decreases outcomes.len(),
{
    if outcomes.len() == 0 {
        Seq::empty()
    } else {
        run_trace(rules, outcomes.drop_last()) + attempt_trace(rules, outcomes.last())
    }
}

/// Whether `outcomes` and `verdict` are the record of a whole handshake: at
/// least one attempt and at most [`MAX_ATTEMPTS`]; every attempt but the
/// last failed; the handshake is connected when the last attempt succeeded,
/// and refused when it failed, which it only is after the last attempt allowed.
pub open spec fn is_report(
    rules: HandshakeView,
    outcomes: Seq<OutcomeView>,
    verdict: Verdict,
) -> bool {
    &&& 1 <= outcomes.len() <= MAX_ATTEMPTS
    &&& forall|i: int| 0 <= i < outcomes.len() ==> valid_outcome(rules, #[trigger] outcomes[i])
    &&& forall|i: int| 0 <= i < outcomes.len() - 1 ==> !(#[trigger] outcomes[i] is Success)
    &&& if outcomes.last() is Success {
        verdict == (Verdict::Connected { attempt: outcomes.len() as u8 })
    } else {
        verdict == Verdict::ConnectionRefused && outcomes.len() == MAX_ATTEMPTS
    }
}

/// Decides what follows attempt number `attempt`, counted from one.
pub fn decide(attempt: u8, outcome: &AttemptOutcome) -> (next: Decision)
    ensures
        next == decision(attempt, outcome@ is Success),
{
    match outcome {
        AttemptOutcome::Success { .. } => Decision::Connected { attempt },
        _ => {
            if attempt < MAX_ATTEMPTS {
                Decision::Retry { attempt: attempt + 1 }
            } else {
                Decision::Refused
            }
        },
    }
}

impl Handshake {
    /// Makes one attempt on the link and says how it ended.
    ///
    /// The calls made on the transport are exactly those of
    /// [`attempt_trace`] for the outcome that is returned.
    pub fn attempt<T: Transport>(&self, link: &mut Link<T>) -> (outcome: AttemptOutcome)
        ensures
            valid_outcome(self@, outcome@),
            final(link).log() == old(link).log() + attempt_trace(self@, outcome@),
            old(link).leads_to(final(link)),
    {
        match self {
            Handshake::Text { challenge, response, terminator, limit } => text_attempt(
                link,
                challenge.as_slice(),
                response.as_slice(),
                *terminator,
                *limit,
            ),
            Handshake::Binary { session_id } => binary_attempt(link, *session_id),
        }
    }

    /// Runs the handshake: attempts until one succeeds or [`MAX_ATTEMPTS`]
    /// have failed.
    ///
    /// No call is made on the transport after the attempt that succeeded, nor
    /// after the last attempt allowed.
    pub fn run<T: Transport>(&self, link: &mut Link<T>) -> (report: HandshakeReport)
        ensures
            is_report(self@, outcome_views(report.attempts@), report.verdict),
            final(link).log() == old(link).log() + run_trace(
                self@,
                outcome_views(report.attempts@),
            ),
            old(link).leads_to(final(link)),
    {
        let ghost log0 = link.log();
        let ghost link0 = *link;
        let mut attempts: Vec<AttemptOutcome> = Vec::new();
        let mut number: u8 = 1;
        proof {
            assert(link.log() =~= log0 + run_trace(self@, outcome_views(attempts@)));
            link.lemma_leads_nowhere();
        }
        loop
            invariant
                log0 == old(link).log(),
                link0 == *old(link),
                link0.leads_to(&*link),
                link.host() == old(link).host(),
                1 <= number <= MAX_ATTEMPTS,
                attempts@.len() == number - 1,
                forall|i: int|
                    0 <= i < attempts@.len() ==> valid_outcome(
                        self@,
                        #[trigger] outcome_views(attempts@)[i],
                    ),
                forall|i: int|
                    0 <= i < attempts@.len() ==> !(#[trigger] outcome_views(attempts@)[i]
                        is Success),
                link.log() == log0 + run_trace(self@, outcome_views(attempts@)),
            decreases MAX_ATTEMPTS - number,
        {
            let ghost before = outcome_views(attempts@);
            let ghost link1 = *link;
            let outcome = self.attempt(link);
            proof {
                link0.lemma_leads_on(&link1, &*link);
            }
            let next = decide(number, &outcome);
            attempts.push(outcome);
            proof {
                let after = outcome_views(attempts@);
                assert(after =~= before.push(outcome@));
                assert(after.drop_last() =~= before);
                assert(link.log() =~= log0 + run_trace(self@, after));
                assert forall|i: int| 0 <= i < after.len() implies valid_outcome(
                    self@,
                    #[trigger] after[i],
                ) by {
                    if i < before.len() {
                        assert(after[i] == before[i]);
                    }
                }
                assert forall|i: int| 0 <= i < after.len() - 1 implies !(#[trigger] after[i]
                    is Success) by {
                    assert(after[i] == before[i]);
                }
            }
            match next {
                Decision::Connected { attempt } => {
                    return HandshakeReport { verdict: Verdict::Connected { attempt }, attempts };
                },
                Decision::Refused => {
                    return HandshakeReport { verdict: Verdict::ConnectionRefused, attempts };
                },
                Decision::Retry { attempt } => {
                    number = attempt;
                },
            }
        }
    }
}

/// A handshake in which no attempt succeeds ends after exactly
/// [`MAX_ATTEMPTS`] attempts, refused.
pub proof fn lemma_refused_after_all_attempts(
    rules: HandshakeView,
    outcomes: Seq<OutcomeView>,
    verdict: Verdict,
)
    requires
        is_report(rules, outcomes, verdict),
        forall|i: int| 0 <= i < outcomes.len() ==> !(#[trigger] outcomes[i] is Success),
    ensures
        outcomes.len() == MAX_ATTEMPTS,
        verdict == Verdict::ConnectionRefused,
{
    assert(!(outcomes[outcomes.len() - 1] is Success));
}

/// A handshake in which attempt number `attempt`, counted from one, succeeds
/// ends with that attempt, connected: no further attempt is made.
pub proof fn lemma_connected_at_first_success(
    rules: HandshakeView,
    outcomes: Seq<OutcomeView>,
    verdict: Verdict,
    attempt: int,
)
    requires
        is_report(rules, outcomes, verdict),
        1 <= attempt <= outcomes.len(),
        outcomes[attempt - 1] is Success,
    ensures
        outcomes.len() == attempt,
        verdict == (Verdict::Connected { attempt: attempt as u8 }),
{
}

/// A handshake is refused exactly when every one of its attempts failed, and
/// there are then [`MAX_ATTEMPTS`] of them.
pub proof fn lemma_refused_iff_all_failed(
    rules: HandshakeView,
    outcomes: Seq<OutcomeView>,
    verdict: Verdict,
)
    requires
        is_report(rules, outcomes, verdict),
    ensures
        verdict == Verdict::ConnectionRefused <==> forall|i: int|
            0 <= i < outcomes.len() ==> !(#[trigger] outcomes[i] is Success),
        verdict == Verdict::ConnectionRefused ==> outcomes.len() == MAX_ATTEMPTS,
{
    if verdict == Verdict::ConnectionRefused {
        assert forall|i: int| 0 <= i < outcomes.len() implies !(#[trigger] outcomes[i]
            is Success) by {
            if i == outcomes.len() - 1 {
                assert(outcomes[i] == outcomes.last());
            }
        }
    } else {
        assert(outcomes[outcomes.len() - 1] is Success);
    }
}

} // verus!
