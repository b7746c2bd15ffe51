//! The blocking command loop.
//!
//! The loop takes one command of input at a time and makes exactly one
//! exchange with the device for it: a write sends one frame and reads
//! nothing, a read takes one frame and hands its content to the output. A
//! line or frame that is no command is reported and the loop goes on; a
//! failure of the transport ends the loop, and so does the end of the input,
//! after which the transport is not touched again.
//!
//! The caller owns the input and the output: it hands each line or frame to
//! [`CommandLoop::step_line`] or [`CommandLoop::step_frame`] and acts on the
//! [`Step`] that comes back.

use crate::action::{parsed, Action, ActionConversionError, ActionView, ConversionErrorView};
use crate::codec::Width;
use crate::line::{
    content_of, is_line_read, read_until, strip_terminator, terminated, write_terminated,
};
use crate::request::{parsed_request, Request, RequestView};
use crate::text::texts;
use crate::transport::{lemma_log_grew, Exchange, IoError, Link, Transport};
use vstd::prelude::*;
use vstd::string::StringSliceAdditionalSpecFns;
use vstd::utf8::encode_utf8;

verus! {

/// What the loop asks of its caller after one step.
#[derive(Clone, Debug, PartialEq, Eq)]
pub enum Step {
    /// The command was carried out and there is nothing to forward.
    Continue,
    /// A frame was read: its content is ready in the response buffer.
    Forward,
    /// The input was no command. The loop goes on with the next input.
    Rejected(ActionConversionError),
    /// The transport failed. The loop has ended.
    Fatal(IoError),
    /// The input is exhausted, or the loop had ended before. Nothing was done.
    Finished,
}

/// A [`Step`] as plain values.
pub enum StepView {
    Continue,
    Forward,
    Rejected(ConversionErrorView),
    Fatal(IoError),
    Finished,
}

impl View for Step {
    type V = StepView;

    open spec fn view(&self) -> StepView {
        match self {
            Step::Continue => StepView::Continue,
            Step::Forward => StepView::Forward,
            Step::Rejected(e) => StepView::Rejected(e@),
            Step::Fatal(e) => StepView::Fatal(*e),
            Step::Finished => StepView::Finished,
        }
    }
}

/// The state of the command loop between two steps.
pub struct CommandLoop {
    terminator: u8,
    limit: usize,
    width: Width,
    response: Vec<u8>,
    finished: bool,
}

/// The settings and the state of a [`CommandLoop`] as plain values.
pub struct LoopView {
    /// The byte that ends every frame of the text protocol.
    pub terminator: u8,
    /// The longest frame of the text protocol that is accepted, terminator included.
    pub limit: nat,
    /// The width of a response of the binary protocol.
    pub width: Width,
    /// The frame that the last read took, as it arrived.
    pub response: Seq<u8>,
    /// Whether the loop has ended.
    pub finished: bool,
}

impl View for CommandLoop {
    type V = LoopView;

    closed spec fn view(&self) -> LoopView {
        LoopView {
            terminator: self.terminator,
            limit: self.limit as nat,
            width: self.width,
            response: self.response@,
            finished: self.finished,
        }
    }
}

/// The step that turns a status of the transport into: go on, or end.
pub open spec fn after_write(error: Option<IoError>) -> StepView {
    match error {
        None => StepView::Continue,
        Some(e) => StepView::Fatal(e),
    }
}

/// What one step of the text protocol does.
///
/// `before` and `after` are the loop before and after the step, `added` the
/// calls made on the transport during it, `line` the input (`None` at its
/// end) and `step` what is handed back.
pub open spec fn is_line_step(
    before: LoopView,
    line: Option<Seq<char>>,
    added: Seq<Exchange>,
    after: LoopView,
    step: StepView,
) -> bool {
    let settled = LoopView { response: after.response, finished: after.finished, ..before };
    &&& after == settled
    &&& if before.finished || line is None {
        &&& step == StepView::Finished
        &&& added.len() == 0
        &&& after.finished
        &&& after.response == before.response
    } else {
        match parsed(line->Some_0) {
            Err(e) => {
                &&& step == StepView::Rejected(e)
                &&& added.len() == 0
                &&& !after.finished
                &&& after.response == before.response
            },
            Ok(ActionView::Write(payload)) => {
                &&& added.len() == 1
                &&& added[0] matches Exchange::Write { data, error }
                &&& data == terminated(encode_utf8(payload), before.terminator)
                &&& step == after_write(error)
                &&& after.finished == error is Some
                &&& after.response == before.response
            },
            Ok(ActionView::Read) => {
                &&& step matches StepView::Forward ==> {
                    &&& is_line_read(added, before.terminator, before.limit, after.response, Ok(()))
                    &&& !after.finished
                }
                &&& step matches StepView::Fatal(e) ==> {
                    &&& is_line_read(
                        added,
                        before.terminator,
                        before.limit,
                        after.response,
                        Err(e),
                    )
                    &&& after.finished
                }
                &&& step is Forward || step is Fatal
            },
        }
    }
}

/// What one step of the binary protocol does, in the terms of [`is_line_step`].
pub open spec fn is_frame_step(
    before: LoopView,
    frame: Option<Seq<u8>>,
    added: Seq<Exchange>,
    after: LoopView,
    step: StepView,
) -> bool {
    let settled = LoopView { response: after.response, finished: after.finished, ..before };
    &&& after == settled
    &&& if before.finished || frame is None {
        &&& step == StepView::Finished
        &&& added.len() == 0
        &&& after.finished
        &&& after.response == before.response
    } else {
        match parsed_request(frame->Some_0) {
            Err(e) => {
                &&& step == StepView::Rejected(e)
                &&& added.len() == 0
                &&& !after.finished
                &&& after.response == before.response
            },
            Ok(RequestView::Write(payload)) => {
                &&& added.len() == 1
                &&& added[0] matches Exchange::Write { data, error }
                &&& data == payload
                &&& step == after_write(error)
                &&& after.finished == error is Some
                &&& after.response == before.response
            },
            Ok(RequestView::Read) => {
                &&& added.len() == 1
                &&& added[0] matches Exchange::Read { len, reply }
                &&& len == before.width.bytes()
                &&& match reply {
                    Ok(bytes) => {
                        &&& step == StepView::Forward
                        &&& after.response == bytes
                        &&& !after.finished
                    },
                    Err(e) => {
                        &&& step == StepView::Fatal(e)
                        &&& after.response.len() == 0
                        &&& after.finished
                    },
                }
            },
        }
    }
}

/// The input of step number `index` of a run over `lines`, counted from
/// zero: the line of that number, and the end of the input after the last.
pub open spec fn input_at(lines: Seq<Seq<char>>, index: int) -> Option<Seq<char>> {
    if 0 <= index < lines.len() {
        Some(lines[index])
    } else {
        None
    }
}

/// Whether a step ends the loop.
pub open spec fn ends_loop(step: StepView) -> bool {
    step is Fatal || step is Finished
}

/// The steps as plain values.
pub open spec fn step_views(steps: Seq<Step>) -> Seq<StepView> {
    Seq::new(steps.len(), |i: int| steps[i]@)
}

/// Whether step number `i` of a run, counted from zero, takes the loop from
/// `states[i]` to `states[i + 1]` with the input of that number and makes the
/// calls that stand in `added` from `cuts[i]` up to `cuts[i + 1]`.
pub open spec fn is_run_step(
    lines: Seq<Seq<char>>,
    added: Seq<Exchange>,
    steps: Seq<StepView>,
    states: Seq<LoopView>,
    cuts: Seq<int>,
    i: int,
) -> bool {
    &&& 0 <= cuts[i]
    &&& cuts[i] <= cuts[i + 1]
    &&& cuts[i + 1] <= added.len()
    &&& is_line_step(
        states[i],
        input_at(lines, i),
        added.subrange(cuts[i], cuts[i + 1]),
        states[i + 1],
        steps[i],
    )
}

/// Whether `states` and `cuts` lay out a run of steps over the lines of a
/// script: `states` holds the loop before each step and after the last,
/// `cuts` where the calls of each step begin and end among `added`.
pub open spec fn is_line_run_through(
    start: LoopView,
    lines: Seq<Seq<char>>,
    added: Seq<Exchange>,
    end: LoopView,
    steps: Seq<StepView>,
    states: Seq<LoopView>,
    cuts: Seq<int>,
) -> bool {
    &&& states.len() == steps.len() + 1
    &&& cuts.len() == steps.len() + 1
    &&& states[0] == start
    &&& states.last() == end
    &&& cuts[0] == 0
    &&& cuts.last() == added.len()
    &&& forall|i: int|
        0 <= i < steps.len() ==> #[trigger] is_run_step(lines, added, steps, states, cuts, i)
}

/// What a run of steps over the lines of a script does: step after step, in
/// the order of the script, each step taking the loop where the one before
/// left it and adding its own calls after all the calls made before.
pub open spec fn is_line_run(
    start: LoopView,
    lines: Seq<Seq<char>>,
    added: Seq<Exchange>,
    end: LoopView,
    steps: Seq<StepView>,
) -> bool {
    exists|states: Seq<LoopView>, cuts: Seq<int>| #[trigger]
        is_line_run_through(start, lines, added, end, steps, states, cuts)
}

/// Clean end of input: a loop whose input ends at once makes no call on the
/// transport at all.
pub proof fn lemma_immediate_end_makes_no_call(
    start: LoopView,
    added: Seq<Exchange>,
    end: LoopView,
    steps: Seq<StepView>,
)
    requires
        steps.len() == 1,
        is_line_run(start, Seq::empty(), added, end, steps),
    ensures
        steps[0] == StepView::Finished,
        added.len() == 0,
        end.finished,
        end.response == start.response,
{
    let lines = Seq::<Seq<char>>::empty();
    let (states, cuts) = choose|states: Seq<LoopView>, cuts: Seq<int>| #[trigger]
        is_line_run_through(start, lines, added, end, steps, states, cuts);
    assert(is_run_step(lines, added, steps, states, cuts, 0));
    assert(added.subrange(cuts[0], cuts[1]).len() == 0);
}

/// Order is kept: in a run, every call of an earlier step stands in the
/// record before every call of a later step. So what a write has sent is on
/// the transport before a later read is asked for.
pub proof fn lemma_steps_in_order(
    start: LoopView,
    lines: Seq<Seq<char>>,
    added: Seq<Exchange>,
    end: LoopView,
    steps: Seq<StepView>,
    states: Seq<LoopView>,
    cuts: Seq<int>,
    earlier: int,
    later: int,
)
    requires
        is_line_run_through(start, lines, added, end, steps, states, cuts),
        0 <= earlier < later < steps.len(),
    ensures
        0 <= cuts[earlier] <= cuts[earlier + 1] <= cuts[later] <= cuts[later + 1] <= added.len(),
    decreases later - earlier,
{
    assert(is_run_step(lines, added, steps, states, cuts, earlier));
    assert(is_run_step(lines, added, steps, states, cuts, later));
    if earlier + 1 < later {
        lemma_steps_in_order(start, lines, added, end, steps, states, cuts, earlier + 1, later);
        assert(is_run_step(lines, added, steps, states, cuts, earlier + 1));
    }
}

/// Nothing happens after the end: once a run has reached a step that ends
/// the loop, every further step makes no call and changes nothing.
pub proof fn lemma_no_call_after_the_end(
    before: LoopView,
    line: Option<Seq<char>>,
    added: Seq<Exchange>,
    after: LoopView,
    step: StepView,
)
    requires
        before.finished,
        is_line_step(before, line, added, after, step),
    ensures
        added.len() == 0,
        after == before,
        step == StepView::Finished,
{
}

impl CommandLoop {
    /// A loop that has not taken any input yet.
    ///
    /// `terminator` ends every frame of the text protocol and `limit` bounds
    /// its length; `width` is the width of a response of the binary protocol.
    pub fn new(terminator: u8, limit: usize, width: Width) -> (state: CommandLoop)
        ensures
            state@ == (LoopView {
                terminator,
                limit: limit as nat,
                width,
                response: Seq::empty(),
                finished: false,
            }),
    {
        CommandLoop { terminator, limit, width, response: Vec::new(), finished: false }
    }

    /// Whether the loop has ended.
    pub fn is_finished(&self) -> (finished: bool)
        ensures
            finished == self@.finished,
    {
        self.finished
    }

    /// The frame that the last read took, as it arrived.
    pub fn response(&self) -> (frame: &[u8])
        ensures
            frame@ == self@.response,
    {
        self.response.as_slice()
    }

    /// The frame that the last read took, without the terminator at its end.
    pub fn content(&self) -> (content: &[u8])
        ensures
            content@ == content_of(self@.response, self@.terminator),
    {
        strip_terminator(self.response.as_slice(), self.terminator)
    }

    /// Ends the loop.
    fn finish(&mut self)
        ensures
            final(self)@ == (LoopView { finished: true, ..old(self)@ }),
    {
        self.finished = true;
    }

    /// Takes one line of input of the text protocol, or its end (`None`), and
    /// carries it out on the link.
    pub fn step_line<T: Transport>(&mut self, link: &mut Link<T>, line: Option<&str>) -> (step:
        Step)
        ensures
            old(link).log().is_prefix_of(final(link).log()),
            old(link).leads_to(final(link)),
            is_line_step(
                old(self)@,
                match line {
                    Some(text) => Some(text@),
                    None => None,
                },
                final(link).log().skip(old(link).log().len() as int),
                final(self)@,
                step@,
            ),
    {
        let ghost log0 = link.log();
        proof {
            assert(link.log().skip(log0.len() as int) =~= Seq::<Exchange>::empty());
            link.lemma_leads_nowhere();
        }
        if self.finished {
            return Step::Finished;
        }
        let text = match line {
            None => {
                self.finish();
                return Step::Finished;
            },
            Some(text) => text,
        };
        match Action::try_from(text) {
            Err(e) => Step::Rejected(e),
            Ok(Action::Write(payload)) => {
                let status = write_terminated(link, payload.as_str().as_bytes(), self.terminator);
                proof {
                    assert(link.log().skip(log0.len() as int) =~= seq![link.log().last()]);
                }
                match status {
                    Ok(_) => Step::Continue,
                    Err(e) => {
                        self.finish();
                        Step::Fatal(e)
                    },
                }
            },
            Ok(Action::Read) => {
                self.response.clear();
                let status = read_until(link, self.terminator, self.limit, &mut self.response);
                proof {
                    assert(self.response@.skip(0) =~= self.response@);
                }
                match status {
                    Ok(_) => Step::Forward,
                    Err(e) => {
                        self.finish();
                        Step::Fatal(e)
                    },
                }
            },
        }
    }

    /// Takes one frame of input of the binary protocol, or its end (`None`),
    /// and carries it out on the link.
    pub fn step_frame<T: Transport>(&mut self, link: &mut Link<T>, frame: Option<&[u8]>) -> (step:
        Step)
        ensures
            old(link).log().is_prefix_of(final(link).log()),
            old(link).leads_to(final(link)),
            is_frame_step(
                old(self)@,
                match frame {
                    Some(bytes) => Some(bytes@),
                    None => None,
                },
                final(link).log().skip(old(link).log().len() as int),
                final(self)@,
                step@,
            ),
    {
        let ghost log0 = link.log();
        proof {
            assert(link.log().skip(log0.len() as int) =~= Seq::<Exchange>::empty());
            link.lemma_leads_nowhere();
        }
        if self.finished {
            return Step::Finished;
        }
        let bytes = match frame {
            None => {
                self.finish();
                return Step::Finished;
            },
            Some(bytes) => bytes,
        };
        match Request::try_from(bytes) {
            Err(e) => Step::Rejected(e),
            Ok(Request::Write(payload)) => {
                let status = link.write_all(payload.as_slice());
                proof {
                    assert(link.log().skip(log0.len() as int) =~= seq![link.log().last()]);
                }
                match status {
                    Ok(_) => Step::Continue,
                    Err(e) => {
                        self.finish();
                        Step::Fatal(e)
                    },
                }
            },
            Ok(Request::Read) => {
                self.response.clear();
                let reply = link.read_exact(self.width.len());
                proof {
                    assert(link.log().skip(log0.len() as int) =~= seq![link.log().last()]);
                }
                match reply {
                    Ok(received) => {
                        self.response = received;
                        Step::Forward
                    },
                    Err(e) => {
                        self.finish();
                        Step::Fatal(e)
                    },
                }
            },
        }
    }

    /// Runs the loop over a script: the lines in order, and then the end of
    /// the input. The run stops with the first step that ends the loop.
    pub fn run_lines<T: Transport>(&mut self, link: &mut Link<T>, lines: &[String]) -> (steps: Vec<
        Step,
    >)
        ensures
            old(link).log().is_prefix_of(final(link).log()),
            old(link).leads_to(final(link)),
            is_line_run(
                old(self)@,
                texts(lines@),
                final(link).log().skip(old(link).log().len() as int),
                final(self)@,
                step_views(steps@),
            ),
            1 <= steps@.len() <= lines@.len() + 1,
            ends_loop(steps@.last()@),
            forall|i: int| 0 <= i < steps@.len() - 1 ==> !ends_loop(#[trigger] steps@[i]@),
    {
        let ghost log0 = link.log();
        let ghost link0 = *link;
        let ghost start = self@;
        let ghost script = texts(lines@);
        let mut steps: Vec<Step> = Vec::new();
        let mut i: usize = 0;
        let ghost mut states: Seq<LoopView> = seq![start];
        let ghost mut cuts: Seq<int> = seq![0int];
        proof {
            assert(link.log().skip(log0.len() as int) =~= Seq::<Exchange>::empty());
            link.lemma_leads_nowhere();
        }
        loop
            invariant
                log0 == old(link).log(),
                link0 == *old(link),
                link0.leads_to(&*link),
                link.host() == old(link).host(),
                start == old(self)@,
                script == texts(lines@),
                i <= lines@.len(),
                steps@.len() == i,
                log0.is_prefix_of(link.log()),
                forall|j: int| 0 <= j < steps@.len() ==> !ends_loop(#[trigger] steps@[j]@),
                is_line_run_through(
                    start,
                    script,
                    link.log().skip(log0.len() as int),
                    self@,
                    step_views(steps@),
                    states,
                    cuts,
                ),
            decreases lines@.len() - i,
        {
            let ghost mid = self@;
            let ghost log1 = link.log();
            let ghost link1 = *link;
            let ghost done = step_views(steps@);
            let line = if i < lines.len() {
                Some(lines[i].as_str())
            } else {
                None
            };
            let step = self.step_line(link, line);
            let over = match step {
                Step::Fatal(_) | Step::Finished => true,
                _ => false,
            };
            steps.push(step);
            proof {
                link0.lemma_leads_on(&link1, &*link);
                let views = step_views(steps@);
                let before = log1.skip(log0.len() as int);
                let added = link.log().skip(log0.len() as int);
                let old_states = states;
                let old_cuts = cuts;
                lemma_log_grew(log0, log1);
                lemma_log_grew(log1, link.log());
                states = states.push(self@);
                cuts = cuts.push(added.len() as int);
                assert(views =~= done.push(step@));
                assert(added.subrange(before.len() as int, added.len() as int) =~= link.log().skip(
                    log1.len() as int,
                ));
                assert forall|k: int| 0 <= k < views.len() implies #[trigger] is_run_step(
                    script,
                    added,
                    views,
                    states,
                    cuts,
                    k,
                ) by {
                    if k < done.len() {
                        assert(is_run_step(script, before, done, old_states, old_cuts, k));
                        assert(views[k] == done[k]);
                        assert(states[k] == old_states[k] && states[k + 1] == old_states[k + 1]);
                        assert(cuts[k] == old_cuts[k] && cuts[k + 1] == old_cuts[k + 1]);
                        assert(added.subrange(cuts[k], cuts[k + 1]) =~= before.subrange(
                            cuts[k],
                            cuts[k + 1],
                        ));
                    } else {
                        assert(views[k] == step@);
                        assert(states[k] == mid);
                        assert(cuts[k] == before.len());
                    }
                }
                assert(is_line_run_through(start, script, added, self@, views, states, cuts));
            }
            if over {
                proof {
                    let views = step_views(steps@);
                    assert forall|j: int| 0 <= j < steps@.len() - 1 implies !ends_loop(
                        #[trigger] steps@[j]@,
                    ) by {
                        assert(views[j] == done[j]);
                    }
                }
                return steps;
            }
            proof {
                assert forall|j: int| 0 <= j < steps@.len() implies !ends_loop(
                    #[trigger] steps@[j]@,
                ) by {
                    if j < done.len() {
                        assert(step_views(steps@)[j] == done[j]);
                    }
                }
            }
            i = i + 1;
        }
    }
}

} // verus!
