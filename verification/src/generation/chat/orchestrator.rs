//! The conversation orchestrator: the turn-by-turn protocol between a
//! model backend and the tools, as a state machine. The caller does the
//! outside work (it submits the history, reads the stream, runs the
//! handlers) and reports each event; the machine decides what the history
//! becomes and what is to be done next.

use crate::generation::chat::dispatch::{
    outcome_message, outcome_report, outcome_view, DispatchError, DispatchFault,
};
use crate::generation::chat::message::{
    call_views, message_views, optional_call_views, CallModel, ChatMessage, MessageModel,
    MessageRole, ToolCall,
};
use vstd::prelude::*;

verus! {

/// One fragment of a streamed response.
#[derive(Clone, Debug, PartialEq, Eq)]
pub struct StreamChunk {
    pub content_delta: String,
    pub tool_calls: Option<Vec<ToolCall>>,
    pub is_final: bool,
}

/// A failure that ends a run: of the backend or of the transport in the
/// middle of a turn, or of a turn whose tools ran out of time.
#[derive(Clone, Debug, PartialEq, Eq)]
pub struct StreamError {
    pub reason: String,
}

/// Where a run stands.
#[derive(Clone, Copy, Debug, PartialEq, Eq, Structural)]
pub enum RunPhase {
    /// The history is ready to be submitted to the backend.
    Submitting,
    /// A response is streaming in.
    Streaming,
    /// The tool calls of the last assistant message are being answered.
    Dispatching,
    /// The model gave its final answer.
    Finished,
    /// The caller cancelled the run.
    Cancelled,
    /// The stream failed.
    Failed,
}

/// Mathematical model of a stream chunk.
pub ghost struct ChunkModel {
    pub content_delta: Seq<char>,
    pub tool_calls: Option<Seq<CallModel>>,
    pub is_final: bool,
}

impl View for StreamChunk {
    type V = ChunkModel;

    open spec fn view(&self) -> ChunkModel {
        ChunkModel {
            content_delta: self.content_delta@,
            tool_calls: optional_call_views(self.tool_calls),
            is_final: self.is_final,
        }
    }
}

impl ChunkModel {
    /// The tool calls that the chunk brings, none where it names none.
    pub open spec fn calls(self) -> Seq<CallModel> {
        match self.tool_calls {
            Some(calls) => calls,
            None => Seq::empty(),
        }
    }
}

/// What the caller reports to the machine.
pub ghost enum Event {
    /// The history was submitted and a stream is open.
    Submitted,
    /// The stream delivered a chunk.
    Chunk(ChunkModel),
    /// The call at the given place of the open turn was answered.
    Outcome(int, Result<Seq<char>, DispatchFault>),
    /// The caller cancels the run.
    Cancel,
    /// The stream failed for the given reason.
    StreamFailed(Seq<char>),
    /// The answers to the open turn's calls did not come in time.
    TimedOut,
}

/// Mathematical model of a run: the history so far, the phase, what the
/// open stream has delivered, and the answers gathered for the open turn's
/// calls, each at the place of its call.
pub ghost struct RunModel {
    pub history: Seq<MessageModel>,
    pub phase: RunPhase,
    pub pending_content: Seq<char>,
    pub pending_calls: Seq<CallModel>,
    pub slots: Seq<Option<MessageModel>>,
    pub failure: Option<Seq<char>>,
}

/// The assistant message that closes a turn.
pub open spec fn turn_message(content: Seq<char>, calls: Seq<CallModel>) -> MessageModel {
    MessageModel {
        role: MessageRole::Assistant,
        content,
        tool_calls: if calls.len() > 0 {
            Some(calls)
        } else {
            None
        },
        complete: true,
    }
}

/// The assistant message that keeps what a cancelled stream had delivered.
pub open spec fn partial_message(content: Seq<char>) -> MessageModel {
    MessageModel { role: MessageRole::Assistant, content, tool_calls: None, complete: false }
}

/// The reason reported when the answers to a turn's calls do not come in
/// time.
pub open spec fn timed_out() -> Seq<char> {
    "the tool calls ran out of time"@
}

/// Every slot holds an answer.
pub open spec fn all_filled(slots: Seq<Option<MessageModel>>) -> bool {
    forall|i: int| 0 <= i < slots.len() ==> (#[trigger] slots[i]) is Some
}

/// The answers in `slots`, in the order of the slots.
pub open spec fn answers(slots: Seq<Option<MessageModel>>) -> Seq<MessageModel> {
    Seq::new(slots.len(), |i: int| slots[i]->Some_0)
}

impl RunModel {
    /// A run that starts from `history`.
    pub open spec fn started(history: Seq<MessageModel>) -> RunModel {
        RunModel {
            history,
            phase: RunPhase::Submitting,
            pending_content: Seq::empty(),
            pending_calls: Seq::empty(),
            slots: Seq::empty(),
            failure: None,
        }
    }

    /// The run is over: no event changes it any more.
    pub open spec fn is_over(self) -> bool {
        self.phase == RunPhase::Finished || self.phase == RunPhase::Cancelled || self.phase
            == RunPhase::Failed
    }

    /// The state is consistent with its phase.
    pub open spec fn wf(self) -> bool {
        &&& self.phase != RunPhase::Streaming ==> self.pending_content.len() == 0
            && self.pending_calls.len() == 0
        &&& self.phase != RunPhase::Dispatching ==> self.slots.len() == 0
        &&& self.phase == RunPhase::Dispatching ==> {
            &&& self.history.len() > 0
            &&& self.history.last().role == MessageRole::Assistant
            &&& self.history.last().complete
            &&& self.history.last().calls().len() == self.slots.len()
            &&& !all_filled(self.slots)
        }
        &&& self.phase == RunPhase::Finished ==> {
            &&& self.history.len() > 0
            &&& self.history.last().role == MessageRole::Assistant
            &&& self.history.last().complete
            &&& self.history.last().tool_calls is None
        }
        &&& (self.phase == RunPhase::Failed) == (self.failure is Some)
    }

    /// The stream is open.
    pub open spec fn after_submit(self) -> RunModel {
        if self.phase == RunPhase::Submitting {
            RunModel { phase: RunPhase::Streaming, ..self }
        } else {
            self
        }
    }

    /// A chunk arrived. Its text and its calls join what is pending. The
    /// final chunk closes the turn: the assistant message goes to the
    /// history, and the run ends where it calls no tool.
    pub open spec fn after_chunk(self, chunk: ChunkModel) -> RunModel {
        if self.phase != RunPhase::Streaming {
            self
        } else {
            let content = self.pending_content + chunk.content_delta;
            let calls = self.pending_calls + chunk.calls();
            if !chunk.is_final {
                RunModel { pending_content: content, pending_calls: calls, ..self }
            } else {
                RunModel {
                    history: self.history.push(turn_message(content, calls)),
                    phase: if calls.len() > 0 {
                        RunPhase::Dispatching
                    } else {
                        RunPhase::Finished
                    },
                    pending_content: Seq::empty(),
                    pending_calls: Seq::empty(),
                    slots: Seq::new(calls.len(), |i: int| None::<MessageModel>),
                    failure: self.failure,
                }
            }
        }
    }

    /// An answer for the call at `index` is awaited.
    pub open spec fn awaits(self, index: int) -> bool {
        &&& self.phase == RunPhase::Dispatching
        &&& 0 <= index < self.slots.len()
        &&& self.slots[index] is None
    }

    /// The call at `index` was answered. The answer waits in its slot;
    /// with the last one in, all answers go to the history in the order of
    /// their calls, and the history is ready to be submitted again.
    pub open spec fn after_outcome(
        self,
        index: int,
        outcome: Result<Seq<char>, DispatchFault>,
    ) -> RunModel {
        if !self.awaits(index) {
            self
        } else {
            let slots = self.slots.update(index, Some(outcome_report(outcome)));
            if all_filled(slots) {
                RunModel {
                    history: self.history + answers(slots),
                    phase: RunPhase::Submitting,
                    slots: Seq::empty(),
                    ..self
                }
            } else {
                RunModel { slots, ..self }
            }
        }
    }

    /// The caller cancelled. What the open stream had delivered stays in
    /// the history as an incomplete assistant message.
    pub open spec fn after_cancel(self) -> RunModel {
        if self.is_over() {
            self
        } else {
            RunModel {
                history: if self.phase == RunPhase::Streaming && self.pending_content.len() > 0 {
                    self.history.push(partial_message(self.pending_content))
                } else {
                    self.history
                },
                phase: RunPhase::Cancelled,
                pending_content: Seq::empty(),
                pending_calls: Seq::empty(),
                slots: Seq::empty(),
                failure: self.failure,
            }
        }
    }

    /// The stream failed. The history stays as it is.
    pub open spec fn after_failure(self, reason: Seq<char>) -> RunModel {
        if self.phase == RunPhase::Submitting || self.phase == RunPhase::Streaming {
            RunModel {
                phase: RunPhase::Failed,
                pending_content: Seq::empty(),
                pending_calls: Seq::empty(),
                failure: Some(reason),
                ..self
            }
        } else {
            self
        }
    }

    /// The answers to the open turn's calls did not come in time: the
    /// turn fails, and the run with it. The answers that had come in are
    /// dropped, and the history stays as it is.
    pub open spec fn after_timeout(self) -> RunModel {
        if self.phase == RunPhase::Dispatching {
            RunModel {
                phase: RunPhase::Failed,
                slots: Seq::empty(),
                failure: Some(timed_out()),
                ..self
            }
        } else {
            self
        }
    }

    /// The state after `event`.
    pub open spec fn next(self, event: Event) -> RunModel {
        match event {
            Event::Submitted => self.after_submit(),
            Event::Chunk(chunk) => self.after_chunk(chunk),
            Event::Outcome(index, outcome) => self.after_outcome(index, outcome),
            Event::Cancel => self.after_cancel(),
            Event::StreamFailed(reason) => self.after_failure(reason),
            Event::TimedOut => self.after_timeout(),
        }
    }

    /// The state after the leading `count` of `events`, in their order.
    pub open spec fn replay(self, events: Seq<Event>, count: nat) -> RunModel
        decreases count,
    {
        if count == 0 {
            self
        } else {
            self.replay(events, (count - 1) as nat).next(events[count - 1])
        }
    }
}

/// Every event keeps a consistent state consistent.
pub proof fn lemma_next_keeps_wf(state: RunModel, event: Event)
    requires
        state.wf(),
    ensures
        state.next(event).wf(),
{
    match event {
        Event::Chunk(chunk) => {
            if state.phase == RunPhase::Streaming && chunk.is_final {
                let calls = state.pending_calls + chunk.calls();
                let after = state.after_chunk(chunk);
                if calls.len() > 0 {
                    assert(after.slots[0] is None);
                }
            }
        },
        Event::Outcome(index, outcome) => {
            if state.awaits(index) {
                let slots = state.slots.update(index, Some(outcome_report(outcome)));
                assert(slots.len() == state.slots.len());
            }
        },
        _ => {},
    }
}

/// The history only grows: after any event, the history before it is a
/// prefix of the history after it.
pub proof fn lemma_history_append_only(state: RunModel, event: Event)
    ensures
        state.history.is_prefix_of(state.next(event).history),
{
}

/// Cancelling while a response streams in keeps what has arrived: the
/// history grows by one assistant message that holds the text streamed so
/// far and is marked incomplete, and the run ends as cancelled.
pub proof fn lemma_cancel_keeps_partial_answer(state: RunModel)
    requires
        state.phase == RunPhase::Streaming,
        state.pending_content.len() > 0,
    ensures
        state.after_cancel().phase == RunPhase::Cancelled,
        state.after_cancel().history == state.history.push(
            partial_message(state.pending_content),
        ),
        state.after_cancel().history.last().content == state.pending_content,
        !state.after_cancel().history.last().complete,
        state.after_cancel().is_over(),
{
}

/// Once a run is over, no event changes it.
pub proof fn lemma_over_is_final(state: RunModel, event: Event)
    requires
        state.is_over(),
    ensures
        state.next(event) == state,
{
}

/// A run of the protocol: the history and what the open turn has gathered
/// so far.
pub struct Conversation {
    history: Vec<ChatMessage>,
    phase: RunPhase,
    pending_content: String,
    pending_calls: Vec<ToolCall>,
    results: Vec<ChatMessage>,
    settled: Vec<bool>,
    failure: Option<StreamError>,
}

/// The slots that `results` and `settled` stand for: an answer where the
/// place is settled.
pub open spec fn slot_views(results: Seq<ChatMessage>, settled: Seq<bool>) -> Seq<
    Option<MessageModel>,
> {
    Seq::new(
        results.len(),
        |i: int|
            if settled[i] {
                Some(results[i]@)
            } else {
                None
            },
    )
}

/// The reason that an optional stream error gives.
pub open spec fn failure_view(failure: Option<StreamError>) -> Option<Seq<char>> {
    match failure {
        Some(error) => Some(error.reason@),
        None => None,
    }
}

impl View for Conversation {
    type V = RunModel;

    closed spec fn view(&self) -> RunModel {
        RunModel {
            history: message_views(self.history@),
            phase: self.phase,
            pending_content: self.pending_content@,
            pending_calls: call_views(self.pending_calls@),
            slots: slot_views(self.results@, self.settled@),
            failure: failure_view(self.failure),
        }
    }
}

/// Makes `count` empty slots.
fn empty_slots(count: usize) -> (r: (Vec<ChatMessage>, Vec<bool>))
    ensures
        r.0@.len() == count,
        r.1@.len() == count,
        forall|i: int| 0 <= i < count ==> !(#[trigger] r.1@[i]),
{
    let mut results: Vec<ChatMessage> = Vec::new();
    let mut settled: Vec<bool> = Vec::new();
    let mut i: usize = 0;
    while i < count
        invariant
            i <= count,
            results@.len() == i,
            settled@.len() == i,
            forall|k: int| 0 <= k < i ==> !(#[trigger] settled@[k]),
        decreases count - i,
    {
        results.push(ChatMessage::new(MessageRole::Tool, String::new()));
        settled.push(false);
        i += 1;
    }
    (results, settled)
}

/// Says whether every place is settled.
fn all_settled(settled: &Vec<bool>) -> (r: bool)
    ensures
        r == forall|i: int| 0 <= i < settled@.len() ==> #[trigger] settled@[i],
{
    let mut i: usize = 0;
    while i < settled.len()
        invariant
            i <= settled.len(),
            forall|k: int| 0 <= k < i ==> #[trigger] settled@[k],
        decreases settled.len() - i,
    {
        if !settled[i] {
            return false;
        }
        i += 1;
    }
    true
}

impl Conversation {
    /// The state is consistent.
    pub closed spec fn wf(&self) -> bool {
        &&& self.results@.len() == self.settled@.len()
        &&& self@.wf()
    }

    /// A consistent state has a consistent model.
    pub proof fn lemma_wf_model(&self)
        requires
            self.wf(),
        ensures
            self@.wf(),
    {
    }

    /// A run that starts from `history`, which is ready to be submitted.
    pub fn start(history: Vec<ChatMessage>) -> (r: Conversation)
        ensures
            r.wf(),
            r@ == RunModel::started(message_views(history@)),
    {
        let r = Conversation {
            history,
            phase: RunPhase::Submitting,
            pending_content: String::new(),
            pending_calls: Vec::new(),
            results: Vec::new(),
            settled: Vec::new(),
            failure: None,
        };
        proof {
            assert(r@.pending_calls =~= Seq::<CallModel>::empty());
            assert(r@.slots =~= Seq::<Option<MessageModel>>::empty());
        }
        r
    }

    /// Where the run stands.
    pub fn phase(&self) -> (r: RunPhase)
        ensures
            r == self@.phase,
    {
        self.phase
    }

    /// The history so far.
    pub fn history(&self) -> (r: &Vec<ChatMessage>)
        ensures
            message_views(r@) == self@.history,
    {
        &self.history
    }

    /// The failure that ended the run, if one did.
    pub fn failure(&self) -> (r: Option<&StreamError>)
        ensures
            match r {
                Some(error) => self@.failure == Some(error.reason@),
                None => self@.failure is None,
            },
    {
        match &self.failure {
            Some(error) => Some(error),
            None => None,
        }
    }

    /// The model's final answer, once the run has finished.
    pub fn final_message(&self) -> (r: Option<&ChatMessage>)
        requires
            self.wf(),
        ensures
            match r {
                Some(message) => self@.phase == RunPhase::Finished && message@
                    == self@.history.last(),
                None => self@.phase != RunPhase::Finished,
            },
    {
        if self.phase == RunPhase::Finished {
            let last = self.history.len() - 1;
            Some(&self.history[last])
        } else {
            None
        }
    }

    /// The calls of the open turn, in the order in which the model made
    /// them, while their answers are awaited.
    pub fn open_calls(&self) -> (r: Option<&Vec<ToolCall>>)
        requires
            self.wf(),
        ensures
            match r {
                Some(calls) => self@.phase == RunPhase::Dispatching && call_views(calls@)
                    == self@.history.last().calls(),
                None => self@.phase != RunPhase::Dispatching,
            },
    {
        if self.phase == RunPhase::Dispatching {
            let last = self.history.len() - 1;
            match &self.history[last].tool_calls {
                Some(calls) => Some(calls),
                None => {
                    assert(false);
                    None
                },
            }
        } else {
            None
        }
    }

    /// Says whether an answer for the call at `index` is awaited.
    pub fn awaits(&self, index: usize) -> (r: bool)
        requires
            self.wf(),
        ensures
            r == self@.awaits(index as int),
    {
        self.phase == RunPhase::Dispatching && index < self.settled.len() && !self.settled[index]
    }

    /// Reports that the history was submitted and a stream is open.
    pub fn mark_submitted(&mut self)
        requires
            old(self).wf(),
        ensures
            final(self).wf(),
            final(self)@ == old(self)@.after_submit(),
    {
        if self.phase == RunPhase::Submitting {
            self.phase = RunPhase::Streaming;
        }
    }

    /// Reports that the stream failed. The run ends as failed where a
    /// stream was open or about to be opened.
    pub fn on_stream_error(&mut self, error: StreamError)
        requires
            old(self).wf(),
        ensures
            final(self).wf(),
            final(self)@ == old(self)@.after_failure(error.reason@),
    {
        if self.phase == RunPhase::Submitting || self.phase == RunPhase::Streaming {
            self.phase = RunPhase::Failed;
            self.pending_content = String::new();
            self.pending_calls = Vec::new();
            self.failure = Some(error);
            proof {
                assert(self@.pending_calls =~= Seq::<CallModel>::empty());
            }
        }
    }

    /// Reports that the answers to the open turn's calls did not come in
    /// time. The run ends as failed where answers were awaited.
    pub fn on_timeout(&mut self)
        requires
            old(self).wf(),
        ensures
            final(self).wf(),
            final(self)@ == old(self)@.after_timeout(),
    {
        if self.phase == RunPhase::Dispatching {
            self.phase = RunPhase::Failed;
            self.results = Vec::new();
            self.settled = Vec::new();
            self.failure = Some(
                StreamError { reason: String::from_str("the tool calls ran out of time") },
            );
            proof {
                assert(self@.slots =~= Seq::<Option<MessageModel>>::empty());
            }
        }
    }

    /// Cancels the run. What the open stream had delivered stays in the
    /// history, marked incomplete; no further turn follows.
    pub fn cancel(&mut self)
        requires
            old(self).wf(),
        ensures
            final(self).wf(),
            final(self)@ == old(self)@.after_cancel(),
    {
        match self.phase {
            RunPhase::Finished | RunPhase::Cancelled | RunPhase::Failed => {},
            _ => {
                let ghost before = self.history@;
                if self.phase == RunPhase::Streaming {
                    let mut content = String::new();
                    core::mem::swap(&mut self.pending_content, &mut content);
                    if !content.as_str().is_empty() {
                        let message = ChatMessage::assistant(content, None, false);
                        self.history.push(message);
                        assert(message_views(self.history@) =~= message_views(before).push(
                            message@,
                        ));
                    }
                }
                self.phase = RunPhase::Cancelled;
                self.pending_content = String::new();
                self.pending_calls = Vec::new();
                self.results = Vec::new();
                self.settled = Vec::new();
                proof {
                    assert(self@.pending_calls =~= Seq::<CallModel>::empty());
                    assert(self@.slots =~= Seq::<Option<MessageModel>>::empty());
                }
            },
        }
    }

    /// Takes a chunk of the open stream. Where a stream is open, the
    /// chunk's text is handed back, to be forwarded to whoever watches the
    /// stream; a chunk that arrives when none is open is passed over. The
    /// final chunk closes the turn.
    pub fn on_chunk(&mut self, chunk: StreamChunk) -> (r: Option<String>)
        requires
            old(self).wf(),
        ensures
            final(self).wf(),
            final(self)@ == old(self)@.after_chunk(chunk@),
            match r {
                Some(fragment) => old(self)@.phase == RunPhase::Streaming && fragment@
                    == chunk.content_delta@,
                None => old(self)@.phase != RunPhase::Streaming,
            },
    {
        if self.phase != RunPhase::Streaming {
            return None;
        }
        let ghost before = *self;
        let ghost model = chunk@;
        let StreamChunk { content_delta, tool_calls, is_final } = chunk;
        self.pending_content.append(content_delta.as_str());
        match tool_calls {
            Some(mut calls) => {
                let ghost arrived = calls@;
                self.pending_calls.append(&mut calls);
                assert(call_views(self.pending_calls@) =~= call_views(before.pending_calls@)
                    + call_views(arrived));
            },
            None => {
                assert(call_views(self.pending_calls@) =~= call_views(before.pending_calls@)
                    + Seq::<CallModel>::empty());
            },
        }
        assert(self@.pending_calls == before@.pending_calls + model.calls());
        if is_final {
            let mut content = String::new();
            core::mem::swap(&mut self.pending_content, &mut content);
            let mut calls: Vec<ToolCall> = Vec::new();
            core::mem::swap(&mut self.pending_calls, &mut calls);
            let count = calls.len();
            let ghost call_models = call_views(calls@);
            let tool_calls = if count > 0 {
                Some(calls)
            } else {
                None
            };
            let message = ChatMessage::assistant(content, tool_calls, true);
            assert(message@ == turn_message(content@, call_models));
            self.history.push(message);
            let (results, settled) = empty_slots(count);
            self.results = results;
            self.settled = settled;
            if count > 0 {
                self.phase = RunPhase::Dispatching;
            } else {
                self.phase = RunPhase::Finished;
            }
            proof {
                assert(message_views(self.history@) =~= message_views(before.history@).push(
                    message@,
                ));
                assert(self@.pending_calls =~= Seq::<CallModel>::empty());
                assert(self@.slots =~= Seq::new(
                    call_models.len(),
                    |i: int| None::<MessageModel>,
                ));
                lemma_next_keeps_wf(before@, Event::Chunk(model));
            }
        }
        Some(content_delta)
    }

    /// Takes the answer to the call at `index` of the open turn, and says
    /// whether it was awaited. Answers may come in any order; they reach
    /// the history together, in the order of their calls, when the last
    /// one is in. An answer that is not awaited is passed over.
    pub fn on_outcome(&mut self, index: usize, outcome: Result<String, DispatchError>) -> (r: bool)
        requires
            old(self).wf(),
        ensures
            final(self).wf(),
            final(self)@ == old(self)@.after_outcome(index as int, outcome_view(outcome)),
            r == old(self)@.awaits(index as int),
    {
        if !self.awaits(index) {
            return false;
        }
        let ghost before = *self;
        let ghost report = outcome_report(outcome_view(outcome));
        let message = outcome_message(outcome);
        self.results.set(index, message);
        self.settled.set(index, true);
        let ghost slots = before@.slots.update(index as int, Some(report));
        assert(self@.slots =~= slots);
        if all_settled(&self.settled) {
            assert(all_filled(slots));
            let ghost gathered = self.results@;
            self.history.append(&mut self.results);
            self.settled = Vec::new();
            self.phase = RunPhase::Submitting;
            proof {
                assert(message_views(gathered) =~= answers(slots));
                assert(message_views(self.history@) =~= message_views(before.history@)
                    + message_views(gathered));
                assert(self@.slots =~= Seq::<Option<MessageModel>>::empty());
            }
        } else {
            assert(!all_filled(slots)) by {
                let i = choose|i: int| 0 <= i < self.settled@.len() && !self.settled@[i];
                assert(slots[i] is None);
            }
        }
        proof {
            lemma_next_keeps_wf(before@, Event::Outcome(index as int, outcome_view(outcome)));
        }
        true
    }
}

/// The events of a stream that delivers `chunks`, in their order.
pub open spec fn chunk_events(chunks: Seq<ChunkModel>) -> Seq<Event> {
    Seq::new(chunks.len(), |i: int| Event::Chunk(chunks[i]))
}

/// The text that the leading `count` of `chunks` deliver, joined in their
/// order.
pub open spec fn streamed_text(chunks: Seq<ChunkModel>, count: nat) -> Seq<char>
    decreases count,
{
    if count == 0 {
        Seq::empty()
    } else {
        streamed_text(chunks, (count - 1) as nat) + chunks[count - 1].content_delta
    }
}

/// The events of a turn whose calls are answered in the order `order`:
/// the answer to the call at place `i` is `outcomes[i]`.
pub open spec fn outcome_events(
    order: Seq<int>,
    outcomes: Seq<Result<Seq<char>, DispatchFault>>,
) -> Seq<Event> {
    Seq::new(order.len(), |k: int| Event::Outcome(order[k], outcomes[order[k]]))
}

/// The place `i` is among the leading `count` of `order`.
pub open spec fn answered(order: Seq<int>, count: nat, i: int) -> bool {
    exists|k: int| 0 <= k < count && #[trigger] order[k] == i
}

/// The reports of `outcomes`, in their order.
pub open spec fn reports(outcomes: Seq<Result<Seq<char>, DispatchFault>>) -> Seq<MessageModel> {
    Seq::new(outcomes.len(), |i: int| outcome_report(outcomes[i]))
}

/// While chunks that are not final and bring no call arrive, the stream
/// stays open and their text gathers in order.
pub proof fn lemma_stream_gathers(state: RunModel, chunks: Seq<ChunkModel>, count: nat)
    requires
        state.phase == RunPhase::Streaming,
        state.pending_content.len() == 0,
        state.pending_calls.len() == 0,
        count <= chunks.len(),
        forall|i: int|
            0 <= i < count ==> !(#[trigger] chunks[i]).is_final && chunks[i].calls().len() == 0,
    ensures
        state.replay(chunk_events(chunks), count) == (RunModel {
            pending_content: streamed_text(chunks, count),
            ..state
        }),
    decreases count,
{
    if count == 0 {
        assert(state.pending_content =~= Seq::<char>::empty());
    } else {
        lemma_stream_gathers(state, chunks, (count - 1) as nat);
        let before = state.replay(chunk_events(chunks), (count - 1) as nat);
        let chunk = chunks[count - 1];
        assert(chunk_events(chunks)[count - 1] == Event::Chunk(chunk));
        assert(before.pending_calls + chunk.calls() =~= state.pending_calls);
    }
}

/// The response `chunks` calls no tool: it has at least one chunk, none
/// of its chunks brings a call, and the last chunk, and no other, is
/// final.
pub open spec fn plain_answer(chunks: Seq<ChunkModel>) -> bool {
    &&& chunks.len() > 0
    &&& forall|i: int| 0 <= i < chunks.len() ==> (#[trigger] chunks[i]).calls().len() == 0
    &&& forall|i: int|
        0 <= i < chunks.len() ==> (#[trigger] chunks[i]).is_final == (i == chunks.len() - 1)
}

/// A response that calls no tool ends the run after one turn: when its
/// chunks have arrived, the last of them final, the run has finished, and
/// the one message added to the history is the assistant's, with the
/// streamed text unchanged.
pub proof fn lemma_plain_answer_ends_run(history: Seq<MessageModel>, chunks: Seq<ChunkModel>)
    requires
        plain_answer(chunks),
    ensures
        ({
            let end = RunModel::started(history).after_submit().replay(
                chunk_events(chunks),
                chunks.len(),
            );
            &&& end.phase == RunPhase::Finished
            &&& end.history == history.push(
                turn_message(streamed_text(chunks, chunks.len()), Seq::empty()),
            )
            &&& end.history.last().content == streamed_text(chunks, chunks.len())
            &&& end.history.last().tool_calls is None
        }),
{
    let state = RunModel::started(history).after_submit();
    let last = (chunks.len() - 1) as nat;
    lemma_stream_gathers(state, chunks, last);
    let before = state.replay(chunk_events(chunks), last);
    assert(chunk_events(chunks)[last as int] == Event::Chunk(chunks[last as int]));
    assert(before.pending_calls + chunks[last as int].calls() =~= Seq::<CallModel>::empty());
}

/// The slots of a turn of `count` calls after the leading `done` answers
/// of `order` have come in.
pub open spec fn slots_after(
    order: Seq<int>,
    outcomes: Seq<Result<Seq<char>, DispatchFault>>,
    done: nat,
) -> Seq<Option<MessageModel>> {
    Seq::new(
        outcomes.len(),
        |i: int|
            if answered(order, done, i) {
                Some(outcome_report(outcomes[i]))
            } else {
                None
            },
    )
}

/// While answers are still missing, each answer that comes in waits in its
/// slot and the history stays as it is.
proof fn lemma_answers_wait(
    state: RunModel,
    order: Seq<int>,
    outcomes: Seq<Result<Seq<char>, DispatchFault>>,
    done: nat,
)
    requires
        state.phase == RunPhase::Dispatching,
        state.slots.len() == outcomes.len(),
        forall|i: int| 0 <= i < state.slots.len() ==> (#[trigger] state.slots[i]) is None,
        order.len() == outcomes.len(),
        order.no_duplicates(),
        forall|k: int| 0 <= k < order.len() ==> 0 <= #[trigger] order[k] < outcomes.len(),
        done < order.len(),
    ensures
        state.replay(outcome_events(order, outcomes), done) == (RunModel {
            slots: slots_after(order, outcomes, done),
            ..state
        }),
    decreases done,
{
    let events = outcome_events(order, outcomes);
    if done == 0 {
        assert(state.slots =~= slots_after(order, outcomes, 0));
    } else {
        let earlier = (done - 1) as nat;
        lemma_answers_wait(state, order, outcomes, earlier);
        let before = state.replay(events, earlier);
        let index = order[earlier as int];
        assert(events[earlier as int] == Event::Outcome(index, outcomes[index]));
        assert(!answered(order, earlier, index));
        assert(before.awaits(index));
        let slots = before.slots.update(index, Some(outcome_report(outcomes[index])));
        assert forall|i: int| 0 <= i < outcomes.len() implies answered(order, done, i) == (
        answered(order, earlier, i) || i == index) by {
            if answered(order, done, i) {
                let k = choose|k: int| 0 <= k < done && #[trigger] order[k] == i;
                if k < earlier {
                    assert(answered(order, earlier, i));
                }
            }
            if answered(order, earlier, i) {
                let k = choose|k: int| 0 <= k < earlier && #[trigger] order[k] == i;
                assert(0 <= k < done && order[k] == i);
            }
            if i == index {
                assert(order[earlier as int] == i);
            }
        }
        assert(slots =~= slots_after(order, outcomes, done));
        let waiting = order[done as int];
        assert(!answered(order, done, waiting));
        assert(slots[waiting] is None);
        assert(!all_filled(slots));
    }
}

/// Tool messages stand right after the assistant message that asked for
/// them, in call order, whatever the order in which the answers came in:
/// when every call of a turn has been answered once, the history has
/// grown by the reports of the answers in the order of their calls, and is
/// ready to be submitted again.
pub proof fn lemma_answers_in_call_order(
    state: RunModel,
    order: Seq<int>,
    outcomes: Seq<Result<Seq<char>, DispatchFault>>,
)
    requires
        state.wf(),
        state.phase == RunPhase::Dispatching,
        state.slots.len() == outcomes.len(),
        forall|i: int| 0 <= i < state.slots.len() ==> (#[trigger] state.slots[i]) is None,
        order.len() == outcomes.len(),
        order.no_duplicates(),
        forall|k: int| 0 <= k < order.len() ==> 0 <= #[trigger] order[k] < outcomes.len(),
        forall|i: int| 0 <= i < outcomes.len() ==> answered(order, order.len(), i),
    ensures
        ({
            let end = state.replay(outcome_events(order, outcomes), order.len());
            let asked = state.history.len() - 1;
            &&& end.phase == RunPhase::Submitting
            &&& end.history == state.history + reports(outcomes)
            &&& end.history.len() == state.history.len() + outcomes.len()
            &&& end.history[asked].role == MessageRole::Assistant
            &&& end.history[asked].calls().len() == outcomes.len()
            &&& forall|i: int|
                0 <= i < outcomes.len() ==> #[trigger] end.history[asked + 1 + i]
                    == outcome_report(outcomes[i])
        }),
{
    assert(outcomes.len() > 0) by {
        if outcomes.len() == 0 {
            assert(all_filled(state.slots));
        }
    }
    let events = outcome_events(order, outcomes);
    let earlier = (order.len() - 1) as nat;
    lemma_answers_wait(state, order, outcomes, earlier);
    let before = state.replay(events, earlier);
    let index = order[earlier as int];
    assert(events[earlier as int] == Event::Outcome(index, outcomes[index]));
    assert(!answered(order, earlier, index));
    assert(before.awaits(index));
    let slots = before.slots.update(index, Some(outcome_report(outcomes[index])));
    assert forall|i: int| 0 <= i < slots.len() implies (#[trigger] slots[i]) == Some(
        outcome_report(outcomes[i]),
    ) by {
        assert(answered(order, order.len(), i));
        let k = choose|k: int| 0 <= k < order.len() && #[trigger] order[k] == i;
        if k < earlier {
            assert(0 <= k < earlier && order[k] == i);
            assert(answered(order, earlier, i));
        }
    }
    assert(all_filled(slots));
    assert(answers(slots) =~= reports(outcomes));
}

} // verus!
