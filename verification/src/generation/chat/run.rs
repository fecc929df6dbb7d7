//! Whole steps of a run: a stream taken in, a turn's calls answered by the
//! registry, and a conversation played against responses that are known
//! in advance.

use crate::generation::chat::dispatch::{
    outcome_report, outcome_view, DispatchError, DispatchFault, ToolRegistry,
};
use crate::generation::chat::message::{
    message_views, CallModel, ChatMessage, MessageModel, ToolCall,
};
use crate::generation::chat::consumer::StreamConsumer;
use crate::generation::chat::orchestrator::{
    all_filled, answers, chunk_events, lemma_plain_answer_ends_run, lemma_stream_gathers,
    plain_answer, streamed_text, turn_message, ChunkModel, Conversation, Event, RunModel,
    RunPhase, StreamChunk, StreamError,
};
use vstd::prelude::*;

verus! {

/// `report` is a tool message with which `registry` may answer a call that
/// reads as `call`.
pub open spec fn answered_by<H: Fn(&ToolCall) -> Result<String, String>>(
    registry: &ToolRegistry<H>,
    call: CallModel,
    report: MessageModel,
) -> bool {
    exists|made: &ToolCall, outcome: Result<Seq<char>, DispatchFault>|
        made@ == call && (#[trigger] registry.admits(made, outcome)) && report == outcome_report(
            outcome,
        )
}

/// `messages` are tool messages that close the open turn of `before`: one
/// for each call and in the order of the calls, the answer that was
/// waiting in the call's slot, or else one with which `registry` may
/// answer the call.
pub open spec fn closes_turn<H: Fn(&ToolCall) -> Result<String, String>>(
    registry: &ToolRegistry<H>,
    before: RunModel,
    messages: Seq<MessageModel>,
) -> bool {
    &&& messages.len() == before.slots.len()
    &&& forall|i: int|
        0 <= i < messages.len() ==> match before.slots[i] {
            Some(waiting) => #[trigger] messages[i] == waiting,
            None => answered_by(registry, before.history.last().calls()[i], messages[i]),
        }
}

/// The state after the open turn of `before` was closed with `messages`.
pub open spec fn turn_closed(before: RunModel, messages: Seq<MessageModel>) -> RunModel {
    RunModel {
        history: before.history + messages,
        phase: RunPhase::Submitting,
        slots: Seq::empty(),
        ..before
    }
}

/// The slots `now` have grown from the slots `before` by answers of
/// `registry` to the calls `calls`.
pub open spec fn slots_grown<H: Fn(&ToolCall) -> Result<String, String>>(
    registry: &ToolRegistry<H>,
    calls: Seq<CallModel>,
    before: Seq<Option<MessageModel>>,
    now: Seq<Option<MessageModel>>,
) -> bool {
    &&& now.len() == before.len()
    &&& forall|k: int|
        0 <= k < now.len() ==> match before[k] {
            Some(waiting) => #[trigger] now[k] == Some(waiting),
            None => now[k] is Some ==> answered_by(registry, calls[k], now[k]->Some_0),
        }
}

/// Answers the calls of the open turn that still await an answer, in the
/// order in which the model made them: each goes to the registry, and its
/// outcome, payload or fault, becomes a tool message. With the last answer
/// the turn is closed and the history is ready to be submitted again.
/// Outside a turn's dispatch nothing happens.
pub fn answer_calls<H: Fn(&ToolCall) -> Result<String, String>>(
    conversation: &mut Conversation,
    registry: &ToolRegistry<H>,
)
    requires
        old(conversation).wf(),
        registry.wf(),
    ensures
        final(conversation).wf(),
        old(conversation)@.phase != RunPhase::Dispatching ==> final(conversation)@ == old(
            conversation,
        )@,
        old(conversation)@.phase == RunPhase::Dispatching ==> exists|messages: Seq<MessageModel>|
            (#[trigger] closes_turn(registry, old(conversation)@, messages))
                && final(conversation)@ == turn_closed(old(conversation)@, messages),
{
    if conversation.phase() != RunPhase::Dispatching {
        return;
    }
    let ghost start = conversation@;
    let ghost calls = start.history.last().calls();
    proof {
        conversation.lemma_wf_model();
    }
    let count = match conversation.open_calls() {
        Some(open) => open.len(),
        None => 0,
    };
    let mut i: usize = 0;
    while i < count
        invariant
            i <= count,
            count == start.slots.len(),
            calls == start.history.last().calls(),
            calls.len() == count,
            start.phase == RunPhase::Dispatching,
            conversation.wf(),
            registry.wf(),
            ({
                ||| {
                    &&& conversation@ == (RunModel { slots: conversation@.slots, ..start })
                    &&& slots_grown(registry, calls, start.slots, conversation@.slots)
                    &&& forall|k: int| 0 <= k < i ==> (#[trigger] conversation@.slots[k]) is Some
                }
                ||| exists|messages: Seq<MessageModel>|
                    (#[trigger] closes_turn(registry, start, messages)) && conversation@
                        == turn_closed(start, messages)
            }),
        decreases count - i,
    {
        let ghost before = conversation@;
        if conversation.awaits(i) {
            let outcome = match conversation.open_calls() {
                Some(open) => {
                    let outcome = registry.dispatch(&open[i]);
                    proof {
                        assert(open@[i as int]@ == calls[i as int]);
                        assert(answered_by(
                            registry,
                            calls[i as int],
                            outcome_report(outcome_view(outcome)),
                        ));
                    }
                    outcome
                },
                None => Err(DispatchError::UnknownTool(String::new())),
            };
            let ghost report = outcome_report(outcome_view(outcome));
            conversation.on_outcome(i, outcome);
            proof {
                conversation.lemma_wf_model();
                let slots = before.slots.update(i as int, Some(report));
                assert(slots_grown(registry, calls, start.slots, slots));
                if all_filled(slots) {
                    let messages = answers(slots);
                    assert(closes_turn(registry, start, messages));
                    assert(conversation@ == turn_closed(start, messages));
                }
            }
        }
        i += 1;
    }
    proof {
        conversation.lemma_wf_model();
        if conversation@.phase == RunPhase::Dispatching {
            assert(all_filled(conversation@.slots));
        }
    }
}

/// The models of `chunks`, in order.
pub open spec fn chunk_views(chunks: Seq<StreamChunk>) -> Seq<ChunkModel> {
    Seq::new(chunks.len(), |i: int| chunks[i]@)
}

/// The fragments that are forwarded while the leading `count` of `chunks`
/// arrive at a run in `state`: the text of each chunk that finds a stream
/// open, in the order of arrival.
pub open spec fn forwarded(state: RunModel, chunks: Seq<ChunkModel>, count: nat) -> Seq<Seq<char>>
    decreases count,
{
    if count == 0 {
        Seq::empty()
    } else {
        let earlier = forwarded(state, chunks, (count - 1) as nat);
        if state.replay(chunk_events(chunks), (count - 1) as nat).phase == RunPhase::Streaming {
            earlier.push(chunks[count - 1].content_delta)
        } else {
            earlier
        }
    }
}

/// Takes in the chunks of a stream, in their order, and forwards the text
/// of each to `consumer` as it arrives.
pub fn absorb<C: StreamConsumer>(
    conversation: &mut Conversation,
    chunks: Vec<StreamChunk>,
    consumer: &mut C,
)
    requires
        old(conversation).wf(),
    ensures
        final(conversation).wf(),
        final(conversation)@ == old(conversation)@.replay(
            chunk_events(chunk_views(chunks@)),
            chunks@.len(),
        ),
        final(consumer).received() == old(consumer).received() + forwarded(
            old(conversation)@,
            chunk_views(chunks@),
            chunks@.len(),
        ),
{
    let ghost start = conversation@;
    let ghost heard = consumer.received();
    let ghost all = chunk_views(chunks@);
    let ghost events = chunk_events(all);
    proof {
        assert(heard + forwarded(start, all, 0) =~= heard);
    }
    for chunk in it: chunks
        invariant
            conversation.wf(),
            all == chunk_views(it.seq()),
            events == chunk_events(all),
            conversation@ == start.replay(events, it.index() as nat),
            consumer.received() == heard + forwarded(start, all, it.index() as nat),
    {
        let ghost place = it.index();
        let ghost model = chunk@;
        assert(all[place] == model);
        assert(events[place] == Event::Chunk(model));
        let ghost earlier = forwarded(start, all, place as nat);
        match conversation.on_chunk(chunk) {
            Some(fragment) => {
                consumer.accept(fragment.as_str());
                assert(heard + earlier.push(model.content_delta) =~= (heard + earlier).push(
                    model.content_delta,
                ));
            },
            None => {},
        }
    }
}

/// The reason reported when a stream ends before its final chunk.
pub open spec fn ended_early() -> Seq<char> {
    "the stream ended before its final chunk"@
}

/// The reason reported when the backend has no response left to give.
pub open spec fn no_response() -> Seq<char> {
    "the backend gave no response"@
}

/// The models of `responses`, in order.
pub open spec fn response_views(responses: Seq<Vec<StreamChunk>>) -> Seq<Seq<ChunkModel>> {
    Seq::new(responses.len(), |i: int| chunk_views(responses[i]@))
}

/// The state in which the history of `before` was submitted and the
/// response `chunks` has streamed in.
pub open spec fn streamed(before: RunModel, chunks: Seq<ChunkModel>) -> RunModel {
    before.after_submit().replay(chunk_events(chunks), chunks.len())
}

/// One turn leads from `before` to `after` when the backend responds with
/// `chunks`: a response that breaks off fails the run; one that calls
/// tools has them answered by `registry`, in call order; one that calls
/// none finishes the run.
pub open spec fn turn_played<H: Fn(&ToolCall) -> Result<String, String>>(
    registry: &ToolRegistry<H>,
    before: RunModel,
    chunks: Seq<ChunkModel>,
    after: RunModel,
) -> bool {
    let arrived = streamed(before, chunks);
    if arrived.phase == RunPhase::Streaming {
        after == arrived.after_failure(ended_early())
    } else if arrived.phase == RunPhase::Dispatching {
        exists|messages: Seq<MessageModel>|
            (#[trigger] closes_turn(registry, arrived, messages)) && after == turn_closed(
                arrived,
                messages,
            )
    } else {
        after == arrived
    }
}

/// One more response leads from `mid`, with `earlier` forwarded so far,
/// to `end`, with `heard` forwarded: it is one turn where the run asks
/// for a turn, and goes unused where the run is over.
pub open spec fn response_played<H: Fn(&ToolCall) -> Result<String, String>>(
    registry: &ToolRegistry<H>,
    mid: RunModel,
    earlier: Seq<Seq<char>>,
    chunks: Seq<ChunkModel>,
    end: RunModel,
    heard: Seq<Seq<char>>,
) -> bool {
    if mid.phase == RunPhase::Submitting {
        &&& turn_played(registry, mid, chunks, end)
        &&& heard == earlier + forwarded(mid.after_submit(), chunks, chunks.len())
    } else {
        end == mid && heard == earlier
    }
}

/// The leading `count` of `responses` lead from `start` to `end`, and
/// `heard` is what was forwarded on the way, each response in its turn.
pub open spec fn played<H: Fn(&ToolCall) -> Result<String, String>>(
    registry: &ToolRegistry<H>,
    start: RunModel,
    responses: Seq<Seq<ChunkModel>>,
    count: nat,
    end: RunModel,
    heard: Seq<Seq<char>>,
) -> bool
    decreases count,
{
    if count == 0 {
        end == start && heard == Seq::<Seq<char>>::empty()
    } else {
        exists|mid: RunModel, earlier: Seq<Seq<char>>|
            played(registry, start, responses, (count - 1) as nat, mid, earlier) && (
            #[trigger] response_played(registry, mid, earlier, responses[count - 1], end, heard))
    }
}

/// Plays a conversation against `responses`, the responses that the
/// backend gives turn by turn: submit, stream, answer the calls, submit
/// again, until a response calls no tool. Every fragment goes to
/// `consumer` as it arrives. The run fails where a response breaks off
/// before its final chunk, or where the responses run out while the
/// history waits to be submitted.
pub fn run<H: Fn(&ToolCall) -> Result<String, String>, C: StreamConsumer>(
    history: Vec<ChatMessage>,
    registry: &ToolRegistry<H>,
    responses: Vec<Vec<StreamChunk>>,
    consumer: &mut C,
) -> (r: Conversation)
    requires
        registry.wf(),
    ensures
        r.wf(),
        r@.is_over(),
        exists|last: RunModel, heard: Seq<Seq<char>>|
            (#[trigger] played(
                registry,
                RunModel::started(message_views(history@)),
                response_views(responses@),
                responses@.len(),
                last,
                heard,
            )) && final(consumer).received() == old(consumer).received() + heard && r@
                == run_ended(last),
        responses@.len() > 0 && plain_answer(chunk_views(responses@[0]@)) ==> {
            &&& r@.phase == RunPhase::Finished
            &&& r@.history == message_views(history@).push(
                turn_message(
                    streamed_text(chunk_views(responses@[0]@), responses@[0]@.len()),
                    Seq::empty(),
                ),
            )
            &&& final(consumer).received() == old(consumer).received() + deltas(
                chunk_views(responses@[0]@),
            )
        },
{
    let mut conversation = Conversation::start(history);
    let ghost start = conversation@;
    let ghost all = response_views(responses@);
    let ghost before_all = consumer.received();
    let ghost mut heard: Seq<Seq<char>> = Seq::empty();
    proof {
        assert(before_all + heard =~= before_all);
    }
    for chunks in it: responses
        invariant
            conversation.wf(),
            registry.wf(),
            all == response_views(it.seq()),
            conversation@.phase != RunPhase::Streaming,
            conversation@.phase != RunPhase::Dispatching,
            played(registry, start, all, it.index() as nat, conversation@, heard),
            consumer.received() == before_all + heard,
    {
        let ghost place = it.index();
        let ghost mid = conversation@;
        let ghost earlier = heard;
        let ghost models = chunk_views(chunks@);
        assert(all[place] == models);
        if conversation.phase() == RunPhase::Submitting {
            conversation.mark_submitted();
            absorb(&mut conversation, chunks, consumer);
            if conversation.phase() == RunPhase::Streaming {
                let reason = String::from_str("the stream ended before its final chunk");
                conversation.on_stream_error(StreamError { reason });
            } else {
                answer_calls(&mut conversation, registry);
            }
            proof {
                let fragments = forwarded(mid.after_submit(), models, models.len());
                heard = earlier + fragments;
                assert(before_all + earlier + fragments =~= before_all + heard);
                assert(turn_played(registry, mid, models, conversation@));
            }
        }
        proof {
            let count = (place + 1) as nat;
            assert(0 <= place);
            assert((count - 1) as nat == place as nat);
            assert(played(registry, start, all, (count - 1) as nat, mid, earlier));
            assert(all[count - 1] == models);
            assert(response_played(
                registry,
                mid,
                earlier,
                all[count - 1],
                conversation@,
                heard,
            ));
            assert(played(registry, start, all, count, conversation@, heard));
        }
    }
    proof {
        if all.len() > 0 && plain_answer(all[0]) {
            lemma_plain_answer_plays_one_turn(
                registry,
                start.history,
                all,
                all.len(),
                conversation@,
                heard,
            );
        }
    }
    if conversation.phase() == RunPhase::Submitting {
        let reason = String::from_str("the backend gave no response");
        conversation.on_stream_error(StreamError { reason });
    }
    conversation
}

/// Where a run comes to rest when the responses are used up: it fails
/// where the history still waits to be submitted.
pub open spec fn run_ended(last: RunModel) -> RunModel {
    if last.phase == RunPhase::Submitting {
        last.after_failure(no_response())
    } else {
        last
    }
}

/// The text of each of `chunks`, in order.
pub open spec fn deltas(chunks: Seq<ChunkModel>) -> Seq<Seq<char>> {
    Seq::new(chunks.len(), |i: int| chunks[i].content_delta)
}

/// Every chunk of a response that calls no tool is forwarded.
proof fn lemma_plain_answer_forwarded(state: RunModel, chunks: Seq<ChunkModel>, count: nat)
    requires
        state.phase == RunPhase::Streaming,
        state.pending_content.len() == 0,
        state.pending_calls.len() == 0,
        plain_answer(chunks),
        count <= chunks.len(),
    ensures
        forwarded(state, chunks, count) == deltas(chunks).take(count as int),
    decreases count,
{
    if count == 0 {
        assert(deltas(chunks).take(0) =~= Seq::<Seq<char>>::empty());
    } else {
        lemma_plain_answer_forwarded(state, chunks, (count - 1) as nat);
        lemma_stream_gathers(state, chunks, (count - 1) as nat);
        assert(deltas(chunks).take(count - 1).push(chunks[count - 1].content_delta) =~= deltas(
            chunks,
        ).take(count as int));
    }
}

/// A first response that calls no tool ends the run after exactly one
/// turn, whatever responses follow it: the run has finished, the history
/// has grown by the assistant's message alone, with the streamed text
/// unchanged, and every chunk was forwarded.
pub proof fn lemma_plain_answer_plays_one_turn<H: Fn(&ToolCall) -> Result<String, String>>(
    registry: &ToolRegistry<H>,
    history: Seq<MessageModel>,
    responses: Seq<Seq<ChunkModel>>,
    count: nat,
    end: RunModel,
    heard: Seq<Seq<char>>,
)
    requires
        1 <= count <= responses.len(),
        plain_answer(responses[0]),
        played(registry, RunModel::started(history), responses, count, end, heard),
    ensures
        end == streamed(RunModel::started(history), responses[0]),
        end.phase == RunPhase::Finished,
        end.history == history.push(
            turn_message(streamed_text(responses[0], responses[0].len()), Seq::empty()),
        ),
        heard == deltas(responses[0]),
    decreases count,
{
    let start = RunModel::started(history);
    let chunks = responses[0];
    lemma_plain_answer_ends_run(history, chunks);
    let (mid, earlier) = choose|mid: RunModel, earlier: Seq<Seq<char>>|
        played(registry, start, responses, (count - 1) as nat, mid, earlier) && (
        #[trigger] response_played(registry, mid, earlier, responses[count - 1], end, heard));
    if count == 1 {
        lemma_plain_answer_forwarded(start.after_submit(), chunks, chunks.len());
        assert(deltas(chunks).take(chunks.len() as int) =~= deltas(chunks));
        assert(earlier + deltas(chunks) =~= deltas(chunks));
    } else {
        lemma_plain_answer_plays_one_turn(
            registry,
            history,
            responses,
            (count - 1) as nat,
            mid,
            earlier,
        );
    }
}

} // verus!
