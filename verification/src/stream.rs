//! The streaming adapter: one call, from the inbound message to the end of
//! the outbound stream, as a state machine.
//!
//! The adapter does none of the waiting itself. Whoever drives it hands it
//! what has happened as an [`Event`] and carries out the [`Action`] that it
//! answers with. The outbound stream is pulled: a chunk is asked of the
//! handler only when the transport wants the next element, and only while
//! [`State::expects_chunk`] holds.

use crate::error::{failure, rejection, ConversionError, Status, StatusView};
use crate::fields::names_held;
use crate::headers::{first_fault, wire_fields};
use crate::http_api::sure_names;
use crate::pluginv2;
use crate::request::CallResourceRequest;
use crate::response::{body_to_response, chunk_message, Response};
use vstd::prelude::*;

verus! {

/// Where a call stands.
#[derive(Debug, Clone, Copy, PartialEq, Eq, Structural)]
pub enum State {
    /// The inbound message has not been looked at yet.
    Received,
    /// The inbound message is being converted into a request.
    Converting,
    /// The handler has the request; its initial response is awaited.
    Dispatching,
    /// The initial response has been emitted; no chunk has been taken yet.
    StreamingInitial,
    /// Chunks are being relayed.
    StreamingChunks,
    /// The stream has ended: the chunks ran out, or the transport gave up.
    Closed,
    /// A failure has been reported; nothing follows it.
    Failed,
}

/// What has happened to a call.
#[derive(Debug)]
pub enum Event<C> {
    /// The inbound message has arrived.
    Arrived,
    /// The conversion of the inbound message has ended.
    Converted(Result<CallResourceRequest<C>, ConversionError>),
    /// The handler has given its initial response, or the description of its
    /// failure.
    Initial(Result<Response, String>),
    /// The handler's chunk sequence has yielded a chunk, or the description
    /// of a failure.
    Chunk(Result<Vec<u8>, String>),
    /// The handler's chunk sequence has ended.
    Exhausted,
    /// The transport has given up the call.
    Cancelled,
}

/// What is to be done next for a call.
#[derive(Debug)]
pub enum Action<C> {
    /// Convert the inbound message and report how that ended.
    Convert,
    /// Hand the request to the handler and report its initial response.
    Dispatch(CallResourceRequest<C>),
    /// Reject the call with this status; no stream is opened.
    Reject(Status),
    /// Put this element on the outbound stream.
    Emit(Result<pluginv2::CallResourceResponse, Status>),
    /// End the outbound stream, if one is open. Nothing more is to be done.
    Finish,
    /// The event was not awaited in this state: nothing is to be done.
    Ignore,
}

/// One element of the outbound stream as a mathematical value: a message or
/// a failure status.
pub type Element = Result<pluginv2::ResponseView, StatusView>;

/// What an element of the outbound stream holds.
pub open spec fn element_view(element: Result<pluginv2::CallResourceResponse, Status>) -> Element {
    match element {
        Ok(message) => Ok(message@),
        Err(status) => Err(status@),
    }
}

/// What an action holds.
pub enum ActionView<C> {
    Convert,
    Dispatch(CallResourceRequest<C>),
    Reject(StatusView),
    Emit(Element),
    Finish,
    Ignore,
}

impl<C> View for Action<C> {
    type V = ActionView<C>;

    open spec fn view(&self) -> ActionView<C> {
        match *self {
            Action::Convert => ActionView::Convert,
            Action::Dispatch(request) => ActionView::Dispatch(request),
            Action::Reject(status) => ActionView::Reject(status@),
            Action::Emit(element) => ActionView::Emit(element_view(element)),
            Action::Finish => ActionView::Finish,
            Action::Ignore => ActionView::Ignore,
        }
    }
}

/// The first element of the outbound stream: the converted initial response,
/// or a failure status that describes why there is none.
pub open spec fn initial_element(initial: Result<Response, String>) -> Element {
    match initial {
        Ok(response) => match response.message() {
            Some(message) => Ok(message),
            None => Err(failure(ConversionError::InvalidResponse.description())),
        },
        Err(description) => Err(failure(description@)),
    }
}

/// One item of the handler's chunk sequence as a mathematical value: the
/// bytes of a chunk, or the description of a failure.
pub type Chunk = Result<Seq<u8>, Seq<char>>;

/// What an item of the handler's chunk sequence holds.
pub open spec fn chunk_view(chunk: Result<Vec<u8>, String>) -> Chunk {
    match chunk {
        Ok(body) => Ok(body@),
        Err(description) => Err(description@),
    }
}

/// The element of the outbound stream that a chunk becomes: a message with
/// status 200 and no headers, or a failure status.
pub open spec fn chunk_element(chunk: Chunk) -> Element {
    match chunk {
        Ok(body) => Ok(chunk_message(body)),
        Err(description) => Err(failure(description)),
    }
}

impl State {
    /// No event changes this state.
    pub open spec fn is_terminal_spec(self) -> bool {
        self == State::Closed || self == State::Failed
    }

    /// Tells whether the call is over.
    #[verifier::when_used_as_spec(is_terminal_spec)]
    pub fn is_terminal(self) -> (terminal: bool)
        ensures
            terminal == self.is_terminal_spec(),
    {
        match self {
            State::Closed => true,
            State::Failed => true,
            _ => false,
        }
    }

    /// In this state the next chunk may be asked of the handler.
    pub open spec fn expects_chunk_spec(self) -> bool {
        self == State::StreamingInitial || self == State::StreamingChunks
    }

    /// Tells whether the next chunk may be asked of the handler.
    #[verifier::when_used_as_spec(expects_chunk_spec)]
    pub fn expects_chunk(self) -> (expected: bool)
        ensures
            expected == self.expects_chunk_spec(),
    {
        match self {
            State::StreamingInitial => true,
            State::StreamingChunks => true,
            _ => false,
        }
    }

    /// The state after an element has been emitted: streaming goes on after
    /// a message and ends after a failure.
    pub open spec fn after(self, element: Element) -> State {
        match element {
            Ok(_) => self,
            Err(_) => State::Failed,
        }
    }
}

/// The state after the first element of the outbound stream has been
/// emitted.
pub open spec fn after_initial(first: Element) -> State {
    State::StreamingInitial.after(first)
}

/// The state after the element for an item of the chunk sequence has been
/// emitted.
pub open spec fn after_chunk(chunk: Chunk) -> State {
    State::StreamingChunks.after(chunk_element(chunk))
}

/// The state that follows `state` on `event`, and the action that is due.
pub open spec fn step_spec<C>(state: State, event: Event<C>) -> (State, ActionView<C>) {
    if state.is_terminal_spec() {
        (state, ActionView::Finish)
    } else {
        match (state, event) {
            (_, Event::Cancelled) => (State::Closed, ActionView::Finish),
            (State::Received, Event::Arrived) => (State::Converting, ActionView::Convert),
            (State::Converting, Event::Converted(Ok(request))) => (
                State::Dispatching,
                ActionView::Dispatch(request),
            ),
            (State::Converting, Event::Converted(Err(error))) => (
                State::Failed,
                ActionView::Reject(rejection(error)),
            ),
            (State::Dispatching, Event::Initial(initial)) => (
                after_initial(initial_element(initial)),
                ActionView::Emit(initial_element(initial)),
            ),
            (State::StreamingInitial, Event::Chunk(chunk)) | (
                State::StreamingChunks,
                Event::Chunk(chunk),
            ) => (
                after_chunk(chunk_view(chunk)),
                ActionView::Emit(chunk_element(chunk_view(chunk))),
            ),
            (State::StreamingInitial, Event::Exhausted) | (
                State::StreamingChunks,
                Event::Exhausted,
            ) => (State::Closed, ActionView::Finish),
            _ => (state, ActionView::Ignore),
        }
    }
}

/// Converts the initial response of the handler into the first element of
/// the outbound stream.
pub fn convert_initial(initial: Result<Response, String>) -> (element: Result<
    pluginv2::CallResourceResponse,
    Status,
>)
    ensures
        element_view(element) == initial_element(initial),
{
    match initial {
        Ok(response) => match pluginv2::CallResourceResponse::try_from(response) {
            Ok(message) => Ok(message),
            Err(error) => Err(Status::internal(error.describe())),
        },
        Err(description) => Err(Status::internal(description)),
    }
}

/// Converts one item of the handler's chunk sequence into an element of the
/// outbound stream.
pub fn convert_chunk(chunk: Result<Vec<u8>, String>) -> (element: Result<
    pluginv2::CallResourceResponse,
    Status,
>)
    ensures
        element_view(element) == chunk_element(chunk_view(chunk)),
{
    match chunk {
        Ok(body) => Ok(body_to_response(body)),
        Err(description) => Err(Status::internal(description)),
    }
}

/// Advances a call by one event.
pub fn step<C>(state: State, event: Event<C>) -> (next: (State, Action<C>))
    ensures
        (next.0, next.1@) == step_spec(state, event),
{
    match state {
        State::Closed => (State::Closed, Action::Finish),
        State::Failed => (State::Failed, Action::Finish),
        _ => match event {
            Event::Cancelled => (State::Closed, Action::Finish),
            Event::Arrived => match state {
                State::Received => (State::Converting, Action::Convert),
                _ => (state, Action::Ignore),
            },
            Event::Converted(converted) => match state {
                State::Converting => match converted {
                    Ok(request) => (State::Dispatching, Action::Dispatch(request)),
                    Err(error) => (State::Failed, Action::Reject(Status::rejecting(&error))),
                },
                _ => (state, Action::Ignore),
            },
            Event::Initial(initial) => match state {
                State::Dispatching => {
                    let element = convert_initial(initial);
                    let next = if element.is_ok() {
                        State::StreamingInitial
                    } else {
                        State::Failed
                    };
                    (next, Action::Emit(element))
                },
                _ => (state, Action::Ignore),
            },
            Event::Chunk(chunk) => match state {
                State::StreamingInitial | State::StreamingChunks => {
                    let element = convert_chunk(chunk);
                    let next = if element.is_ok() {
                        State::StreamingChunks
                    } else {
                        State::Failed
                    };
                    (next, Action::Emit(element))
                },
                _ => (state, Action::Ignore),
            },
            Event::Exhausted => match state {
                State::StreamingInitial | State::StreamingChunks => (State::Closed, Action::Finish),
                _ => (state, Action::Ignore),
            },
        },
    }
}

/// Takes the inbound message of a call through its conversion: from
/// `Received` over `Converting` to `Dispatching` with the request that is to
/// be dispatched, or to `Failed` with the status that rejects the call.
///
/// `context` tells how the conversion of the message's plugin context ended:
/// `None` where the message carries none.
pub fn receive<C>(message: pluginv2::CallResourceRequest, context: Option<Result<C, String>>) -> (next:
    (State, Action<C>))
    ensures
        match next.1@ {
            ActionView::Dispatch(request) => {
                &&& next.0 == State::Dispatching
                &&& CallResourceRequest::<C>::converts(message, context, Ok(request))
            },
            ActionView::Reject(status) => {
                &&& next.0 == State::Failed
                &&& exists|error: ConversionError| #[trigger]
                    CallResourceRequest::<C>::converts(message, context, Err(error)) && status
                        == rejection(error)
            },
            _ => false,
        },
        first_fault(message.headers.deep_view()) is Some ==> next.1@ is Reject,
        CallResourceRequest::<C>::sound(message, context) && names_held(
            wire_fields(message.headers.deep_view()),
        ) < sure_names() ==> next.1@ is Dispatch,
        !CallResourceRequest::<C>::sound(message, context) ==> next.1@ is Reject,
{
    let (state, _) = step::<C>(State::Received, Event::Arrived);
    let converted = CallResourceRequest::try_from(message, context);
    let ghost outcome = converted;
    let next = step(state, Event::Converted(converted));
    proof {
        if outcome is Err {
            assert(CallResourceRequest::<C>::converts(message, context, Err(outcome->Err_0)));
        }
    }
    next
}

/// How many items of the chunk sequence `chunks` are taken from `state` on,
/// when the transport takes every element: an item is taken only while a
/// chunk is expected.
pub open spec fn taken(state: State, chunks: Seq<Chunk>) -> nat
    decreases chunks.len(),
{
    if chunks.len() == 0 || !state.expects_chunk_spec() {
        0
    } else {
        1 + taken(after_chunk(chunks[0]), chunks.drop_first())
    }
}

/// The elements that are emitted from `state` on for the chunk sequence
/// `chunks`, when the transport takes every element.
pub open spec fn relayed(state: State, chunks: Seq<Chunk>) -> Seq<Element>
    decreases chunks.len(),
{
    if chunks.len() == 0 || !state.expects_chunk_spec() {
        Seq::empty()
    } else {
        seq![chunk_element(chunks[0])] + relayed(after_chunk(chunks[0]), chunks.drop_first())
    }
}

/// The outbound stream of a call whose first element is `first` and whose
/// handler gave the chunk sequence `chunks`, when the transport takes every
/// element.
pub open spec fn outbound(first: Element, chunks: Seq<Chunk>) -> Seq<Element> {
    seq![first] + relayed(after_initial(first), chunks)
}

/// How many items of the chunk sequence are taken during such a call.
pub open spec fn chunks_taken(first: Element, chunks: Seq<Chunk>) -> nat {
    taken(after_initial(first), chunks)
}

/// While a chunk is expected, the adapter answers an item of the chunk
/// sequence with the element for it and goes on expecting chunks exactly if
/// the item was a chunk; it answers the end of the sequence by closing the
/// stream. This is what `relayed` and `taken` follow.
pub proof fn lemma_step_while_streaming<C>(state: State, chunk: Result<Vec<u8>, String>)
    requires
        state.expects_chunk_spec(),
    ensures
        step_spec(state, Event::<C>::Chunk(chunk)) == (
            after_chunk(chunk_view(chunk)),
            ActionView::<C>::Emit(chunk_element(chunk_view(chunk))),
        ),
        step_spec(state, Event::<C>::Exhausted) == (State::Closed, ActionView::<C>::Finish),
        after_chunk(chunk_view(chunk)).expects_chunk_spec() <==> chunk is Ok,
{
}

/// The adapter answers the handler's initial response with the first
/// element of the outbound stream, and expects chunks after it exactly if
/// that element is a message.
pub proof fn lemma_step_on_initial<C>(initial: Result<Response, String>)
    ensures
        step_spec(State::Dispatching, Event::<C>::Initial(initial)) == (
            after_initial(initial_element(initial)),
            ActionView::<C>::Emit(initial_element(initial)),
        ),
        after_initial(initial_element(initial)).expects_chunk_spec() <==> initial_element(initial)
            is Ok,
        initial matches Err(description) ==> initial_element(initial) == Err::<
            pluginv2::ResponseView,
            StatusView,
        >(failure(description@)),
        initial matches Ok(response) ==> (initial_element(initial) is Ok <==> response.message()
            is Some),
{
}

/// What is relayed is, item by item and in order, what was taken; every
/// item taken but the last is a chunk, and items are left untaken only after
/// a failure.
pub proof fn lemma_relayed(state: State, chunks: Seq<Chunk>)
    ensures
        relayed(state, chunks).len() == taken(state, chunks) <= chunks.len(),
        forall|i: int|
            0 <= i < taken(state, chunks) ==> #[trigger] relayed(state, chunks)[i] == chunk_element(
                chunks[i],
            ),
        forall|i: int| 0 <= i < taken(state, chunks) - 1 ==> (#[trigger] chunks[i]) is Ok,
        !state.expects_chunk_spec() ==> taken(state, chunks) == 0,
        state.expects_chunk_spec() && taken(state, chunks) < chunks.len() ==> taken(state, chunks)
            > 0 && chunks[taken(state, chunks) - 1] is Err,
    decreases chunks.len(),
{
    if chunks.len() > 0 && state.expects_chunk_spec() {
        let rest = chunks.drop_first();
        let next = after_chunk(chunks[0]);
        lemma_relayed(next, rest);
        assert forall|i: int| 0 <= i < taken(state, chunks) implies #[trigger] relayed(
            state,
            chunks,
        )[i] == chunk_element(chunks[i]) by {
            if i > 0 {
                assert(relayed(state, chunks)[i] == relayed(next, rest)[i - 1]);
                assert(rest[i - 1] == chunks[i]);
            }
        }
        assert forall|i: int| 0 <= i < taken(state, chunks) - 1 implies (#[trigger] chunks[i]) is Ok by {
            if i > 0 {
                assert(rest[i - 1] == chunks[i]);
            }
        }
        if taken(state, chunks) < chunks.len() && taken(next, rest) > 0 {
            assert(rest[taken(next, rest) - 1] == chunks[taken(state, chunks) - 1]);
        }
    }
}

/// The first item of the chunk sequence that is a failure is the last item
/// taken.
pub proof fn lemma_taken_until_failure(state: State, chunks: Seq<Chunk>, at: int)
    requires
        state.expects_chunk_spec(),
        0 <= at < chunks.len(),
        chunks[at] is Err,
        forall|i: int| 0 <= i < at ==> (#[trigger] chunks[i]) is Ok,
    ensures
        taken(state, chunks) == at + 1,
    decreases chunks.len(),
{
    if at > 0 {
        let rest = chunks.drop_first();
        assert(chunks[0] is Ok);
        assert forall|i: int| 0 <= i < at - 1 implies (#[trigger] rest[i]) is Ok by {
            assert(chunks[i + 1] is Ok);
        }
        lemma_taken_until_failure(after_chunk(chunks[0]), rest, at - 1);
    } else {
        lemma_relayed(State::Failed, chunks.drop_first());
    }
}

/// The outbound stream keeps the order and leaves nothing out: it is the
/// first element followed by one element for each item taken from the chunk
/// sequence, so its length is one more than the number of items taken.
pub proof fn lemma_outbound_in_order(first: Element, chunks: Seq<Chunk>)
    ensures
        outbound(first, chunks).len() == 1 + chunks_taken(first, chunks),
        chunks_taken(first, chunks) <= chunks.len(),
        outbound(first, chunks)[0] == first,
        forall|i: int|
            0 <= i < chunks_taken(first, chunks) ==> #[trigger] outbound(first, chunks)[i + 1]
                == chunk_element(chunks[i]),
{
    let state = after_initial(first);
    lemma_relayed(state, chunks);
    assert forall|i: int| 0 <= i < chunks_taken(first, chunks) implies #[trigger] outbound(
        first,
        chunks,
    )[i + 1] == chunk_element(chunks[i]) by {
        assert(outbound(first, chunks)[i + 1] == relayed(state, chunks)[i]);
    }
}

/// Where the handler fails to give an initial response, or gives one that
/// cannot be converted, the outbound stream is one failure status that
/// describes it, and no item of the chunk sequence is taken.
pub proof fn lemma_initial_failure_ends_stream(
    initial: Result<Response, String>,
    chunks: Seq<Chunk>,
)
    requires
        initial is Err || initial->Ok_0.message() is None,
    ensures
        initial_element(initial) is Err,
        outbound(initial_element(initial), chunks) == seq![initial_element(initial)],
        chunks_taken(initial_element(initial), chunks) == 0,
        initial matches Err(description) ==> outbound(initial_element(initial), chunks)[0] == Err::<
            pluginv2::ResponseView,
            StatusView,
        >(failure(description@)),
{
    lemma_relayed(State::Failed, chunks);
    assert(outbound(initial_element(initial), chunks) =~= seq![initial_element(initial)]);
}

/// Where the `k`-th item of the chunk sequence is its first failure, after a
/// first element that is a message, the outbound stream has `k + 1`
/// elements: the initial message, a message for each of the `k - 1` chunks
/// before the failure, and the failure. Exactly `k` items are taken.
pub proof fn lemma_chunk_failure_ends_stream(first: Element, chunks: Seq<Chunk>, k: int)
    requires
        first is Ok,
        1 <= k <= chunks.len(),
        chunks[k - 1] is Err,
        forall|i: int| 0 <= i < k - 1 ==> (#[trigger] chunks[i]) is Ok,
    ensures
        outbound(first, chunks).len() == k + 1,
        chunks_taken(first, chunks) == k,
        outbound(first, chunks)[0] == first,
        forall|i: int|
            1 <= i < k ==> #[trigger] outbound(first, chunks)[i] == Ok::<
                pluginv2::ResponseView,
                StatusView,
            >(chunk_message(chunks[i - 1]->Ok_0)),
        outbound(first, chunks)[k] == Err::<pluginv2::ResponseView, StatusView>(
            failure(chunks[k - 1]->Err_0),
        ),
{
    lemma_taken_until_failure(State::StreamingInitial, chunks, k - 1);
    lemma_outbound_in_order(first, chunks);
    assert forall|i: int| 1 <= i < k implies #[trigger] outbound(first, chunks)[i] == Ok::<
        pluginv2::ResponseView,
        StatusView,
    >(chunk_message(chunks[i - 1]->Ok_0)) by {
        assert(outbound(first, chunks)[(i - 1) + 1] == chunk_element(chunks[i - 1]));
        assert(chunks[i - 1] is Ok);
    }
    assert(outbound(first, chunks)[(k - 1) + 1] == chunk_element(chunks[k - 1]));
}

/// Where the handler gives an initial response that can be converted and no
/// chunks, the outbound stream is the converted initial response alone.
pub proof fn lemma_no_chunks(initial: Result<Response, String>)
    requires
        initial matches Ok(response) && response.message() is Some,
    ensures
        outbound(initial_element(initial), Seq::empty()) == seq![
            Ok::<pluginv2::ResponseView, StatusView>(initial->Ok_0.message()->Some_0),
        ],
        chunks_taken(initial_element(initial), Seq::empty()) == 0,
{
    assert(outbound(initial_element(initial), Seq::empty()) =~= seq![initial_element(initial)]);
}

/// Where nothing fails, the outbound stream has the initial message and one
/// message for every chunk.
pub proof fn lemma_all_chunks_relayed(first: Element, chunks: Seq<Chunk>)
    requires
        first is Ok,
        forall|i: int| 0 <= i < chunks.len() ==> (#[trigger] chunks[i]) is Ok,
    ensures
        outbound(first, chunks).len() == 1 + chunks.len(),
        chunks_taken(first, chunks) == chunks.len(),
{
    lemma_relayed(State::StreamingInitial, chunks);
    lemma_outbound_in_order(first, chunks);
    if chunks_taken(first, chunks) < chunks.len() {
        assert(chunks[chunks_taken(first, chunks) - 1] is Ok);
    }
}

/// After the end or a failure nothing happens any more: whatever the event,
/// the state stays and the only action is to finish. No request is
/// dispatched, no element is emitted, and no chunk is expected.
pub proof fn lemma_terminal_states_absorb<C>(state: State, event: Event<C>)
    requires
        state.is_terminal_spec(),
    ensures
        step_spec(state, event) == (state, ActionView::<C>::Finish),
        !state.expects_chunk_spec(),
{
}

/// A request reaches the handler only from one state and on one event: when
/// the conversion of the inbound message has succeeded.
pub proof fn lemma_dispatch_only_after_conversion<C>(state: State, event: Event<C>)
    requires
        step_spec(state, event).1 is Dispatch,
    ensures
        state == State::Converting,
        event matches Event::Converted(Ok(request)) && step_spec(state, event) == (
            State::Dispatching,
            ActionView::Dispatch(request),
        ),
{
}

/// A message with a malformed header name or value is rejected before the
/// handler sees anything: however its conversion ends, it ends with
/// `InvalidRequest`, the adapter answers with a rejection, and the call has
/// failed.
pub proof fn lemma_malformed_headers_rejected<C>(
    other: pluginv2::CallResourceRequest,
    context: Option<Result<C, String>>,
    converted: Result<CallResourceRequest<C>, ConversionError>,
)
    requires
        first_fault(other.headers.deep_view()) is Some,
        CallResourceRequest::<C>::converts(other, context, converted),
    ensures
        converted matches Err(ConversionError::InvalidRequest { .. }),
        step_spec(State::Converting, Event::Converted(converted)) == (
            State::Failed,
            ActionView::<C>::Reject(rejection(converted->Err_0)),
        ),
{
}

} // verus!
