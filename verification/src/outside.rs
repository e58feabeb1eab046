//! What a game that lives outside is asked, byte for byte, and what each of its replies comes to.

use crate::external_simulation::{
    ExternalSimulationAdapter, ExternalSimulationBridge, ExternalSimulationDescriptor,
    ExternalSimulationError, ExternalSimulationOperation, ExternalSimulationResponse, RequestView,
    ResponseView,
};
use crate::protocol::{PlayerId, MAX_COMMAND_PAYLOAD_BYTES, MAX_SNAPSHOT_PAYLOAD_BYTES};
use crate::simulation::{GameSimulation, SimulationError, SimulationSnapshot, SnapshotView};
use vstd::prelude::*;

verus! {

/// The frame of each request: the version, the operation's code, and what the operation needs.
pub proof fn law_request_frames(player_id: PlayerId, sequence: u32, payload: Seq<u8>)
    ensures
        ({
            let id = crate::wire::be_bytes(player_id as nat, 4);
            &&& RequestView::Describe.bytes() == seq![1u8, 1u8]
            &&& RequestView::AddPlayer(player_id).bytes() == seq![1u8, 2u8] + id
            &&& RequestView::RemovePlayer(player_id).bytes() == seq![1u8, 3u8] + id
            &&& (RequestView::ApplyCommand { player_id, sequence, payload }).bytes() == seq![
                1u8,
                4u8,
            ] + id + crate::wire::be_bytes(sequence as nat, 4) + crate::wire::be_bytes(
                payload.len(),
                2,
            ) + payload
            &&& RequestView::AdvanceTick.bytes() == seq![1u8, 5u8]
            &&& RequestView::Snapshot.bytes() == seq![1u8, 6u8]
            &&& RequestView::SnapshotFor(player_id).bytes() == seq![1u8, 7u8] + id
        }),
{
    let id = crate::wire::be_bytes(player_id as nat, 4);
    let command = RequestView::ApplyCommand { player_id, sequence, payload };
    assert(RequestView::Describe.bytes() =~= seq![1u8, 1u8]);
    assert(RequestView::AdvanceTick.bytes() =~= seq![1u8, 5u8]);
    assert(RequestView::Snapshot.bytes() =~= seq![1u8, 6u8]);
    assert(command.bytes() =~= seq![1u8, 4u8] + id + crate::wire::be_bytes(sequence as nat, 4)
        + crate::wire::be_bytes(payload.len(), 2) + payload);
}

/// Every request can be framed but a command without a sequence or with too long a payload.
pub proof fn law_requests_are_judged(request: RequestView)
    ensures
        match request {
            RequestView::ApplyCommand { sequence, payload, .. } => {
                let long = payload.len() > MAX_COMMAND_PAYLOAD_BYTES;
                &&& request.refusal() is None <==> sequence > 0 && !long
                &&& sequence == 0 ==> request.refusal() == Some(
                    ExternalSimulationError::InvalidSequence,
                )
                &&& sequence > 0 && long ==> request.refusal() == Some(
                    ExternalSimulationError::PayloadTooLarge {
                        maximum: MAX_COMMAND_PAYLOAD_BYTES,
                        actual: payload.len() as usize,
                    },
                )
            },
            _ => request.refusal() is None,
        },
{
}

/// The code of an operation.
pub open spec fn code(operation: ExternalSimulationOperation) -> u8 {
    match operation {
        ExternalSimulationOperation::Describe => 1,
        ExternalSimulationOperation::AddPlayer => 2,
        ExternalSimulationOperation::RemovePlayer => 3,
        ExternalSimulationOperation::ApplyCommand => 4,
        ExternalSimulationOperation::AdvanceTick => 5,
        ExternalSimulationOperation::Snapshot => 6,
        ExternalSimulationOperation::SnapshotFor => 7,
    }
}

/// The frame in which a game turns an operation down in its own words.
pub open spec fn rejection(asked: ExternalSimulationOperation, words: Seq<char>) -> Seq<u8> {
    seq![1u8, code(asked), 1u8] + vstd::utf8::encode_utf8(words)
}

/// The frame in which a game acknowledges an operation.
pub open spec fn acknowledgement(asked: ExternalSimulationOperation) -> Seq<u8> {
    seq![1u8, code(asked), 0u8]
}

/// The frame in which a game tells whether a player left.
pub open spec fn departure(removed: bool) -> Seq<u8> {
    seq![
        1u8,
        3u8,
        0u8,
        if removed {
            1u8
        } else {
            0u8
        },
    ]
}

/// The frame in which a game tells the tick that it reached.
pub open spec fn arrival(tick: u64) -> Seq<u8> {
    seq![1u8, 5u8, 0u8] + crate::wire::be_bytes(tick as nat, 8)
}

/// The frame in which a game shows a snapshot.
pub open spec fn exhibit(asked: ExternalSimulationOperation, snapshot: SnapshotView) -> Seq<u8> {
    seq![1u8, code(asked), 0u8] + crate::wire::be_bytes(snapshot.tick as nat, 8)
        + crate::wire::be_bytes(snapshot.state_hash as nat, 8) + crate::wire::be_bytes(
        snapshot.payload.len(),
        2,
    ) + snapshot.payload
}

/// The frame in which a game describes itself.
pub open spec fn description(descriptor: ExternalSimulationDescriptor) -> Seq<u8> {
    seq![1u8, 1u8, 0u8] + crate::wire::be_bytes(descriptor.tick_hz as nat, 2)
        + crate::wire::be_bytes(descriptor.max_players as nat, 2) + crate::wire::be_bytes(
        descriptor.current_tick as nat,
        8,
    ) + seq![
        if descriptor.snapshot_scope is PlayerScoped {
            1u8
        } else {
            0u8
        },
    ]
}

/// Every answer that is framed is understood: one to another operation is refused, a rejection is
/// the game's error in the game's words, and every other answer is taken as it is.
pub proof fn law_framed_answers_are_understood(
    asked: ExternalSimulationOperation,
    told: ExternalSimulationOperation,
    response: ResponseView,
    frame: Vec<u8>,
    answer: Result<ExternalSimulationResponse, ExternalSimulationError>,
)
    requires
        response.refusal(told) is None,
        frame@ == response.bytes(told),
        crate::external_simulation::comes_to(asked, Ok(frame), answer),
    ensures
        told != asked ==> answer == Err::<ExternalSimulationResponse, _>(
            ExternalSimulationError::UnexpectedOperation { expected: asked, actual: told },
        ),
        told == asked && response is Rejected ==> (answer matches Err(
            ExternalSimulationError::Remote(text),
        ) && text@ == response->Rejected_0),
        told == asked && !(response is Rejected) ==> (answer matches Ok(value) && value@
            == response),
{
    crate::external_simulation::law_response_round_trip(told, response, told, response);
    let (actual, read) = choose|actual: ExternalSimulationOperation, read: ResponseView|
        {
            &&& read.refusal(actual) is None
            &&& frame@ == #[trigger] read.bytes(actual)
            &&& crate::external_simulation::means(asked, actual, read, answer)
        };
    crate::external_simulation::law_response_round_trip(told, response, actual, read);
}

/// An answer is taken only from a frame that carries it for the operation that was asked.
proof fn lemma_answers_are_framed(
    asked: ExternalSimulationOperation,
    reply: Result<Vec<u8>, ExternalSimulationError>,
    value: ExternalSimulationResponse,
)
    requires
        crate::external_simulation::comes_to(asked, reply, Ok(value)),
    ensures
        reply is Ok,
        reply->Ok_0@ == value@.bytes(asked),
        value@.refusal(asked) is None,
        !(value is Rejected),
{
    let (actual, read) = choose|actual: ExternalSimulationOperation, read: ResponseView|
        {
            &&& read.refusal(actual) is None
            &&& reply->Ok_0@ == #[trigger] read.bytes(actual)
            &&& crate::external_simulation::means(asked, actual, read, Ok(value))
        };
    assert(actual == asked && value@ == read);
}

/// Whether the failure of an operation tells what a bridge replied: a failure of the bridge is told
/// as it is, a rejection in the game's words, and anything else is a fault of the frame.
pub open spec fn tells_failure(
    asked: ExternalSimulationOperation,
    reply: Result<Vec<u8>, ExternalSimulationError>,
    error: Seq<char>,
) -> bool {
    match reply {
        Err(failure) => error == failure.message(),
        Ok(frame) => forall|words: Seq<char>|
            vstd::utf8::encode_utf8(words).len() <= 1024 && frame@ == #[trigger] rejection(
                asked,
                words,
            ) ==> error == "external simulation rejected operation: "@ + words,
    }
}

proof fn lemma_failure_is_told(
    asked: ExternalSimulationOperation,
    reply: Result<Vec<u8>, ExternalSimulationError>,
    cause: ExternalSimulationError,
)
    requires
        crate::external_simulation::comes_to(asked, reply, Err(cause)),
    ensures
        tells_failure(asked, reply, cause.message()),
{
    if let Ok(frame) = reply {
        assert forall|words: Seq<char>|
            vstd::utf8::encode_utf8(words).len() <= 1024 && frame@ == #[trigger] rejection(
                asked,
                words,
            ) implies cause.message() == "external simulation rejected operation: "@ + words by {
            let response = ResponseView::Rejected(words);
            assert(response.bytes(asked) =~= rejection(asked, words));
            law_framed_answers_are_understood(asked, asked, response, frame, Err(cause));
        }
    }
}

/// A rejection is never taken for an answer.
proof fn lemma_rejection_is_no_answer(
    asked: ExternalSimulationOperation,
    reply: Result<Vec<u8>, ExternalSimulationError>,
    words: Seq<char>,
    answer: Result<ExternalSimulationResponse, ExternalSimulationError>,
)
    requires
        crate::external_simulation::comes_to(asked, reply, answer),
        reply matches Ok(frame) && frame@ == rejection(asked, words),
        vstd::utf8::encode_utf8(words).len() <= 1024,
    ensures
        answer is Err,
{
    let response = ResponseView::Rejected(words);
    assert(response.bytes(asked) =~= rejection(asked, words));
    law_framed_answers_are_understood(asked, asked, response, reply->Ok_0, answer);
}

/// Whether an acknowledgement reports a bridge's reply: it succeeds exactly where the game
/// acknowledged, and else tells the failure.
pub open spec fn reports_acknowledgement(
    asked: ExternalSimulationOperation,
    reply: Result<Vec<u8>, ExternalSimulationError>,
    result: Result<(), SimulationError>,
) -> bool {
    &&& result is Ok <==> (reply matches Ok(frame) && frame@ == acknowledgement(asked))
    &&& result matches Err(error) ==> tells_failure(asked, reply, error@)
}

/// Adding a player to an outside game asks the game once and changes nothing here: it succeeds
/// exactly where the game acknowledged it, and a game that turns it down is quoted.
pub proof fn law_outside_admission<B: ExternalSimulationBridge>(
    pre: ExternalSimulationAdapter<B>,
    player_id: PlayerId,
    post: ExternalSimulationAdapter<B>,
    result: Result<(), SimulationError>,
)
    requires
        GameSimulation::added(pre, player_id, post, result),
    ensures
        post@ == pre@,
        exists|reply: Result<Vec<u8>, ExternalSimulationError>| #[trigger]
            crate::external_simulation::replies(
                pre@.bridge,
                RequestView::AddPlayer(player_id),
                reply,
            ) && reports_acknowledgement(ExternalSimulationOperation::AddPlayer, reply, result),
{
    lemma_acknowledgement_is_reported(
        pre@.bridge,
        RequestView::AddPlayer(player_id),
        ExternalSimulationOperation::AddPlayer,
        result,
    );
}

/// Commanding an outside game asks the game once and changes nothing here: it succeeds exactly
/// where the game acknowledged the command, and a game that turns it down is quoted. A command
/// without a sequence or with too long a payload is never sent.
pub proof fn law_outside_command<B: ExternalSimulationBridge>(
    pre: ExternalSimulationAdapter<B>,
    player_id: PlayerId,
    sequence: u32,
    payload: Seq<u8>,
    post: ExternalSimulationAdapter<B>,
    result: Result<(), SimulationError>,
)
    requires
        GameSimulation::commanded(pre, player_id, sequence, payload, post, result),
    ensures
        post@ == pre@,
        sequence == 0 || payload.len() > MAX_COMMAND_PAYLOAD_BYTES ==> result is Err,
        sequence == 0 ==> result->Err_0@ == "external simulation command sequence must be non-zero"@,
        sequence > 0 && payload.len() <= MAX_COMMAND_PAYLOAD_BYTES ==> exists|
            reply: Result<Vec<u8>, ExternalSimulationError>,
        | #[trigger]
            crate::external_simulation::replies(
                pre@.bridge,
                RequestView::ApplyCommand { player_id, sequence, payload },
                reply,
            ) && reports_acknowledgement(ExternalSimulationOperation::ApplyCommand, reply, result),
{
    let request = RequestView::ApplyCommand { player_id, sequence, payload };
    if request.refusal() is None {
        lemma_acknowledgement_is_reported(
            pre@.bridge,
            request,
            ExternalSimulationOperation::ApplyCommand,
            result,
        );
    } else {
        let answer = choose|answer: Result<ExternalSimulationResponse, ExternalSimulationError>|
            #[trigger] crate::external_simulation::exchanges(pre@.bridge, request, answer)
                && crate::external_simulation::acknowledges(request.asks(), answer, result);
        assert(answer is Err);
    }
}

proof fn lemma_acknowledgement_is_reported<B: ExternalSimulationBridge>(
    bridge: B,
    request: RequestView,
    asked: ExternalSimulationOperation,
    result: Result<(), SimulationError>,
)
    requires
        crate::external_simulation::acknowledged(bridge, request, result),
        request.refusal() is None,
        request.asks() == asked,
        asked is AddPlayer || asked is ApplyCommand,
    ensures
        exists|reply: Result<Vec<u8>, ExternalSimulationError>| #[trigger]
            crate::external_simulation::replies(bridge, request, reply) && reports_acknowledgement(
                asked,
                reply,
                result,
            ),
{
    let answer = choose|answer: Result<ExternalSimulationResponse, ExternalSimulationError>|
        #[trigger] crate::external_simulation::exchanges(bridge, request, answer)
            && crate::external_simulation::acknowledges(asked, answer, result);
    let reply = choose|reply: Result<Vec<u8>, ExternalSimulationError>|
        #[trigger] crate::external_simulation::replies(bridge, request, reply)
            && crate::external_simulation::comes_to(asked, reply, answer);
    let response = ResponseView::Acknowledged;
    assert(response.bytes(asked) =~= acknowledgement(asked));
    if reply matches Ok(frame) && frame@ == acknowledgement(asked) {
        law_framed_answers_are_understood(asked, asked, response, reply->Ok_0, answer);
        assert(answer->Ok_0 is Acknowledged);
    }
    match answer {
        Ok(value) => {
            lemma_answers_are_framed(asked, reply, value);
            lemma_misfit_is_told(asked, reply, value);
        },
        Err(cause) => {
            lemma_failure_is_told(asked, reply, cause);
        },
    }
    assert(crate::external_simulation::replies(bridge, request, reply) && reports_acknowledgement(
        asked,
        reply,
        result,
    ));
}

/// A frame that carries an answer carries no rejection.
proof fn lemma_misfit_is_told(
    asked: ExternalSimulationOperation,
    reply: Result<Vec<u8>, ExternalSimulationError>,
    value: ExternalSimulationResponse,
)
    requires
        crate::external_simulation::comes_to(asked, reply, Ok(value)),
    ensures
        forall|words: Seq<char>|
            vstd::utf8::encode_utf8(words).len() <= 1024 ==> !(reply matches Ok(frame) && frame@
                == #[trigger] rejection(asked, words)),
        forall|error: Seq<char>| #[trigger] tells_failure(asked, reply, error),
{
    lemma_answers_are_framed(asked, reply, value);
    assert forall|words: Seq<char>| vstd::utf8::encode_utf8(words).len() <= 1024 implies !(
    reply matches Ok(frame) && frame@ == #[trigger] rejection(asked, words)) by {
        if reply->Ok_0@ == rejection(asked, words) {
            lemma_rejection_is_no_answer(asked, reply, words, Ok(value));
        }
    }
}

/// Removing a player from an outside game asks the game once and changes nothing here: the result
/// is what the game said of the player, and a game that turns it down is quoted.
pub proof fn law_outside_removal<B: ExternalSimulationBridge>(
    pre: ExternalSimulationAdapter<B>,
    player_id: PlayerId,
    post: ExternalSimulationAdapter<B>,
    result: Result<bool, SimulationError>,
)
    requires
        GameSimulation::removed(pre, player_id, post, result),
    ensures
        post@ == pre@,
        exists|reply: Result<Vec<u8>, ExternalSimulationError>| #[trigger]
            crate::external_simulation::replies(
                pre@.bridge,
                RequestView::RemovePlayer(player_id),
                reply,
            ) && reports_departure(reply, result),
{
    let asked = ExternalSimulationOperation::RemovePlayer;
    let request = RequestView::RemovePlayer(player_id);
    let answer = choose|answer: Result<ExternalSimulationResponse, ExternalSimulationError>|
        #[trigger] crate::external_simulation::exchanges(pre@.bridge, request, answer)
            && crate::external_simulation::tells_removal(answer, result);
    let reply = choose|reply: Result<Vec<u8>, ExternalSimulationError>|
        #[trigger] crate::external_simulation::replies(pre@.bridge, request, reply)
            && crate::external_simulation::comes_to(asked, reply, answer);
    assert forall|removed: bool|
        result == Ok::<bool, SimulationError>(removed) <==> (reply matches Ok(frame) && frame@
            == #[trigger] departure(removed)) by {
        let response = ResponseView::PlayerRemoved(removed);
        assert(response.bytes(asked) =~= departure(removed));
        if reply matches Ok(frame) && frame@ == departure(removed) {
            law_framed_answers_are_understood(asked, asked, response, reply->Ok_0, answer);
            assert(answer->Ok_0 == ExternalSimulationResponse::PlayerRemoved(removed));
        }
        if result == Ok::<bool, SimulationError>(removed) {
            lemma_answers_are_framed(asked, reply, answer->Ok_0);
        }
    }
    match answer {
        Ok(value) => {
            lemma_misfit_is_told(asked, reply, value);
        },
        Err(cause) => {
            lemma_failure_is_told(asked, reply, cause);
        },
    }
    assert(crate::external_simulation::replies(pre@.bridge, request, reply) && reports_departure(
        reply,
        result,
    ));
}

/// Whether a removal reports a bridge's reply.
pub open spec fn reports_departure(
    reply: Result<Vec<u8>, ExternalSimulationError>,
    result: Result<bool, SimulationError>,
) -> bool {
    &&& forall|removed: bool|
        result == Ok::<bool, SimulationError>(removed) <==> (reply matches Ok(frame) && frame@
            == #[trigger] departure(removed))
    &&& result matches Err(error) ==> tells_failure(
        ExternalSimulationOperation::RemovePlayer,
        reply,
        error@,
    )
}

/// Whether an advance to the tick `expected` reports a bridge's reply.
pub open spec fn reports_arrival(
    expected: u64,
    reply: Result<Vec<u8>, ExternalSimulationError>,
    result: Result<(), SimulationError>,
) -> bool {
    &&& result is Ok <==> (reply matches Ok(frame) && frame@ == arrival(expected))
    &&& result matches Err(error) ==> tells_failure(
        ExternalSimulationOperation::AdvanceTick,
        reply,
        error@,
    )
}

/// An outside game advances exactly where it tells that it reached the next tick, and then the
/// adapter stands there; where it tells anything else, nothing moves, and a game that turns it down
/// is quoted. At the last tick nothing is asked.
#[verifier::rlimit(40)]
pub proof fn law_outside_advance<B: ExternalSimulationBridge>(
    pre: ExternalSimulationAdapter<B>,
    post: ExternalSimulationAdapter<B>,
    result: Result<(), SimulationError>,
)
    requires
        GameSimulation::advanced(pre, post, result),
    ensures
        post@.bridge == pre@.bridge,
        post@.descriptor == pre@.descriptor,
        result is Ok ==> post@.current_tick == pre@.current_tick + 1,
        result is Err ==> post@.current_tick == pre@.current_tick,
        pre@.current_tick == u64::MAX ==> result is Err,
        pre@.current_tick < u64::MAX ==> exists|reply: Result<Vec<u8>, ExternalSimulationError>|
         #[trigger]
            crate::external_simulation::replies(pre@.bridge, RequestView::AdvanceTick, reply)
                && reports_arrival((pre@.current_tick + 1) as u64, reply, result),
{
    if pre@.current_tick < u64::MAX {
        let expected = (pre@.current_tick + 1) as u64;
        let asked = ExternalSimulationOperation::AdvanceTick;
        let request = RequestView::AdvanceTick;
        let answer = choose|answer: Result<ExternalSimulationResponse, ExternalSimulationError>|
            #[trigger] crate::external_simulation::exchanges(pre@.bridge, request, answer)
                && crate::external_simulation::tells_tick(expected, answer, result);
        let reply = choose|reply: Result<Vec<u8>, ExternalSimulationError>|
            #[trigger] crate::external_simulation::replies(pre@.bridge, request, reply)
                && crate::external_simulation::comes_to(asked, reply, answer);
        let response = ResponseView::TickAdvanced(expected);
        assert(response.bytes(asked) =~= arrival(expected));
        if reply matches Ok(frame) && frame@ == arrival(expected) {
            law_framed_answers_are_understood(asked, asked, response, reply->Ok_0, answer);
            assert(answer->Ok_0 == ExternalSimulationResponse::TickAdvanced(expected));
        }
        match answer {
            Ok(value) => {
                lemma_answers_are_framed(asked, reply, value);
                lemma_misfit_is_told(asked, reply, value);
            },
            Err(cause) => {
                lemma_failure_is_told(asked, reply, cause);
            },
        }
        assert(crate::external_simulation::replies(pre@.bridge, request, reply)
            && reports_arrival(expected, reply, result));
    }
}

/// Whether a snapshot that had to show the tick `expected` reports a bridge's reply.
pub open spec fn reports_exhibit(
    asked: ExternalSimulationOperation,
    expected: u64,
    reply: Result<Vec<u8>, ExternalSimulationError>,
    result: Result<SimulationSnapshot, SimulationError>,
) -> bool {
    &&& result matches Ok(snapshot) ==> {
        &&& snapshot.tick == expected
        &&& snapshot.payload@.len() <= MAX_SNAPSHOT_PAYLOAD_BYTES
        &&& snapshot.state_hash == crate::protocol::snapshot_digest(expected, snapshot.payload@)
        &&& reply matches Ok(frame) && frame@ == exhibit(asked, snapshot@)
    }
    &&& forall|shown: SnapshotView|
        {
            &&& shown.tick == expected
            &&& shown.payload.len() <= MAX_SNAPSHOT_PAYLOAD_BYTES
            &&& shown.state_hash == crate::protocol::snapshot_digest(expected, shown.payload)
            &&& reply matches Ok(frame) && frame@ == #[trigger] exhibit(asked, shown)
        } ==> (result matches Ok(snapshot) && snapshot@ == shown)
    &&& result matches Err(error) ==> tells_failure(asked, reply, error@)
}

#[verifier::rlimit(40)]
proof fn lemma_exhibit_is_reported(
    asked: ExternalSimulationOperation,
    expected: u64,
    reply: Result<Vec<u8>, ExternalSimulationError>,
    answer: Result<ExternalSimulationResponse, ExternalSimulationError>,
    result: Result<SimulationSnapshot, SimulationError>,
)
    requires
        asked is Snapshot || asked is SnapshotFor,
        crate::external_simulation::comes_to(asked, reply, answer),
        crate::external_simulation::tells_snapshot(asked, expected, answer, result),
    ensures
        reports_exhibit(asked, expected, reply, result),
{
    assert forall|shown: SnapshotView|
        {
            &&& shown.tick == expected
            &&& shown.payload.len() <= MAX_SNAPSHOT_PAYLOAD_BYTES
            &&& shown.state_hash == crate::protocol::snapshot_digest(expected, shown.payload)
            &&& reply matches Ok(frame) && frame@ == #[trigger] exhibit(asked, shown)
        } implies (result matches Ok(snapshot) && snapshot@ == shown) by {
        let response = ResponseView::Snapshot(shown);
        assert(response.bytes(asked) =~= exhibit(asked, shown));
        law_framed_answers_are_understood(asked, asked, response, reply->Ok_0, answer);
    }
    match answer {
        Ok(value) => {
            lemma_answers_are_framed(asked, reply, value);
            lemma_misfit_is_told(asked, reply, value);
            if let ExternalSimulationResponse::Snapshot(snapshot) = value {
                assert(ResponseView::Snapshot(snapshot@).bytes(asked) =~= exhibit(
                    asked,
                    snapshot@,
                ));
            }
        },
        Err(cause) => {
            lemma_failure_is_told(asked, reply, cause);
        },
    }
}

/// An outside game's snapshot is taken exactly where the game shows the adapter's tick with a
/// payload that fits and the hash that binds it, and it is taken as shown; a game that turns the
/// request down is quoted.
pub proof fn law_outside_snapshot<B: ExternalSimulationBridge>(
    bridge: B,
    request: RequestView,
    expected: u64,
    result: Result<SimulationSnapshot, SimulationError>,
)
    requires
        request is Snapshot || request is SnapshotFor,
        crate::external_simulation::reports_snapshot(bridge, request, expected, result),
    ensures
        exists|reply: Result<Vec<u8>, ExternalSimulationError>| #[trigger]
            crate::external_simulation::replies(bridge, request, reply) && reports_exhibit(
                if request is Snapshot {
                    ExternalSimulationOperation::Snapshot
                } else {
                    ExternalSimulationOperation::SnapshotFor
                },
                expected,
                reply,
                result,
            ),
{
    let asked = if request is Snapshot {
        ExternalSimulationOperation::Snapshot
    } else {
        ExternalSimulationOperation::SnapshotFor
    };
    let answer = choose|answer: Result<ExternalSimulationResponse, ExternalSimulationError>|
        #[trigger] crate::external_simulation::exchanges(bridge, request, answer)
            && crate::external_simulation::tells_snapshot(asked, expected, answer, result);
    let reply = choose|reply: Result<Vec<u8>, ExternalSimulationError>|
        #[trigger] crate::external_simulation::replies(bridge, request, reply)
            && crate::external_simulation::comes_to(asked, reply, answer);
    lemma_exhibit_is_reported(asked, expected, reply, answer, result);
    assert(crate::external_simulation::replies(bridge, request, reply) && reports_exhibit(
        asked,
        expected,
        reply,
        result,
    ));
}

/// An outside game is adapted exactly where it describes itself with a tick rate and a capacity
/// that are not zero, and it is described in its own numbers.
#[verifier::rlimit(40)]
pub proof fn law_outside_description<B: ExternalSimulationBridge>(
    bridge: B,
    result: Result<ExternalSimulationDescriptor, ExternalSimulationError>,
)
    requires
        crate::external_simulation::describes(bridge, result),
    ensures
        exists|reply: Result<Vec<u8>, ExternalSimulationError>| #[trigger]
            crate::external_simulation::replies(bridge, RequestView::Describe, reply)
                && reports_description(reply, result),
{
    let asked = ExternalSimulationOperation::Describe;
    let answer = choose|answer: Result<ExternalSimulationResponse, ExternalSimulationError>|
        #[trigger] crate::external_simulation::exchanges(bridge, RequestView::Describe, answer)
            && crate::external_simulation::tells_descriptor(answer, result);
    let reply = choose|reply: Result<Vec<u8>, ExternalSimulationError>|
        #[trigger] crate::external_simulation::replies(bridge, RequestView::Describe, reply)
            && crate::external_simulation::comes_to(asked, reply, answer);
    assert forall|descriptor: ExternalSimulationDescriptor|
        result == Ok::<_, ExternalSimulationError>(descriptor) <==> descriptor.tick_hz > 0
            && descriptor.max_players > 0 && (reply matches Ok(frame) && frame@
            == #[trigger] description(descriptor)) by {
        let response = ResponseView::Descriptor(descriptor);
        assert(response.bytes(asked) =~= description(descriptor));
        if descriptor.tick_hz > 0 && descriptor.max_players > 0 && (reply matches Ok(frame)
            && frame@ == description(descriptor)) {
            law_framed_answers_are_understood(asked, asked, response, reply->Ok_0, answer);
            assert(answer->Ok_0 == ExternalSimulationResponse::Descriptor(descriptor));
        }
        if result == Ok::<_, ExternalSimulationError>(descriptor) {
            lemma_answers_are_framed(asked, reply, answer->Ok_0);
        }
    }
    match answer {
        Ok(value) => {
            lemma_misfit_is_told(asked, reply, value);
        },
        Err(cause) => {
            lemma_failure_is_told(asked, reply, cause);
        },
    }
    assert(crate::external_simulation::replies(bridge, RequestView::Describe, reply)
        && reports_description(reply, result));
}

/// Whether a description reports a bridge's reply.
pub open spec fn reports_description(
    reply: Result<Vec<u8>, ExternalSimulationError>,
    result: Result<ExternalSimulationDescriptor, ExternalSimulationError>,
) -> bool {
    &&& forall|descriptor: ExternalSimulationDescriptor|
        result == Ok::<_, ExternalSimulationError>(descriptor) <==> descriptor.tick_hz > 0
            && descriptor.max_players > 0 && (reply matches Ok(frame) && frame@
            == #[trigger] description(descriptor))
    &&& result matches Err(error) ==> tells_failure(
        ExternalSimulationOperation::Describe,
        reply,
        error.message(),
    )
}

/// Whether all that a bridge replies to a request is a rejection in these words.
pub open spec fn turns_down<B: ExternalSimulationBridge>(
    bridge: B,
    request: RequestView,
    asked: ExternalSimulationOperation,
    words: Seq<char>,
) -> bool {
    &&& vstd::utf8::encode_utf8(words).len() <= 1024
    &&& forall|reply: Result<Vec<u8>, ExternalSimulationError>| #[trigger]
        crate::external_simulation::replies(bridge, request, reply) ==> (reply matches Ok(frame)
            && frame@ == rejection(asked, words))
}

/// A command that an outside game turns down is told in the game's words: its sequence is not used
/// up, and nothing is recorded of it.
#[verifier::rlimit(40)]
pub proof fn law_rejected_command_leaves_no_trace<B: ExternalSimulationBridge>(
    pre: crate::runtime::RuntimeView<ExternalSimulationAdapter<B>>,
    player_id: PlayerId,
    epoch: u32,
    sequence: u32,
    payload: Seq<u8>,
    words: Seq<char>,
    post: crate::runtime::RuntimeView<ExternalSimulationAdapter<B>>,
    result: Result<crate::runtime::CommandOutcome, crate::runtime::RuntimeError>,
)
    requires
        !pre.frozen,
        pre.sessions.players.contains_key(player_id),
        pre.sessions.players[player_id].connected,
        pre.sessions.players[player_id].connection_epoch == epoch,
        sequence > pre.last_sequences[player_id],
        payload.len() <= MAX_COMMAND_PAYLOAD_BYTES,
        turns_down(
            pre.simulation@.bridge,
            RequestView::ApplyCommand { player_id, sequence, payload },
            ExternalSimulationOperation::ApplyCommand,
            words,
        ),
        crate::runtime::submits(pre, player_id, epoch, sequence, payload, post, result),
    ensures
        result matches Err(crate::runtime::RuntimeError::Simulation(refusal)) && refusal@ == "external simulation rejected operation: "@ + words,
        post.simulation@ == pre.simulation@,
        post.sessions == pre.sessions,
        post.last_sequences == pre.last_sequences,
        post.replay == pre.replay,
{
    let told: Result<(), SimulationError> = match result {
        Ok(_) => Ok(()),
        Err(crate::runtime::RuntimeError::Simulation(refusal)) => Err(refusal),
        Err(_) => Ok(()),
    };
    law_outside_command(pre.simulation, player_id, sequence, payload, post.simulation, told);
    let reply = choose|reply: Result<Vec<u8>, ExternalSimulationError>| #[trigger]
        crate::external_simulation::replies(
            pre.simulation@.bridge,
            RequestView::ApplyCommand { player_id, sequence, payload },
            reply,
        ) && reports_acknowledgement(ExternalSimulationOperation::ApplyCommand, reply, told);
    assert(reply->Ok_0@[2] == 1);
    assert(reply->Ok_0@ == rejection(ExternalSimulationOperation::ApplyCommand, words));
}

/// A player whom an outside game turns down is not admitted: the game's words are told, no slot is
/// filled, and nothing is recorded.
pub proof fn law_rejected_admission_leaves_no_trace<B: ExternalSimulationBridge>(
    pre: crate::runtime::RuntimeView<ExternalSimulationAdapter<B>>,
    token: crate::session::ReconnectToken,
    words: Seq<char>,
    post: crate::runtime::RuntimeView<ExternalSimulationAdapter<B>>,
    result: Result<crate::session::SessionLease, crate::runtime::RuntimeError>,
)
    requires
        pre.valid(),
        !pre.frozen,
        !pre.draining,
        pre.sessions.players.dom().len() < pre.sessions.max_players,
        pre.sessions.next_player_id < u32::MAX,
        forall|id: PlayerId| #[trigger]
            pre.sessions.players.contains_key(id) ==> pre.sessions.players[id].token != token,
        turns_down(
            pre.simulation@.bridge,
            RequestView::AddPlayer(pre.sessions.next_player_id),
            ExternalSimulationOperation::AddPlayer,
            words,
        ),
        crate::runtime::admits(pre, token, post, result),
    ensures
        result matches Err(crate::runtime::RuntimeError::Simulation(refusal)) && refusal@ == "external simulation rejected operation: "@ + words,
        post.simulation@ == pre.simulation@,
        post.sessions.players == pre.sessions.players,
        post.last_sequences == pre.last_sequences,
        post.replay == pre.replay,
{
    crate::conduct::law_admissions_are_judged(pre, token, post, result);
    crate::conduct::law_admissions_take_effect(pre, token, post, result);
    let id = pre.sessions.next_player_id;
    let told: Result<(), SimulationError> = match result {
        Ok(_) => Ok(()),
        Err(crate::runtime::RuntimeError::Simulation(refusal)) => Err(refusal),
        Err(_) => Ok(()),
    };
    law_outside_admission(pre.simulation, id, post.simulation, told);
    let reply = choose|reply: Result<Vec<u8>, ExternalSimulationError>| #[trigger]
        crate::external_simulation::replies(
            pre.simulation@.bridge,
            RequestView::AddPlayer(id),
            reply,
        ) && reports_acknowledgement(ExternalSimulationOperation::AddPlayer, reply, told);
    assert(reply->Ok_0@[2] == 1);
    assert(reply->Ok_0@ == rejection(ExternalSimulationOperation::AddPlayer, words));
}

/// An answer can be framed exactly where it has the shape that the operation asks for and what it
/// carries keeps the limits.
pub proof fn law_answers_are_judged(asked: ExternalSimulationOperation, response: ResponseView)
    ensures
        response.refusal(asked) is None <==> match response {
            ResponseView::Descriptor(descriptor) => asked is Describe && descriptor.tick_hz > 0
                && descriptor.max_players > 0,
            ResponseView::Acknowledged => asked is AddPlayer || asked is ApplyCommand,
            ResponseView::PlayerRemoved(_) => asked is RemovePlayer,
            ResponseView::TickAdvanced(_) => asked is AdvanceTick,
            ResponseView::Snapshot(snapshot) => (asked is Snapshot || asked is SnapshotFor)
                && snapshot.payload.len() <= MAX_SNAPSHOT_PAYLOAD_BYTES && snapshot.state_hash
                == crate::protocol::snapshot_digest(snapshot.tick, snapshot.payload),
            ResponseView::Rejected(words) => vstd::utf8::encode_utf8(words).len() <= 1024,
        },
{
}

/// What an outside game shows: everyone's view is asked for as such, and a player's own view only
/// from a game that shows each player its own.
pub proof fn law_outside_views<B: ExternalSimulationBridge>(
    adapter: ExternalSimulationAdapter<B>,
    player_id: PlayerId,
    result: Result<SimulationSnapshot, SimulationError>,
)
    ensures
        crate::simulation::snapshots(adapter, result)
            ==> crate::external_simulation::reports_snapshot(
            adapter@.bridge,
            RequestView::Snapshot,
            adapter@.current_tick,
            result,
        ),
        crate::simulation::projects(adapter, player_id, result) && adapter@.descriptor.snapshot_scope
            is PlayerScoped ==> crate::external_simulation::reports_snapshot(
            adapter@.bridge,
            RequestView::SnapshotFor(player_id),
            adapter@.current_tick,
            result,
        ),
        crate::simulation::projects(adapter, player_id, result) && adapter@.descriptor.snapshot_scope
            is Shared ==> result is Err,
        adapter.rate() == adapter@.descriptor.tick_hz,
        adapter.capacity() == adapter@.descriptor.max_players,
        adapter.tick() == adapter@.current_tick,
{
}

/// An outside game is adapted in the very numbers that it described itself with, from its own tick
/// on.
pub proof fn law_outside_connection<B: ExternalSimulationBridge>(
    bridge: B,
    result: Result<ExternalSimulationAdapter<B>, ExternalSimulationError>,
)
    requires
        call_ensures(ExternalSimulationAdapter::<B>::connect, (bridge,), result),
    ensures
        result matches Ok(adapter) ==> adapter@.bridge == bridge && adapter@.current_tick
            == adapter@.descriptor.current_tick && adapter@.descriptor.tick_hz > 0
            && adapter@.descriptor.max_players > 0 && exists|
            reply: Result<Vec<u8>, ExternalSimulationError>,
        | #[trigger]
            crate::external_simulation::replies(bridge, RequestView::Describe, reply) && (
            reply matches Ok(frame) && frame@ == description(adapter@.descriptor)),
{
    if let Ok(adapter) = result {
        let described: Result<ExternalSimulationDescriptor, ExternalSimulationError> = Ok(
            adapter@.descriptor,
        );
        law_outside_description(bridge, described);
        let reply = choose|reply: Result<Vec<u8>, ExternalSimulationError>| #[trigger]
            crate::external_simulation::replies(bridge, RequestView::Describe, reply)
                && reports_description(reply, described);
        assert(described == Ok::<_, ExternalSimulationError>(adapter@.descriptor));
        assert(reply->Ok_0@ == description(adapter@.descriptor));
    }
}

/// A failure of the bridge is passed on, and so is what is wrong with a frame that is no answer.
pub proof fn law_unframed_replies_are_refused(
    asked: ExternalSimulationOperation,
    reply: Result<Vec<u8>, ExternalSimulationError>,
    answer: Result<ExternalSimulationResponse, ExternalSimulationError>,
)
    requires
        crate::external_simulation::comes_to(asked, reply, answer),
    ensures
        reply matches Err(failure) ==> answer == Err::<ExternalSimulationResponse, _>(failure),
        reply matches Ok(frame) ==> (crate::external_simulation::response_fault(
            frame@,
        ) matches Some(fault) ==> answer == Err::<ExternalSimulationResponse, _>(fault)),
{
}

} // verus!
