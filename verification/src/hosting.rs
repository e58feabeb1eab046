//! What a process that hosts several matches does: which matches it takes in and lets go, what it
//! tells of them, who is led where, and how it is set up and brought back.

use crate::browser::RouteView;
use crate::control::ControlServiceError;
use crate::host::{EntryView, HostError, HostView, MatchId, MatchStatus};
use crate::host_recovery::MatchHostRecoveryError;
use crate::host_status::{HttpView, MatchFacts, StatusState};
use crate::host_transport::{Consumption, MatchHostTransportError, Persistence};
use crate::physics::BodyFacts;
use crate::protocol::PlayerId;
use crate::recovery::RecoveryImage;
use crate::runtime::RuntimeView;
use crate::settings::{ServerPlan, ServerRequest};
use crate::simulation::GameSimulation;
use vstd::prelude::*;

verus! {

/// Whether some match of a host has that name.
pub open spec fn hosted<S: GameSimulation>(host: HostView<S>, name: Seq<char>) -> bool {
    exists|i: int| 0 <= i < host.entries.len() && (#[trigger] host.entries[i]).id == name
}

/// A match is taken in exactly where the host does not drain, hosts none of that name, and has
/// room; else the reason that is named is true.
pub proof fn law_placement_is_judged<S: GameSimulation>(host: HostView<S>, id: MatchId)
    ensures
        ({
            let refusal = host.placement_refusal(id);
            &&& refusal is None <==> !host.draining && !hosted(host, id@) && host.entries.len()
                < host.max_matches
            &&& host.draining ==> refusal == Some(HostError::Draining)
            &&& !host.draining && hosted(host, id@) ==> refusal == Some(
                HostError::DuplicateMatch(id),
            )
            &&& !host.draining && !hosted(host, id@) && host.entries.len() >= host.max_matches
                ==> refusal == Some(HostError::AtCapacity { maximum: host.max_matches })
        }),
{
    if hosted(host, id@) {
        let i = choose|i: int|
            0 <= i < host.entries.len() && (#[trigger] host.entries[i]).id == id@;
        assert(host.is_at(id@, i));
    }
    if host.hosts(id@) {
        let i = choose|i: int| #[trigger] host.is_at(id@, i);
        assert(host.entries[i].id == id@);
    }
}

/// A connection is active exactly where its slot is connected.
pub proof fn law_active_players<S: GameSimulation>(runtime: RuntimeView<S>, id: PlayerId)
    ensures
        runtime.sessions.active_ids().contains(id) <==> runtime.sessions.players.contains_key(id)
            && runtime.sessions.players[id].connected,
{
}

/// A match is let go exactly where it drains and has no slot in use, waiting or connected.
pub proof fn law_removal_is_judged<S: GameSimulation>(host: HostView<S>, id: MatchId, index: int)
    requires
        host.valid(),
        0 <= index < host.entries.len(),
    ensures
        ({
            let runtime = host.entries[index].runtime;
            let refusal = host.removal_refusal(id, index);
            let idle = forall|player: PlayerId|
                !#[trigger] runtime.sessions.players.contains_key(player);
            &&& refusal is None <==> runtime.draining && idle
            &&& !runtime.draining ==> refusal == Some(HostError::MatchNotDraining(id))
            &&& runtime.draining && !idle ==> (refusal matches Some(
                HostError::MatchNotIdle { id: named, occupied_slots, .. },
            ) && named == id && occupied_slots == runtime.sessions.players.dom().len())
        }),
{
    let runtime = host.entries[index].runtime;
    let slots = runtime.sessions.players.dom();
    assert(runtime.valid());
    assert(slots.finite());
    if slots.len() == 0 {
        assert(slots =~= Set::empty());
        assert(runtime.sessions.active_ids() =~= Set::empty());
    } else {
        let player = slots.choose();
        assert(runtime.sessions.players.contains_key(player));
    }
    if forall|player: PlayerId| !#[trigger] runtime.sessions.players.contains_key(player) {
        assert(slots =~= Set::empty());
    }
}

/// An operation on one match touches no other, keeps the match's name and the host's limit and
/// drain, and leaves the match as the operation left it but for a drain that had begun.
pub proof fn law_operations_touch_one_match<S: GameSimulation>(
    host: HostView<S>,
    index: int,
    after: RuntimeView<S>,
)
    requires
        0 <= index < host.entries.len(),
    ensures
        ({
            let worked = host.worked_over(index, after);
            let before = host.entries[index];
            let entry = worked.entries[index];
            &&& worked.max_matches == host.max_matches
            &&& worked.draining == host.draining
            &&& worked.entries.len() == host.entries.len()
            &&& forall|i: int|
                0 <= i < host.entries.len() && i != index ==> #[trigger] worked.entries[i]
                    == host.entries[i]
            &&& entry.id == before.id
            &&& entry.runtime.simulation == after.simulation
            &&& entry.runtime.sessions == after.sessions
            &&& entry.runtime.last_sequences == after.last_sequences
            &&& entry.runtime.replay == after.replay
            &&& entry.runtime.frozen == after.frozen
            &&& entry.runtime.draining == (after.draining || host.draining
                || before.runtime.draining)
        }),
{
}

/// The numbers of a host are those of its matches together.
pub proof fn law_totals_add_up<S: GameSimulation>(
    a: Seq<EntryView<S>>,
    b: Seq<EntryView<S>>,
    entry: EntryView<S>,
)
    ensures
        crate::host::total_active(seq![entry]) == entry.runtime.sessions.active_ids().len(),
        crate::host::total_occupied(seq![entry]) == entry.runtime.sessions.players.dom().len(),
        crate::host::total_capacity(seq![entry]) == entry.runtime.simulation.capacity(),
        crate::host::total_active(a + b) == crate::host::total_active(a)
            + crate::host::total_active(b),
        crate::host::total_occupied(a + b) == crate::host::total_occupied(a)
            + crate::host::total_occupied(b),
        crate::host::total_capacity(a + b) == crate::host::total_capacity(a)
            + crate::host::total_capacity(b),
    decreases b.len(),
{
    reveal_with_fuel(crate::host::total_active, 2);
    reveal_with_fuel(crate::host::total_occupied, 2);
    reveal_with_fuel(crate::host::total_capacity, 2);
    assert(seq![entry].drop_last() =~= Seq::empty());
    if b.len() == 0 {
        assert(a + b =~= a);
    } else {
        law_totals_add_up(a, b.drop_last(), entry);
        assert((a + b).drop_last() =~= a + b.drop_last());
        assert((a + b).last() == b.last());
    }
}

/// A total is told as it is, up to the greatest number that the machine can hold.
pub proof fn law_totals_are_capped(total: nat)
    ensures
        total <= usize::MAX ==> crate::host::capped(total) == total,
        total > usize::MAX ==> crate::host::capped(total) == usize::MAX,
{
}

/// What is told of a match is its name, its flags, its tick, how many of its players are connected,
/// how many slots are in use, and how many fit.
pub proof fn law_status_tells_the_match<S: GameSimulation>(
    status: MatchStatus,
    entry: EntryView<S>,
)
    requires
        status.tells(entry),
    ensures
        status.id@ == entry.id,
        status.draining == entry.runtime.draining,
        status.frozen == entry.runtime.frozen,
        status.current_tick == entry.runtime.simulation.tick(),
        status.occupied_player_slots == entry.runtime.sessions.players.dom().len(),
        status.max_players == entry.runtime.simulation.capacity(),
        status.active_players == entry.runtime.sessions.players.dom().filter(
            |id: PlayerId| entry.runtime.sessions.players[id].connected,
        ).len(),
{
    assert(entry.runtime.sessions.active_ids() =~= entry.runtime.sessions.players.dom().filter(
        |id: PlayerId| entry.runtime.sessions.players[id].connected,
    ));
}

/// A host can be served exactly where it has a match, does not drain, and every match ticks and
/// fits the wire; the tick rates are then listed match by match. Else the first thing that is wrong
/// is named.
pub proof fn law_host_serving_is_judged<S: GameSimulation>(
    host: HostView<S>,
    result: Result<Vec<(MatchId, u16)>, MatchHostTransportError>,
)
    requires
        crate::host_transport::validates(host, result),
    ensures
        ({
            let fit = forall|i: int|
                0 <= i < host.entries.len() ==> (
                #[trigger] host.entries[i]).runtime.simulation.rate() > 0
                    && host.entries[i].runtime.simulation.capacity() <= 65535;
            &&& result is Ok <==> host.entries.len() > 0 && !host.draining && fit
            &&& host.entries.len() == 0 ==> result == Err::<Vec<(MatchId, u16)>, _>(
                MatchHostTransportError::EmptyHost,
            )
            &&& host.entries.len() > 0 && host.draining ==> result == Err::<
                Vec<(MatchId, u16)>,
                _,
            >(MatchHostTransportError::HostAlreadyDraining)
            &&& host.entries.len() > 0 && !host.draining && !fit ==> names_unfit(
                host,
                result->Err_0,
            )
            &&& result matches Ok(rates) ==> rates@.len() == host.entries.len() && forall|i: int|
                0 <= i < rates@.len() ==> (#[trigger] rates@[i]).0@ == host.entries[i].id
                    && rates@[i].1 == host.entries[i].runtime.simulation.rate()
        }),
{
    if host.entries.len() > 0 && !host.draining {
        if let Ok(rates) = result {
            assert forall|i: int| 0 <= i < host.entries.len() implies (
            #[trigger] host.entries[i]).runtime.simulation.rate() > 0
                && host.entries[i].runtime.simulation.capacity() <= 65535 by {
                assert(crate::host_transport::servable(host.entries[i]));
            }
        } else {
            let index = choose|index: int| #[trigger]
                crate::host_transport::first_unservable(host, index)
                    && crate::host_transport::blames(host.entries[index], result->Err_0);
            assert(!crate::host_transport::servable(host.entries[index]));
            assert forall|i: int| 0 <= i < index implies (
            #[trigger] host.entries[i]).runtime.simulation.rate() > 0
                && host.entries[i].runtime.simulation.capacity() <= 65535 by {
                assert(crate::host_transport::servable(host.entries[i]));
            }
            assert(unfit_at(host, index, result->Err_0));
        }
    }
}

/// Whether an error names the first match of a host that cannot be served, and why.
pub open spec fn names_unfit<S: GameSimulation>(
    host: HostView<S>,
    error: MatchHostTransportError,
) -> bool {
    exists|i: int| #[trigger] unfit_at(host, i, error)
}

/// Whether the match at `i` is the first of a host that cannot be served, and `error` tells why.
pub open spec fn unfit_at<S: GameSimulation>(
    host: HostView<S>,
    i: int,
    error: MatchHostTransportError,
) -> bool {
    let game = host.entries[i].runtime.simulation;
    &&& 0 <= i < host.entries.len()
    &&& forall|j: int|
        0 <= j < i ==> (#[trigger] host.entries[j]).runtime.simulation.rate() > 0
            && host.entries[j].runtime.simulation.capacity() <= 65535
    &&& match error {
        MatchHostTransportError::InvalidTickRate(id) => game.rate() == 0 && id@
            == host.entries[i].id,
        MatchHostTransportError::PlayerCapacityTooLarge { match_id, capacity } => game.rate() > 0
            && game.capacity() > 65535 && match_id@ == host.entries[i].id && capacity
            == game.capacity(),
        _ => false,
    }
}

/// A path leads somewhere exactly where it is the path of a session in a hosted match, and then it
/// leads there.
pub proof fn law_hosted_paths_lead_to_matches(
    base: Seq<char>,
    path: Seq<char>,
    ids: Seq<MatchId>,
    route: RouteView,
)
    ensures
        crate::host_transport::hosted_meaning(base, path, ids) == Some(route) <==> (
        crate::browser::path_meaning(base, path) matches Ok(Some(read)) && read == route && exists|
            i: int,
        |
            0 <= i < ids.len() && (#[trigger] ids[i])@ == route.match_id),
{
}

/// A bundle that a start could not use up cleanly is passed over only where nothing of it is left
/// in either place; what was reported is then passed on, and else it ends the start.
pub proof fn law_consumption_is_settled(
    consumed: Result<(), String>,
    active_exists: bool,
    consumed_exists: bool,
    result: Result<Consumption, MatchHostTransportError>,
)
    requires
        call_ensures(
            crate::host_transport::settle_consumption,
            (consumed, active_exists, consumed_exists),
            result,
        ),
    ensures
        result is Ok <==> consumed is Ok || (!active_exists && !consumed_exists),
        consumed is Ok ==> result == Ok::<_, MatchHostTransportError>(Consumption::Consumed),
        consumed matches Err(words) ==> match result {
            Ok(settled) => settled == Consumption::ConsumedWithComplaint(words),
            Err(error) => error == MatchHostTransportError::Recovery(words),
        },
{
}

/// A bundle that could not be saved cleanly counts as saved only where it is there now and was not
/// before.
pub proof fn law_persistence_is_settled(
    written: Result<(), String>,
    existed_before: bool,
    exists_after: bool,
    result: Result<Persistence, String>,
)
    requires
        call_ensures(
            crate::host_transport::settle_persistence,
            (written, existed_before, exists_after),
            result,
        ),
    ensures
        result is Ok <==> written is Ok || (!existed_before && exists_after),
        written is Ok ==> result == Ok::<_, String>(Persistence::Saved),
        written matches Err(words) ==> match result {
            Ok(settled) => settled == Persistence::SavedWithComplaint(words),
            Err(error) => error == words,
        },
{
}

/// A manifest is accepted exactly where its first line is the bundle's header and the lines behind
/// it are the expected names, all of them and in order.
pub proof fn law_manifest_is_judged(manifest: Seq<char>, expected: Seq<Seq<char>>)
    ensures
        ({
            let lines = crate::text::lines(manifest);
            let fault = crate::host_recovery::manifest_fault(manifest, expected);
            &&& fault is None <==> lines.len() == expected.len() + 1 && lines[0] == "GSHR 1"@
                && forall|i: int| 0 <= i < expected.len() ==> #[trigger] lines[i + 1] == expected[i]
            &&& lines.len() == 0 || lines[0] != "GSHR 1"@ ==> fault == Some(
                "missing or unsupported bundle header"@,
            )
        }),
{
    let lines = crate::text::lines(manifest);
    if lines.len() > 0 {
        let rest = lines.skip(1);
        if rest == expected {
            assert forall|i: int| 0 <= i < expected.len() implies #[trigger] lines[i + 1]
                == expected[i] by {
                assert(rest[i] == lines[i + 1]);
            }
        }
        if lines.len() == expected.len() + 1 && forall|i: int|
            0 <= i < expected.len() ==> #[trigger] lines[i + 1] == expected[i] {
            assert forall|i: int| 0 <= i < expected.len() implies rest[i] == expected[i] by {
                assert(lines[i + 1] == expected[i]);
            }
            assert(rest =~= expected);
        }
    }
}

/// What a bundle holds is accepted exactly where it is the manifest and the image of each expected
/// match, and nothing else.
pub proof fn law_bundle_entries_are_judged(
    actual: Seq<Seq<char>>,
    expected: Seq<Seq<char>>,
    result: Result<(), MatchHostRecoveryError>,
)
    requires
        crate::host_recovery::entries_checked(actual, expected, result),
    ensures
        result is Ok <==> actual.contains("manifest"@) && (forall|i: int|
            0 <= i < expected.len() ==> actual.contains(#[trigger] expected[i] + ".recovery"@)) && (
        forall|k: int| 0 <= k < actual.len() ==> wanted(expected, #[trigger] actual[k])),
        result matches Err(error) ==> error is Manifest,
{
    if forall|name: Seq<char>| #[trigger]
        actual.contains(name) <==> crate::host_recovery::belongs(expected, name) {
        assert(crate::host_recovery::belongs(expected, "manifest"@));
        assert forall|i: int| 0 <= i < expected.len() implies actual.contains(
            #[trigger] expected[i] + ".recovery"@,
        ) by {
            assert(crate::host_recovery::belongs(
                expected,
                crate::host_recovery::image_name(expected[i]),
            ));
        }
        assert forall|k: int| 0 <= k < actual.len() implies wanted(
            expected,
            #[trigger] actual[k],
        ) by {
            assert(actual.contains(actual[k]));
        }
    }
    if actual.contains("manifest"@) && (forall|i: int|
        0 <= i < expected.len() ==> actual.contains(#[trigger] expected[i] + ".recovery"@)) && (
    forall|k: int| 0 <= k < actual.len() ==> wanted(expected, #[trigger] actual[k])) {
        assert forall|name: Seq<char>| #[trigger] actual.contains(name)
            <==> crate::host_recovery::belongs(expected, name) by {
            if actual.contains(name) {
                let k = choose|k: int| 0 <= k < actual.len() && actual[k] == name;
                assert(wanted(expected, actual[k]));
            }
            if crate::host_recovery::belongs(expected, name) && name != "manifest"@ {
                let i = choose|i: int|
                    0 <= i < expected.len() && name == crate::host_recovery::image_name(
                        #[trigger] expected[i],
                    );
                assert(actual.contains(expected[i] + ".recovery"@));
            }
        }
    }
}

/// Whether a name is the manifest's or that of an expected match's image.
pub open spec fn wanted(expected: Seq<Seq<char>>, name: Seq<char>) -> bool {
    name == "manifest"@ || exists|i: int|
        0 <= i < expected.len() && name == #[trigger] expected[i] + ".recovery"@
}

/// Whether a match is brought up as it should be: anew, empty and captured where there was no
/// bundle, and from the image under its own name where there was one.
pub open spec fn properly_up<S: GameSimulation>(
    simulation: S,
    name: Seq<char>,
    reconnect_grace_ticks: u64,
    images: Option<Seq<(MatchId, RecoveryImage)>>,
    runtime: RuntimeView<S>,
) -> bool {
    match images {
        None => {
            &&& runtime.simulation == simulation
            &&& runtime.sessions.players.dom() == Set::<PlayerId>::empty()
            &&& runtime.sessions.next_player_id == 1
            &&& runtime.sessions.max_players == simulation.capacity()
            &&& runtime.sessions.reconnect_grace_ticks == reconnect_grace_ticks
            &&& runtime.last_sequences.dom() == Set::<PlayerId>::empty()
            &&& runtime.replay == Some(Seq::<crate::replay::RecordView>::empty())
            &&& !runtime.draining
            &&& !runtime.frozen
        },
        Some(images) => exists|index: int|
            0 <= index < images.len() && (#[trigger] images[index]).0@ == name
                && crate::runtime::restores(simulation, images[index].1@, runtime),
    }
}

/// Whether a match is up in a host under its name.
pub open spec fn up_in<S: GameSimulation>(
    host: HostView<S>,
    entry: (MatchId, S),
    reconnect_grace_ticks: u64,
    images: Option<Seq<(MatchId, RecoveryImage)>>,
) -> bool {
    exists|i: int|
        0 <= i < host.entries.len() && (#[trigger] host.entries[i]).id == entry.0@ && properly_up(
            entry.1,
            entry.0@,
            reconnect_grace_ticks,
            images,
            host.entries[i].runtime,
        )
}

/// A host that is brought up has every configured match under its own name: anew where there was no
/// bundle, and from the image under that name where there was one.
pub proof fn law_every_match_is_brought_up<S: GameSimulation>(
    matches: Seq<(MatchId, S)>,
    max_matches: usize,
    reconnect_grace_ticks: u64,
    images: Option<Seq<(MatchId, RecoveryImage)>>,
    host: HostView<S>,
    k: int,
)
    requires
        crate::host_recovery::fills(
            matches,
            max_matches,
            reconnect_grace_ticks,
            images,
            host,
        ),
        0 <= k < matches.len(),
    ensures
        up_in(host, matches[k], reconnect_grace_ticks, images),
    decreases matches.len(),
{
    let earlier = matches.drop_last();
    let last = matches.last();
    let before = choose|before: HostView<S>|
        crate::host_recovery::fills(earlier, max_matches, reconnect_grace_ticks, images, before)
            && #[trigger] crate::host_recovery::joins(
            before,
            last,
            reconnect_grace_ticks,
            images,
            host,
        );
    let (runtime, index) = choose|runtime: RuntimeView<S>, index: int|
        #![trigger crate::host_recovery::brings_up(last.1, last.0@, reconnect_grace_ticks, images, runtime), before.fits_at(last.0@, index)]
        {
            &&& crate::host_recovery::brings_up(
                last.1,
                last.0@,
                reconnect_grace_ticks,
                images,
                runtime,
            )
            &&& before.placement_refusal(last.0) is None
            &&& before.fits_at(last.0@, index)
            &&& host == HostView {
                entries: before.entries.insert(index, EntryView { id: last.0@, runtime }),
                ..before
            }
        };
    if k < earlier.len() {
        law_every_match_is_brought_up(
            earlier,
            max_matches,
            reconnect_grace_ticks,
            images,
            before,
            k,
        );
        assert(earlier[k] == matches[k]);
        let i = choose|i: int|
            0 <= i < before.entries.len() && (#[trigger] before.entries[i]).id == matches[k].0@
                && properly_up(
                matches[k].1,
                matches[k].0@,
                reconnect_grace_ticks,
                images,
                before.entries[i].runtime,
            );
        if i < index {
            assert(host.entries[i] == before.entries[i]);
        } else {
            assert(host.entries[i + 1] == before.entries[i]);
        }
    } else {
        assert(host.entries[index].id == last.0@);
        if let Some(stored) = images {
            let at = choose|at: int| #[trigger]
                crate::host_recovery::image_at(stored, last.0@, at) && crate::runtime::restores(
                    last.1,
                    stored[at].1@,
                    runtime,
                );
            assert(stored[at].0@ == last.0@);
        } else {
            assert(runtime.sessions.players.dom() =~= Set::<PlayerId>::empty());
            assert(runtime.last_sequences.dom() =~= Set::<PlayerId>::empty());
        }
        assert(properly_up(last.1, last.0@, reconnect_grace_ticks, images, runtime));
    }
}

/// A match takes players exactly where the transport serves and neither the process nor the match
/// drains nor the match is frozen; a process is ready where it does not drain and some match takes
/// players.
pub proof fn law_readiness_is_judged(state: StatusState, facts: MatchFacts)
    ensures
        state.ready(facts) <==> state.serving && !state.draining && !facts.draining
            && !facts.frozen,
        state.drains(facts) <==> state.draining || facts.draining,
        state.any_ready() <==> state.serving && !state.draining && exists|i: int|
            0 <= i < state.process.matches@.len() && !(
            #[trigger] state.process.matches@[i]).draining && !state.process.matches@[i].frozen,
{
    if state.any_ready() {
        let i = choose|i: int|
            0 <= i < state.process.matches@.len() && state.ready(
                #[trigger] state.process.matches@[i],
            );
        assert(!state.process.matches@[i].draining && !state.process.matches@[i].frozen);
    }
    if state.serving && !state.draining && exists|i: int|
        0 <= i < state.process.matches@.len() && !(
        #[trigger] state.process.matches@[i]).draining && !state.process.matches@[i].frozen {
        let i = choose|i: int|
            0 <= i < state.process.matches@.len() && !(
            #[trigger] state.process.matches@[i]).draining && !state.process.matches@[i].frozen;
        assert(state.ready(state.process.matches@[i]));
    }
}

/// What a request comes to: nonsense is refused, so is every method but one, and a path is answered
/// without what follows a question mark.
pub proof fn law_requests_are_answered(state: StatusState, request: Seq<char>)
    ensures
        ({
            let lines = crate::text::lines(request);
            let words = crate::text::words(lines[0]);
            let answer = state.request_answer(request);
            let sound = lines.len() > 0 && words.len() == 3 && (words[2] == "HTTP/1.0"@ || words[2]
                == "HTTP/1.1"@);
            &&& !sound ==> answer.status == 400
            &&& sound && words[0] != "GET"@ ==> answer.status == 405
            &&& sound && words[0] == "GET"@ ==> answer == state.path_answer(
                crate::text::parts(words[1], '?')[0],
            )
        }),
{
}

/// What the paths of a process answer: its health always well, its readiness by whether it is
/// ready, its status always well; every other path that is not one of a match's leads nowhere.
pub proof fn law_process_paths_are_answered(state: StatusState, path: Seq<char>)
    ensures
        ({
            let answer = state.path_answer(path);
            &&& path == "/healthz"@ ==> answer.status == 200 && answer.body
                == "{\"healthy\":true}"@
            &&& path == "/readyz"@ ==> (answer.status == 200 <==> state.any_ready()) && (
            answer.status == 503 <==> !state.any_ready())
            &&& path == "/status"@ ==> answer.status == 200 && answer.body == state.process_json()
            &&& path != "/healthz"@ && path != "/readyz"@ && path != "/status"@
                && state.match_answer(path) is None ==> answer.status == 404
            &&& answer.extra_headers.len() == 0 || state.match_answer(path) is Some
        }),
{
    reveal_strlit("/healthz");
    reveal_strlit("/readyz");
    reveal_strlit("/status");
    assert("/healthz"@.len() == 8 && "/readyz"@.len() == 7 && "/status"@.len() == 7);
    assert("/readyz"@[1] == 'r' && "/status"@[1] == 's');
}

/// What the paths of a match answer: `/matches/`, the name of a hosted match and an endpoint. Its
/// health is always well, its readiness goes by whether it takes players, and its status is always
/// well.
#[verifier::rlimit(40)]
pub proof fn law_match_paths_are_answered(
    state: StatusState,
    index: int,
    endpoint: Seq<char>,
    path: Seq<char>,
)
    requires
        0 <= index < state.process.matches@.len(),
        state.process.matches@[index].id@.len() > 0,
        !state.process.matches@[index].id@.contains('/'),
        !endpoint.contains('/'),
        forall|i: int|
            0 <= i < index ==> (#[trigger] state.process.matches@[i]).id@
                != state.process.matches@[index].id@,
        path == "/matches/"@ + state.process.matches@[index].id@ + "/"@ + endpoint,
    ensures
        ({
            let facts = state.process.matches@[index];
            let answer = state.match_answer(path);
            &&& answer == state.match_endpoint(facts, endpoint)
            &&& endpoint == "healthz"@ ==> (answer matches Some(view) && view.status == 200)
            &&& endpoint == "readyz"@ ==> (answer matches Some(view) && (view.status == 200
                <==> state.ready(facts)) && (view.status == 503 <==> !state.ready(facts)))
            &&& endpoint == "status"@ ==> (answer matches Some(view) && view.status == 200
                && view.body == state.match_json(facts))
            &&& endpoint != "healthz"@ && endpoint != "readyz"@ && endpoint != "status"@
                ==> answer is None
        }),
{
    reveal_strlit("/matches/");
    reveal_strlit("/");
    reveal_strlit("healthz");
    reveal_strlit("readyz");
    reveal_strlit("status");
    assert("healthz"@.len() == 7 && "readyz"@.len() == 6 && "status"@.len() == 6);
    assert("readyz"@[0] == 'r' && "status"@[0] == 's');
    let facts = state.process.matches@[index];
    let name = facts.id@;
    let prefix = "/matches/"@;
    let rest = path.skip(prefix.len() as int);
    assert(path.take(prefix.len() as int) =~= prefix);
    assert(rest =~= name + "/"@ + endpoint);
    let nothing: Seq<char> = Seq::empty();
    assert forall|i: int| 0 <= i < name.len() implies #[trigger] name[i] != '/' by {
        if name[i] == '/' {
            assert(name.contains('/'));
        }
    }
    assert forall|i: int| 0 <= i < endpoint.len() implies #[trigger] endpoint[i] != '/' by {
        if endpoint[i] == '/' {
            assert(endpoint.contains('/'));
        }
    }
    crate::text::lemma_parts_lengthen(nothing, name, '/');
    assert(nothing + name =~= name);
    assert(crate::text::parts(name, '/') =~= seq![name]) by {
        assert(crate::text::parts(nothing, '/') =~= seq![nothing]);
        assert(seq![nothing].drop_last().push(nothing + name) =~= seq![name]);
    }
    crate::text::lemma_parts_separate(name, '/');
    crate::text::lemma_parts_lengthen(name.push('/'), endpoint, '/');
    assert(name.push('/') + endpoint =~= rest);
    assert(nothing + endpoint =~= endpoint);
    assert(crate::text::parts(rest, '/') =~= seq![name, endpoint]);
    assert(state.found_at(name, index));
    let at = choose|at: int| #[trigger] state.found_at(name, at);
    assert(at == index) by {
        if at < index {
            assert(state.process.matches@[at].id@ != name);
        }
        if index < at {
            assert(state.process.matches@[index].id@ != name);
        }
    }
}

/// An answer is sent with its status first, the length of its body in bytes, and its body last.
pub proof fn law_answers_are_sent_whole(answer: HttpView)
    ensures
        ({
            let text = answer.text();
            let head = "HTTP/1.1 "@ + crate::text::decimal(answer.status as nat) + " "@
                + answer.reason + "\r\nContent-Type: application/json\r\nContent-Length: "@
                + crate::text::decimal(vstd::utf8::encode_utf8(answer.body).len()) + "\r\n"@;
            &&& text.len() >= head.len() + answer.body.len()
            &&& text.take(head.len() as int) == head
            &&& text.skip(text.len() - answer.body.len()) == answer.body
        }),
{
    reveal_strlit("\r\n");
    reveal_strlit("\r\nCache-Control: no-store\r\nConnection: close\r\n");
    let text = answer.text();
    let start = "HTTP/1.1 "@ + crate::text::decimal(answer.status as nat) + " "@ + answer.reason
        + "\r\nContent-Type: application/json\r\nContent-Length: "@ + crate::text::decimal(
        vstd::utf8::encode_utf8(answer.body).len(),
    );
    let head = start + "\r\n"@;
    let tail = "\r\nCache-Control: no-store\r\nConnection: close\r\n"@;
    assert(tail.take(2) =~= "\r\n"@);
    assert(text =~= start + tail + crate::host_status::header_lines(answer.extra_headers)
        + "\r\n"@ + answer.body);
    assert(text.take(head.len() as int) =~= start + tail.take(2));
    assert(text.skip(text.len() - answer.body.len()) =~= answer.body);
}

/// What the environment asks for can be served exactly where it asks for several matches or for
/// one, not both; keeps what it stores in the one place that goes with that; and names a base path
/// where a match is named.
pub proof fn law_plans_are_judged(request: ServerRequest)
    ensures
        ({
            let several = request.hosted_match_ids is Some;
            let named = request.single_match_id is Some;
            crate::settings::plan_fault(request) is None <==> !(several && named) && !(
            request.has_recovery_path && several) && !(request.has_recovery_directory && !several)
                && (several || named ==> crate::browser::canonical_base(request.session_path@))
        }),
{
}

/// What is served is what is asked for: several matches below the base path, or one under its path.
pub proof fn law_plans_serve_what_is_asked(request: ServerRequest, plan: ServerPlan)
    requires
        crate::settings::plan_serves(request, plan),
    ensures
        request.hosted_match_ids matches Some(ids) ==> (plan matches ServerPlan::Hosted {
            route_prefix,
            match_ids,
        } && route_prefix@ == request.session_path@ && match_ids == ids),
        request.hosted_match_ids is None && request.single_match_id is None ==> (
        plan matches ServerPlan::Single { session_path } && session_path@
            == request.session_path@),
        request.hosted_match_ids is None && request.single_match_id is Some ==> (
        plan matches ServerPlan::Single { session_path } && session_path@
            == request.session_path@ + "/"@ + "matches"@ + "/"@ + request.single_match_id->0@),
{
}

/// The demo's control service answers a ping with a pong and refuses everything else.
pub proof fn law_demo_control_answers(
    payload: Seq<u8>,
    result: Result<Vec<u8>, ControlServiceError>,
)
    requires
        crate::settings::demo_answers(payload, result),
    ensures
        result is Ok <==> payload == seq![112u8, 105u8, 110u8, 103u8],
        result matches Ok(answer) ==> answer@ == seq![112u8, 111u8, 110u8, 103u8],
{
}

/// The fingerprint of bodies takes each body in its turn, whole and in one order.
pub proof fn law_bodies_are_taken_in_turn(bodies: Seq<BodyFacts>, body: BodyFacts)
    ensures
        crate::physics::bodies_bytes(bodies.push(body)) == crate::physics::bodies_bytes(bodies)
            + body.id@ + seq![
            if body.motion is Fixed {
                0u8
            } else {
                1u8
            },
        ] + (body.position.x@ + body.position.y@ + body.position.z@) + (body.velocity.x@
            + body.velocity.y@ + body.velocity.z@) + (body.half_extents.x@ + body.half_extents.y@
            + body.half_extents.z@) + body.mass_units@ + body.restitution_milli@
            + body.friction_milli@,
{
    assert(bodies.push(body).drop_last() =~= bodies);
    assert(crate::physics::bodies_bytes(bodies.push(body)) =~= crate::physics::bodies_bytes(bodies)
        + body.id@ + seq![
        if body.motion is Fixed {
            0u8
        } else {
            1u8
        },
    ] + (body.position.x@ + body.position.y@ + body.position.z@) + (body.velocity.x@
        + body.velocity.y@ + body.velocity.z@) + (body.half_extents.x@ + body.half_extents.y@
        + body.half_extents.z@) + body.mass_units@ + body.restitution_milli@
        + body.friction_milli@);
}

/// A truth value as it is told.
pub open spec fn yes_or_no(value: bool) -> Seq<char> {
    if value {
        "true"@
    } else {
        "false"@
    }
}

/// What is told of a match: its name, that it is healthy, whether it takes players, whether it
/// drains itself or with the process, whether it is frozen, and how many players fit.
pub proof fn law_match_status_is_told(state: StatusState, facts: MatchFacts)
    ensures
        state.match_json(facts) == "{\"id\":\""@ + facts.id@ + "\",\"healthy\":true,\"ready\":"@
            + yes_or_no(
            state.serving && !state.draining && !facts.draining && !facts.frozen,
        ) + ",\"draining\":"@ + yes_or_no(state.draining || facts.draining) + ",\"frozen\":"@
            + yes_or_no(facts.frozen) + ",\"maxPlayers\":"@ + crate::text::decimal(
            facts.max_players as nat,
        ) + "}"@,
        ({
            let body = "{\"id\":\""@ + facts.id@ + "\",\"ready\":"@ + yes_or_no(
                state.serving && !state.draining && !facts.draining && !facts.frozen,
            ) + ",\"draining\":"@ + yes_or_no(state.draining || facts.draining)
                + ",\"frozen\":"@ + yes_or_no(facts.frozen) + "}"@;
            state.match_endpoint(facts, "readyz"@) matches Some(answer) && answer.body == body
        }),
{
    reveal_strlit("healthz");
    reveal_strlit("readyz");
    assert("healthz"@.len() == 7 && "readyz"@.len() == 6);
}

/// What is told of a process: whether some match takes players, whether it drains, how many matches
/// it hosts, how many fit and how many more, how many players fit, and each match in its turn.
pub proof fn law_process_status_is_told(state: StatusState)
    ensures
        ({
            let ready = state.serving && !state.draining && exists|i: int|
                0 <= i < state.process.matches@.len() && !(
                #[trigger] state.process.matches@[i]).draining && !state.process.matches@[i].frozen;
            let room = if state.process.max_matches >= state.process.hosted_matches {
                state.process.max_matches - state.process.hosted_matches
            } else {
                0
            };
            &&& state.process_json() == "{\"version\":"@ + crate::text::decimal(1)
                + ",\"healthy\":true,\"ready\":"@ + yes_or_no(ready) + ",\"draining\":"@
                + yes_or_no(state.draining) + ",\"capacity\":{\"hostedMatches\":"@
                + crate::text::decimal(state.process.hosted_matches as nat) + ",\"maxMatches\":"@
                + crate::text::decimal(state.process.max_matches as nat)
                + ",\"remainingMatches\":"@ + crate::text::decimal(room as nat)
                + ",\"playerCapacity\":"@ + crate::text::decimal(
                state.process.player_capacity as nat,
            ) + "},\"matches\":["@ + crate::text::joined(
                Seq::new(
                    state.process.matches@.len(),
                    |i: int| state.match_json(state.process.matches@[i]),
                ),
                ","@,
            ) + "]}"@
            &&& state.path_answer("/readyz"@).body == "{\"ready\":"@ + yes_or_no(ready)
                + ",\"draining\":"@ + yes_or_no(state.draining) + "}"@
        }),
{
    law_process_paths_are_answered(state, "/readyz"@);
    if state.process.matches@.len() > 0 {
        law_readiness_is_judged(state, state.process.matches@[0]);
    } else {
        law_readiness_is_judged(state, arbitrary());
    }
    assert(state.match_jsons() =~= Seq::new(
        state.process.matches@.len(),
        |i: int| state.match_json(state.process.matches@[i]),
    ));
    reveal_strlit("/healthz");
    reveal_strlit("/readyz");
    assert("/healthz"@.len() == 8 && "/readyz"@.len() == 7);
}

/// Texts that are joined stand one after the other with a separator between any two.
pub proof fn law_joined_texts(items: Seq<Seq<char>>, item: Seq<char>, separator: Seq<char>)
    ensures
        crate::text::joined(Seq::empty(), separator) == Seq::<char>::empty(),
        crate::text::joined(seq![item], separator) == item,
        items.len() > 0 ==> crate::text::joined(items.push(item), separator)
            == crate::text::joined(items, separator) + separator + item,
{
    assert(items.push(item).drop_last() =~= items);
}

/// A host that cannot be filled was kept from it by a match: without a bundle only by the host
/// itself, and with one also by an image that is not there, or that could not be restored under
/// that match's name.
pub proof fn law_unfilled_hosts_have_a_reason<S: GameSimulation>(
    matches: Seq<(MatchId, S)>,
    max_matches: usize,
    reconnect_grace_ticks: u64,
    images: Option<Seq<(MatchId, RecoveryImage)>>,
    count: int,
    error: MatchHostRecoveryError,
)
    requires
        crate::host_recovery::fill_fails(
            matches,
            max_matches,
            reconnect_grace_ticks,
            images,
            count,
            error,
        ),
    ensures
        0 <= count < matches.len(),
        images is None ==> error is Host,
        error is Host || error is Manifest || error is Match,
        error matches MatchHostRecoveryError::Manifest(_) ==> forall|i: int|
            0 <= i < images->0.len() ==> (#[trigger] images->0[i]).0@ != matches[count].0@,
        error matches MatchHostRecoveryError::Match { id, .. } ==> id@ == matches[count].0@
            && exists|i: int, cause: crate::recovery::RecoveryError|
            0 <= i < images->0.len() && images->0[i].0@ == matches[count].0@
                && #[trigger] crate::runtime::restore_fails(
                matches[count].1,
                images->0[i].1@,
                cause,
            ),
{
    let name = matches[count].0@;
    if let MatchHostRecoveryError::Manifest(_) = error {
        let stored = images->0;
        assert forall|i: int| 0 <= i < stored.len() implies (#[trigger] stored[i]).0@ != name by {
            if stored[i].0@ == name {
                lemma_first_image(stored, name, i);
            }
        }
    }
    if let MatchHostRecoveryError::Match { id, error: words } = error {
        let stored = images->0;
        let at = choose|at: int| #[trigger]
            crate::host_recovery::image_at(stored, name, at) && crate::host_recovery::stays_down(
                matches[count].1,
                stored[at].1@,
                words@,
            );
        let cause = choose|cause: crate::recovery::RecoveryError| #[trigger]
            crate::runtime::restore_fails(matches[count].1, stored[at].1@, cause) && words@
                == crate::runtime::RuntimeRecoveryError::Recovery(cause).message();
        assert(stored[at].0@ == name && crate::runtime::restore_fails(
            matches[count].1,
            stored[at].1@,
            cause,
        ));
    }
}

/// Where an image has a name, some image is the first that has it.
proof fn lemma_first_image(images: Seq<(MatchId, RecoveryImage)>, name: Seq<char>, i: int)
    requires
        0 <= i < images.len(),
        images[i].0@ == name,
    ensures
        exists|index: int| #[trigger] crate::host_recovery::image_at(images, name, index),
    decreases i,
{
    if exists|j: int| 0 <= j < i && (#[trigger] images[j]).0@ == name {
        let j = choose|j: int| 0 <= j < i && (#[trigger] images[j]).0@ == name;
        lemma_first_image(images, name, j);
    } else {
        assert(crate::host_recovery::image_at(images, name, i));
    }
}

/// A path of a match is answered only where it is `/matches/`, the name of a known match and one of
/// the three endpoints, and nothing behind it.
pub proof fn law_only_match_paths_are_answered(state: StatusState, path: Seq<char>)
    requires
        state.match_answer(path) is Some,
    ensures
        exists|i: int|
            0 <= i < state.process.matches@.len() && is_match_path(
                path,
                (#[trigger] state.process.matches@[i]).id@,
            ),
{
    let prefix = "/matches/"@;
    let rest = path.skip(prefix.len() as int);
    let segments = crate::text::parts(rest, '/');
    crate::framing::law_parts_make_the_text(rest, '/');
    reveal_strlit("/");
    let name = segments[0];
    let index = choose|index: int| #[trigger] state.found_at(name, index);
    assert(state.process.matches@[index].id@ == name);
    let single = segments.drop_last();
    assert(crate::text::joined(segments, seq!['/']) == crate::text::joined(single, seq!['/'])
        + seq!['/'] + segments[1]);
    assert(crate::text::joined(single, seq!['/']) == name);
    assert(seq!['/'] =~= "/"@);
    assert(path =~= prefix + rest);
    assert(path =~= prefix + name + "/"@ + segments[1]);
    assert(is_match_path(path, state.process.matches@[index].id@));
}

/// Whether a path is that of one of the three endpoints of a match.
pub open spec fn is_match_path(path: Seq<char>, name: Seq<char>) -> bool {
    ||| path == "/matches/"@ + name + "/"@ + "healthz"@
    ||| path == "/matches/"@ + name + "/"@ + "readyz"@
    ||| path == "/matches/"@ + name + "/"@ + "status"@
}

} // verus!
