use game_server::{
    DemoSimulation, GameSimulation, HostError, MatchHost, MatchId, MatchIdError, MatchRuntime,
    ReconnectToken, RuntimeError, MAX_MATCH_ID_BYTES, RECONNECT_TOKEN_BYTES,
};

fn id(value: &str) -> MatchId {
    MatchId::new(value).unwrap()
}

fn runtime(grace_ticks: u64) -> MatchRuntime<DemoSimulation> {
    MatchRuntime::new(DemoSimulation::new(), grace_ticks)
}

fn token(value: u8) -> ReconnectToken {
    ReconnectToken([value; RECONNECT_TOKEN_BYTES])
}

#[test]
fn match_ids_are_bounded_and_route_safe() {
    assert_eq!(MatchId::new(""), Err(MatchIdError::Empty));
    assert_eq!(
        MatchId::new("a".repeat(MAX_MATCH_ID_BYTES + 1)),
        Err(MatchIdError::TooLong {
            maximum: MAX_MATCH_ID_BYTES,
            actual: MAX_MATCH_ID_BYTES + 1,
        })
    );
    assert_eq!(
        MatchId::new("match/one"),
        Err(MatchIdError::InvalidCharacter('/'))
    );
    assert_eq!(id("match_01-west").as_str(), "match_01-west");
}

#[test]
fn host_enforces_nonzero_bounded_unique_lossless_placement() {
    assert!(matches!(
        MatchHost::<DemoSimulation>::new(0),
        Err(HostError::ZeroCapacity)
    ));
    let mut host = MatchHost::new(1).unwrap();
    host.insert(id("one"), runtime(10)).unwrap();

    let duplicate = host.insert(id("one"), runtime(10)).unwrap_err();
    assert_eq!(duplicate.error(), &HostError::DuplicateMatch(id("one")));
    assert_eq!(duplicate.id(), &id("one"));

    let mut retained = runtime(10);
    retained.admit_player(token(9)).unwrap();
    let capacity = host.insert(id("two"), retained).unwrap_err();
    assert_eq!(capacity.error(), &HostError::AtCapacity { maximum: 1 });
    let (error, returned_id, returned_runtime) = capacity.into_parts();
    assert_eq!(error, HostError::AtCapacity { maximum: 1 });
    assert_eq!(returned_id, id("two"));
    assert_eq!(returned_runtime.active_count(), 1);
    assert_eq!(returned_runtime.slot_count(), 1);
}

#[test]
fn per_match_drain_is_isolated_and_process_drain_is_global() {
    let mut host = MatchHost::new(3).unwrap();
    host.insert(id("one"), runtime(10)).unwrap();
    host.insert(id("two"), runtime(10)).unwrap();

    host.begin_match_drain(&id("one")).unwrap();
    assert!(host.runtime(&id("one")).unwrap().is_draining());
    assert!(!host.runtime(&id("two")).unwrap().is_draining());
    assert!(host.status().ready_for_new_match());

    host.with_runtime_mut(&id("one"), |runtime| {
        runtime.resume_after_failed_recovery();
    })
    .unwrap();
    assert!(host.runtime(&id("one")).unwrap().is_draining());

    host.begin_drain();
    assert!(host.is_draining());
    assert!(host.runtime(&id("two")).unwrap().is_draining());
    assert!(!host.status().ready_for_new_match());
    host.with_runtime_mut(&id("two"), |runtime| {
        runtime.resume_after_failed_recovery();
    })
    .unwrap();
    assert!(host.runtime(&id("two")).unwrap().is_draining());
    let rejected = host.insert(id("three"), runtime(10)).unwrap_err();
    assert_eq!(rejected.error(), &HostError::Draining);
    assert_eq!(rejected.id(), &id("three"));
    let (_, _, returned_runtime) = rejected.into_parts();
    assert_eq!(returned_runtime.slot_count(), 0);
}

#[test]
fn status_reports_capacity_and_session_facts_without_stored_ready_state() {
    let mut first = runtime(10);
    first.admit_player(token(1)).unwrap();
    let mut host = MatchHost::new(2).unwrap();
    host.insert(id("b"), runtime(10)).unwrap();
    host.insert(id("a"), first).unwrap();

    let status = host.status();
    assert_eq!(status.hosted_matches, 2);
    assert_eq!(status.max_matches, 2);
    assert_eq!(status.active_players, 1);
    assert_eq!(status.occupied_player_slots, 1);
    assert_eq!(
        status.player_capacity,
        DemoSimulation::new().max_players() * 2
    );
    assert_eq!(status.remaining_match_capacity(), 0);
    assert!(!status.ready_for_new_match());

    let statuses = host.statuses();
    assert_eq!(statuses[0].id, id("a"));
    assert_eq!(statuses[1].id, id("b"));
}

#[test]
fn drained_match_cannot_be_removed_while_reconnectable_slots_remain() {
    let mut live = runtime(0);
    let lease = live.admit_player(token(1)).unwrap();
    let mut host = MatchHost::new(1).unwrap();
    host.insert(id("one"), live).unwrap();

    assert!(matches!(
        host.remove_drained(&id("one")),
        Err(HostError::MatchNotDraining(_))
    ));
    host.begin_match_drain(&id("one")).unwrap();
    assert!(matches!(
        host.remove_drained(&id("one")),
        Err(HostError::MatchNotIdle {
            active_players: 1,
            occupied_slots: 1,
            ..
        })
    ));

    host.with_runtime_mut(&id("one"), |runtime| {
        assert!(runtime.disconnect(lease.player_id, lease.connection_epoch));
        assert!(matches!(
            runtime.admit_player(token(2)),
            Err(RuntimeError::Draining)
        ));
        runtime.advance_tick().unwrap();
        assert_eq!(runtime.slot_count(), 1);
        runtime.advance_tick().unwrap();
        assert_eq!(runtime.slot_count(), 0);
    })
    .unwrap();

    let removed = host.remove_drained(&id("one")).unwrap();
    assert_eq!(removed.slot_count(), 0);
    assert!(host.is_empty());
    assert!(host.status().ready_for_new_match());
}
