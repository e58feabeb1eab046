use game_server::client::{
    final_sequence, oversized_control_header, ProgressWatch, SnapshotCount,
};
use game_server::physics::{
    state_fingerprint, steps_after, BodyFacts, BodyMotion, VectorBytes, WorldFacts,
};
use game_server::settings::{
    handle_demo_control, parse_hosted_match_ids, plan_server, DemoControlService,
    DemoMatchControlService, ServerPlan, ServerRequest,
};
use game_server::{
    decode_demo_snapshot, encode_demo_command, encode_snapshot, ControlContext, ControlService,
    DemoSimulation, DemoSnapshotPlayer, GameSimulation, MatchControlService, MatchId, SnapshotFrame,
    SimulationSnapshot, WorldError,
};

fn shown(simulation: &DemoSimulation) -> Vec<DemoSnapshotPlayer> {
    decode_demo_snapshot(&simulation.snapshot().unwrap().payload).unwrap()
}

#[test]
fn players_start_on_a_grid_and_step_inside_the_world() {
    let mut simulation = DemoSimulation::new();
    simulation.add_player(1).unwrap();
    simulation.add_player(10).unwrap();
    let players = shown(&simulation);
    assert_eq!((players[0].x, players[0].y), (-640, -896));
    assert_eq!((players[1].x, players[1].y), (-384, -640));
    simulation.apply_command(1, 2, &encode_demo_command(-1, 1).unwrap()).unwrap();
    simulation.apply_command(1, 3, &encode_demo_command(1, -1).unwrap()).unwrap();
    simulation.advance_tick().unwrap();
    let players = shown(&simulation);
    assert_eq!((players[0].x, players[0].y), (-576, -960));
    assert_eq!(players[0].last_applied_sequence, 3);
    for _ in 0..200 {
        simulation.advance_tick().unwrap();
    }
    let players = shown(&simulation);
    assert_eq!((players[0].x, players[0].y), (10_000, -10_000));
    assert_eq!((players[1].x, players[1].y), (-384, -640));
}

#[test]
fn the_demo_refuses_what_it_cannot_take() {
    let mut simulation = DemoSimulation::new();
    let words = |result: Result<(), game_server::SimulationError>| {
        result.unwrap_err().to_string()
    };
    assert_eq!(words(simulation.add_player(0)), "player id zero is reserved");
    simulation.add_player(1).unwrap();
    assert_eq!(words(simulation.add_player(1)), "player 1 already exists");
    assert_eq!(words(simulation.apply_command(2, 1, &[0, 0])), "unknown player 2");
    assert_eq!(
        words(simulation.apply_command(1, 1, &[0])),
        "demo command must be 2 bytes, received 1"
    );
    assert_eq!(
        words(simulation.apply_command(1, 1, &[254, 5])),
        "demo axes must each be between -1 and 1, got (-2, 5)"
    );
    for player_id in 2..=16 {
        simulation.add_player(player_id).unwrap();
    }
    assert_eq!(words(simulation.add_player(17)), "demo world has reached player capacity");
    assert!(simulation.remove_player(16));
    assert!(!simulation.remove_player(16));
    simulation.add_player(17).unwrap();
}

#[test]
fn demo_encodings_are_exact() {
    assert_eq!(encode_demo_command(1, -1), Ok([1, 255]));
    assert_eq!(
        encode_demo_command(2, 0),
        Err(WorldError::InvalidAxis { horizontal: 2, vertical: 0 })
    );
    assert_eq!(decode_demo_snapshot(&[]), Err(WorldError::InvalidSnapshotLength));
    assert_eq!(decode_demo_snapshot(&[1]), Err(WorldError::InvalidSnapshotLength));
    assert_eq!(decode_demo_snapshot(&[17; 205]), Err(WorldError::InvalidSnapshotLength));
    assert_eq!(decode_demo_snapshot(&[0]), Ok(Vec::new()));
    assert_eq!(
        decode_demo_snapshot(&[1, 0, 0, 0, 9, 255, 254, 0, 3, 0, 0, 1, 0]),
        Ok(vec![DemoSnapshotPlayer {
            player_id: 9,
            x: -2,
            y: 3,
            last_applied_sequence: 256
        }])
    );
    assert_eq!(WorldError::TickExhausted.to_string(), "tick counter is exhausted");
    assert_eq!(
        WorldError::InvalidSnapshotLength.to_string(),
        "invalid demo snapshot payload length"
    );
}

fn request() -> ServerRequest {
    ServerRequest {
        session_path: "/game".to_owned(),
        hosted_match_ids: None,
        single_match_id: None,
        has_recovery_path: false,
        has_recovery_directory: false,
    }
}

fn id(value: &str) -> MatchId {
    MatchId::new(value).unwrap()
}

#[test]
fn settings_lead_to_one_way_of_serving() {
    assert_eq!(
        plan_server(request()),
        Ok(ServerPlan::Single { session_path: "/game".to_owned() })
    );
    let mut single = request();
    single.single_match_id = Some(id("lobby"));
    single.has_recovery_path = true;
    assert_eq!(
        plan_server(single),
        Ok(ServerPlan::Single { session_path: "/game/matches/lobby".to_owned() })
    );
    let mut hosted = request();
    hosted.hosted_match_ids = Some(parse_hosted_match_ids("b,a").unwrap());
    hosted.has_recovery_directory = true;
    match plan_server(hosted) {
        Ok(ServerPlan::Hosted { route_prefix, match_ids }) => {
            assert_eq!(route_prefix.as_str(), "/game");
            assert_eq!(match_ids, vec![id("b"), id("a")]);
        }
        _ => panic!("the matches are hosted"),
    }
}

#[test]
fn settings_that_contradict_each_other_are_refused() {
    let refusal = |change: fn(&mut ServerRequest)| {
        let mut changed = request();
        change(&mut changed);
        plan_server(changed).unwrap_err()
    };
    assert_eq!(
        refusal(|changed| {
            changed.hosted_match_ids = Some(vec![id("a")]);
            changed.single_match_id = Some(id("a"));
        }),
        "GAME_SERVER_MATCH_IDS and GAME_SERVER_MATCH_ID are mutually exclusive"
    );
    assert_eq!(
        refusal(|changed| {
            changed.has_recovery_path = true;
            changed.has_recovery_directory = true;
        }),
        "GAME_SERVER_RECOVERY_PATH and GAME_SERVER_RECOVERY_DIR are mutually exclusive"
    );
    assert_eq!(
        refusal(|changed| {
            changed.hosted_match_ids = Some(vec![id("a")]);
            changed.has_recovery_path = true;
        }),
        "GAME_SERVER_RECOVERY_PATH is single-match only; use GAME_SERVER_RECOVERY_DIR with GAME_SERVER_MATCH_IDS"
    );
    assert_eq!(
        refusal(|changed| changed.has_recovery_directory = true),
        "GAME_SERVER_RECOVERY_DIR requires GAME_SERVER_MATCH_IDS; use GAME_SERVER_RECOVERY_PATH for single-match serving"
    );
    assert_eq!(
        parse_hosted_match_ids(""),
        Err("GAME_SERVER_MATCH_IDS must not be empty".to_owned())
    );
    assert_eq!(
        parse_hosted_match_ids("a,,b"),
        Err("match id must not be empty".to_owned())
    );
}

#[test]
fn demo_control_answers_pings() {
    assert_eq!(handle_demo_control(b"ping"), Ok(b"pong".to_vec()));
    assert_eq!(
        handle_demo_control(b"reject").unwrap_err().to_string(),
        "demo control request rejected"
    );
    assert_eq!(
        handle_demo_control(b"pings").unwrap_err().to_string(),
        "unsupported demo control request"
    );
    let context = ControlContext { player_id: 1, connection_epoch: 1 };
    assert_eq!(DemoControlService.handle(context, b"ping"), Ok(b"pong".to_vec()));
    assert_eq!(
        DemoMatchControlService.handle(&id("a"), context, b"ping"),
        Ok(b"pong".to_vec())
    );
    assert_eq!(
        DemoMatchControlService.handle(&id("a-1"), context, b"match-id"),
        Ok(b"a-1".to_vec())
    );
}

fn snapshot_frame(tick: u64, player_id: u32, sequence: u8) -> Vec<u8> {
    let mut payload = vec![1];
    payload.extend(player_id.to_be_bytes());
    payload.extend([0, 0, 0, 0, 0, 0, 0, sequence]);
    let taken = SimulationSnapshot::new(tick, payload);
    encode_snapshot(&SnapshotFrame {
        tick,
        state_hash: taken.state_hash,
        payload: taken.payload,
    })
    .unwrap()
}

#[test]
fn trials_count_their_snapshots() {
    assert_eq!(final_sequence(3, 5), Ok(7));
    assert_eq!(
        final_sequence(0, 5),
        Err("command count and start sequence must be non-zero")
    );
    assert_eq!(final_sequence(u32::MAX, 2), Err("command sequence range overflow"));
    let mut count = SnapshotCount::new();
    for (tick, sequence) in [(4, 0), (5, 2), (5, 3), (7, 1)] {
        count.observe(1, &snapshot_frame(tick, 1, sequence)).unwrap();
    }
    assert_eq!(
        (count.received, count.accepted, count.stale, count.invalid),
        (4, 3, 1, 0)
    );
    assert_eq!((count.first_tick, count.last_tick), (Some(4), Some(7)));
    assert_eq!(count.final_applied_sequence, 2);
    assert!(count.is_settled(2));
    assert!(!count.is_settled(3));
    assert!(count.progressed());
    assert!(count.expectations_hold(2));
    count.observe(1, b"noise").unwrap();
    assert_eq!(count.invalid, 1);
    assert!(!count.expectations_hold(2));
}

#[test]
fn progress_is_watched_until_the_command_is_applied() {
    let mut watch = ProgressWatch::new();
    assert_eq!(watch.observe(1, b"noise"), Ok(false));
    assert_eq!(watch.observe(1, &snapshot_frame(4, 2, 1)), Ok(false));
    assert_eq!(watch.observe(1, &snapshot_frame(5, 1, 0)), Ok(false));
    assert!(!watch.succeeded());
    assert_eq!(watch.observe(1, &snapshot_frame(6, 1, 1)), Ok(true));
    assert!(watch.succeeded());
    assert_eq!(oversized_control_header(), vec![b'G', b'S', b'C', b'T', 1, 1, 0x10, 0x01]);
}

fn vector(x: &[u8], y: &[u8], z: &[u8]) -> VectorBytes {
    VectorBytes { x: x.to_vec(), y: y.to_vec(), z: z.to_vec() }
}

#[test]
fn physics_fingerprints_are_exact() {
    let world = WorldFacts {
        gravity: vector(&[0, 0, 0, 1], &[0, 0, 0, 2], &[0, 0, 0, 3]),
        max_events_per_step: 64,
        stabilization_passes: 4,
    };
    let body = BodyFacts {
        id: vec![0, 0, 0, 1],
        motion: BodyMotion::Dynamic,
        position: vector(&[5], &[5], &[5]),
        velocity: vector(&[6], &[6], &[6]),
        half_extents: vector(&[7], &[7], &[7]),
        mass_units: vec![8],
        restitution_milli: vec![9],
        friction_milli: vec![10],
    };
    assert_eq!(state_fingerprint(10, &world, &[]), 0xdeac0248b67109c4);
    assert_eq!(state_fingerprint(10, &world, &[body]), 0x4ab3d009ed5fa3dd);
    assert_eq!(steps_after(4, true), 5);
    assert_eq!(steps_after(4, false), 4);
    assert_eq!(steps_after(u64::MAX, true), u64::MAX);
}
