use game_server::{
    decode_demo_snapshot, encode_demo_command, DemoSimulation, GameSimulation, SimulationSnapshot,
};

#[test]
fn reference_simulation_is_deterministic() {
    fn run() -> SimulationSnapshot {
        let mut simulation = DemoSimulation::new();
        simulation.add_player(1).unwrap();
        simulation.add_player(2).unwrap();
        simulation
            .apply_command(1, 1, &encode_demo_command(1, 0).unwrap())
            .unwrap();
        simulation
            .apply_command(2, 1, &encode_demo_command(0, -1).unwrap())
            .unwrap();
        for _ in 0..10 {
            simulation.advance_tick().unwrap();
        }
        simulation.snapshot().unwrap()
    }
    assert_eq!(run(), run());
}

#[test]
fn reference_snapshot_round_trip_is_exact() {
    let mut simulation = DemoSimulation::new();
    simulation.add_player(1).unwrap();
    simulation
        .apply_command(1, 7, &encode_demo_command(1, -1).unwrap())
        .unwrap();
    simulation.advance_tick().unwrap();
    let snapshot = simulation.snapshot().unwrap();
    let players = decode_demo_snapshot(&snapshot.payload).unwrap();
    assert_eq!(players.len(), 1);
    assert_eq!(players[0].player_id, 1);
    assert_eq!(players[0].last_applied_sequence, 7);
}
