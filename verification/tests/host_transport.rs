use game_server::host_transport::validate_host;
use game_server::{
    DemoSimulation, MatchHost, MatchHostTransportError, MatchId, MatchRuntime,
    DEFAULT_RECONNECT_GRACE_TICKS,
};

fn host_with(ids: &[&str]) -> MatchHost<DemoSimulation> {
    let mut host = MatchHost::new(ids.len()).unwrap();
    for value in ids {
        host.insert(
            MatchId::new(*value).unwrap(),
            MatchRuntime::new(DemoSimulation::new(), DEFAULT_RECONNECT_GRACE_TICKS),
        )
        .unwrap();
    }
    host
}

#[test]
fn host_validation_binds_one_tick_loop_per_match() {
    let host = host_with(&["alpha", "beta"]);
    let tick_rates = validate_host(&host).unwrap();
    assert_eq!(tick_rates.len(), 2);
    assert_eq!(tick_rates[0].0.as_str(), "alpha");
    assert_eq!(tick_rates[1].0.as_str(), "beta");
    assert!(tick_rates.iter().all(|(_, tick_hz)| *tick_hz > 0));
}

#[test]
fn empty_or_pre_draining_hosts_fail_closed() {
    let empty = MatchHost::<DemoSimulation>::new(1).unwrap();
    assert_eq!(
        validate_host(&empty),
        Err(MatchHostTransportError::EmptyHost)
    );

    let mut draining = host_with(&["alpha"]);
    draining.begin_drain();
    assert_eq!(
        validate_host(&draining),
        Err(MatchHostTransportError::HostAlreadyDraining)
    );
}
