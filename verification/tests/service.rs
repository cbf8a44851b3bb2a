use solfege::service::{
    Error, ExitEvent, Manager, ProcessHandle, Service, ServiceDescriptor, ServiceState,
    SignalOutcome, SpawnOutcome,
};

fn descriptor(name: &str, enabled: bool, restart_delay: Option<u64>) -> ServiceDescriptor {
    ServiceDescriptor {
        name: name.to_string(),
        desc: format!("the {name} service"),
        enabled,
        restart_delay,
        user: "root".to_string(),
        group: "root".to_string(),
        program_path: "/bin/false".to_string(),
    }
}

fn spawned(pid: u32) -> SpawnOutcome {
    SpawnOutcome::Spawned(ProcessHandle { pid })
}

fn exit(pid: u32) -> ExitEvent {
    ExitEvent { pid, status: 1 }
}

// The running-iff-handle-held invariant, checked from outside.
fn holds_invariant(s: &Service) -> bool {
    (s.get_state() == ServiceState::Running) == s.current_pid().is_some()
}

#[test]
fn service_starts_stopped() {
    let s = Service::from(descriptor("a", true, None));
    assert_eq!(s.get_state(), ServiceState::Stopped);
    assert!(s.current_pid().is_none());
    assert_eq!(s.crash_timestamp, 0);
    assert!(s.is_enabled());
    assert!(holds_invariant(&s));
}

#[test]
fn service_start_and_stop() {
    let mut s = Service::from(descriptor("a", true, None));
    assert_eq!(s.start(spawned(7)), Ok(()));
    assert_eq!(s.get_state(), ServiceState::Running);
    assert_eq!(s.current_pid(), Some(7));
    assert!(holds_invariant(&s));

    assert_eq!(s.stop(SignalOutcome::Delivered), Ok(()));
    assert_eq!(s.get_state(), ServiceState::Stopped);
    assert!(s.current_pid().is_none());
    assert!(holds_invariant(&s));
}

#[test]
fn service_start_failure_leaves_state() {
    let mut s = Service::from(descriptor("a", true, None));
    let r = s.start(SpawnOutcome::Failed("no such file".to_string()));
    assert_eq!(r, Err(Error::Spawn("no such file".to_string())));
    assert_eq!(s.get_state(), ServiceState::Stopped);
    assert!(s.current_pid().is_none());
    assert!(holds_invariant(&s));
}

#[test]
fn service_stop_twice_is_idempotent() {
    let mut s = Service::from(descriptor("a", true, None));
    s.start(spawned(7)).unwrap();

    assert_eq!(s.stop(SignalOutcome::Delivered), Ok(()));
    assert_eq!(s.get_state(), ServiceState::Stopped);

    // The process is already gone: the second stop still succeeds and
    // the service is still stopped.
    assert_eq!(s.stop(SignalOutcome::AlreadyGone), Ok(()));
    assert_eq!(s.get_state(), ServiceState::Stopped);
    assert!(holds_invariant(&s));
}

#[test]
fn service_stop_already_gone_is_success() {
    let mut s = Service::from(descriptor("a", true, None));
    s.start(spawned(7)).unwrap();
    assert_eq!(s.stop(SignalOutcome::AlreadyGone), Ok(()));
    assert_eq!(s.get_state(), ServiceState::Stopped);
}

#[test]
fn service_stop_failure_keeps_running() {
    let mut s = Service::from(descriptor("a", true, None));
    s.start(spawned(7)).unwrap();
    let r = s.stop(SignalOutcome::Failed("no permission".to_string()));
    assert_eq!(r, Err(Error::Signal("no permission".to_string())));
    assert_eq!(s.get_state(), ServiceState::Running);
    assert_eq!(s.current_pid(), Some(7));
}

#[test]
fn service_start_while_running_is_noop() {
    let mut s = Service::from(descriptor("a", true, Some(100)));
    s.start(spawned(7)).unwrap();
    s.crash_timestamp = 11;

    // A second start does not replace the handle nor touch the crash
    // timestamp.
    assert_eq!(s.start(spawned(8)), Ok(()));
    assert_eq!(s.current_pid(), Some(7));
    assert_eq!(s.crash_timestamp, 11);
    assert_eq!(s.get_state(), ServiceState::Running);
}

#[test]
fn service_mark_crashed() {
    let mut s = Service::from(descriptor("a", true, Some(100)));
    s.start(spawned(7)).unwrap();
    s.mark_crashed(1234);
    assert_eq!(s.get_state(), ServiceState::Crashed);
    assert!(s.current_pid().is_none());
    assert_eq!(s.crash_timestamp, 1234);
    assert!(holds_invariant(&s));
}

#[test]
fn service_restart_replaces_process() {
    let mut s = Service::from(descriptor("a", true, None));
    s.start(spawned(7)).unwrap();
    assert_eq!(s.restart(SignalOutcome::Delivered, spawned(8)), Ok(()));
    assert_eq!(s.get_state(), ServiceState::Running);
    assert_eq!(s.current_pid(), Some(8));
}

#[test]
fn service_restart_propagates_first_error() {
    let mut s = Service::from(descriptor("a", true, None));
    s.start(spawned(7)).unwrap();
    let r = s.restart(
        SignalOutcome::Failed("lost".to_string()),
        spawned(8),
    );
    assert_eq!(r, Err(Error::Signal("lost".to_string())));
    // The stop failed, so the service is still running the old process.
    assert_eq!(s.get_state(), ServiceState::Running);
    assert_eq!(s.current_pid(), Some(7));
}

#[test]
fn service_reload_is_stop_then_start() {
    let mut s = Service::from(descriptor("a", true, None));
    s.start(spawned(7)).unwrap();
    assert_eq!(s.reload(SignalOutcome::Delivered, spawned(9)), Ok(()));
    assert_eq!(s.current_pid(), Some(9));

    // Reloading a stopped service simply starts it.
    s.stop(SignalOutcome::Delivered).unwrap();
    assert_eq!(s.reload(SignalOutcome::Delivered, spawned(10)), Ok(()));
    assert_eq!(s.get_state(), ServiceState::Running);
    assert_eq!(s.current_pid(), Some(10));
}

#[test]
fn manager_new_constructs_stopped_services() {
    let m = Manager::new(vec![
        descriptor("a", true, None),
        descriptor("b", false, Some(100)),
    ]);
    assert_eq!(m.get_services().len(), 2);
    for s in m.get_services() {
        assert_eq!(s.get_state(), ServiceState::Stopped);
        assert!(holds_invariant(s));
    }
}

#[test]
fn manager_discover_skips_malformed() {
    let (descs, errors) = Manager::discover(vec![
        Ok(descriptor("a", true, None)),
        Err("expected a boolean".to_string()),
        Ok(descriptor("", true, None)),
        Ok(descriptor("b", false, None)),
    ]);
    assert_eq!(descs.len(), 2);
    assert_eq!(descs[0].name, "a");
    assert_eq!(descs[1].name, "b");
    assert_eq!(errors.len(), 2);
    assert_eq!(
        errors[0],
        Error::DescriptorParse("expected a boolean".to_string())
    );
    assert_eq!(
        errors[1],
        Error::DescriptorParse("service descriptor has an empty name".to_string())
    );
}

#[test]
fn manager_start_enabled_starts_only_enabled() {
    let mut m = Manager::new(vec![
        descriptor("a", true, None),
        descriptor("b", false, None),
        descriptor("c", true, None),
    ]);
    let failures = m.start_enabled(vec![spawned(1), spawned(2), spawned(3)]);
    assert!(failures.is_empty());
    assert_eq!(m.services[0].get_state(), ServiceState::Running);
    assert_eq!(m.services[0].current_pid(), Some(1));
    assert_eq!(m.services[1].get_state(), ServiceState::Stopped);
    assert_eq!(m.services[2].get_state(), ServiceState::Running);
    assert_eq!(m.services[2].current_pid(), Some(3));
}

#[test]
fn manager_start_enabled_collects_failures() {
    let mut m = Manager::new(vec![
        descriptor("a", true, None),
        descriptor("b", true, None),
        descriptor("c", true, None),
    ]);
    let failures = m.start_enabled(vec![
        SpawnOutcome::Failed("missing binary".to_string()),
        spawned(2),
        SpawnOutcome::Failed("bad permissions".to_string()),
    ]);
    // One failure does not abort the startup of the others.
    assert_eq!(
        failures,
        vec![
            Error::Spawn("missing binary".to_string()),
            Error::Spawn("bad permissions".to_string()),
        ]
    );
    assert_eq!(m.services[0].get_state(), ServiceState::Stopped);
    assert_eq!(m.services[1].get_state(), ServiceState::Running);
    assert_eq!(m.services[2].get_state(), ServiceState::Stopped);
}

#[test]
fn manager_get_service_by_pid() {
    let mut m = Manager::new(vec![
        descriptor("a", true, None),
        descriptor("b", true, None),
    ]);
    m.start_enabled(vec![spawned(10), spawned(20)]);
    assert_eq!(m.get_service(10), Some(0));
    assert_eq!(m.get_service(20), Some(1));
    assert_eq!(m.get_service(30), None);
}

#[test]
fn tick_classifies_crash() {
    let mut m = Manager::new(vec![
        descriptor("a", true, Some(500)),
        descriptor("b", true, None),
    ]);
    m.start_enabled(vec![spawned(10), spawned(20)]);

    let restarts = m.tick(1000, &vec![exit(10)]);
    assert!(restarts.is_empty());
    assert_eq!(m.services[0].get_state(), ServiceState::Crashed);
    assert_eq!(m.services[0].crash_timestamp, 1000);
    assert!(m.services[0].current_pid().is_none());
    // The other service is untouched.
    assert_eq!(m.services[1].get_state(), ServiceState::Running);
    assert_eq!(m.services[1].current_pid(), Some(20));
    for s in m.get_services() {
        assert!(holds_invariant(s));
    }
}

#[test]
fn tick_ignores_orphans() {
    let mut m = Manager::new(vec![
        descriptor("a", true, None),
        descriptor("b", true, None),
    ]);
    m.start_enabled(vec![spawned(10), spawned(20)]);

    // The reaped pid belongs to nobody: reaping it was the whole duty.
    let restarts = m.tick(1000, &vec![exit(99)]);
    assert!(restarts.is_empty());
    assert_eq!(m.services[0].get_state(), ServiceState::Running);
    assert_eq!(m.services[0].current_pid(), Some(10));
    assert_eq!(m.services[1].get_state(), ServiceState::Running);
    assert_eq!(m.services[1].current_pid(), Some(20));
}

#[test]
fn tick_drains_all_exits() {
    let mut m = Manager::new(vec![
        descriptor("a", true, None),
        descriptor("b", true, None),
        descriptor("c", true, None),
    ]);
    m.start_enabled(vec![spawned(1), spawned(2), spawned(3)]);

    // Three children died between two ticks: one tick classifies all
    // three.
    m.tick(1000, &vec![exit(3), exit(1), exit(2)]);
    for s in m.get_services() {
        assert_eq!(s.get_state(), ServiceState::Crashed);
        assert_eq!(s.crash_timestamp, 1000);
        assert!(holds_invariant(s));
    }
}

#[test]
fn tick_restart_cooldown() {
    let mut m = Manager::new(vec![descriptor("a", true, Some(500))]);
    m.start_enabled(vec![spawned(10)]);
    m.tick(1000, &vec![exit(10)]);
    assert_eq!(m.services[0].get_state(), ServiceState::Crashed);

    // Before the delay has elapsed, the service is left crashed.
    assert!(m.tick(1400, &vec![]).is_empty());
    assert_eq!(m.services[0].get_state(), ServiceState::Crashed);
    assert!(m.tick(1499, &vec![]).is_empty());

    // From crash_timestamp + restart_delay on, the service is due.
    let restarts = m.tick(1500, &vec![]);
    assert_eq!(restarts, vec![0]);
    assert_eq!(m.start_service(0, spawned(11)), Ok(()));
    assert_eq!(m.services[0].get_state(), ServiceState::Running);
    assert_eq!(m.services[0].current_pid(), Some(11));
}

#[test]
fn tick_no_restart_without_delay() {
    let mut m = Manager::new(vec![descriptor("a", true, None)]);
    m.start_enabled(vec![spawned(10)]);
    m.tick(1000, &vec![exit(10)]);

    // Without a configured delay the service stays crashed, however
    // many ticks pass.
    for now in [1001u64, 2000, 100_000, u64::MAX] {
        assert!(m.tick(now, &vec![]).is_empty());
        assert_eq!(m.services[0].get_state(), ServiceState::Crashed);
    }

    // Only a manual restart brings it back.
    assert_eq!(
        m.services[0].restart(SignalOutcome::AlreadyGone, spawned(11)),
        Ok(())
    );
    assert_eq!(m.services[0].get_state(), ServiceState::Running);
}

#[test]
fn tick_disabled_crashed_is_not_restarted() {
    // A crashed service that is disabled is never due, delay or not.
    let mut m = Manager::new(vec![descriptor("a", false, Some(1))]);
    m.services[0].start(spawned(10)).unwrap();
    m.tick(1000, &vec![exit(10)]);
    assert_eq!(m.services[0].get_state(), ServiceState::Crashed);
    assert!(m.tick(u64::MAX, &vec![]).is_empty());
    assert_eq!(m.services[0].get_state(), ServiceState::Crashed);
}

#[test]
fn scenario_crashing_service_is_restarted() {
    // {enabled: true, restart_delay: 500, program_path: "/bin/false"}
    let mut m = Manager::new(vec![descriptor("false", true, Some(500))]);

    // Boot: the enabled service is started.
    let failures = m.start_enabled(vec![spawned(42)]);
    assert!(failures.is_empty());
    assert_eq!(m.services[0].get_state(), ServiceState::Running);

    // The process exits immediately; the next tick observes it.
    let t = 7000u64;
    assert!(m.tick(t, &vec![exit(42)]).is_empty());
    assert_eq!(m.services[0].get_state(), ServiceState::Crashed);
    assert_eq!(m.services[0].crash_timestamp, t);

    // Ticks before t + 500 leave it crashed.
    assert!(m.tick(t + 499, &vec![]).is_empty());
    assert_eq!(m.services[0].get_state(), ServiceState::Crashed);

    // A tick at t + 500 restarts it.
    let restarts = m.tick(t + 500, &vec![]);
    assert_eq!(restarts, vec![0]);
    assert_eq!(m.start_service(0, spawned(43)), Ok(()));
    assert_eq!(m.services[0].get_state(), ServiceState::Running);
}

#[test]
fn scenario_disabled_service_never_starts() {
    // {enabled: false}
    let mut m = Manager::new(vec![descriptor("idle", false, Some(500))]);
    assert_eq!(m.services[0].get_state(), ServiceState::Stopped);

    // Boot does not start it.
    let failures = m.start_enabled(vec![SpawnOutcome::Failed("unused".to_string())]);
    assert!(failures.is_empty());
    assert_eq!(m.services[0].get_state(), ServiceState::Stopped);

    // No tick ever starts it.
    for now in [0u64, 1000, 1_000_000] {
        assert!(m.tick(now, &vec![]).is_empty());
        assert_eq!(m.services[0].get_state(), ServiceState::Stopped);
    }
}
