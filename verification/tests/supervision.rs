use doxidize::supervisor::{
    begin_watching, handle_request, BuildRequest, Debouncer, LoopAction, SupervisorState,
};

#[test]
fn a_build_request_runs_one_build() {
    let (next, action) = handle_request(SupervisorState::Watching, BuildRequest::Build);
    assert_eq!(next, SupervisorState::Watching);
    assert_eq!(action, Some(LoopAction::RunBuild));
}

#[test]
fn a_terminate_request_stops_the_loop() {
    let (next, action) = handle_request(SupervisorState::Watching, BuildRequest::Terminate);
    assert_eq!(next, SupervisorState::Terminated);
    assert_eq!(action, Some(LoopAction::Shutdown));
}

#[test]
fn a_terminated_supervisor_ignores_requests() {
    let (next, action) = handle_request(SupervisorState::Terminated, BuildRequest::Build);
    assert_eq!(next, SupervisorState::Terminated);
    assert_eq!(action, None);
}

#[test]
fn watching_begins_after_startup() {
    assert_eq!(
        begin_watching(SupervisorState::Starting),
        SupervisorState::Watching
    );
    assert_eq!(
        begin_watching(SupervisorState::Terminated),
        SupervisorState::Terminated
    );
}

#[test]
fn two_rapid_events_coalesce_into_one_build() {
    let mut d = Debouncer::new(2_000);
    assert!(d.offer(10_000));
    assert!(!d.offer(10_500));
}

#[test]
fn two_spaced_events_build_twice() {
    let mut d = Debouncer::new(2_000);
    assert!(d.offer(10_000));
    assert!(d.offer(13_000));
}

#[test]
fn requests_in_a_burst_run_sequential_builds() {
    // Two change notifications that survive debouncing become two
    // requests on the single queue; the one consumer runs one build per
    // request, in order, never two at once.
    let mut state = SupervisorState::Watching;
    let mut builds = 0;
    for req in [
        BuildRequest::Build,
        BuildRequest::Build,
        BuildRequest::Terminate,
        BuildRequest::Build,
    ] {
        let (next, action) = handle_request(state, req);
        state = next;
        match action {
            Some(LoopAction::RunBuild) => builds += 1,
            Some(LoopAction::Shutdown) => {}
            None => {}
        }
    }
    assert_eq!(builds, 2);
    assert_eq!(state, SupervisorState::Terminated);
}
