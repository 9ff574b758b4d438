use carbide_telemetry::server::{
    active_connections, is_connection_error, next_step, next_task_step, report_end,
    ActiveConnection, ConnectionEnd, ConnectionReport, Connections, ErrorKind, LoopReport,
    LoopStep, TaskStep, ACTIVE_CONNECTIONS_METRIC, HEADER_READ_TIMEOUT,
    HEADER_READ_TIMEOUTS_METRIC, TCP_KEEPALIVE_INTERVAL, TCP_KEEPALIVE_PROBES, TCP_KEEPALIVE_TIME,
    TCP_USER_TIMEOUT,
};

/// The gauge samples the number of open slots.
#[test]
fn active_connections_gauge_samples_open_guards() {
    let mut connections = Connections::new();
    let idle = active_connections(&connections) as f64;
    let held = [ActiveConnection::open(&mut connections), ActiveConnection::open(&mut connections)];
    assert_eq!(active_connections(&connections) as f64, idle + 2.0);
    for slot in held {
        slot.close(&mut connections);
    }
    assert_eq!(active_connections(&connections) as f64, idle);
}

/// Runs the task of a connection that ended so. Gives what it reported, each with the number of
/// connections that were open at that moment.
fn run_task(
    slot: ActiveConnection,
    connections: &mut Connections,
    end: ConnectionEnd,
) -> Vec<(ConnectionReport, usize)> {
    let mut slot = Some(slot);
    let mut reports = Vec::new();
    let mut step = TaskStep::Serve;
    while step != TaskStep::Finished {
        match step {
            TaskStep::Report(report) => reports.push((report, active_connections(connections))),
            TaskStep::Release => slot.take().unwrap().close(connections),
            TaskStep::Serve | TaskStep::Finished => {}
        }
        step = next_task_step(step, connections, end);
    }
    assert!(slot.is_none());
    reports
}

#[test]
fn idle_closes_are_counted_while_their_slot_is_held() {
    let mut connections = Connections::new();
    let first = ActiveConnection::open(&mut connections);
    let second = ActiveConnection::open(&mut connections);
    assert_eq!(
        run_task(first, &mut connections, ConnectionEnd::TimedOut),
        vec![(ConnectionReport::HeaderReadTimedOut { active_connection_count: 2 }, 2)]
    );
    assert_eq!(active_connections(&connections), 1);
    assert_eq!(
        run_task(second, &mut connections, ConnectionEnd::TimedOut),
        vec![(ConnectionReport::HeaderReadTimedOut { active_connection_count: 1 }, 1)]
    );
    assert_eq!(active_connections(&connections), 0);
}

#[test]
fn aborted_transfers_release_their_slot_uncounted() {
    let mut connections = Connections::new();
    let slot = ActiveConnection::open(&mut connections);
    assert_eq!(
        run_task(slot, &mut connections, ConnectionEnd::Failed),
        vec![(ConnectionReport::ClosedWithError, 1)]
    );
    assert_eq!(active_connections(&connections), 0);
    let slot = ActiveConnection::open(&mut connections);
    assert_eq!(
        run_task(slot, &mut connections, ConnectionEnd::Completed),
        vec![(ConnectionReport::Silent, 1)]
    );
    assert_eq!(active_connections(&connections), 0);
}

#[test]
fn a_task_reports_and_then_releases() {
    let mut connections = Connections::new();
    let _slot = ActiveConnection::open(&mut connections);
    let end = ConnectionEnd::TimedOut;
    let report = report_end(&connections, end);
    assert_eq!(report, ConnectionReport::HeaderReadTimedOut { active_connection_count: 1 });
    assert_eq!(
        next_task_step(TaskStep::Serve, &connections, end),
        TaskStep::Report(report)
    );
    assert_eq!(
        next_task_step(TaskStep::Report(report), &connections, end),
        TaskStep::Release
    );
    assert_eq!(next_task_step(TaskStep::Release, &connections, end), TaskStep::Finished);
    assert_eq!(next_task_step(TaskStep::Finished, &connections, end), TaskStep::Finished);
}

#[test]
fn the_count_wraps_around() {
    let mut connections = Connections::new();
    let slot = ActiveConnection::open(&mut connections);
    let other = ActiveConnection::open(&mut Connections::new());
    slot.close(&mut connections);
    other.close(&mut connections);
    assert_eq!(active_connections(&connections), usize::MAX);
    ActiveConnection::open(&mut connections);
    assert_eq!(active_connections(&connections), 0);
}

#[test]
fn errors_of_the_connection_are_told_from_those_of_the_listener() {
    for kind in
        [ErrorKind::ConnectionRefused, ErrorKind::ConnectionAborted, ErrorKind::ConnectionReset]
    {
        assert!(is_connection_error(&kind));
    }
    for kind in [
        ErrorKind::NotFound,
        ErrorKind::PermissionDenied,
        ErrorKind::NotConnected,
        ErrorKind::BrokenPipe,
        ErrorKind::WouldBlock,
        ErrorKind::TimedOut,
        ErrorKind::Interrupted,
        ErrorKind::OutOfMemory,
        ErrorKind::Other,
    ] {
        assert!(!is_connection_error(&kind));
    }
}

#[test]
fn an_accepted_connection_is_served_whatever_its_options() {
    let failed = Some(ErrorKind::InvalidInput);
    assert_eq!(
        next_step(LoopStep::Accept, None),
        (LoopStep::EnableKeepalive, LoopReport::Silent)
    );
    for (failure, report) in [(None, LoopReport::Silent), (failed, LoopReport::KeepaliveFailed)] {
        assert_eq!(
            next_step(LoopStep::EnableKeepalive, failure),
            (LoopStep::SetUserTimeout, report)
        );
    }
    for (failure, report) in [(None, LoopReport::Silent), (failed, LoopReport::UserTimeoutFailed)] {
        assert_eq!(next_step(LoopStep::SetUserTimeout, failure), (LoopStep::Serve, report));
    }
    assert_eq!(next_step(LoopStep::Serve, None), (LoopStep::Accept, LoopReport::Silent));
}

#[test]
fn a_failed_accept_is_retried() {
    assert_eq!(
        next_step(LoopStep::Accept, Some(ErrorKind::ConnectionAborted)),
        (LoopStep::Accept, LoopReport::Silent)
    );
    assert_eq!(
        next_step(LoopStep::Accept, Some(ErrorKind::Other)),
        (LoopStep::Wait { seconds: 1 }, LoopReport::AcceptFailed)
    );
    assert_eq!(
        next_step(LoopStep::Wait { seconds: 1 }, None),
        (LoopStep::Accept, LoopReport::Silent)
    );
}

#[test]
fn peers_are_given_up_on_one_schedule() {
    assert_eq!(HEADER_READ_TIMEOUT, 30);
    assert_eq!(TCP_USER_TIMEOUT, 150);
    assert_eq!(TCP_KEEPALIVE_TIME + TCP_KEEPALIVE_PROBES * TCP_KEEPALIVE_INTERVAL, 150);
    assert_eq!(ACTIVE_CONNECTIONS_METRIC, "carbide_pxe_active_connections");
    assert_eq!(
        HEADER_READ_TIMEOUTS_METRIC,
        "carbide_pxe_connection_header_read_timeouts_total"
    );
}
