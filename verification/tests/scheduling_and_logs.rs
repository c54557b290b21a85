use butido::ids::JobId;
use butido::joblog::log_file_path;
use butido::joblog::u64_to_decimal;
use butido::joblog::BarEvent;
use butido::joblog::LogItem;
use butido::joblog::LogReceiver;
use butido::path::ArtifactPath;
use butido::scheduler::finish_job;
use butido::scheduler::select_endpoint;
use butido::scheduler::JobHandleError;
use butido::package::ImageName;
use butido::scheduler::endpoint_setup_check;
use butido::scheduler::surviving_endpoints;
use butido::scheduler::EndpointSetupError;
use butido::scheduler::PingSession;
use butido::scheduler::PoolError;

#[test]
fn scheduler_picks_the_least_loaded_endpoint() {
    // Loads (0, 5): the first endpoint wins.
    assert_eq!(select_endpoint(&vec![Some(0), Some(5)]), Some(0));
    // Equal loads: declaration order wins.
    assert_eq!(select_endpoint(&vec![Some(3), Some(3)]), Some(0));
}

#[test]
fn scheduler_least_loaded_selection_rounds() {
    // Loads (3, 1): the second endpoint wins; after it took the job its
    // load rises to 2, and it still wins the next round.
    assert_eq!(select_endpoint(&vec![Some(3), Some(1)]), Some(1));
    assert_eq!(select_endpoint(&vec![Some(3), Some(2)]), Some(1));
}

#[test]
fn scheduler_skips_silent_endpoints_and_retries_when_all_fail() {
    assert_eq!(select_endpoint(&vec![None, Some(9), None]), Some(1));
    assert_eq!(select_endpoint(&vec![None, None]), None);
    assert_eq!(select_endpoint(&vec![]), None);
}

#[test]
fn finish_job_combines_run_and_log() {
    let id = JobId::new(42);
    let paths = vec![ArtifactPath::new(String::from("out.tar")).unwrap()];
    let run = Ok((paths, String::from("c0ffee"), String::from("#!/bin/bash\n")));
    let log = Ok(String::from("line one\nline two"));
    let (arts, record) = finish_job(id, run, log).unwrap();
    assert_eq!(arts.len(), 1);
    assert_eq!(record.job_uuid, id);
    assert_eq!(record.container_hash, "c0ffee");
    assert_eq!(record.script, "#!/bin/bash\n");
    assert_eq!(record.log, "line one\nline two");
}

#[test]
fn finish_job_reports_log_failure_first() {
    let id = JobId::new(42);
    let run: Result<(Vec<ArtifactPath>, String, String), String> =
        Err(String::from("container exploded"));
    let log: Result<String, String> = Err(String::from("log file unwritable"));
    match finish_job(id, run, log).unwrap_err() {
        JobHandleError::LogCollection(m) => assert_eq!(m, "log file unwritable"),
        other => panic!("unexpected: {:?}", other),
    }

    // A failed run still yields the job row with the accumulated log, so
    // the ledger insert can happen on the failure path too.
    let run: Result<(Vec<ArtifactPath>, String, String), String> =
        Err(String::from("container exploded"));
    match finish_job(id, run, Ok(String::from("partial output"))).unwrap_err() {
        JobHandleError::ContainerRun(m, record) => {
            assert_eq!(m, "container exploded");
            assert_eq!(record.job_uuid, id);
            assert_eq!(record.log, "partial output");
            assert_eq!(record.container_hash, "");
            assert_eq!(record.script, "");
        }
        other => panic!("unexpected: {:?}", other),
    }
}

#[test]
fn ping_session_counts_down_and_aborts_on_failure() {
    let mut s = PingSession::new(3);
    assert!(s.should_ping());
    s.record(true);
    assert!(s.should_ping());
    s.record(false);
    assert!(!s.should_ping());
    assert!(!s.succeeded());

    let mut ok = PingSession::new(2);
    ok.record(true);
    ok.record(true);
    assert!(!ok.should_ping());
    assert!(ok.succeeded());
}

#[test]
fn decimal_rendering() {
    assert_eq!(u64_to_decimal(0), "0");
    assert_eq!(u64_to_decimal(7), "7");
    assert_eq!(u64_to_decimal(10), "10");
    assert_eq!(u64_to_decimal(90210), "90210");
    assert_eq!(u64_to_decimal(u64::MAX), "18446744073709551615");
}

#[test]
fn log_receiver_round_trip() {
    // The joined log is the newline-join of the rendered items in arrival
    // order, and the file receives the same bytes plus one trailing
    // newline per item.
    let items = vec![
        LogItem::Line(String::from("hello")),
        LogItem::Progress(5),
        LogItem::CurrentPhase(String::from("build")),
        LogItem::State(Ok(String::from("done"))),
    ];
    let mut receiver = LogReceiver::new();
    let mut file = String::new();
    for item in items {
        let (chunk, _) = receiver.receive(item);
        file.push_str(&chunk);
    }
    let (joined, success) = receiver.finish();
    assert_eq!(
        joined,
        "hello\n#BUTIDO:PROGRESS:5\n#BUTIDO:PHASE:build\n#BUTIDO:STATE:OK:done"
    );
    assert_eq!(success, Some(true));
    let mut expected_file = joined.clone();
    expected_file.push('\n');
    assert_eq!(file, expected_file);
}

#[test]
fn log_receiver_tracks_last_state_and_bar_events() {
    let mut receiver = LogReceiver::new();
    let (_, ev) = receiver.receive(LogItem::Progress(17));
    match ev {
        Some(BarEvent::Position(p)) => assert_eq!(p, 17),
        other => panic!("unexpected: {:?}", other),
    }
    let (_, ev) = receiver.receive(LogItem::State(Err(String::from("failed"))));
    match ev {
        Some(BarEvent::StateErr(m)) => assert_eq!(m, "failed"),
        other => panic!("unexpected: {:?}", other),
    }
    let (_, success) = receiver.finish();
    assert_eq!(success, Some(false));
}

#[test]
fn log_receiver_empty_stream() {
    let receiver = LogReceiver::new();
    let (joined, success) = receiver.finish();
    assert_eq!(joined, "");
    assert_eq!(success, None);
}

#[test]
fn log_file_path_uses_the_hyphenated_uuid() {
    let bits: u128 = 0x00112233445566778899aabbccddeeff;
    let job = JobId::new(bits);
    let expected = format!(
        "/var/log/builds/{}.log",
        uuid::Uuid::from_u128(bits).hyphenated()
    );
    assert_eq!(log_file_path("/var/log/builds", &job), expected);
}

#[test]
fn hyphenated_matches_the_uuid_crate() {
    let bits: u128 = 314159265358979323846264338327950288;
    let job = JobId::new(bits);
    assert_eq!(
        job.hyphenated(),
        uuid::Uuid::from_u128(bits).hyphenated().to_string()
    );
    assert_eq!(job.hyphenated().len(), 36);
}

#[test]
fn endpoint_setup_checks_images_and_versions() {
    let img = |s: &str| ImageName::from(String::from(s));
    let present = vec![img("debian:12"), img("alpine:3")];
    let required = vec![img("debian:12")];
    let versions = vec![String::from("24")];
    let api_versions = vec![String::from("1.43")];

    assert!(endpoint_setup_check(
        &present,
        &required,
        &String::from("24"),
        &versions,
        &String::from("1.43"),
        &api_versions,
    )
    .is_ok());

    assert_eq!(
        endpoint_setup_check(
            &present,
            &vec![img("fedora:40")],
            &String::from("24"),
            &versions,
            &String::from("1.43"),
            &api_versions,
        )
        .unwrap_err(),
        EndpointSetupError::MissingImage
    );

    assert_eq!(
        endpoint_setup_check(
            &present,
            &required,
            &String::from("19"),
            &versions,
            &String::from("1.43"),
            &api_versions,
        )
        .unwrap_err(),
        EndpointSetupError::DaemonVersionNotAllowed
    );

    assert_eq!(
        endpoint_setup_check(
            &present,
            &required,
            &String::from("24"),
            &versions,
            &String::from("1.12"),
            &api_versions,
        )
        .unwrap_err(),
        EndpointSetupError::ApiVersionNotAllowed
    );

    // Empty accepted lists put no constraint on the versions.
    assert!(endpoint_setup_check(
        &present,
        &required,
        &String::from("anything"),
        &vec![],
        &String::from("anything"),
        &vec![],
    )
    .is_ok());
}

#[test]
fn pool_survives_only_with_a_passing_endpoint() {
    assert_eq!(surviving_endpoints(&vec![true, false, true]).unwrap(), vec![0, 2]);
    assert_eq!(
        surviving_endpoints(&vec![false, false]).unwrap_err(),
        PoolError::NoEndpoints
    );
    assert_eq!(surviving_endpoints(&vec![]).unwrap_err(), PoolError::NoEndpoints);
}
