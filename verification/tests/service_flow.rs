use transcode_server::media::{annotate_format, serialize_formats, AnnotatedFormat, MediaFormat};
use transcode_server::progress::ProgressTracker;
use transcode_server::results::ResultStore;
use transcode_server::service::{ServiceState, SubmitOutcome};
use transcode_server::worker::{
    acquire_advance, acquire_next, acquire_start, check_url_has_path, finalize_task,
    plan_acquisition, split_source_cid, transcoded_file_path, AcquireStep, Location, PartOutcome,
    WorkerConfig,
};

#[test]
fn progress_is_zero_after_format_parsing_and_100_after_the_loop() {
    let mut tracker = ProgressTracker::new();
    // Unknown task: 0.
    assert_eq!(tracker.calculate_overall_progress("t1"), 0);
    // A three-format task reports 0 the moment its formats are parsed.
    tracker.init_formats("t1", 3);
    assert_eq!(tracker.calculate_overall_progress("t1"), 0);
    // Finishing the format loop gates every entry to 100, success and
    // failure alike.
    tracker.mark_all_complete("t1", 3);
    assert_eq!(tracker.calculate_overall_progress("t1"), 100);
    // Another task is untouched throughout.
    assert_eq!(tracker.calculate_overall_progress("t2"), 0);
}

#[test]
fn submit_then_query_reports_in_progress() {
    let mut service = ServiceState::new();
    let outcome = service.submit("s5://abc".to_string(), String::new(), false, false);
    let response = match outcome {
        SubmitOutcome::Queued { response } => response,
        SubmitOutcome::QueueFull { .. } => panic!("an empty queue must accept a task"),
    };
    assert_eq!(response.status_code, 200);
    assert!(!response.task_id.is_empty());
    // A freshly assigned identifier is a hyphenated UUID: 36 characters.
    assert_eq!(response.task_id.len(), 36);
    assert_eq!(response.message, "Transcoding task queued");
    let query = service.get_transcoded(&response.task_id);
    assert_eq!(query.status_code, 200);
    assert_eq!(query.metadata, "Transcoding in progress");
    assert_eq!(query.progress, 0);
}

#[test]
fn submit_passes_the_source_identifier_through() {
    let mut service = ServiceState::new();
    let outcome = service.submit("s5://abc".to_string(), String::new(), false, true);
    assert!(matches!(outcome, SubmitOutcome::Queued { .. }));
    // The acquirer, not the submission surface, splits the identifier.
    let task = &service.queue.items[0];
    assert_eq!(task.source_cid, "s5://abc");
    assert!(!task.is_encrypted);
    assert!(task.is_gpu);
}

#[test]
fn finalize_publishes_results_and_gates_progress() {
    let mut store = ResultStore::new();
    let mut tracker = ProgressTracker::new();
    tracker.init_formats("t1", 2);
    let annotated = vec![annotate_format(
        MediaFormat { id: 1, ext: "mp4".to_string(), dest: None },
        "outcid",
    )];
    finalize_task(&mut store, &mut tracker, "t1", &annotated, 2);
    assert_eq!(
        store.metadata_or_in_progress("t1"),
        "[{\"id\":1,\"ext\":\"mp4\",\"cid\":\"s5://outcid\"}]"
    );
    assert_eq!(tracker.calculate_overall_progress("t1"), 100);
    assert_eq!(store.metadata_or_in_progress("t2"), "Transcoding in progress");
}

#[test]
fn annotate_prefixes_by_destination_network() {
    let ipfs = annotate_format(
        MediaFormat { id: 1, ext: "mp4".to_string(), dest: Some("ipfs".to_string()) },
        "X",
    );
    assert_eq!(ipfs.cid, "ipfs://X");
    let named_other = annotate_format(
        MediaFormat { id: 1, ext: "mp4".to_string(), dest: Some("sia".to_string()) },
        "X",
    );
    assert_eq!(named_other.cid, "s5://X");
    let unnamed = annotate_format(MediaFormat { id: 1, ext: "mp4".to_string(), dest: None }, "X");
    assert_eq!(unnamed.cid, "s5://X");
}

#[test]
fn serializer_writes_the_annotated_list() {
    let formats = vec![
        AnnotatedFormat {
            id: 2,
            ext: "mp4".to_string(),
            dest: Some("ipfs".to_string()),
            cid: "ipfs://A".to_string(),
        },
        AnnotatedFormat {
            id: 30,
            ext: "webm".to_string(),
            dest: None,
            cid: "s5://B".to_string(),
        },
    ];
    assert_eq!(
        serialize_formats(&formats),
        "[{\"id\":2,\"ext\":\"mp4\",\"dest\":\"ipfs\",\"cid\":\"ipfs://A\"},{\"id\":30,\"ext\":\"webm\",\"cid\":\"s5://B\"}]"
    );
    assert_eq!(serialize_formats(&Vec::new()), "[]");
}

#[test]
fn serializer_escapes_quotes_backslashes_and_controls() {
    let formats = vec![AnnotatedFormat {
        id: 0,
        ext: "m\"p\\4\n".to_string(),
        dest: None,
        cid: "c".to_string(),
    }];
    assert_eq!(
        serialize_formats(&formats),
        "[{\"id\":0,\"ext\":\"m\\\"p\\\\4\\u000a\",\"cid\":\"c\"}]"
    );
}

#[test]
fn split_source_takes_scheme_and_bare_cid() {
    let (scheme, bare) = split_source_cid("s5://abcdef").expect("scheme present");
    assert_eq!(scheme, "s5");
    assert_eq!(bare, "abcdef");
    let (scheme, bare) = split_source_cid("ipfs://dir/name.mp4").expect("scheme present");
    assert_eq!(scheme, "ipfs");
    assert_eq!(bare, "name");
    // No scheme separator: the task is abandoned.
    assert_eq!(split_source_cid("abcdef").map(|_| ()), None);
}

fn config() -> WorkerConfig {
    WorkerConfig {
        path_to_file: "/cache/src/".to_string(),
        path_to_transcoded_file: "/cache/out/".to_string(),
        portal_url: "https://portal".to_string(),
        portal_encrypt_url: "https://portal-encrypt".to_string(),
        ipfs_gateway: "https://gw".to_string(),
    }
}

#[test]
fn acquisition_plan_chooses_gateway_by_scheme() {
    let cfg = config();
    let plan = plan_acquisition(&cfg, "ipfs", "abc", false, false);
    assert!(matches!(plan, transcode_server::worker::AcquireAction::FetchPlain { ref url }
        if url == "https://gw/ipfs/abc"));
    let plan = plan_acquisition(&cfg, "s5", "abc", false, false);
    assert!(matches!(plan, transcode_server::worker::AcquireAction::FetchPlain { ref url }
        if url == "https://portal/s5/blob/abc"));
}

#[test]
fn acquisition_plan_skips_when_local_and_abandons_malformed() {
    let cfg = config();
    let plan = plan_acquisition(&cfg, "s5", "abc", true, true);
    assert!(matches!(plan, transcode_server::worker::AcquireAction::AlreadyLocal));
    // An encrypted CID whose payload cannot be decoded abandons the task.
    let plan = plan_acquisition(&cfg, "s5", "u!!!", true, false);
    assert!(matches!(plan, transcode_server::worker::AcquireAction::Abandon));
}

#[test]
fn acquisition_plan_builds_the_locations_url() {
    let cfg = config();
    let payload = vec![9u8; 68];
    let bare = format!("u{}", transcode_server::b64::bytes_to_base64url(&payload));
    let hash = transcode_server::b64::bytes_to_base64url(&payload[3..36]);
    let plan = plan_acquisition(&cfg, "s5", &bare, true, false);
    let expected = format!("https://portal-encrypt/api/locations/{}?types=5,3", hash);
    assert!(matches!(plan, transcode_server::worker::AcquireAction::FetchLocations { ref url }
        if *url == expected));
}

#[test]
fn url_validation_demands_a_path_beyond_the_host() {
    assert!(check_url_has_path("https://host/part1"));
    assert!(!check_url_has_path("https://host"));
    assert!(!check_url_has_path("https://host/"));
    assert!(!check_url_has_path("no-scheme/part"));
}

fn locations(lists: &[&[&str]]) -> Vec<Location> {
    lists
        .iter()
        .map(|parts| Location { parts: parts.iter().map(|p| p.to_string()).collect() })
        .collect()
}

#[test]
fn acquire_protocol_retries_with_backoff_then_falls_back() {
    let locs = locations(&[&["https://a/p1"], &["https://b/p1"]]);
    let mut st = acquire_start();
    // First attempt of the first part: no delay.
    let (s, step) = acquire_next(&locs, st);
    st = s;
    assert!(matches!(step, AcquireStep::Fetch { ref url, delay_ms }
        if url == "https://a/p1" && delay_ms == 0));
    // Three failures earn delays of 500, 1000 and 2000 ms.
    for expected_delay in [500u64, 1000, 2000] {
        st = acquire_advance(st, &PartOutcome::Failed);
        let (s, step) = acquire_next(&locs, st);
        st = s;
        assert!(matches!(step, AcquireStep::Fetch { ref url, delay_ms }
            if url == "https://a/p1" && delay_ms == expected_delay));
    }
    // The fourth failure exhausts the part: the next location starts over,
    // from its first part with no delay and nothing written.
    st = acquire_advance(st, &PartOutcome::Failed);
    let (s, step) = acquire_next(&locs, st);
    st = s;
    assert!(matches!(step, AcquireStep::Fetch { ref url, delay_ms }
        if url == "https://b/p1" && delay_ms == 0));
    assert_eq!(st.location_idx, 1);
    assert_eq!(st.part_idx, 0);
    assert!(!st.wrote_any);
    // Success with bytes completes the single-part location.
    st = acquire_advance(st, &PartOutcome::Fetched { size: 17 });
    let (_, step) = acquire_next(&locs, st);
    assert!(matches!(step, AcquireStep::Done));
}

#[test]
fn acquire_protocol_concatenates_parts_in_order() {
    let locs = locations(&[&["https://a/p1", "https://a/p2"]]);
    let mut st = acquire_start();
    let (s, step) = acquire_next(&locs, st);
    st = s;
    assert!(matches!(step, AcquireStep::Fetch { ref url, .. } if url == "https://a/p1"));
    st = acquire_advance(st, &PartOutcome::Fetched { size: 5 });
    let (s, step) = acquire_next(&locs, st);
    st = s;
    assert!(matches!(step, AcquireStep::Fetch { ref url, .. } if url == "https://a/p2"));
    st = acquire_advance(st, &PartOutcome::Fetched { size: 7 });
    let (_, step) = acquire_next(&locs, st);
    assert!(matches!(step, AcquireStep::Done));
}

#[test]
fn acquire_protocol_treats_empty_downloads_as_failures() {
    let locs = locations(&[&["https://a/p1"]]);
    let mut st = acquire_start();
    let (s, _) = acquire_next(&locs, st);
    st = s;
    st = acquire_advance(st, &PartOutcome::Fetched { size: 0 });
    let (_, step) = acquire_next(&locs, st);
    assert!(matches!(step, AcquireStep::Fetch { delay_ms, .. } if delay_ms == 500));
}

#[test]
fn acquire_protocol_skips_invalid_parts_and_abandons_when_spent() {
    // The first location's only part has no path beyond the host: the
    // protocol falls through to the second location's valid part.
    let locs = locations(&[&["https://bad"], &["https://b/p1"]]);
    let (st, step) = acquire_next(&locs, acquire_start());
    assert!(matches!(step, AcquireStep::Fetch { ref url, delay_ms }
        if url == "https://b/p1" && delay_ms == 0));
    assert_eq!(st.location_idx, 1);
    // Both locations invalid: acquisition fails.
    let locs = locations(&[&["https://bad"], &["https://also-bad"]]);
    let (_, step) = acquire_next(&locs, acquire_start());
    assert!(matches!(step, AcquireStep::Abandon));
    // No locations at all: abandoned outright.
    let (_, step) = acquire_next(&Vec::new(), acquire_start());
    assert!(matches!(step, AcquireStep::Abandon));
}

#[test]
fn acquire_protocol_passes_over_a_location_without_parts() {
    let locs = locations(&[&[], &["https://b/p1"]]);
    let (st, step) = acquire_next(&locs, acquire_start());
    assert!(matches!(step, AcquireStep::Fetch { ref url, .. } if url == "https://b/p1"));
    assert_eq!(st.location_idx, 1);
    // Nothing but part-less locations: no bytes can ever be written.
    let locs = locations(&[&[], &[]]);
    let (_, step) = acquire_next(&locs, acquire_start());
    assert!(matches!(step, AcquireStep::Abandon));
}

#[test]
fn transcoded_output_name_is_source_path_id_and_extension() {
    let cfg = config();
    let name = transcoded_file_path(&cfg, "/cache/src/abc", 7, "mp4");
    assert_eq!(name, "/cache/out//cache/src/abc_7.mp4");
}
