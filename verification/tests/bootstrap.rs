use memospot::config::default_document;
use memospot::config::parse_config;
use memospot::config::serialize_config;
use memospot::config::ConfigDocument;
use memospot::envmap::make_env_key;
use memospot::memos::get_cwd;
use memospot::memos::get_cwd_candidates;
use memospot::memos::prepare_env;
use memospot::memos::select_mode;
use memospot::memos::server_binary_name;
use memospot::memos::RuntimeConfig;
use memospot::memos::RuntimePaths;
use memospot::port::allocate;
use memospot::port::effective_preferred;
use memospot::port::reconcile_port;
use memospot::port::select_port;
use memospot::workdir::absolutize;
use memospot::workdir::dedup_paths;
use memospot::workdir::expand_home;
use memospot::workdir::strip_verbatim;
use memospot::workdir::trim;
use memospot::writable::choose_probe_name;
use memospot::writable::dir_attempt_ok;
use memospot::writable::probe_name;
use memospot::writable::retry_step;
use memospot::writable::ProbeOutcome;
use memospot::writable::RetryStep;

fn paths(data: &str) -> RuntimePaths {
    RuntimePaths {
        memos_bin: format!("{}/memos", data),
        memospot_resources: "/usr/lib/app/resources".to_string(),
        memospot_data: data.to_string(),
        memospot_cwd: "/cwd".to_string(),
        memos_data: data.to_string(),
    }
}

fn rtcfg(doc: ConfigDocument, data: &str) -> RuntimeConfig {
    RuntimeConfig { paths: paths(data), yaml: doc }
}

#[test]
fn retry_policy_steps() {
    assert_eq!(retry_step(0, true), RetryStep::Accept);
    assert_eq!(retry_step(3, false), RetryStep::RetryAfter(100));
    assert_eq!(retry_step(8, false), RetryStep::RetryAfter(100));
    assert_eq!(retry_step(9, false), RetryStep::GiveUp);
}

fn run_retry(outcomes: &[bool]) -> bool {
    let mut attempts: usize = 0;
    for &success in outcomes {
        match retry_step(attempts, success) {
            RetryStep::Accept => return true,
            RetryStep::RetryAfter(_) => attempts += 1,
            RetryStep::GiveUp => return false,
        }
    }
    false
}

#[test]
fn permission_denied_then_restored() {
    // denied on every attempt: unwritable after the retries are exhausted
    assert!(!run_retry(&[false; 12]));
    // permission restored between attempts: writable
    assert!(run_retry(&[false, false, true]));
    // a success past the attempt budget is never seen
    let mut late = vec![false; 10];
    late.push(true);
    assert!(!run_retry(&late));
}

#[test]
fn dir_attempt_outcomes() {
    assert!(dir_attempt_ok(ProbeOutcome::Created));
    assert!(!dir_attempt_ok(ProbeOutcome::CreateFailed));
    assert!(!dir_attempt_ok(ProbeOutcome::DeleteFailed));
}

#[test]
fn probe_names_in_order() {
    assert_eq!(probe_name(0), "write_test");
    assert_eq!(probe_name(1), "write_test.0");
    assert_eq!(probe_name(100), "write_test.99");
}

#[test]
fn probe_name_avoids_collisions() {
    assert_eq!(choose_probe_name(&vec![]).as_deref(), Some("write_test"));
    let taken = vec!["write_test".to_string()];
    assert_eq!(choose_probe_name(&taken).as_deref(), Some("write_test.0"));
    let taken = vec!["write_test".to_string(), "write_test.0".to_string()];
    assert_eq!(choose_probe_name(&taken).as_deref(), Some("write_test.1"));
}

#[test]
fn probe_name_exhaustion() {
    let mut taken = vec!["write_test".to_string()];
    for i in 0..100 {
        taken.push(format!("write_test.{}", i));
    }
    assert_eq!(choose_probe_name(&taken), None);
    taken.remove(50);
    assert_eq!(choose_probe_name(&taken).as_deref(), Some("write_test.49"));
}

#[test]
fn env_key_normalization() {
    assert_eq!(make_env_key("port"), "MEMOS_PORT");
    assert_eq!(make_env_key("MEMOS_MODE"), "MEMOS_MODE");
    assert_eq!(make_env_key("mEmOs_x"), "MEMOS_X");
    assert_eq!(make_env_key(""), "MEMOS_");
}

#[test]
fn managed_variables_win() {
    let mut doc = default_document();
    doc.port = 8080;
    doc.telemetry = true;
    doc.env = vec![
        ("PORT".to_string(), "9999".to_string()),
        ("extra".to_string(), "1".to_string()),
    ];
    let cfg = rtcfg(doc, "/data");
    let env = prepare_env(&cfg);
    assert_eq!(env.get("MEMOS_PORT").unwrap(), "8080");
    assert_eq!(env.get("MEMOS_MODE").unwrap(), "prod");
    assert_eq!(env.get("MEMOS_ADDR").unwrap(), "127.0.0.1");
    assert_eq!(env.get("MEMOS_DATA").unwrap(), "/data");
    // pinned off even though telemetry was requested
    assert_eq!(env.get("MEMOS_METRIC").unwrap(), "false");
    assert_eq!(env.get("MEMOS_EXTRA").unwrap(), "1");
    assert_eq!(env.get("MEMOS_MISSING"), None);
}

#[test]
fn prepare_env_is_deterministic() {
    let mut doc = default_document();
    doc.env = vec![("a".to_string(), "1".to_string()), ("b".to_string(), "2".to_string())];
    let cfg = rtcfg(doc, "/data");
    let first = prepare_env(&cfg);
    let second = prepare_env(&cfg);
    assert_eq!(first.entries(), second.entries());
}

#[test]
fn path_helpers() {
    assert_eq!(trim("  x y\t"), "x y");
    assert_eq!(expand_home("~/dist", "/home/u"), "/home/u/dist");
    assert_eq!(expand_home("~", "/home/u"), "/home/u");
    assert_eq!(expand_home("plain", "/home/u"), "plain");
    assert_eq!(absolutize("rel", "/cwd"), "/cwd/rel");
    assert_eq!(absolutize("/abs", "/cwd"), "/abs");
    assert_eq!(strip_verbatim("\\\\?\\C:\\app"), "C:\\app");
    assert_eq!(strip_verbatim("/plain"), "/plain");
}

#[test]
fn dedup_keeps_first_occurrence() {
    let input = vec![
        "a".to_string(),
        "b".to_string(),
        "a".to_string(),
        "c".to_string(),
        "b".to_string(),
    ];
    let out = dedup_paths(&input);
    assert_eq!(out, vec!["a".to_string(), "b".to_string(), "c".to_string()]);
}

#[test]
fn candidates_user_dir_first_and_deduplicated() {
    let mut doc = default_document();
    doc.working_dir = Some(" /data ".to_string());
    let cfg = rtcfg(doc, "/data");
    let cands = get_cwd_candidates(&cfg, "/home/u");
    // the user candidate equals the data directory: kept once, in front
    assert_eq!(
        cands,
        vec![
            "/data".to_string(),
            "/usr/lib/app/resources".to_string(),
            "/cwd".to_string(),
        ]
    );
}

#[test]
fn user_directory_wins_even_when_others_qualify() {
    let cfg = rtcfg(default_document(), "/data");
    let cands = vec!["/user".to_string(), "/res".to_string(), "/data".to_string()];
    let marks = vec![true, true, true];
    assert_eq!(get_cwd(&cfg, &cands, &marks), "/user");
}

#[test]
fn resolution_skips_empty_and_falls_back() {
    let cfg = rtcfg(default_document(), "/data");
    let cands = vec!["".to_string(), "/second".to_string()];
    assert_eq!(get_cwd(&cfg, &cands, &vec![true, true]), "/second");
    assert_eq!(get_cwd(&cfg, &cands, &vec![true, false]), "/data");
    assert_eq!(get_cwd(&cfg, &vec![], &vec![]), "/data");
}

#[test]
fn port_selection_takes_next_free() {
    assert_eq!(select_port(8080, &vec![false, true]), Some(8081));
    assert_eq!(select_port(8080, &vec![true]), Some(8080));
    assert_eq!(select_port(8080, &vec![false, false]), None);
    assert_eq!(select_port(65535, &vec![false, true]), None);
}

#[test]
fn preferred_port_shift_in_dev_mode() {
    assert_eq!(effective_preferred(8080, true), 8081);
    assert_eq!(effective_preferred(8080, false), 8080);
    assert_eq!(effective_preferred(0, true), 0);
    assert_eq!(effective_preferred(65535, true), 65535);
}

#[test]
fn allocator_verdict_matches_recorded_probes() {
    // the verdict the launcher acts on is the first-free selection over
    // the probe outcomes the allocator recorded
    let (verdict, probes) = allocate(35001);
    assert_eq!(select_port(35001, &probes), verdict);
    if let Some(p) = verdict {
        assert!(p >= 35001);
        assert!(p as u32 <= 35001 + 100);
    } else {
        assert_eq!(probes.len(), 101);
    }
}

#[test]
fn busy_preferred_port_flows_into_environment() {
    // preferred port busy, next one free: the next port is selected,
    // written back, and handed to the child as MEMOS_PORT
    let selected = select_port(5230, &vec![false, true]).unwrap();
    assert_eq!(selected, 5231);
    let (doc, must_save) = reconcile_port(&default_document(), selected);
    assert!(must_save);
    let cfg = rtcfg(doc, "/data");
    let env = prepare_env(&cfg);
    assert_eq!(env.get("MEMOS_PORT").unwrap(), "5231");
}

#[test]
fn platform_binary_name_and_mode() {
    assert_eq!(server_binary_name(true), "memos.exe");
    assert_eq!(server_binary_name(false), "memos");
    assert_eq!(select_mode("prod", true), "demo");
    assert_eq!(select_mode("prod", false), "prod");
}

#[test]
fn allocated_port_is_written_back() {
    let doc = default_document();
    let (updated, must_save) = reconcile_port(&doc, 4321);
    assert_eq!(updated.port, 4321);
    assert!(must_save);
    let (same, must_save_again) = reconcile_port(&updated, 4321);
    assert_eq!(same.port, 4321);
    assert!(!must_save_again);
}

#[test]
fn empty_data_dir_bootstrap_scenario() {
    // empty data directory: reset writes the default document, which loads
    let reset_text = serialize_config(&default_document());
    let doc = parse_config(&reset_text).expect("default document must load");
    assert_eq!(doc.port, 0);

    // writability check on the fresh directory picks the plain probe name
    assert_eq!(choose_probe_name(&vec![]).as_deref(), Some("write_test"));

    // port 0 resolves to some free port in the unprivileged range
    let (allocated, _probes) = allocate(effective_preferred(doc.port, false));
    let port = allocated.expect("a free port must exist");
    assert!(port >= 1024);

    // the allocation differs from the persisted 0 and is written back
    let (doc, must_save) = reconcile_port(&doc, port);
    assert!(must_save);
    let saved = serialize_config(&doc);
    let doc = parse_config(&saved).expect("saved document must load");
    assert_eq!(doc.port, port);

    // the environment handed to the spawner carries the managed variables
    let cfg = rtcfg(doc, "/data");
    let env = prepare_env(&cfg);
    assert_eq!(env.get("MEMOS_MODE").unwrap(), "prod");
    assert_eq!(env.get("MEMOS_PORT").unwrap(), &port.to_string());
    assert_eq!(env.get("MEMOS_ADDR").unwrap(), "127.0.0.1");
    assert_eq!(env.get("MEMOS_DATA").unwrap(), "/data");

    // and the working directory resolves to the data directory fallback
    let cands = get_cwd_candidates(&cfg, "/home/u");
    let marks = vec![false; cands.len()];
    assert_eq!(get_cwd(&cfg, &cands, &marks), "/data");
}
