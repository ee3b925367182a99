use rustev::cli::eval::{check_case_ids, split};
use rustev::eval_report::Split;
use rustev::cli::args::{parse, Invocation, Parsed};
use rustev::cli::deps::check_counts;
use rustev::cli::host::{now_at, scope, timestamp};
use rustev::cli::io::{IoFail, Reads, MAX_TOTAL_BYTES};
use rustev::cli::sink::FileSink;
use rustev::cli::store::{is_reference, Store};
use rustev::cli::settings::{settings_at, Retain, MAX_CAPTURE_BYTES};
use rustev::retention::{DEFAULT_METADATA_LIFETIME_MS, MAX_BUNDLE_LIFETIME_MS};

fn parsed(args: &[&str]) -> Parsed {
    let argv: Vec<String> = args.iter().map(|a| a.to_string()).collect();
    match parse(&argv) {
        Ok(Invocation::Command(p)) => p,
        Ok(Invocation::Help) => panic!("{args:?} is help"),
        Err(u) => panic!("{args:?}: {}", u.0),
    }
}

fn run_args(extra: &[&str]) -> Parsed {
    let mut v = vec![
        "run", "--plan", "p", "--rules", "r", "--snapshot", "s", "--evaluation-time", "1000",
        "--decision-id", "d-1", "--record-out", "o",
    ];
    v.extend_from_slice(extra);
    parsed(&v)
}

#[test]
fn lifetime_defaults_to_seven_days_within_a_cap() {
    const DAY_MS: u64 = 24 * 60 * 60 * 1000;
    assert_eq!(DEFAULT_METADATA_LIFETIME_MS, 7 * DAY_MS);
    assert_eq!(MAX_BUNDLE_LIFETIME_MS, 30 * DAY_MS);
}

#[test]
fn the_aggregate_budget_admits_exactly_its_cap() {
    let mut r = Reads::with_cap(20);
    assert_eq!(r.take_limit(100), 21);
    assert!(r.charge("a", 10).is_ok());
    assert_eq!(r.remaining(), 10);
    assert!(r.charge("b", 10).is_ok());
    assert_eq!(r.remaining(), 0);
    let e = r.charge("c", 1).unwrap_err();
    assert_eq!(e.path, "c");
    assert_eq!(e.detail, "the command's read budget of 20 bytes is exhausted");
    assert_eq!(r.remaining(), 0);
    assert_eq!(Reads::default().remaining(), MAX_TOTAL_BYTES);
    assert_eq!(Reads::with_cap(usize::MAX).take_limit(7), 7);
}

#[test]
fn too_many_files_are_refused_before_any_read() {
    let mut v: Vec<String> = [
        "run", "--plan", "p", "--snapshot", "s", "--evaluation-time", "1", "--decision-id", "d",
        "--record-out", "o",
    ]
    .iter()
    .map(|a| a.to_string())
    .collect();
    for _ in 0..65 {
        v.push("--rules".into());
        v.push("absent.rules.json".into());
    }
    let p = match parse(&v) {
        Ok(Invocation::Command(p)) => p,
        _ => panic!("parsed"),
    };
    let e = check_counts(&p).unwrap_err();
    assert_eq!(e.path, "--rules");
    assert_eq!(e.detail, "65 files given; at most 64 are read");
    assert!(check_counts(&run_args(&[])).is_ok());
}

#[test]
fn the_scope_flags_choose_a_mode() {
    let p = run_args(&["--tenant", "t", "--context-revision", "r", "--principal-scope", "s"]);
    assert_eq!(scope(&p).unwrap().mode(), "principal");
    let p = run_args(&["--tenant", "t", "--context-revision", "r"]);
    assert!(scope(&p).unwrap_err().0.contains("--principal-scope is required"));
    let p = run_args(&["--scope", "tenant-only", "--tenant", "t", "--context-revision", "r"]);
    assert_eq!(scope(&p).unwrap().mode(), "tenant_only");
    let p = run_args(&[
        "--scope", "tenant-only", "--tenant", "t", "--context-revision", "r", "--principal-scope", "s",
    ]);
    assert_eq!(scope(&p).unwrap_err().0, "--principal-scope is not part of a tenant-only scope");
    let p = run_args(&["--scope", "both", "--tenant", "t", "--context-revision", "r"]);
    assert_eq!(scope(&p).unwrap_err().0, "--scope is `principal` or `tenant-only`, not \"both\"");
    let long = "x".repeat(257);
    let p = run_args(&["--tenant", &long, "--context-revision", "r"]);
    assert_eq!(scope(&p).unwrap_err().0, "--tenant: a scope handle is 1 to 256 bytes, not 257");
    let p = run_args(&["--context-revision", "r"]);
    assert_eq!(scope(&p).unwrap_err().0, "--tenant is required");
}

#[test]
fn time_flags_are_milliseconds_in_range() {
    let p = run_args(&["--now-ms", "system"]);
    assert_eq!(now_at(&p, Some(5)).unwrap().as_ms(), 5);
    assert_eq!(now_at(&p, None).unwrap_err().0, "the system clock is before the Unix epoch");
    let p = run_args(&["--now-ms", "soon"]);
    assert_eq!(now_at(&p, None).unwrap_err().0, "--now-ms takes milliseconds or `system`, not \"soon\"");
    let p = run_args(&["--now-ms", "999999999999999999"]);
    assert_eq!(now_at(&p, None).unwrap_err().0, "--now-ms 999999999999999999 is out of range");
    let p = run_args(&[]);
    assert_eq!(timestamp(&p, "evaluation-time").unwrap().as_ms(), 1000);
    let p = run_args(&["--deadline-ms", "01"]);
    assert_eq!(
        timestamp(&p, "deadline-ms").unwrap_err().0,
        "--deadline-ms takes milliseconds in the contract's range, not \"01\""
    );
}

#[test]
fn run_settings_are_checked_before_admission() {
    let s = settings_at(&run_args(&[]), None).unwrap();
    assert_eq!(s.decision_id, "d-1");
    assert_eq!(s.record_out, "o");
    assert_eq!(s.evaluation_time.as_ms(), 1000);
    assert_eq!(s.max_parallel, 4);
    assert_eq!(s.sink_timeout_ms, 5_000);
    assert_eq!(s.deadline_ms, None);
    assert!(s.capture.is_none());
    let e = settings_at(&run_args(&["--bundle-out", "b.json"]), None).unwrap_err();
    assert_eq!(e.0, "--bundle-out applies only with --capture-bytes");
    let too_big = (MAX_CAPTURE_BYTES + 1).to_string();
    let e = settings_at(&run_args(&["--capture-bytes", &too_big]), None).unwrap_err();
    assert!(e.0.contains("--capture-bytes takes an unsigned decimal integer in 1..=16777216"));
    let e = settings_at(&run_args(&["--capture-bytes", "1024", "--tenant", "t"]), None).unwrap_err();
    assert_eq!(e.0, "--bundle-out is required with --capture-bytes");
    let scope = ["--tenant", "t", "--context-revision", "r", "--principal-scope", "s"];
    let mut base = vec!["--capture-bytes", "1024", "--bundle-out", "b.json", "--now-ms", "1800000000000"];
    base.extend_from_slice(&scope);
    let s = settings_at(&run_args(&base), None).unwrap();
    let c = s.capture.unwrap();
    assert_eq!(c.retain, Retain::DigestOnly);
    assert_eq!(c.lifetime_ms, DEFAULT_METADATA_LIFETIME_MS);
    assert_eq!(c.now.as_ms(), 1_800_000_000_000);
    let mut ext = base.clone();
    ext.extend_from_slice(&["--retain", "external"]);
    assert_eq!(settings_at(&run_args(&ext), None).unwrap_err().0, "--store is required with --retain external");
    ext.extend_from_slice(&["--store", "dir"]);
    let c = settings_at(&run_args(&ext), None).unwrap().capture.unwrap();
    assert_eq!(c.retain, Retain::External { store: "dir".into() });
    let mut st = base.clone();
    st.extend_from_slice(&["--store", "dir"]);
    assert_eq!(settings_at(&run_args(&st), None).unwrap_err().0, "--store applies only with --retain external");
    let mut cap = base.clone();
    cap.extend_from_slice(&["--host-cap-ms", "1000"]);
    assert_eq!(
        settings_at(&run_args(&cap), None).unwrap_err().0,
        "the lifetime of 604800000 ms exceeds the host cap of 1000 ms; give --lifetime-ms explicitly"
    );
    let mut late = vec!["--capture-bytes", "1024", "--bundle-out", "b.json", "--now-ms", "253402300799999"];
    late.extend_from_slice(&scope);
    assert_eq!(
        settings_at(&run_args(&late), None).unwrap_err().0,
        "--now-ms plus the lifetime is past the last timestamp"
    );
    let e = settings_at(&run_args(&["--max-parallel-requests", "65"]), None).unwrap_err();
    assert!(e.0.starts_with("--max-parallel-requests takes"));
    let long = "d".repeat(257);
    let p = parsed(&[
        "run", "--plan", "p", "--rules", "r", "--snapshot", "s", "--evaluation-time", "1",
        "--decision-id", &long, "--record-out", "o",
    ]);
    assert_eq!(settings_at(&p, None).unwrap_err().0, "--decision-id is 1 to 256 bytes");
}

#[test]
fn the_split_flag_names_one_of_four_splits() {
    let p = parsed(&[
        "eval", "--dataset", "d", "--split", "final_test", "--config", "c", "--adapter", "a",
        "--bundles", "b", "--now-ms", "1", "--out", "o", "--tenant", "t", "--context-revision", "r",
    ]);
    assert_eq!(split(&p), Ok(Split::FinalTest));
    let p = parsed(&[
        "eval", "--dataset", "d", "--split", "test", "--config", "c", "--adapter", "a",
        "--bundles", "b", "--now-ms", "1", "--out", "o", "--tenant", "t", "--context-revision", "r",
    ]);
    assert_eq!(
        split(&p).unwrap_err().0,
        "--split is training, model_selection, calibration or final_test, not \"test\""
    );
}

fn ids(v: &[&str]) -> Vec<String> {
    v.iter().map(|s| s.to_string()).collect()
}

#[test]
fn case_ids_name_bundle_files() {
    assert_eq!(check_case_ids(&ids(&["a", "B.2", "c_d-e"])), Ok(()));
    assert_eq!(check_case_ids(&ids(&[])), Ok(()));
    assert_eq!(
        check_case_ids(&ids(&["ok", "-lead"])),
        Err("case id \"-lead\" is not a bundle file name".to_string())
    );
    assert_eq!(
        check_case_ids(&ids(&["a/b"])),
        Err("case id \"a/b\" is not a bundle file name".to_string())
    );
    assert_eq!(
        check_case_ids(&ids(&[""])),
        Err("case id \"\" is not a bundle file name".to_string())
    );
    let long = "x".repeat(129);
    assert!(check_case_ids(&vec![long]).is_err());
    assert_eq!(check_case_ids(&vec!["x".repeat(128)]), Ok(()));
}

#[test]
fn case_ids_that_differ_only_by_case_are_refused() {
    assert_eq!(
        check_case_ids(&ids(&["Case1", "other", "cASE1"])),
        Err("case id \"cASE1\" differs from another only by case".to_string())
    );
    assert_eq!(
        check_case_ids(&ids(&["same", "same"])),
        Err("case id \"same\" differs from another only by case".to_string())
    );
}

#[test]
fn the_store_resolves_only_hex_sha256_names() {
    let r = Store::reference_for(b"hello");
    assert_eq!(r, "2cf24dba5fb0a30e26e83b2ac5b9e29e1b161e5c1fa7425e73043362938b9824");
    assert!(is_reference(&r));
    assert!(!is_reference(&r[..63]));
    assert!(!is_reference(&r.to_uppercase()));
    assert!(!is_reference("../etc/passwd"));
    let mut dotted = r.clone();
    dotted.replace_range(0..1, ".");
    assert!(!is_reference(&dotted));
}

#[test]
fn a_sink_acknowledges_only_the_same_bytes() {
    let sink = FileSink { path: "out/record.json".into() };
    let fail = || IoFail { path: "out/record.json".into(), detail: "already exists".into() };
    assert_eq!(sink.settle(b"{}", "sha256:ab", Ok(()), None), Ok("file:sha256:ab".to_string()));
    assert_eq!(
        sink.settle(b"{}", "sha256:ab", Err(fail()), Some(b"{}".to_vec())),
        Ok("file:sha256:ab".to_string())
    );
    assert_eq!(
        sink.settle(b"{}", "sha256:ab", Err(fail()), Some(b"{ }".to_vec())),
        Err("out/record.json: already exists".to_string())
    );
    assert_eq!(
        sink.settle(b"{}", "sha256:ab", Err(fail()), None),
        Err("out/record.json: already exists".to_string())
    );
}
