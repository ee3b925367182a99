use rustev::cli::args::{parse, uint, Invocation};
use rustev::cli::code;
use rustev::cli::exit::{start, usage_exit, Exit, Start, HELP};

fn run(args: &[&str]) -> Exit {
    let argv: Vec<String> = args.iter().map(|a| a.to_string()).collect();
    match start(&argv) {
        Start::Exit(e) => e,
        Start::Command(p) => panic!("{args:?} was admitted as {}", p.name()),
    }
}

fn usage(args: &[&str], needle: &str) {
    let e = run(args);
    assert_eq!(e.code, 2, "{args:?}: {}", String::from_utf8_lossy(&e.stdout));
    assert!(e.stdout.is_empty(), "{args:?}");
    assert!(e.stderr.contains(needle), "{args:?}: {}", e.stderr);
}

#[test]
fn usage_errors_are_found_before_any_file_is_read() {
    usage(&[], "no command");
    usage(&["frobnicate"], "unknown command");
    usage(&["plan"], "unknown command");
    usage(&["plan", "check"], "--definition is required");
    usage(&["plan", "check", "--definition"], "needs a value");
    usage(&["plan", "check", "--definition", "a", "--definition", "b"], "once");
    usage(&["plan", "check", "--definition", "a", "--out", "b"], "takes no flag --out");
    usage(&["plan", "check", "--definition", "a", "stray"], "unexpected argument");
    usage(&["plan", "check", "-d", "a"], "unexpected argument");
    usage(&["plan", "compile", "--definition", "a"], "--out is required");
    usage(&["gate", "--baseline", "a", "--candidate", "b"], "--gate is required");
    // The next flag is never taken as a missing value.
    usage(&["plan", "check", "--definition", "--rules", "r"], "--definition needs a value");
}

#[test]
fn help_is_only_where_a_flag_name_is_expected() {
    // As a value, `--help` is refused as a missing value, never help.
    usage(&["plan", "compile", "--definition", "d", "--out", "--help"], "--out needs a value");
    for args in [&["plan", "--help"][..], &["--help"][..], &["run", "--help"][..]] {
        assert_eq!(run(args).code, 0, "{args:?}");
    }
}

#[test]
fn integers_are_unsigned_decimal_without_leading_zeros() {
    assert_eq!(uint("0"), Some(0));
    assert_eq!(uint("18446744073709551615"), Some(u64::MAX));
    for bad in ["", "-1", "+1", "01", "1.0", "1e3", " 1", "18446744073709551616", "0x10"] {
        assert_eq!(uint(bad), None, "{bad:?}");
    }
}

#[test]
fn help_prints_usage_and_exits_zero() {
    for args in [&["help"][..], &["plan", "check", "--help"][..]] {
        let e = run(args);
        assert_eq!(e.code, 0);
        assert!(String::from_utf8_lossy(&e.stdout).contains("rustev plan check"));
    }
}

#[test]
fn usage_is_reported_with_the_program_name() {
    let e = run(&["plan", "check", "--definition", "a", "--definition", "b"]);
    assert_eq!(e.code, code::USAGE);
    assert!(e.stdout.is_empty());
    assert_eq!(e.stderr, "rustev: --definition may be given once\n");
    let u = match parse(&["frob".to_string()]) {
        Err(u) => u,
        Ok(_) => panic!("frob is no command"),
    };
    assert_eq!(u.0, "unknown command \"frob\"");
    assert_eq!(usage_exit(u).stderr, "rustev: unknown command \"frob\"\n");
    assert_eq!(run(&["help"]).stdout, HELP.as_bytes());
}

#[test]
fn a_command_keeps_its_values_in_the_order_given() {
    let argv: Vec<String> = ["run", "--plan", "p", "--rules", "a", "--rules", "b", "--snapshot", "s",
        "--evaluation-time", "1", "--decision-id", "d", "--record-out", "r"]
        .iter()
        .map(|a| a.to_string())
        .collect();
    let p = match parse(&argv) {
        Ok(Invocation::Command(p)) => p,
        _ => panic!("run is admitted"),
    };
    assert_eq!(p.name(), "run");
    assert_eq!(p.many("rules"), vec!["a".to_string(), "b".to_string()]);
    assert_eq!(p.one("plan"), Some("p"));
    assert_eq!(p.one("store"), None);
    assert_eq!(p.req("store"), "");
    assert!(p.has("snapshot") && !p.has("scope"));
    assert_eq!(p.uint("evaluation-time", 0, 10), Ok(Some(1)));
    assert_eq!(p.uint("deadline-ms", 1, 10), Ok(None));
    assert_eq!(
        p.uint("evaluation-time", 2, 10).unwrap_err().0,
        "--evaluation-time takes an unsigned decimal integer in 2..=10, not \"1\""
    );
    assert_eq!(p.forbid(&["scope", "plan"], "is not wanted").unwrap_err().0, "--plan is not wanted");
    assert!(p.forbid(&["scope"], "is not wanted").is_ok());
    assert_eq!(p.need(&["plan", "store"], "here").unwrap_err().0, "--store is required here");
    let two = ["plan", "show", "--plan", "x"].iter().map(|a| a.to_string()).collect::<Vec<_>>();
    match parse(&two) {
        Ok(Invocation::Command(p)) => assert_eq!(p.name(), "plan show"),
        _ => panic!("plan show is admitted"),
    }
}
