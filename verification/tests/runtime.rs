use ds_verify::digest::digest_bytes;
use ds_verify::runtime::{
    begin_trace, evidence_marker, seatbelt_literal, shell_quote, tool_event, trace_contains,
    verifier_environment, Platform, TraceRegistry, VerifierSandbox,
};

#[test]
fn shell_quote_neutralizes_metacharacters() {
    assert_eq!(shell_quote("a'b;$HOME"), "'a'\\''b;$HOME'");
}

#[test]
fn traces_are_one_shot_and_reject_duplicate_registration() {
    let id = ds_verify::manifest::new_round_id();
    let mut registry = TraceRegistry::new();
    let guard = begin_trace(&mut registry, &id).unwrap();
    assert!(begin_trace(&mut registry, &id).is_err());
    assert!(guard.finish(&mut registry).unwrap().is_empty());
    let second = begin_trace(&mut registry, &id).unwrap();
    second.release(&mut registry);
    assert!(begin_trace(&mut registry, &id).is_ok());
}

#[test]
fn events_are_recorded_under_their_critic() {
    let mut registry = TraceRegistry::new();
    let a = begin_trace(&mut registry, "a").unwrap();
    let b = begin_trace(&mut registry, "b").unwrap();
    let event = tool_event("e1", "check answer.txt: x = 1", "ok", Some(0), false, false);
    assert!(registry.record("a", event).is_ok());
    let event = tool_event("e2", "c", "", None, false, false);
    assert_eq!(
        registry.record("c", event),
        Err("verification trace was not registered".to_string())
    );
    let trace = a.finish(&mut registry).unwrap();
    assert_eq!(trace.len(), 1);
    assert!(b.finish(&mut registry).unwrap().is_empty());
    let input = digest_bytes(b"check answer.txt: x = 1");
    let output = digest_bytes(b"ok");
    assert!(trace_contains(&trace, "e1", &input, &output, "answer.txt", "x = 1"));
    assert!(!trace_contains(&trace, "e2", &input, &output, "answer.txt", "x = 1"));
    assert!(!trace_contains(&trace, "e1", &output, &output, "answer.txt", "x = 1"));
    assert!(!trace_contains(&trace, "e1", &input, &input, "answer.txt", "x = 1"));
    assert!(!trace_contains(&trace, "e1", &input, &output, "other.txt", "x = 1"));
    assert!(!trace_contains(&trace, "e1", &input, &output, "answer.txt", "y"));
}

#[test]
fn guard_without_a_trace_reports_it() {
    let mut registry = TraceRegistry::new();
    let guard = begin_trace(&mut registry, "a").unwrap();
    let mut other = TraceRegistry::new();
    assert_eq!(
        guard.finish(&mut other).unwrap_err(),
        "verification trace is missing"
    );
}

#[test]
fn run_succeeds_with_exit_code_zero_only() {
    let success = |code, timed_out, signalled| {
        tool_event("e", "c", "o", code, timed_out, signalled).success
    };
    assert!(success(Some(0), false, false));
    assert!(!success(Some(1), false, false));
    assert!(!success(None, false, false));
    assert!(!success(Some(0), true, false));
    assert!(!success(Some(0), false, true));
}

#[test]
fn marker_tells_how_to_cite_a_run() {
    let event = tool_event("e", "in", "out", Some(0), false, false);
    assert_eq!(
        evidence_marker(&event),
        format!(
            "\n[verification-evidence tool_event_id=e exact_input_digest={} observed_output_digest={} success=true]\n",
            digest_bytes(b"in"),
            digest_bytes(b"out")
        )
    );
}

#[test]
fn sandbox_keeps_its_roots_apart() {
    assert!(VerifierSandbox::new("/r", "/r/s", "c").is_err());
    assert!(VerifierSandbox::new("/s/r", "/s", "c").is_err());
    assert!(VerifierSandbox::new("/r", "/r", "c").is_err());
    assert!(VerifierSandbox::new("/r", "/rs", "c").is_ok());
}

#[test]
fn commands_are_confined_to_scratch() {
    let sandbox = VerifierSandbox::new("/r", "/s it", "c").unwrap();
    assert_eq!(
        sandbox
            .sandboxed_command("echo 'x'", "/r/d", Platform::Linux)
            .unwrap(),
        "bwrap --die-with-parent --ro-bind / / --bind '/s it' '/s it' --chdir '/r/d' /bin/sh -lc 'echo '\\''x'\\'''"
    );
    let mac = sandbox
        .sandboxed_command("ls", "/s it", Platform::MacOs)
        .unwrap();
    assert!(mac.starts_with("/usr/bin/sandbox-exec -p '(version 1)\n(allow default)\n"));
    assert!(mac.ends_with("/bin/zsh -f -c 'ls'"));
    assert!(sandbox
        .sandboxed_command("ls", "/r", Platform::Other)
        .unwrap_err()
        .contains("unsupported on this platform"));
    assert!(sandbox
        .sandboxed_command("ls", "/elsewhere", Platform::Linux)
        .unwrap_err()
        .contains("outside its reviewed tree and scratch"));
    assert_eq!(seatbelt_literal("a\"b\\"), "a\\\"b\\\\");
}

#[test]
fn environment_points_into_scratch() {
    let environment = verifier_environment("/s");
    assert!(environment.iter().any(|(name, _)| name == "TMPDIR"));
    assert!(environment
        .iter()
        .filter(|(name, _)| name == "TMPDIR")
        .all(|(_, value)| value.starts_with("/s")));
}
