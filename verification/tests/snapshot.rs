use ds_verify::digest::{digest_bytes, normalize_sha256, valid_digest};
use ds_verify::paths::{
    format_changes_path, format_details_path, format_round_details_path,
    format_round_panel_details_path, format_round_verdict_path, format_verdict_path,
    format_verifier_details_path, path_is_within, path_join, unsafe_relative,
    validate_details_path_in_root, validate_relative_path, PathValidationError,
};
use ds_verify::manifest::{
    add_virtual_artifact, check_round_id, manifest_digest, new_round_id, snapshot_manifest_path,
    validate_manifest, ArtifactEntry, ArtifactKind, ArtifactManifest, Found, ManifestBuilder, Next,
    VirtualArtifact, MAX_FILES, MAX_FILE_BYTES, MAX_MANIFEST_BYTES, SNAPSHOT_SCHEMA_VERSION,
};
use ds_verify::scope::{excluded_path, scoped_paths_of_listing, scoped_paths_of_walk};
use ds_verify::snapshot::{
    changed_paths, check_copied_bytes, check_manifest_body, ellipsize, manifest_hint,
    match_entry_diagnostic, reviewed_snapshot, shared_prefix_len, verify_entry,
    verify_reviewed_snapshot, ObservedArtifact, ObservedState,
};

const ROOT: &str = "/tmp/ds-goal-abc";

fn validate_details_path(path: &str) -> Result<(), PathValidationError> {
    validate_details_path_in_root(path, "/tmp")
}

#[test]
fn validate_details_path_in_root_keys_on_injected_temp_root() {
    let mac_like = "/var/folders/zz/T";
    assert!(
        validate_details_path_in_root(
            "/var/folders/zz/T/ds-goal-abc/goal-classifier-abc-1.md",
            mac_like,
        )
        .is_ok(),
        "a path under the (non-/tmp) temp root must be accepted",
    );
    assert_eq!(
        validate_details_path_in_root("/tmp/goal-classifier-abc-1.md", mac_like),
        Err(PathValidationError::OutsideAllowedPrefix),
        "bare /tmp is NOT special-cased — only the temp root is allowed",
    );
    assert!(
        validate_details_path_in_root("/tmp/ds-goal-abc/goal-classifier-abc-1.md", "/tmp").is_ok(),
        "with a /tmp temp root (Linux), scratch-rooted paths are accepted",
    );
    assert_eq!(
        validate_details_path_in_root("/var/log/foo.md", "/tmp"),
        Err(PathValidationError::OutsideAllowedPrefix),
    );
}

#[test]
fn validate_details_path_accepts_scratch_rooted_path() {
    let p = format_details_path(ROOT, "abc012345678", 1);
    assert!(validate_details_path(&p).is_ok());
}

#[test]
fn validate_details_path_rejects_traversal() {
    assert_eq!(
        validate_details_path("/tmp/../etc/passwd"),
        Err(PathValidationError::UnsafeComponent),
    );
}

#[test]
fn validate_details_path_rejects_nul() {
    assert_eq!(
        validate_details_path("/tmp/foo\0bar.md"),
        Err(PathValidationError::UnsafeComponent),
    );
}

#[test]
fn validate_details_path_rejects_unresolved_substitution() {
    assert_eq!(
        validate_details_path("/tmp/${HOME}/file.md"),
        Err(PathValidationError::UnresolvedSubstitution),
    );
    assert_eq!(
        validate_details_path("/tmp/goal-{verifier_id}-1.md"),
        Err(PathValidationError::UnresolvedSubstitution),
    );
}

#[test]
fn validate_details_path_rejects_etc() {
    assert_eq!(
        validate_details_path("/etc/passwd"),
        Err(PathValidationError::UnsafeComponent),
    );
}

#[test]
fn validate_details_path_rejects_home_tilde() {
    assert_eq!(
        validate_details_path("~/notes.md"),
        Err(PathValidationError::UnsafeComponent),
    );
}

#[test]
fn validate_details_path_rejects_outside_tmp() {
    assert_eq!(
        validate_details_path("/var/log/foo.md"),
        Err(PathValidationError::OutsideAllowedPrefix),
    );
}

#[test]
fn format_details_path_substitutes_both_placeholders() {
    let p = format_details_path(ROOT, "abcdef012345", 2);
    assert_eq!(p, format!("{ROOT}/goal-classifier-abcdef012345-2.md"));
    assert!(validate_details_path(&p).is_ok());
}

#[test]
fn verification_rounds_have_distinct_aggregate_details_paths() {
    let first = format_round_panel_details_path(ROOT, "abcdef012345", "round-1");
    let second = format_round_panel_details_path(ROOT, "abcdef012345", "round-2");
    assert_ne!(first, second);
    assert!(validate_details_path(&first).is_ok());
    assert!(validate_details_path(&second).is_ok());
}

#[test]
fn format_verdict_path_substitutes_all_placeholders() {
    let p = format_verdict_path(ROOT, "vid", 2, 0);
    assert_eq!(p, format!("{ROOT}/goal-verdict-vid-2-0.json"));
    assert!(validate_details_path(&p).is_ok());
}

#[test]
fn format_verifier_details_path_substitutes_all_placeholders() {
    let p = format_verifier_details_path(ROOT, "vid", 2, 3);
    assert_eq!(p, format!("{ROOT}/goal-classifier-vid-2-skeptic-3.md"));
    assert!(validate_details_path(&p).is_ok());
}

#[test]
fn format_changes_path_substitutes_placeholders_and_validates() {
    let p = format_changes_path(ROOT, "abcdef012345", 2);
    assert_eq!(p, format!("{ROOT}/goal-classifier-abcdef012345-2.patch"));
    assert!(validate_details_path(&p).is_ok());
}

#[test]
fn critics_of_a_round_have_directories_of_their_own() {
    let verdict = format_round_verdict_path("/s", "r", 2);
    let details = format_round_details_path("/s", "r", 2);
    assert!(verdict.ends_with("/verdict.json"));
    assert!(details.ends_with("/details.md"));
    assert_ne!(verdict, format_round_verdict_path("/s", "r", 3));
}

#[test]
fn files_of_a_fresh_round_are_accepted() {
    let round = new_round_id();
    for path in [
        format_round_panel_details_path(ROOT, "0123abcd", &round),
        format_round_details_path(ROOT, &round, 4),
        format_round_verdict_path(ROOT, &round, 4),
    ] {
        assert!(validate_details_path(&path).is_ok(), "{path}");
    }
    let dotted = format_round_panel_details_path(ROOT, "v", "r.");
    assert_eq!(
        validate_details_path(&dotted),
        Err(PathValidationError::UnsafeComponent)
    );
}

#[test]
fn path_faults_have_messages() {
    assert_eq!(
        PathValidationError::UnsafeComponent.message(),
        "path contains an unsafe component"
    );
    assert_eq!(
        PathValidationError::UnresolvedSubstitution.message(),
        "path contains unresolved substitution"
    );
    assert_eq!(
        PathValidationError::OutsideAllowedPrefix.message(),
        "path is outside the allowed temp root"
    );
}

#[test]
fn paths_are_joined_and_compared_by_components() {
    assert_eq!(path_join("/a", "b"), "/a/b");
    assert_eq!(path_join("/a/", "b"), "/a/b");
    assert_eq!(path_join("/a", "/b"), "/b");
    assert!(path_is_within("/a/b/c", "/a/b"));
    assert!(!path_is_within("/a/bc", "/a/b"));
    assert!(unsafe_relative("/a"));
    assert!(unsafe_relative("a/../b"));
    assert!(!unsafe_relative("a/..b"));
    assert!(validate_relative_path("a/b").is_ok());
    assert_eq!(
        validate_relative_path("../b"),
        Err("unsafe artifact path ../b".to_string())
    );
}

#[test]
fn normalize_sha256_accepts_both_digest_forms() {
    let bare = "0f".repeat(32);
    assert_eq!(
        normalize_sha256(&bare).as_deref(),
        Some(format!("sha256:{bare}").as_str())
    );
    assert_eq!(
        normalize_sha256(&format!("sha256:{bare}")).as_deref(),
        Some(format!("sha256:{bare}").as_str())
    );
    assert_eq!(
        normalize_sha256(&format!("SHA256:{}", bare.to_ascii_uppercase())).as_deref(),
        Some(format!("sha256:{bare}").as_str())
    );
    assert!(normalize_sha256("sha256:beef").is_none(), "short digest");
    assert!(normalize_sha256("").is_none());
    assert!(normalize_sha256(&("md5:".to_string() + &bare)).is_none());
}

#[test]
fn digest_is_sha256_in_lower_case() {
    assert_eq!(
        digest_bytes(b"abc"),
        "sha256:ba7816bf8f01cfea414140de5dae2223b00361a396177a9cb410ff61f20015ad"
    );
    assert!(valid_digest(&digest_bytes(b"")));
    assert!(!valid_digest("sha256:xyz"));
    let once = normalize_sha256(&"AB".repeat(32)).unwrap();
    assert_eq!(normalize_sha256(&once), Some(once));
}

fn file(path: &str, bytes: &[u8]) -> ArtifactEntry {
    ArtifactEntry {
        path: path.to_string(),
        kind: ArtifactKind::File,
        sha256: Some(digest_bytes(bytes)),
        byte_len: bytes.len() as u64,
        executable: false,
        symlink_target: None,
    }
}

fn missing(path: &str) -> ArtifactEntry {
    ArtifactEntry {
        path: path.to_string(),
        kind: ArtifactKind::Missing,
        sha256: None,
        byte_len: 0,
        executable: false,
        symlink_target: None,
    }
}

fn sample_manifest() -> ArtifactManifest {
    ArtifactManifest {
        schema_version: SNAPSHOT_SCHEMA_VERSION,
        scope_policy: "test".to_string(),
        manifest_digest: "sha256:00".repeat(4),
        entries: vec![
            file("sheet.tex", b"sheet v1"),
            file("verification/run.out", b"run out"),
            missing("notes.md"),
        ],
    }
}

#[test]
fn match_entry_diagnostic_distinguishes_failure_modes() {
    let manifest = sample_manifest();
    let recorded = digest_bytes(b"sheet v1");

    let err = match_entry_diagnostic(&manifest, "/tmp/scratch/evidence.out", &recorded).unwrap_err();
    assert!(err.contains("not part of the reviewed manifest"), "{err}");
    assert!(err.contains("nearest manifest paths"), "{err}");
    assert!(err.contains("`sheet.tex`"), "{err}");

    let err = match_entry_diagnostic(&manifest, "notes.md", &recorded).unwrap_err();
    assert!(err.contains("not a regular file"), "{err}");

    let err = match_entry_diagnostic(&manifest, "sheet.tex", "not-a-digest").unwrap_err();
    assert!(err.contains("malformed artifact digest"), "{err}");

    let stale = digest_bytes(b"sheet v2");
    let err = match_entry_diagnostic(&manifest, "sheet.tex", &stale).unwrap_err();
    assert!(err.contains("stale or unknown revision"), "{err}");
    assert!(err.contains("manifest records"), "{err}");

    assert!(match_entry_diagnostic(&manifest, "sheet.tex", &recorded).is_ok());
    assert!(match_entry_diagnostic(
        &manifest,
        "sheet.tex",
        recorded.trim_start_matches("sha256:")
    )
    .is_ok());
}

fn captured(files: &[(&str, &str)]) -> ArtifactManifest {
    let listing: String = files.iter().map(|(path, _)| format!("{path}\0")).collect();
    let mut builder = ManifestBuilder::of_listing(&listing).unwrap();
    while let Some(path) = builder.next() {
        let (_, text) = files.iter().find(|(name, _)| *name == path).unwrap();
        let found = Found::File {
            len: text.len() as u64,
        };
        assert!(matches!(builder.inspect(&found), Ok(Next::Read)));
        builder.record_file(&text.as_bytes().to_vec(), false);
    }
    builder.finish()
}

#[test]
fn manifest_captures_dirty_untracked_missing_and_spaces() {
    let listing = "tracked.txt\0deleted.txt\0input with spaces.tex\0";
    assert_eq!(
        scoped_paths_of_listing(listing).unwrap(),
        vec!["deleted.txt", "input with spaces.tex", "tracked.txt"]
    );
    let mut builder = ManifestBuilder::of_listing(listing).unwrap();
    assert_eq!(builder.next().as_deref(), Some("deleted.txt"));
    assert!(matches!(
        builder.inspect(&Found::Missing),
        Ok(Next::Recorded)
    ));
    for (path, text) in [("input with spaces.tex", "derive x"), ("tracked.txt", "dirty")] {
        assert_eq!(builder.next().as_deref(), Some(path));
        let found = Found::File {
            len: text.len() as u64,
        };
        assert!(matches!(builder.inspect(&found), Ok(Next::Read)));
        builder.record_file(&text.as_bytes().to_vec(), false);
    }
    assert_eq!(builder.next(), None);
    let manifest = builder.finish();
    let map: std::collections::BTreeMap<_, _> = manifest
        .entries
        .iter()
        .map(|entry| (entry.path.as_str(), entry))
        .collect();
    assert_eq!(
        map["tracked.txt"].sha256.as_deref(),
        Some(digest_bytes(b"dirty").as_str())
    );
    assert_eq!(map["deleted.txt"].kind, ArtifactKind::Missing);
    assert!(map.contains_key("input with spaces.tex"));
    assert!(validate_manifest(&manifest).is_ok());
}

fn seen(path: &str, text: &str) -> ObservedArtifact {
    ObservedArtifact {
        path: path.into(),
        state: ObservedState::File {
            bytes: text.as_bytes().to_vec(),
            executable: false,
        },
    }
}

#[test]
fn snapshot_is_content_bound_and_detects_mutation() {
    let with_response = || {
        reviewed_snapshot(
            "/tmp/scratch",
            "0198c0de-0000-7000-8000-000000000001",
            captured(&[("answer.txt", "42")]),
            &vec![VirtualArtifact {
                path: ".ds-verification/final-response.md".to_string(),
                bytes: b"done".to_vec(),
            }],
        )
        .unwrap()
        .manifest
    };
    let manifest = with_response();
    let tree = |answer: &str| {
        vec![
            seen(".ds-verification/final-response.md", "done"),
            seen(&snapshot_manifest_path(), "{}"),
            seen("answer.txt", answer),
        ]
    };
    let there = vec![true; manifest.entries.len()];
    let stored = Ok(with_response());
    verify_reviewed_snapshot(&manifest, &tree("42"), &there, &stored).unwrap();
    assert!(verify_reviewed_snapshot(&manifest, &tree("wrong"), &there, &stored).is_err());
    assert!(
        verify_reviewed_snapshot(&manifest, &tree("42"), &there, &Err("lost".into())).is_err()
    );
    let mut extra = tree("42");
    extra.push(seen("new.txt", "x"));
    assert!(verify_reviewed_snapshot(&manifest, &extra, &there, &stored).is_err());
    let mut short = tree("42");
    short.pop();
    let error = verify_reviewed_snapshot(&manifest, &short, &there, &stored).unwrap_err();
    assert_eq!(error, "reviewed artifact answer.txt is missing");
}

#[test]
fn two_rounds_use_distinct_namespaces() {
    let round = || {
        reviewed_snapshot(
            "/tmp/scratch",
            &new_round_id(),
            captured(&[("a.txt", "a")]),
            &vec![],
        )
        .unwrap()
    };
    let first = round();
    let second = round();
    assert_ne!(first.root, second.root);
    assert!(first.root.starts_with("/tmp/scratch/verification-rounds/"));
    assert!(first.root.ends_with("/review"));
    assert_eq!(
        first.manifest_path,
        format!("{}/{}", first.root, snapshot_manifest_path())
    );
    assert_eq!(
        first.manifest.manifest_digest,
        second.manifest.manifest_digest
    );
    assert!(check_round_id(&new_round_id()).is_ok());
    assert!(check_round_id("round-1").is_err());
    assert_eq!(
        reviewed_snapshot("/tmp/scratch", "round-1", captured(&[]), &vec![])
            .map(|snapshot| snapshot.root),
        Err("verification round id is not a UUID".to_string())
    );
}

#[test]
fn documents_of_a_round_take_no_path_twice() {
    let document = |path: &str| VirtualArtifact {
        path: path.to_string(),
        bytes: b"x".to_vec(),
    };
    let round = |documents: Vec<VirtualArtifact>| {
        reviewed_snapshot(
            "/tmp/scratch",
            "0198c0de-0000-7000-8000-000000000001",
            captured(&[("a.txt", "a")]),
            &documents,
        )
        .map(|snapshot| snapshot.manifest.entries.len())
    };
    assert_eq!(round(vec![document("b.md"), document("0.md")]), Ok(3));
    assert_eq!(
        round(vec![document("a.txt")]),
        Err("duplicate virtual artifact path a.txt".to_string())
    );
    assert_eq!(
        round(vec![document("b.md"), document("b.md")]),
        Err("duplicate virtual artifact path b.md".to_string())
    );
    assert_eq!(
        round(vec![document("../b.md")]),
        Err("unsafe artifact path ../b.md".to_string())
    );
}

#[test]
fn snapshot_preserves_executable_identity() {
    let script = b"#!/bin/sh\nexit 0\n".to_vec();
    let mut builder = ManifestBuilder::of_walk(&vec!["probe.sh".to_string()]).unwrap();
    let found = Found::File {
        len: script.len() as u64,
    };
    assert!(matches!(builder.inspect(&found), Ok(Next::Read)));
    builder.record_file(&script, true);
    let manifest = builder.finish();
    let entry = &manifest.entries[0];
    assert!(entry.executable);
    let copied = |executable| ObservedState::File {
        bytes: script.clone(),
        executable,
    };
    assert!(verify_entry(entry, &copied(true)).is_ok());
    assert!(verify_entry(entry, &copied(false)).is_err());
    assert!(check_copied_bytes(entry, &script).is_ok());
    assert_eq!(
        check_copied_bytes(entry, &vec![]),
        Err("artifact probe.sh changed during snapshot".to_string())
    );
}

#[test]
fn manifest_digest_is_that_of_its_json() {
    let mut manifest = ArtifactManifest {
        schema_version: 1,
        scope_policy: "p\"".into(),
        entries: vec![file("a \\.txt", b"abc")],
        manifest_digest: "ignored".into(),
    };
    let json = "{\"schema_version\":1,\"scope_policy\":\"p\\\"\",\"entries\":[{\"path\":\"a \\\\.txt\",\"kind\":\"file\",\"sha256\":\"sha256:ba7816bf8f01cfea414140de5dae2223b00361a396177a9cb410ff61f20015ad\",\"byte_len\":3,\"executable\":false,\"symlink_target\":null}],\"manifest_digest\":\"\"}";
    assert_eq!(manifest_digest(&manifest), digest_bytes(json.as_bytes()));
    let value: serde_json::Value = serde_json::from_str(json).unwrap();
    assert_eq!(value["entries"][0]["path"], "a \\.txt");
    manifest.manifest_digest = manifest_digest(&manifest);
    assert_eq!(manifest_digest(&manifest), manifest.manifest_digest);
}

#[test]
fn capture_is_bounded_and_stays_inside() {
    let many = |n: usize| (0..n).map(|i| format!("{i:05}\0")).collect::<String>();
    assert_eq!(
        ManifestBuilder::of_listing(&many(MAX_FILES + 1)).map(|builder| builder.next()),
        Err("workspace snapshot exceeds the 20000-file limit".to_string())
    );
    assert!(ManifestBuilder::of_listing(&many(3)).is_ok());
    assert_eq!(
        ManifestBuilder::of_listing("../x\0").map(|builder| builder.next()),
        Err("unsafe artifact path ../x".to_string())
    );
    let mut builder = ManifestBuilder::of_listing("link\0.git/config\0").unwrap();
    assert!(builder
        .inspect(&Found::File { len: MAX_FILE_BYTES + 1 })
        .unwrap_err()
        .contains("exceeds"));
    assert_eq!(
        builder.inspect(&Found::Other),
        Err("scoped artifact link is not a regular file".to_string())
    );
    assert!(builder
        .inspect(&Found::Symlink { target: "/etc/x".into() })
        .unwrap_err()
        .starts_with("absolute symlink link"));
    assert_eq!(
        builder.inspect(&Found::Symlink { target: String::new() }),
        Err("symlink artifact link has invalid metadata".to_string())
    );
    assert!(matches!(
        builder.inspect(&Found::Symlink { target: "t".into() }),
        Ok(Next::Resolve)
    ));
    assert_eq!(
        builder.record_symlink("/etc/x", "/w"),
        Err("symlink link escapes the workspace".to_string())
    );
    builder.record_symlink("/w/t", "/w").unwrap();
    assert_eq!(builder.next(), None);
    let manifest = builder.finish();
    assert_eq!(manifest.entries[0].kind, ArtifactKind::Symlink);
    assert_eq!(manifest.entries[0].symlink_target.as_deref(), Some("t"));
    assert!(verify_entry(
        &manifest.entries[0],
        &ObservedState::Symlink {
            target: Some("t".into())
        }
    )
    .is_ok());
    assert!(verify_entry(
        &manifest.entries[0],
        &ObservedState::Symlink {
            target: Some("u".into())
        }
    )
    .is_err());
}

#[test]
fn tampered_manifest_is_refused() {
    assert!(validate_manifest(&captured(&[("a", "1"), ("b", "2")])).is_ok());
    let mut swapped = captured(&[("a", "1"), ("b", "2")]);
    swapped.entries.swap(0, 1);
    assert!(validate_manifest(&swapped).is_err());
    let mut edited = captured(&[("a", "1")]);
    edited.entries[0].byte_len = 2;
    assert!(validate_manifest(&edited).is_err());
    assert!(check_manifest_body(MAX_MANIFEST_BYTES).is_ok());
    assert!(check_manifest_body(MAX_MANIFEST_BYTES + 1).is_err());
}

#[test]
fn virtual_artifacts_collide_with_nothing() {
    let mut manifest = captured(&[("a", "1")]);
    let artifact = |path: &str| VirtualArtifact {
        path: path.into(),
        bytes: vec![],
    };
    assert!(add_virtual_artifact(&mut manifest, &artifact("a")).is_err());
    assert!(add_virtual_artifact(&mut manifest, &artifact("../a")).is_err());
    assert!(add_virtual_artifact(&mut manifest, &artifact(&snapshot_manifest_path())).is_err());
    assert_eq!(manifest.entries.len(), 1);
    assert!(add_virtual_artifact(&mut manifest, &artifact("b")).is_ok());
}

#[test]
fn changes_are_the_same_both_ways() {
    let before = captured(&[("a", "1"), ("b", "2"), ("c", "3")]);
    let after = captured(&[("a", "1"), ("b", "9"), ("d", "4")]);
    assert_eq!(changed_paths(&before, &after).unwrap(), vec!["b", "c", "d"]);
    assert_eq!(changed_paths(&after, &before).unwrap(), vec!["b", "c", "d"]);
    assert!(changed_paths(&before, &before).unwrap().is_empty());
}

#[test]
fn scope_leaves_out_what_is_excluded() {
    assert!(excluded_path(".git/config"));
    assert!(excluded_path("a/node_modules/x.js"));
    assert!(!excluded_path("src/main.rs"));
    assert_eq!(
        scoped_paths_of_listing("b.rs\0.git/x\0a.rs\0b.rs\0").unwrap(),
        vec!["a.rs", "b.rs"]
    );
    assert!(scoped_paths_of_listing("../x\0").is_err());
    assert_eq!(
        scoped_paths_of_walk(&vec!["z".into(), "a".into(), ".env".into(), "z".into()]).unwrap(),
        vec!["a", "z"]
    );
}

#[test]
fn hints_show_the_nearest_paths() {
    assert_eq!(shared_prefix_len("abcd", "abx"), 2);
    let manifest = sample_manifest();
    assert!(manifest_hint(&manifest, "verification/x")
        .starts_with("; nearest manifest paths: `verification/run.out`"));
    assert_eq!(ellipsize("abcdef", 3), "ab…");
    assert_eq!(ellipsize("abc", 3), "abc");
}
