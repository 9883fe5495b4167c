use oxicode::brain_workspace::{
    alias_with, brain_dir, create_workspace_search_backend, fetch_count, freshness_line,
    home_executable, resolve_executable, root_alias, search_page, BrainSpace, BrainState,
    BrainStep, BrainWorkspaceSearch, DocumentFreshness, DocumentHit, SkippedRoot,
    WorkspaceSearchRegistration,
};
use oxicode::foundation::{
    discover, foundation_present, foundation_root, CredentialSource, FoundationError,
};
use oxicode::settings::{Settings, WorkspaceSearchSettings};
use oxicode::tools::workspace_search::SearchPassage;

#[test]
fn foundation_root_honors_env_override() {
    assert_eq!(foundation_root(Some("/tmp/f"), Some("/home/u")).unwrap(), "/tmp/f");
    assert_eq!(foundation_root(Some("  /tmp/f\n"), None).unwrap(), "/tmp/f");
    assert_eq!(
        foundation_root(Some("   "), Some("/home/u")).unwrap(),
        "/home/u/.oxi/foundation/v1"
    );
    assert_eq!(foundation_root(None, None), None);
}

#[test]
fn foundation_present_detects_layout() {
    assert!(!foundation_present(true, false, false));
    assert!(!foundation_present(true, true, false));
    assert!(!foundation_present(false, true, true));
    assert!(foundation_present(true, true, true));
}

#[test]
fn credential_source_display_roundtrip() {
    assert_eq!(CredentialSource::Environment.to_text(), "environment");
    assert_eq!(CredentialSource::Profile.to_text(), "profile");
    assert_eq!(CredentialSource::Role.to_text(), "role");
    assert_eq!(CredentialSource::CompatibilityImport.to_text(), "compatibility_import");
    assert_eq!(CredentialSource::Unavailable.to_text(), "unavailable");
}

#[test]
fn parts_of_an_installation_are_read_in_order() {
    let all = discover::<u8, u8, u8>("/r".to_string(), Ok(1), Ok(2), Ok(3)).ok().unwrap();
    assert_eq!((all.compatibility, all.profiles, all.packages), (1, 2, 3));
    assert_eq!(all.root, "/r");
    let e = |s: &str| FoundationError::Parse(s.to_string());
    let first = discover::<u8, u8, u8>("/r".to_string(), Err(e("a")), Err(e("b")), Ok(3));
    assert_eq!(first.err().unwrap().to_text(), "foundation parse error: a");
    let second = discover::<u8, u8, u8>("/r".to_string(), Ok(1), Err(e("b")), Err(e("c")));
    assert_eq!(second.err().unwrap().to_text(), "foundation parse error: b");
    let third = discover::<u8, u8, u8>("/r".to_string(), Ok(1), Ok(2), Err(e("c")));
    assert_eq!(third.err().unwrap().to_text(), "foundation parse error: c");
}

#[test]
fn what_is_wrong_is_said_in_a_sentence() {
    let s = |x: &str| x.to_string();
    let cases = vec![
        (FoundationError::UnsupportedSchema(7), "unsupported foundation schema_version 7"),
        (FoundationError::IncompatibleHost(s("x")), "host compatibility check failed: x"),
        (FoundationError::SecretNotAllowed(s("x")), "secret not allowed in foundation file: x"),
        (FoundationError::DuplicateProfileId(s("x")), "duplicate profile id: x"),
        (FoundationError::UnsupportedRequirement(s("x")), "unsupported package requirement: x"),
        (
            FoundationError::DigestMismatch { package: s("p"), expected: s("a"), actual: s("b") },
            "package p digest mismatch: expected a, got b",
        ),
        (
            FoundationError::TargetMismatch { package: s("p"), targets: vec![s("a"), s("\"b")] },
            "package p targets do not include `oxicode`: [\"a\", \"\\\"b\"]",
        ),
        (FoundationError::UnknownProfile(s("x")), "unknown profile id: x"),
        (FoundationError::UnknownRole(s("x")), "no profile matches requested role: x"),
        (FoundationError::AmbiguousRole(s("x")), "multiple profiles match role x"),
        (FoundationError::KeychainUnavailable(s("x")), "keychain unavailable: x"),
        (FoundationError::KeychainLocked(s("x")), "keychain locked: x"),
        (
            FoundationError::KeychainNotFound { service: s("s"), account: s("a") },
            "keychain entry not found for s:a",
        ),
        (FoundationError::BrainUnavailable(s("x")), "brain daemon unavailable: x"),
        (FoundationError::Io(s("x")), "foundation I/O error: x"),
    ];
    for (error, sentence) in cases {
        assert_eq!(error.to_text(), sentence);
    }
}

#[test]
fn alias_is_deterministic_and_name_bearing() {
    let a = root_alias("/tmp/proj-x");
    let b = root_alias("/tmp/proj-x");
    let c = root_alias("/tmp/proj-y");
    assert_eq!(a, b);
    assert_ne!(a, c);
    assert!(a.starts_with("ws-proj-x-"));
    let other = root_alias("/other/proj-x");
    assert!(other.starts_with("ws-proj-x-"));
    assert_ne!(a, other);
    assert!(root_alias("/").starts_with("ws-workspace-"));
}

#[test]
fn aliases_hold_eight_digits() {
    assert_eq!(alias_with(Some("p"), 0x1234_5678_9abc_def0), "ws-p-9abcdef0");
    assert_eq!(alias_with(None, 10), "ws-workspace-0000000a");
}

fn enabled() -> Settings {
    let mut s = Settings::default();
    s.workspace_search.enabled = true;
    s
}

#[test]
fn disabled_settings_yield_no_backend() {
    let root = || Ok("/tmp".to_string());
    let dir = || Some("/home/u/.oxi/brain".to_string());
    let s = Settings::default();
    assert!(create_workspace_search_backend(&s, root(), dir()).is_none());
    let mut s = enabled();
    assert!(create_workspace_search_backend(&s, root(), dir()).is_some());
    s.workspace_search.executable = Some("/bin/ob".to_string());
    s.workspace_search.include_globs = Some(vec!["*.md".to_string()]);
    s.workspace_search.max_file_bytes = Some(77);
    let made = create_workspace_search_backend(&s, root(), dir()).unwrap();
    assert_eq!(made.endpoint_executable.as_deref(), Some("/bin/ob"));
    assert_eq!(made.include_globs, vec!["*.md"]);
    assert_eq!(made.max_file_bytes, Some(77));
    assert_eq!(made.alias, root_alias(&root().unwrap()));
    assert!(create_workspace_search_backend(&s, Err("x".to_string()), dir()).is_none());
    assert!(create_workspace_search_backend(&s, root(), None).is_none());
}

#[test]
fn registration_is_remembered() {
    let mut r = WorkspaceSearchRegistration::new();
    assert!(!r.workspace_search_registered());
    r.mark_workspace_search_registered();
    assert!(r.workspace_search_registered());
}

#[test]
fn where_the_index_is() {
    assert_eq!(resolve_executable(Some("/x"), Some("/y"), None).as_deref(), Some("/x"));
    assert_eq!(resolve_executable(None, Some("/y"), Some("/z")).as_deref(), Some("/y"));
    assert_eq!(resolve_executable(None, None, Some("/z")).as_deref(), Some("/z"));
    assert_eq!(resolve_executable(None, None, None), None);
    assert_eq!(home_executable("/home/u"), "/home/u/.oxi/bin/oxibrain");
    assert_eq!(brain_dir(Some("/b"), Some("/home/u")).as_deref(), Some("/b"));
    assert_eq!(brain_dir(None, Some("/home/u")).as_deref(), Some("/home/u/.oxi/brain"));
    assert_eq!(brain_dir(None, None), None);
}

fn index() -> BrainWorkspaceSearch {
    BrainWorkspaceSearch::new(
        "/w".to_string(),
        Some("/b".to_string()),
        &WorkspaceSearchSettings::default(),
    )
    .unwrap()
}

#[test]
fn an_index_has_its_globs() {
    let i = index();
    assert_eq!(i.include_globs.len(), 19);
    assert_eq!(i.include_globs[0], "**/*.rs");
    assert_eq!(i.exclude_globs.len(), 8);
    assert_eq!(i.space, "dev");
    assert!(i.alias.starts_with("ws-w-"));
    let mut s = WorkspaceSearchSettings::default();
    s.include_globs = Some(vec!["*.md".to_string()]);
    let j = BrainWorkspaceSearch::new("/w".to_string(), Some("/b".to_string()), &s).unwrap();
    assert_eq!(j.include_globs, vec!["*.md"]);
    let err = BrainWorkspaceSearch::new("/w".to_string(), None, &s).err().unwrap();
    assert_eq!(
        err,
        "workspace_search is unavailable: cannot resolve the brain store directory (set OXI_BRAIN_DIR). Use grep for exact search and read to inspect files."
    );
}

#[test]
fn the_index_is_reached_step_by_step() {
    let i = index();
    let mut st = BrainState { connected: false, registered: false, space_ok: false };
    match i.ensure_ready(&st, None) {
        BrainStep::Unavailable { message } => assert_eq!(
            message,
            "workspace_search is unavailable: the oxibrain executable was not found (set workspace_search.executable in settings). Use grep for exact search and read to inspect files."
        ),
        other => panic!("it was expected to be out of reach, not {other:?}"),
    }
    assert!(matches!(i.ensure_ready(&st, Some("/x")), BrainStep::Spawn { executable } if executable == "/x"));
    assert_eq!(
        i.on_spawned(&mut st, Err("no".to_string())).err().unwrap(),
        "workspace_search is unavailable: cannot spawn the oxibrain child (no). Use grep/read."
    );
    i.on_spawned(&mut st, Ok(())).unwrap();
    assert!(matches!(i.ensure_ready(&st, Some("/x")), BrainStep::ListSpaces));
    assert_eq!(
        i.on_spaces(&mut st, Ok(vec![])).err().unwrap(),
        "workspace_search is unavailable: brain space 'dev' does not exist (create it with oxibrain tooling). Use grep/read."
    );
    assert_eq!(
        i.on_spaces(&mut st, Err("down".to_string())).err().unwrap(),
        "workspace_search is unavailable: down. Use grep/read."
    );
    let space = BrainSpace { id: "1".to_string(), name: "dev".to_string() };
    i.on_spaces(&mut st, Ok(vec![space])).unwrap();
    assert!(matches!(i.ensure_ready(&st, Some("/x")), BrainStep::Register));
    assert_eq!(
        i.on_registered(&mut st, Err("e".to_string())).err().unwrap(),
        "workspace_search is unavailable: root registration failed: e. Use grep/read."
    );
    i.on_registered(&mut st, Ok(())).unwrap();
    assert!(matches!(i.ensure_ready(&st, None), BrainStep::Ready));
}

fn hit(root: &str, ordinal: u32) -> DocumentHit {
    DocumentHit {
        root: root.to_string(),
        passage: SearchPassage {
            locator: "a.rs".to_string(),
            ordinal,
            revision: "r".to_string(),
            score: "0.500".to_string(),
            snippet: "s".to_string(),
            modified_at_ms: 0,
        },
    }
}

fn freshness() -> DocumentFreshness {
    DocumentFreshness {
        reconciled_roots: vec!["a".to_string(), "b".to_string()],
        skipped_roots: vec![SkippedRoot { alias: "c".to_string(), reason: "busy".to_string() }],
        dense_coverage: Some("97".to_string()),
    }
}

#[test]
fn only_own_passages_are_taken() {
    let hits = vec![hit("ws", 1), hit("other", 2), hit("ws", 3), hit("ws", 4)];
    let page = search_page(Ok((hits, freshness())), "ws", 2).unwrap();
    let ordinals: Vec<u32> = page.passages.iter().map(|p| p.ordinal).collect();
    assert_eq!(ordinals, vec![1, 3]);
    assert_eq!(
        page.freshness.as_deref(),
        Some("reconciled: a, b; skipped: c (busy); dense coverage: 97%")
    );
    let failed = search_page(Err("down".to_string()), "ws", 2).err().unwrap();
    assert_eq!(failed, "workspace_search failed: down. Use grep/read.");
}

#[test]
fn the_line_on_freshness() {
    let bare = DocumentFreshness {
        reconciled_roots: vec![],
        skipped_roots: vec![],
        dense_coverage: None,
    };
    assert_eq!(freshness_line(&bare), "reconciled: ");
}

#[test]
fn more_is_fetched_than_asked_for() {
    assert_eq!(fetch_count(0), 12);
    assert_eq!(fetch_count(4), 12);
    assert_eq!(fetch_count(5), 15);
    assert_eq!(fetch_count(16), 48);
    assert_eq!(fetch_count(20), 48);
    assert_eq!(fetch_count(usize::MAX), 48);
}
