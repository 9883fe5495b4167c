use oxicode::tools::exact_search;
use oxicode::tools::exact_search::{
    is_artifact_dir, looks_binary, rel_to_root, split_file_lines, truncate_line, Found,
    SearchOutcome, SearchRequest, SearchRun, WalkAction, WalkEntry,
};

type Files = Vec<(String, Vec<u8>)>;

fn ws() -> Files {
    vec![
        (
            "src/lib.rs".to_string(),
            b"fn alpha() {}\nfn beta() {}\nfn gamma() {}\n".to_vec(),
        ),
        ("notes.txt".to_string(), b"alpha here\nplain\n".to_vec()),
    ]
}

fn put(files: &mut Files, rel: &str, content: &str) {
    files.retain(|f| f.0 != rel);
    files.push((rel.to_string(), content.as_bytes().to_vec()));
}

fn req(pattern: &str) -> SearchRequest {
    SearchRequest {
        pattern: pattern.to_string(),
        case_insensitive: false,
        literal: false,
        context: 0,
        include_glob: None,
        max_results: 100,
    }
}

/// What a walk yields that does not descend where the search says to skip.
fn found(files: &Files, cancel: bool) -> Vec<Found> {
    let r = req("alpha");
    let mut asked = SearchRun::begin(&r).unwrap();
    let mut out = Vec::new();
    for (rel, content) in files {
        let parts: Vec<&str> = rel.split('/').collect();
        let mut skipped = false;
        for dir in &parts[..parts.len() - 1] {
            let entry = WalkEntry::Directory { name: Some(dir.to_string()) };
            skipped = asked.visit_entry(false, &entry, &r).unwrap() == WalkAction::Skip;
            out.push(Found { cancel, entry, content: None });
            if skipped {
                break;
            }
        }
        if skipped {
            continue;
        }
        let head = &content[..content.len().min(8192)];
        let entry = WalkEntry::File { rel: rel.clone(), binary: looks_binary(Some(head)) };
        out.push(Found { cancel, entry, content: Some(content.clone()) });
    }
    out
}

fn search(files: &Files, r: &SearchRequest, cancel: bool) -> Result<SearchOutcome, String> {
    exact_search::search(r, &found(files, cancel))
}

fn run(files: &Files, r: &SearchRequest) -> SearchOutcome {
    search(files, r, false).unwrap()
}

#[test]
fn finds_matches_in_multiple_files() {
    let out = run(&ws(), &req("alpha"));
    assert!(out.output.starts_with("Found 2 matches:\n"), "{}", out.output);
    assert!(out.output.contains("src/lib.rs:1: fn alpha() {}"));
    assert!(out.output.contains("notes.txt:1: alpha here"));
    assert!(!out.lines_truncated && !out.cancelled);
}

#[test]
fn blocks_come_in_the_order_of_their_paths() {
    let mut files = ws();
    put(&mut files, "a/z.txt", "alpha z\n");
    put(&mut files, "Z.txt", "alpha Z\n");
    let out = run(&files, &req("alpha"));
    assert_eq!(
        out.output,
        "Found 4 matches:\nZ.txt:1: alpha Z\na/z.txt:1: alpha z\nnotes.txt:1: alpha here\nsrc/lib.rs:1: fn alpha() {}"
    );
}

#[test]
fn no_matches_message() {
    let out = run(&ws(), &req("zzz_not_there"));
    assert_eq!(out.output, "No matches found");
}

#[test]
fn literal_mode_escapes_regex_syntax() {
    let mut files = ws();
    put(&mut files, "src/lib.rs", "fn alpha() {}\na.c\n");
    let mut r = req("a.c");
    r.literal = true;
    let out = run(&files, &r);
    assert!(out.output.contains("src/lib.rs:2: a.c"));
    assert!(!out.output.contains("fn alpha"));
    put(&mut files, "src/lib.rs", "abc\n");
    assert_eq!(run(&files, &r).output, "No matches found");
    r.literal = false;
    assert!(run(&files, &r).output.contains("src/lib.rs:1: abc"));
}

#[test]
fn case_insensitive_flag() {
    let mut files = ws();
    put(&mut files, "src/lib.rs", "ALPHA\n");
    let mut r = req("alpha");
    r.case_insensitive = true;
    let case_insensitive_out = run(&files, &r);
    assert!(case_insensitive_out.output.contains("ALPHA"));
    assert!(case_insensitive_out.output.contains("notes.txt:1: alpha here"));
    r.case_insensitive = false;
    let case_sensitive_out = run(&files, &r);
    assert!(!case_sensitive_out.output.contains("src/lib.rs"));
    assert!(case_sensitive_out.output.contains("notes.txt:1: alpha here"));
}

#[test]
fn invalid_regex_is_typed_error() {
    let err = search(&ws(), &req("(unclosed"), false).err().unwrap();
    assert!(err.contains("Invalid pattern"), "{err}");
    assert!(err.starts_with("Invalid pattern '(unclosed': "), "{err}");
}

#[test]
fn invalid_include_glob_is_typed_error() {
    let mut r = req("alpha");
    r.include_glob = Some("[bad".to_string());
    let err = search(&ws(), &r, false).err().unwrap();
    assert!(err.contains("Invalid include glob"), "{err}");
    assert!(err.starts_with("Invalid include glob '[bad': "), "{err}");
}

#[test]
fn a_bad_pattern_is_told_before_a_bad_glob() {
    let mut r = req("(unclosed");
    r.include_glob = Some("[bad".to_string());
    let err = SearchRun::begin(&r).err().unwrap();
    assert!(err.starts_with("Invalid pattern"), "{err}");
}

#[test]
fn include_glob_filters_files() {
    let mut r = req("alpha");
    r.include_glob = Some("*.rs".to_string());
    let out = run(&ws(), &r);
    assert!(out.output.contains("src/lib.rs:1:"));
    assert!(!out.output.contains("notes.txt"));

    let mut r2 = req("alpha");
    r2.include_glob = Some("*.txt".to_string());
    let out2 = run(&ws(), &r2);
    assert!(out2.output.contains("notes.txt:1:"));
    assert!(!out2.output.contains("lib.rs"));
}

#[test]
fn path_glob_include_works() {
    let mut r = req("alpha");
    r.include_glob = Some("src/**/*.rs".to_string());
    assert!(run(&ws(), &r).output.contains("lib.rs"));
    let mut r2 = req("alpha");
    r2.include_glob = Some("docs/**/*.rs".to_string());
    assert_eq!(run(&ws(), &r2).output, "No matches found");
}

#[test]
fn artifact_dirs_are_skipped() {
    let mut files = ws();
    put(&mut files, "target/debug/junk.rs", "alpha\n");
    put(&mut files, "node_modules/pkg/x.rs", "alpha\n");
    let out = run(&files, &req("alpha"));
    assert!(out.output.contains("src/lib.rs:1:"));
    assert!(!out.output.contains("target"));
    assert!(!out.output.contains("node_modules"));

    let r = req("alpha");
    let mut run = SearchRun::begin(&r).unwrap();
    for (name, action) in [
        ("target", WalkAction::Skip),
        ("node_modules", WalkAction::Skip),
        ("src", WalkAction::Continue),
    ] {
        let entry = WalkEntry::Directory { name: Some(name.to_string()) };
        assert_eq!(run.visit_entry(false, &entry, &r).unwrap(), action, "{name}");
    }
}

#[test]
fn the_list_of_artifact_dirs() {
    for name in [
        "node_modules", "target", "dist", "build", "__pycache__", ".venv", "venv",
    ] {
        assert!(is_artifact_dir(name), "{name}");
    }
    assert!(!is_artifact_dir("src"));
    assert!(!is_artifact_dir(".git"));
    assert!(!is_artifact_dir(""));
}

#[test]
fn binary_files_are_skipped() {
    let mut files = ws();
    let mut bytes = b"alpha then NUL".to_vec();
    bytes.push(0);
    files.push(("blob.bin".to_string(), bytes));
    let out = run(&files, &req("alpha"));
    assert!(out.output.contains("src/lib.rs:1:"));
    assert!(!out.output.contains("blob.bin"));
}

#[test]
fn a_nul_behind_the_head_discards_the_file() {
    let mut files = ws();
    let mut bytes = b"alpha\n".repeat(2000);
    bytes.push(0);
    assert!(bytes.len() > 8192);
    assert!(!looks_binary(Some(&bytes[..8192])));
    files.push(("late.bin".to_string(), bytes));
    let out = run(&files, &req("alpha"));
    assert!(!out.output.contains("late.bin"));
}

#[test]
fn an_unreadable_file_looks_binary() {
    assert!(looks_binary(None));
    assert!(!looks_binary(Some(b"")));
    let mut run = SearchRun::begin(&req("alpha")).unwrap();
    run.search_file("gone.txt", None, &req("alpha")).unwrap();
    assert_eq!(run.finish(100).output, "No matches found");
}

#[test]
fn symlinks_are_not_followed() {
    let r = req("alpha");
    let mut run = SearchRun::begin(&r).unwrap();
    assert_eq!(run.visit_entry(false, &WalkEntry::Other, &r).unwrap(), WalkAction::Continue);
    assert_eq!(run.visit_entry(false, &WalkEntry::Failed, &r).unwrap(), WalkAction::Continue);
    assert_eq!(run.visit_entry(false, &WalkEntry::Untyped, &r).unwrap(), WalkAction::Continue);
    let unnamed = WalkEntry::Directory { name: None };
    assert_eq!(run.visit_entry(false, &unnamed, &r).unwrap(), WalkAction::Continue);
}

fn path(parts: &[&str]) -> Vec<String> {
    parts.iter().map(|p| p.to_string()).collect()
}

#[test]
fn explicit_file_root_is_searched() {
    let root = path(&["/", "w", "notes.txt"]);
    let rel = rel_to_root(&root, &root);
    assert_eq!(rel, path(&["notes.txt"]));
    let files = vec![(rel.join("/"), b"alpha here\nplain\n".to_vec())];
    let out = run(&files, &req("alpha"));
    assert!(out.output.contains("notes.txt:1: alpha here"));
}

#[test]
fn paths_relative_to_the_root() {
    let root = path(&["/", "w"]);
    assert_eq!(rel_to_root(&path(&["/", "w", "a", "b.rs"]), &root), path(&["a", "b.rs"]));
    assert_eq!(rel_to_root(&path(&["/", "x", "b.rs"]), &root), path(&["/", "x", "b.rs"]));
    assert_eq!(rel_to_root(&path(&["/"]), &path(&["/"])), path(&[]));
    assert_eq!(rel_to_root(&path(&["a", ".."]), &path(&["a", ".."])), path(&[]));
    assert_eq!(rel_to_root(&path(&[]), &path(&[])), path(&[]));
}

#[test]
fn crlf_lines_match_and_render_clean() {
    let mut files = ws();
    put(&mut files, "src/lib.rs", "fn alpha() {}\r\n");
    let out = run(&files, &req("alpha"));
    assert!(out.output.contains("fn alpha() {}"));
    assert!(!out.output.contains('\r'));
}

#[test]
fn lines_of_a_file() {
    assert_eq!(split_file_lines(b""), path(&[]));
    assert_eq!(split_file_lines(b"a\n\nb"), path(&["a", "", "b"]));
    assert_eq!(split_file_lines(b"a\r\nb\r"), path(&["a", "b"]));
    assert_eq!(split_file_lines(b"\n"), path(&[""]));
    assert_eq!(split_file_lines(b"a\r\r\n"), path(&["a\r"]));
    assert_eq!(split_file_lines(b"x\xffy\n"), path(&["x\u{fffd}y"]));
}

#[test]
fn context_lines_render_with_v1_format() {
    let mut files = ws();
    put(&mut files, "src/lib.rs", "one\ntwo\nthree\nfour\nfive\n");
    let mut r = req("three");
    r.context = 1;
    let out = run(&files, &r);
    assert!(out.output.contains("src/lib.rs-2- two"), "{}", out.output);
    assert!(out.output.contains("src/lib.rs:3: three"));
    assert!(out.output.contains("src/lib.rs-4- four"));
    assert_eq!(
        out.output,
        "Found 3 matches:\nsrc/lib.rs-2- two\nsrc/lib.rs:3: three\nsrc/lib.rs-4- four"
    );
}

#[test]
fn a_window_is_cut_at_the_ends_of_the_file() {
    let mut files = ws();
    put(&mut files, "src/lib.rs", "hit\ntwo\nhit\n");
    let mut r = req("hit");
    r.context = usize::MAX;
    let out = run(&files, &r);
    assert_eq!(
        out.output,
        "Found 3 matches:\nsrc/lib.rs:1: hit\nsrc/lib.rs-2- two\nsrc/lib.rs:3: hit"
    );
}

#[test]
fn overlapping_windows_are_coalesced() {
    let files = vec![("a.txt".to_string(), b"m\nx\nm\n".to_vec())];
    let mut r = req("m");
    r.context = 1;
    assert_eq!(
        run(&files, &r).output,
        "Found 3 matches:\na.txt:1: m\na.txt-2- x\na.txt:3: m"
    );
    let apart = vec![("a.txt".to_string(), b"m\nx\ny\nz\nm\n".to_vec())];
    assert_eq!(
        run(&apart, &r).output,
        "Found 4 matches:\na.txt:1: m\na.txt-2- x\na.txt-4- z\na.txt:5: m"
    );
}

#[test]
fn the_rows_of_all_files_stay_within_the_budget() {
    let mut r = req("m");
    r.context = 1;
    r.max_results = 2;
    let mut run = SearchRun::begin(&r).unwrap();
    run.search_file("a.txt", Some(b"a\nm\nb\n"), &r).unwrap();
    assert_eq!(run.blocks[0].lines.len(), 2);
    run.search_file("b.txt", Some(b"m\n"), &r).unwrap();
    assert_eq!(run.finish(2).output, "Found 2 matches:\na.txt-1- a\na.txt:2: m");
}

#[test]
fn the_order_of_finding_does_not_matter() {
    let mut files = ws();
    put(&mut files, "z.txt", "alpha z\n");
    let mut turned = files.clone();
    turned.reverse();
    assert_eq!(run(&files, &req("alpha")).output, run(&turned, &req("alpha")).output);
}

#[test]
fn every_match_is_shown_once_and_in_order() {
    let mut files: Files = vec![];
    put(&mut files, "b.txt", "hit 1\nno\nhit 3\n");
    put(&mut files, "a/z.txt", "no\nhit hit\n");
    put(&mut files, "a.txt", "hit\n");
    assert_eq!(
        run(&files, &req("hit")).output,
        "Found 4 matches:\na.txt:1: hit\na/z.txt:2: hit hit\nb.txt:1: hit 1\nb.txt:3: hit 3"
    );
}

#[test]
fn lines_in_utf8_are_their_texts() {
    assert_eq!(split_file_lines("é\n한\r\n".as_bytes()), path(&["é", "한"]));
}

#[test]
fn searches_by_one_meaning_agree() {
    let mut files = ws();
    put(&mut files, "a\\z.rs", "alpha z\n");
    let mut r = req("alpha");
    r.include_glob = Some("*.rs".to_string());
    let mut turned = files.clone();
    turned.reverse();
    let (one, first) = exact_search::search_by_meaning(&r, &found(&files, false));
    let (two, second) = exact_search::search_by_meaning(&r, &found(&turned, false));
    assert_eq!(one, two);
    assert_eq!(first.unwrap().output, second.unwrap().output);
}

#[test]
fn every_character_of_a_literal_is_taken_as_it_is() {
    let all = r"\.+*?()|[]{}^$#&-~";
    let files = vec![("a.txt".to_string(), format!("x\n{all}\n").into_bytes())];
    let mut r = req(all);
    r.literal = true;
    assert_eq!(run(&files, &r).output, format!("Found 1 matches:\na.txt:2: {all}"));
}

#[test]
fn a_backslash_is_matched_as_the_machine_has_it() {
    let files = vec![("a\\b.rs".to_string(), b"alpha\n".to_vec())];
    let mut r = req("alpha");
    r.include_glob = Some("*.rs".to_string());
    assert_eq!(run(&files, &r).output, "Found 1 matches:\na\\b.rs:1: alpha");
    r.include_glob = Some("[a\\".to_string());
    let err = search(&files, &r, false).err().unwrap();
    assert!(err.starts_with("Invalid include glob '[a\\': "), "{err}");
}

#[test]
fn max_results_budget_limits_output_lines() {
    let mut files = ws();
    put(&mut files, "src/lib.rs", "alpha 1\nalpha 2\nalpha 3\nalpha 4\nalpha 5\n");
    let mut r = req("alpha");
    r.max_results = 2;
    let out = run(&files, &r);
    let body = out.output.lines().count() - 1;
    assert!(body <= 2, "budget exceeded: {}", out.output);
    assert!(out.output.contains("Found"));
}

#[test]
fn a_claim_that_finds_no_budget_ends_the_search() {
    let texts: Vec<String> = (0..5).map(|i| format!("alpha {i}")).collect();
    let matched = vec![true; 5];
    let mut run = SearchRun { budget: 0, done: false, cancelled: false, blocks: vec![] };
    let rows = run.claim_rows(&texts, &matched, 0, 2);
    assert_eq!(rows.len(), 2);
    assert_eq!(run.budget, 2);
    assert!(run.done);
    assert_eq!(run.claim_rows(&texts, &matched, 0, 2).len(), 0);
    assert_eq!(run.budget, 2);
    let mut fits = SearchRun { budget: 0, done: false, cancelled: false, blocks: vec![] };
    assert_eq!(fits.claim_rows(&texts, &matched, 0, 5).len(), 5);
    assert!(!fits.done);
}

#[test]
fn long_lines_are_truncated_with_flag() {
    let mut files = ws();
    put(&mut files, "src/lib.rs", &format!("alpha {}\n", "x".repeat(700)));
    let out = run(&files, &req("alpha"));
    assert!(out.lines_truncated);
    assert!(out.output.contains("... [truncated]"));
    assert!(out.output.lines().nth(2).unwrap().chars().count() < 600);
    assert!(out.output.lines().nth(1).unwrap().chars().count() < 600);
}

#[test]
fn unicode_long_line_truncates_on_char_boundary() {
    let mut files = ws();
    put(&mut files, "src/lib.rs", &format!("alpha {}\n", "한".repeat(600)));
    let out = run(&files, &req("alpha"));
    assert!(out.lines_truncated);
}

#[test]
fn a_line_keeps_its_first_five_hundred_characters() {
    assert_eq!(truncate_line("short"), ("short".to_string(), false));
    let just = "x".repeat(500);
    assert_eq!(truncate_line(&just), (just.clone(), false));
    let long = "x".repeat(501);
    assert_eq!(truncate_line(&long), (format!("{just}... [truncated]"), true));
}

#[test]
fn cancellation_returns_partial_with_marker() {
    let mut files = ws();
    for i in 0..40 {
        put(&mut files, &format!("f{i:03}.txt"), "alpha here\n");
    }
    let out = search(&files, &req("alpha"), true).unwrap();
    assert!(out.cancelled);
}

#[test]
fn a_cancelled_search_marks_what_it_found() {
    let r = req("alpha");
    let mut run = SearchRun::begin(&r).unwrap();
    run.search_file("a.txt", Some(b"alpha\n"), &r).unwrap();
    assert_eq!(run.visit_entry(true, &WalkEntry::Other, &r).unwrap(), WalkAction::Quit);
    let out = run.finish(100);
    assert!(out.cancelled);
    assert_eq!(
        out.output,
        "Found 1 matches:\na.txt:1: alpha\nSearch cancelled: results are partial (1 shown)."
    );
}

#[test]
fn a_search_that_has_ended_is_final() {
    let mut r = req("alpha");
    r.max_results = 1;
    let mut files = ws();
    put(&mut files, "z.txt", "alpha\n");
    let ended = exact_search::search(&r, &found(&files, false)).unwrap();
    let mut more = files.clone();
    put(&mut more, "a.txt", "alpha\n");
    let later = exact_search::search(&r, &found(&more, false)).unwrap();
    assert_eq!(ended.output, later.output);
    assert_eq!(ended.output, "Found 1 matches:\nsrc/lib.rs:1: fn alpha() {}");
}

#[test]
fn a_request_to_cancel_keeps_what_was_found() {
    let mut steps = found(&ws(), false);
    let last = steps.len() - 1;
    steps[last].cancel = true;
    let out = exact_search::search(&req("alpha"), &steps).unwrap();
    assert!(out.cancelled);
    assert_eq!(
        out.output,
        "Found 1 matches:\nsrc/lib.rs:1: fn alpha() {}\nSearch cancelled: results are partial (1 shown)."
    );
}

#[test]
fn entries_of_other_kinds_are_passed_over() {
    let step = |entry| Found { cancel: false, entry, content: Some(b"alpha".to_vec()) };
    let steps = vec![
        step(WalkEntry::Failed),
        step(WalkEntry::Untyped),
        step(WalkEntry::Other),
        step(WalkEntry::Directory { name: None }),
        step(WalkEntry::File { rel: "b".to_string(), binary: true }),
        Found {
            cancel: false,
            entry: WalkEntry::File { rel: "u".to_string(), binary: false },
            content: None,
        },
    ];
    assert_eq!(exact_search::search(&req("alpha"), &steps).unwrap().output, "No matches found");
}
