use oxicode::handoff::{
    choose_slug, derive_slug, handoff_document, handoff_request, slug_from_line,
    write_handoff_doc, HandoffFailure, HandoffOptions, HANDOFFS_DIR,
};
use oxicode::handoff_prompt::{
    build_handoff_prompt, detect_handoff_chain, gather_git_state, handoff_system_prompt,
    latest_handoff, read_chain_number, truncate_msg, GitState, HandoffChain, HandoffFile,
    INSTRUCTIONS, MAX_MSG_CHARS, OUTPUT_TEMPLATE,
};
use oxicode::messages::Message;

fn user_msg(text: &str) -> Message {
    Message::user(text.to_string())
}

#[test]
fn derive_slug_basic() {
    let slug = derive_slug(&vec![user_msg("Fix the authentication bug in login")]);
    assert_eq!(slug, "fix-the-authentication-bug-in-login");
}

#[test]
fn derive_slug_truncates() {
    let slug = derive_slug(&vec![user_msg(&"x".repeat(100))]);
    assert!(slug.len() <= 40);
    assert_eq!(slug, "x".repeat(40));
}

#[test]
fn derive_slug_no_messages() {
    let slug = derive_slug(&vec![]);
    assert_eq!(slug, "session");
}

#[test]
fn derive_slug_special_chars() {
    let slug = derive_slug(&vec![user_msg("Hello, World!!! @#$%")]);
    assert_eq!(slug, "hello-world");
}

#[test]
fn a_slug_comes_from_the_first_line_of_a_user() {
    let tool = Message::ToolResult {
        tool_call_id: "1".to_string(),
        tool_name: "ls".to_string(),
        content: vec![],
    };
    assert_eq!(derive_slug(&vec![tool, user_msg("First Line\nsecond")]), "first-line");
    assert_eq!(derive_slug(&vec![user_msg("")]), "session");
    assert_eq!(derive_slug(&vec![user_msg("--- !!")]), "session");
    assert_eq!(derive_slug(&vec![user_msg("Größe Ä")]), "größe-ä");
    assert_eq!(slug_from_line("--a--b--"), "a-b");
}

#[test]
fn options_can_name_the_slug() {
    let mut opts = HandoffOptions::default();
    assert!(opts.auto_continue && !opts.dry_run && opts.slug.is_none());
    assert_eq!(choose_slug(&opts, &vec![user_msg("Hi There")]), "hi-there");
    opts.slug = Some("Mine".to_string());
    assert_eq!(choose_slug(&opts, &vec![]), "Mine");
}

#[test]
fn the_document_is_written_under_its_time_and_name() {
    let chain = HandoffChain { seq: 1, prev_path: None };
    let doc = write_handoff_doc(
        "/w",
        "2026-08-12-100000",
        "# Session Handoff — test\n\nbody",
        "test",
        &chain,
    );
    assert_eq!(doc.path, "/w/.oxicode/handoffs/2026-08-12-100000-test.md");
    assert_eq!(doc.content, "> **Chain:** #1\n\n# Session Handoff — test\n\nbody");
    let next = HandoffChain { seq: 2, prev_path: Some(doc.path.clone()) };
    let doc2 = write_handoff_doc("/w", "t", "b", "s", &next);
    assert_eq!(
        doc2.content,
        "> **Chain:** #2 (continues from /w/.oxicode/handoffs/2026-08-12-100000-test.md)\n\nb"
    );
    assert_eq!(HANDOFFS_DIR, ".oxicode/handoffs");
}

#[test]
fn a_written_document_is_read_back_with_its_number() {
    for seq in [0usize, 1, 9, 10, 4321, usize::MAX] {
        for prev in [None, Some("p.md".to_string()), Some("odd\r\npath".to_string())] {
            let chain = HandoffChain { seq, prev_path: prev };
            let doc = write_handoff_doc("/w", "t", "> **Chain:** #77\r\n", "s", &chain);
            assert_eq!(read_chain_number(&doc.content), Some(seq));
        }
    }
}

#[test]
fn build_handoff_prompt_includes_instructions() {
    let messages = vec![user_msg("hello")];
    let git_state = GitState {
        branch: Some("main".to_string()),
        recent_commits: vec!["abc1234 init".to_string()],
        modified_files: vec![],
    };
    let chain = HandoffChain { seq: 1, prev_path: None };

    let prompt = build_handoff_prompt(&messages, &git_state, &chain);
    assert!(prompt.contains("session handoff document"));
    assert!(prompt.contains("What Was Tried"));
    assert!(prompt.contains("[User]: hello"));
    assert!(prompt.contains("Branch"));
    assert!(prompt.contains("main"));
    assert_eq!(
        prompt,
        format!(
            "{INSTRUCTIONS}\n## Git State\n\n**Branch:** `main`\n\n**Recent commits:**\n```\nabc1234 init\n```\n\n## Conversation\n\nBelow is the full conversation to mine for the handoff:\n\n[User]: hello\n\n---\n\n{OUTPUT_TEMPLATE}"
        )
    );
}

#[test]
fn build_handoff_prompt_includes_chain_link() {
    let messages = vec![user_msg("test")];
    let git_state = GitState { branch: None, recent_commits: vec![], modified_files: vec![] };
    let chain =
        HandoffChain { seq: 3, prev_path: Some(".oxicode/handoffs/prev.md".to_string()) };

    let prompt = build_handoff_prompt(&messages, &git_state, &chain);
    assert!(prompt.contains("handoff #3"));
    assert!(prompt.contains("prev.md"));
    assert!(prompt.contains("(not a git repository)"));
}

#[test]
fn a_prompt_takes_only_the_start_of_long_messages() {
    let long = "y".repeat(MAX_MSG_CHARS + 1);
    let git_state = GitState {
        branch: None,
        recent_commits: vec![],
        modified_files: vec!["a.rs | 2 +-".to_string()],
    };
    let chain = HandoffChain { seq: 1, prev_path: None };
    let prompt = build_handoff_prompt(&vec![user_msg(&long)], &git_state, &chain);
    let kept = "y".repeat(MAX_MSG_CHARS);
    assert!(prompt.contains(&format!("[User]: {kept}... [truncated]\n\n")));
    assert!(prompt.contains("**Modified files (uncommitted):**\n```\na.rs | 2 +-\n```\n\n"));
}

#[test]
fn truncate_msg_short_unchanged() {
    assert_eq!(truncate_msg("hello", 100), "hello");
}

#[test]
fn truncate_msg_long_truncated() {
    let long = "x".repeat(5000);
    let result = truncate_msg(&long, 100);
    assert!(result.ends_with("[truncated]"));
    assert!(result.len() < long.len());
    assert_eq!(result, format!("{}... [truncated]", "x".repeat(100)));
}

fn file(path: &str, extension: &str, mtime_ms: i64) -> HandoffFile {
    HandoffFile {
        path: Some(path.to_string()),
        extension: Some(extension.to_string()),
        mtime_ms,
    }
}

#[test]
fn detect_chain_empty_dir() {
    let chain = detect_handoff_chain(&vec![], None);
    assert_eq!(chain.seq, 1);
    assert!(chain.prev_path.is_none());
}

#[test]
fn detect_chain_with_existing() {
    let files = vec![file("/h/2026-08-12-100000-test.md", "md", 5)];
    let chain = detect_handoff_chain(&files, Some("# Handoff\n\n> **Chain:** #2\n"));
    assert_eq!(chain.seq, 3);
    assert!(chain.prev_path.is_some());
}

#[test]
fn the_latest_document_is_continued() {
    let files = vec![
        file("old.md", "md", 1),
        file("notes.txt", "txt", 9),
        file("new.md", "md", 5),
        file("twin.md", "md", 5),
    ];
    assert_eq!(latest_handoff(&files), Some(2));
    let chain = detect_handoff_chain(&files, None);
    assert_eq!((chain.seq, chain.prev_path.as_deref()), (1, Some("new.md")));
    assert_eq!(latest_handoff(&vec![file("a.txt", "txt", 1)]), None);
}

#[test]
fn numbers_that_are_none() {
    assert_eq!(read_chain_number(""), None);
    assert_eq!(read_chain_number("> **Chain:** #"), None);
    assert_eq!(read_chain_number("> **Chain:** #x\n> **Chain:** #4"), None);
    assert_eq!(read_chain_number("a\n> **Chain:** #  +12 (x)"), Some(12));
    assert_eq!(read_chain_number("> **Chain:** #99999999999999999999999"), None);
}

#[test]
fn git_output_is_trimmed() {
    let state =
        gather_git_state(Some(" main\n"), Some("a b\n\n  c \n"), Some("\n"));
    assert_eq!(state.branch.as_deref(), Some("main"));
    assert_eq!(state.recent_commits, vec!["a b", "c"]);
    assert!(state.modified_files.is_empty());
}

#[test]
fn gather_git_state_in_temp_dir() {
    let state = gather_git_state(None, None, None);
    assert!(state.branch.is_none());
    assert!(state.recent_commits.is_empty() && state.modified_files.is_empty());
}

#[test]
fn the_system_prompt_asks_for_a_document() {
    assert!(handoff_system_prompt().starts_with("You are a session-handoff document generator"));
    assert!(handoff_system_prompt().ends_with("with zero ambiguity."));
}

#[test]
fn write_handoff_doc_creates_file() {
    let chain = HandoffChain { seq: 1, prev_path: None };
    let doc = write_handoff_doc(
        "/tmp/x",
        "2026-01-02-030405",
        "# Session Handoff — test\n\nbody",
        "test",
        &chain,
    );
    assert_eq!(doc.path, "/tmp/x/.oxicode/handoffs/2026-01-02-030405-test.md");
    assert!(doc.content.contains("Session Handoff"));
    assert!(doc.content.starts_with("> **Chain:** #1\n\n"));
}

#[test]
fn a_model_is_asked_for_the_document() {
    let messages = vec![user_msg("Fix it")];
    let git = gather_git_state(None, None, None);
    let chain = HandoffChain { seq: 1, prev_path: None };
    let request = handoff_request("a/b", &messages, &git, &chain);
    assert_eq!(request.model_id, "a/b");
    assert_eq!(request.system_prompt, handoff_system_prompt());
    assert_eq!(request.prompt, build_handoff_prompt(&messages, &git, &chain));
    assert_eq!((request.temperature_percent, request.max_tokens), (30, 4096));
}

#[test]
fn a_document_is_made_of_the_answer() {
    let messages = vec![user_msg("Fix it")];
    let chain = HandoffChain { seq: 1, prev_path: None };
    let made = |answer| {
        handoff_document("/w", "a/b", &messages, &HandoffOptions::default(), &chain, "T", answer)
    };
    let doc = made(Ok("body".to_string())).ok().unwrap();
    assert_eq!(doc.path, "/w/.oxicode/handoffs/T-fix-it.md");
    assert_eq!(doc.content, "> **Chain:** #1\n\nbody");
    assert_eq!(
        made(Err(HandoffFailure::Resolve)).err().unwrap(),
        "Failed to resolve model 'a/b' for handoff generation"
    );
    assert_eq!(made(Err(HandoffFailure::Call)).err().unwrap(), "Handoff LLM call failed");
}

#[test]
fn a_slug_holds_letters_numbers_and_hyphens() {
    for line in ["a.b c", "--x--", "Straße 7!", "(((", ""] {
        let slug = slug_from_line(line);
        assert!(slug.chars().all(|c| c == '-' || c.is_alphanumeric()), "{slug}");
        assert!(!slug.starts_with('-') && !slug.contains("--"), "{slug}");
    }
}
