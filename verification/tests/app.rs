use oxicode::agent_session::SessionQueues;
use oxicode::app::{
    acquire_ownership_guard, ownership_guard, prompt_skills, App, CompactionContext, SessionState,
    ToolOrder,
};
use oxicode::messages::{AssistantMessage, ContentBlock, Message, Usage};
use oxicode::paths::{
    components_of, extension_of, file_name_of, file_stem_of, parent_of, same_path,
    with_extension_of,
};
use oxicode::session_runtime::Persona;
use oxicode::settings::Settings;
use oxicode::text::{
    decimal_text, first_word_text, hex_text, is_text_less, join_path, lines_of, parse_usize,
    split_text, trim_text, unix_newlines_text,
};
use oxicode::tools::{AgentToolResult, DiagnosticsSummary, ForkResult, MemoryBackend, MemoryItem, ToolContext};

fn app() -> App {
    App::new(Settings::default(), &None, "proc-1-x".to_string(), false, None)
}

#[test]
fn an_application_begins_with_what_it_is_given() {
    let fresh = app();
    assert!(fresh.active_skills.is_empty() && fresh.persona_body.is_none());
    assert!(!fresh.session_state.should_stop);
    assert_eq!(fresh.session_state.queues.pending(), 0);
    let mut queues = SessionQueues::new();
    queues.steering.push_back(Message::user("wait".to_string()));
    let persona = Some(Persona { system_prompt: "You help.".to_string(), preferred_model: None });
    let state = SessionState { should_stop: true, queues };
    let given = App::new(Settings::default(), &persona, "id".to_string(), true, Some(state));
    assert!(given.session_state.should_stop && given.has_liveness_lock);
    assert_eq!(given.session_state.queues.pending(), 1);
    assert_eq!(given.persona_body.as_deref(), Some("You help."));
    assert_eq!(given.ownership_session_id, "id");
}

#[test]
fn acquire_returns_none_without_store() {
    assert!(acquire_ownership_guard(None, "proc-x").is_none());
}

#[test]
fn acquire_rejects_empty_ownership_id() {
    assert!(
        acquire_ownership_guard(Some("/i"), "").is_none(),
        "empty ownership id must never acquire a lock (#13 guard)"
    );
    let (dir, id) = acquire_ownership_guard(Some("/i"), "proc-x").unwrap();
    assert_eq!((dir.as_str(), id.as_str()), ("/i", "proc-x"));
}

#[test]
fn skills_are_active_once() {
    let mut a = app();
    assert_eq!(a.activate_skill("Nope", false).err().unwrap(), "Skill 'Nope' not found");
    assert!(a.active_skills.is_empty());
    a.activate_skill("Rust", true).unwrap();
    a.activate_skill("RUST", true).unwrap();
    a.activate_skill("go", true).unwrap();
    assert_eq!(a.active_skills, vec!["rust", "go"]);
    a.deactivate_skill("Rust");
    assert_eq!(a.active_skills, vec!["go"]);
    a.deactivate_skill("Rust");
    assert_eq!(a.active_skills, vec!["go"]);
}

#[test]
fn the_prompt_is_built_anew() {
    let mut a = app();
    a.persona_body = Some("I review.".to_string());
    let plan = a.rebuild_system_prompt(&vec![Some("s".to_string())], true);
    assert_eq!(plan.skills[0].name, "skill-0");
    assert_eq!(plan.persona_prompt.as_deref(), Some("I review."));
    assert!(plan.append_system_prompt.is_none());
    a.settings.workspace_search.enabled = true;
    let plan = a.rebuild_system_prompt(&vec![], true);
    assert!(plan.append_system_prompt.unwrap().contains("workspace_search query"));
    assert!(a.rebuild_system_prompt(&vec![], false).append_system_prompt.is_none());
    assert_eq!(a.ownership_session_id(), "proc-1-x");
    assert!(!a.has_liveness_lock() && a.active_skills().is_empty());
    assert_eq!(a.settings().theme, "default");
    assert!(!a.session_state().should_stop);
}

#[test]
fn skills_of_the_prompt_are_numbered() {
    let found = vec![Some("a".to_string()), None, Some("b".to_string())];
    let skills = prompt_skills(&found);
    assert_eq!(skills.len(), 2);
    assert_eq!((skills[0].name.as_str(), skills[0].content.as_str()), ("skill-0", "a"));
    assert_eq!((skills[1].name.as_str(), skills[1].content.as_str()), ("skill-1", "b"));
}

fn response(text: &str) -> Message {
    Message::Assistant(AssistantMessage {
        api: "x".to_string(),
        provider: "p".to_string(),
        model: "m".to_string(),
        content: vec![ContentBlock::Text { text: text.to_string() }],
        usage: Usage::default(),
        stop_reason: None,
    })
}

#[test]
fn the_last_response_is_the_answer() {
    let u = || Message::user("u".to_string());
    assert_eq!(App::run_prompt_with_events(&vec![response("a"), response("b"), u()]), "b");
    assert_eq!(App::run_prompt_with_events(&vec![u()]), "");
}

#[test]
fn the_agent_of_the_application() {
    let mut s = Settings::default();
    s.last_used_model = Some("a/b".to_string());
    let plan = App::from_oxicode(&s, &None, "tui-1-x", None, 0, true);
    assert_eq!(plan.model_id, "a/b");
    assert_eq!(plan.workspace_dir, ".");
    assert_eq!(plan.session_id, "tui-1-x");
    assert!(!plan.with_lsp && plan.with_issue_tool);
    assert_eq!(plan.tool_order, ToolOrder::Sequential);
    assert!(plan.with_ask_tool && plan.with_url_resolver);
    assert_eq!(plan.ask_timeout_secs, None);
    assert_eq!(plan.context_window, 128_000);
    s.ask_timeout_secs = 30;
    let persona = Some(Persona {
        system_prompt: "p".to_string(),
        preferred_model: Some("c/d".to_string()),
    });
    let plan = App::from_oxicode(&s, &persona, "i", Some("/w"), 2, false);
    assert_eq!(plan.model_id, "c/d");
    assert_eq!(plan.persona_body.as_deref(), Some("p"));
    assert_eq!(plan.ask_timeout_secs, Some(30));
    assert!(plan.with_lsp);
    assert_eq!(plan.workspace_dir, "/w");
}

#[test]
fn contexts_of_compactions_and_states() {
    let c = CompactionContext::new(5, 100, 20, "threshold".to_string());
    assert_eq!((c.messages_count, c.tokens_before, c.target_tokens), (5, 100, 20));
    assert_eq!(c.strategy, "threshold");
    let s = SessionState::default();
    assert!(!s.should_stop && s.queues.steering.is_empty() && s.queues.follow_up.is_empty());
}

struct Memory;

impl MemoryBackend for Memory {
    fn put(&self, _: &str, _: &str, _: &str) -> Result<String, String> {
        Ok("id".to_string())
    }
    fn search(&self, _: &str, _: usize) -> Result<Vec<MemoryItem>, String> {
        Ok(vec![])
    }
    fn list(&self, _: &str) -> Result<Vec<MemoryItem>, String> {
        Ok(vec![])
    }
    fn delete(&self, _: &str) -> Result<(), String> {
        Ok(())
    }
}

#[test]
fn a_memory_can_do_without_some_things() {
    let m = Memory;
    assert!(m.memory_info().is_none());
    assert!(m.trigger_consolidation().is_none() && m.trigger_harmonize().is_none());
    assert_eq!(
        m.clear_all().err().unwrap(),
        "clear_all not supported by this backend (no list-all subject primitive)"
    );
    assert_eq!(
        m.enqueue_consolidation().err().unwrap(),
        "enqueue_consolidation not supported by this backend"
    );
}

#[test]
fn contexts_and_results_of_tools() {
    let ctx = ToolContext::new("/w".to_string());
    assert_eq!(ctx.root(), "/w");
    assert!(ctx.memory.is_none() && ctx.subagent_depth == 0);
    let ctx = ctx
        .with_root("/r".to_string())
        .with_session("s".to_string())
        .with_intent("i".to_string())
        .with_memory(std::sync::Arc::new(Memory));
    assert_eq!(ctx.root(), "/r");
    assert_eq!(ctx.session_id.as_deref(), Some("s"));
    assert!(ctx.memory.is_some());
    let r = AgentToolResult::success("out".to_string()).with_terminate().with_intent("i".to_string());
    assert!(r.success && r.terminate);
    assert_eq!(r.to_text(), "out");
    let e = AgentToolResult::error("bad".to_string()).with_content_blocks(vec![]);
    assert!(!e.success && e.content_blocks.is_some());
    assert_eq!(ForkResult::default().turns, 0);
    assert_eq!(DiagnosticsSummary::default().count, 0);
}

#[test]
fn texts_are_taken_apart() {
    assert_eq!(split_text("a,,b", ','), vec!["a", "", "b"]);
    assert_eq!(split_text("", ','), vec![""]);
    assert_eq!(lines_of("a\r\nb\n\nc\r"), vec!["a", "b", "", "c\r"]);
    assert_eq!(trim_text("\u{3000} a b\u{85}\n"), "a b");
    assert_eq!(unix_newlines_text("\r\r\n\n"), "\n\n\n");
    assert_eq!(first_word_text("  a b").as_deref(), Some("a"));
    assert_eq!(first_word_text(" \t"), None);
    assert_eq!(join_path("/a", "/b"), "/b");
    assert_eq!(join_path("", "b"), "b");
    assert_eq!(join_path("a/", "b"), "a/b");
}

#[test]
fn paths_have_names_and_components() {
    let name = |p: &str| file_name_of(p);
    assert_eq!(name("/a/b.rs").as_deref(), Some("b.rs"));
    assert_eq!(name("/a/b/").as_deref(), Some("b"));
    assert_eq!(name("a/.").as_deref(), Some("a"));
    assert_eq!(name("a/./.").as_deref(), Some("a"));
    for none in ["/", "", ".", "..", "a/..", "//", "/.", "./"] {
        assert_eq!(name(none), None, "{none}");
    }
    assert_eq!(extension_of("a/b.tar.gz").as_deref(), Some("gz"));
    assert_eq!(extension_of("a/.hidden"), None);
    assert_eq!(extension_of("a/b."), Some(String::new()));
    assert_eq!(file_stem_of("a/b.tar.gz").as_deref(), Some("b.tar"));
    assert_eq!(with_extension_of("/c/settings.json", "tmp"), "/c/settings.tmp");
    assert_eq!(with_extension_of("a/b", "tmp"), "a/b.tmp");
    assert_eq!(with_extension_of("a/b.x/", "tmp"), "a/b.tmp");
    assert_eq!(with_extension_of("..", "tmp"), "..");
    assert_eq!(Settings::temporary_path("/c/settings.toml"), "/c/settings.tmp");
    assert_eq!(components_of("/a//./b/"), vec!["/", "a", "b"]);
    assert_eq!(components_of("./a/../b"), vec![".", "a", "..", "b"]);
    assert!(components_of("").is_empty());
    assert!(same_path("/a//b/", "/a/./b") && !same_path("./a", "a") && !same_path("/a", "a"));
}

#[test]
fn paths_are_taken_as_the_standard_library_takes_them() {
    let paths = [
        "", "/", ".", "..", "a", "a/", "/a", "./a", "a/.", "a/..", "a/b.c", "a//b.c/", "/.x", ".x/",
        "a/.b.c", "a.", "...", "a/...", "//a", "/./a", "a/b/./..", "x.tar.gz", "/..", "./", "././a",
    ];
    for p in paths {
        let path = std::path::Path::new(p);
                assert_eq!(file_name_of(p), path.file_name().map(|s| s.to_string_lossy().to_string()), "{p}");
        assert_eq!(extension_of(p), path.extension().map(|s| s.to_string_lossy().to_string()), "{p}");
        assert_eq!(file_stem_of(p), path.file_stem().map(|s| s.to_string_lossy().to_string()), "{p}");
        assert_eq!(parent_of(p), path.parent().map(|d| d.to_string_lossy().to_string()), "{p}");
        assert_eq!(with_extension_of(p, "t"), path.with_extension("t").to_string_lossy(), "{p}");
        let parts: Vec<String> =
            path.components().map(|c| c.as_os_str().to_string_lossy().to_string()).collect();
        assert_eq!(components_of(p), parts, "{p}");
        for q in paths {
            assert_eq!(same_path(p, q), path == std::path::Path::new(q), "{p} {q}");
            assert_eq!(join_path(p, q), path.join(q).to_string_lossy(), "{p} {q}");
        }
    }
}

#[test]
fn numbers_are_written_and_read() {
    for n in [0u64, 9, 10, 12345, u64::MAX] {
        assert_eq!(decimal_text(n), n.to_string());
    }
    assert_eq!(parse_usize("18446744073709551615"), Some(usize::MAX));
    assert_eq!(parse_usize("18446744073709551616"), None);
    assert_eq!(parse_usize("+7"), Some(7));
    assert_eq!(parse_usize("+"), None);
    assert_eq!(parse_usize(""), None);
    assert_eq!(parse_usize("1a"), None);
    assert_eq!(hex_text(0xdead_beef, 8), "deadbeef");
    assert_eq!(hex_text(255, 4), "00ff");
    assert!(is_text_less("Z", "a") && is_text_less("", "a") && !is_text_less("a", "a"));
}

#[test]
fn a_lock_is_held_where_it_was_taken() {
    assert_eq!(ownership_guard(Some("/i"), "proc-1", Ok(7)), Some(7));
    assert_eq!(ownership_guard(Some("/i"), "", Ok(7)), None);
    assert_eq!(ownership_guard(None, "proc-1", Ok(7)), None);
    let held: Result<u8, String> = Err("held".to_string());
    assert_eq!(ownership_guard(Some("/i"), "proc-1", held), None);
}
