use oxicode::agent_session::{AgentSession, CompactionStrategy, ScopedModel, SessionQueues};
use oxicode::messages::{AgentMessage, Message};
use oxicode::session_log::SessionLog;
use oxicode::session_runtime::{
    append_memory_and_tool_guidance, ast_rules, build_system_prompt_with_memory, combine_blocks,
    convert_todo_eager_mode, create_agent_session_from_services, create_agent_session_runtime,
    create_agent_session_services, get_default_agent_dir, get_default_session_dir, parse_model_id,
    personas_dir, provider_not_found, resolve_default_persona, session_cwd, teardown_current,
    workspace_search_guidance, AgentSessionRuntime, AgentSessionRuntimeDiagnostic,
    CreateAgentSessionFromServicesOptions, CreateAgentSessionResult, CreateAgentSessionRuntimeResult,
    CreateAgentSessionServicesOptions, DiagnosticSeverity, ForkPosition, LoopTodoEagerMode,
    Persona, ServiceDefaults, SessionImportFileNotFoundError, SessionSwitchReason, StreamRule,
    StreamRules, TOOL_GUIDANCE,
};
use oxicode::settings::{NamedValue, Settings, ThinkingLevel, TodoEagerMode};
use oxicode::tools::grep::GrepTool;
use oxicode::tools::registry::ToolRegistry;
use std::sync::Arc;

#[test]
fn settings_todo_eager_mode_converts_to_loop_enum() {
    assert_eq!(convert_todo_eager_mode(TodoEagerMode::Always), LoopTodoEagerMode::Always);
    assert_eq!(convert_todo_eager_mode(TodoEagerMode::Preferred), LoopTodoEagerMode::Preferred);
    assert_eq!(convert_todo_eager_mode(TodoEagerMode::Off), LoopTodoEagerMode::Off);
}

#[test]
fn test_parse_model_id_with_provider() {
    let (provider, model) = parse_model_id("anthropic/sonnet-4-20250514");
    assert_eq!(provider, "anthropic");
    assert_eq!(model, "sonnet-4-20250514");
}

#[test]
fn test_parse_model_id_without_provider() {
    let (provider, model) = parse_model_id("sonnet-4-20250514");
    assert_eq!(provider, "anthropic");
    assert_eq!(model, "sonnet-4-20250514");
}

#[test]
fn test_parse_model_id_nested() {
    let (provider, model) = parse_model_id("openai/gpt-4o");
    assert_eq!(provider, "openai");
    assert_eq!(model, "gpt-4o");
    let (provider, model) = parse_model_id("openrouter/anthropic/sonnet");
    assert_eq!((provider.as_str(), model.as_str()), ("openrouter", "anthropic/sonnet"));
}

#[test]
fn test_diagnostic_severity_display() {
    assert_eq!(DiagnosticSeverity::Info.to_text(), "info");
    assert_eq!(DiagnosticSeverity::Warning.to_text(), "warning");
    assert_eq!(DiagnosticSeverity::Error.to_text(), "error");
}

#[test]
fn test_session_import_file_not_found_error() {
    let err = SessionImportFileNotFoundError { file_path: "/tmp/nonexistent.jsonl".to_string() };
    assert!(err.to_text().contains("not found"));
    assert_eq!(err.to_text(), "File not found: /tmp/nonexistent.jsonl");
}

#[test]
fn test_fork_position() {
    assert_eq!(ForkPosition::At, ForkPosition::At);
    assert_ne!(ForkPosition::At, ForkPosition::Before);
}

#[test]
fn test_session_switch_reason() {
    assert_eq!(SessionSwitchReason::New, SessionSwitchReason::New);
    assert_ne!(SessionSwitchReason::New, SessionSwitchReason::Resume);
    assert_ne!(SessionSwitchReason::Fork, SessionSwitchReason::Import);
    assert_ne!(SessionSwitchReason::Import, SessionSwitchReason::Quit);
}

type Options = CreateAgentSessionServicesOptions<u8, u8, u8, u8>;

fn defaults() -> ServiceDefaults<u8, u8, u8, u8> {
    ServiceDefaults {
        agent_dir: "/home/u/.oxi/oxicode".to_string(),
        auth_storage: 1,
        settings: Settings::default(),
        model_registry: 2,
        resource_loader: 3,
        persona_provider: 4,
    }
}

#[test]
fn test_create_agent_session_services_options() {
    let opts = Options::new("/tmp".to_string());
    assert_eq!(opts.cwd, "/tmp");
    assert!(opts.agent_dir.is_none());
    assert!(opts.auth_storage.is_none());
}

#[test]
fn services_are_given_or_made() {
    let mut opts = Options::new("/tmp".to_string());
    opts.model_registry = Some(9);
    let services = create_agent_session_services(opts, defaults(), Some(5u8));
    assert_eq!(services.cwd, "/tmp");
    assert_eq!(services.agent_dir, "/home/u/.oxi/oxicode");
    assert_eq!((services.auth_storage, services.model_registry), (1, 9));
    assert_eq!((services.resource_loader, services.persona_provider), (3, 4));
    assert_eq!(services.hook_runner(), Some(&5));
    assert!(services.diagnostics.is_empty());
    assert_eq!(personas_dir(&services.agent_dir), "/home/u/.oxi/oxicode/personas");
}

fn persona(prompt: &str, model: Option<&str>) -> Persona {
    Persona {
        system_prompt: prompt.to_string(),
        preferred_model: model.map(|m| m.to_string()),
    }
}

#[test]
fn a_persona_that_says_nothing_is_none() {
    assert!(resolve_default_persona(Ok(Some(persona("  \n", None)))).is_none());
    assert!(resolve_default_persona(Ok(None)).is_none());
    assert!(resolve_default_persona(Err("e".to_string())).is_none());
    let found = resolve_default_persona(Ok(Some(persona("You review.", None)))).unwrap();
    assert_eq!(found.system_prompt, "You review.");
}

type Tools = ToolRegistry<GrepTool, u8>;

fn make(
    options: CreateAgentSessionFromServicesOptions,
    p: &Option<Persona>,
    s: &Settings,
    memory: String,
    registered: bool,
) -> CreateAgentSessionResult {
    let mut tools = Tools::new();
    let builtins = vec![Arc::new(GrepTool::new())];
    let made = create_agent_session_from_services(
        options, p, s, memory, registered, "/w", &mut tools, None, &builtins, Arc::new(3),
    );
    assert_eq!(tools.get("grep").is_some(), made.session.with_tools);
    assert_eq!(tools.mcp_manager().is_some(), made.session.with_tools);
    made
}

#[test]
fn a_session_is_handed_its_tools_and_their_manager() {
    let given = Tools::with_builtins_cwd(&vec![Arc::new(GrepTool::new())], &vec![], Arc::new(7));
    let options = |model: Option<&str>| CreateAgentSessionFromServicesOptions {
        model_id: model.map(|m| m.to_string()),
        thinking_level: None,
        scoped_models: vec![],
    };
    let mut tools = Tools::new();
    create_agent_session_from_services(
        options(Some("a/b")),
        &None,
        &Settings::default(),
        String::new(),
        false,
        "/w",
        &mut tools,
        Some(&given),
        &vec![],
        Arc::new(3),
    );
    for name in given.names() {
        assert!(Arc::ptr_eq(&tools.get(&name).unwrap(), &given.get(&name).unwrap()));
    }
    let manager = tools.mcp_manager().unwrap();
    assert!(Arc::ptr_eq(&manager, &given.mcp_manager().unwrap()));
    let mut none = Tools::new();
    create_agent_session_from_services(
        options(None),
        &None,
        &Settings::default(),
        String::new(),
        false,
        "/w",
        &mut none,
        Some(&given),
        &vec![],
        Arc::new(3),
    );
    assert!(none.names().is_empty() && none.mcp_manager().is_none());
}

fn plan_for(
    asked: Option<&str>,
    p: &Option<Persona>,
    s: &Settings,
) -> oxicode::session_runtime::SessionPlan {
    let options = CreateAgentSessionFromServicesOptions {
        model_id: asked.map(|m| m.to_string()),
        thinking_level: None,
        scoped_models: vec![ScopedModel {
            provider: "a".to_string(),
            model_id: "b".to_string(),
        }],
    };
    let made = make(options, p, s, String::new(), false);
    assert!(made.model_fallback_message.is_none());
    made.session
}

#[test]
fn the_model_of_a_session() {
    let mut s = Settings::default();
    s.last_used_model = Some("gpt-4o".to_string());
    s.last_used_provider = Some("openai".to_string());
    let p = Some(persona("x", Some("google/gemini")));
    assert_eq!(plan_for(Some("a/b"), &p, &s).model_id, "a/b");
    assert_eq!(plan_for(None, &p, &s).model_id, "google/gemini");
    let plan = plan_for(None, &None, &s);
    assert_eq!(plan.model_id, "openai/gpt-4o");
    assert_eq!(plan.provider, "openai");
    assert!(plan.with_tools);
    assert_eq!(plan.scoped_models[0].id(), "a/b");
    assert_eq!(plan.context_window, None);
}

#[test]
fn the_agent_of_a_session() {
    let mut s = Settings::default();
    s.model_roles =
        vec![NamedValue { name: "advisor".to_string(), value: "openai/gpt-4o".to_string() }];
    let plan = plan_for(Some("a/b"), &None, &s);
    assert_eq!((plan.name.as_str(), plan.description.as_str()), ("oxicode", "oxicode CLI agent"));
    assert_eq!(plan.workspace_dir, "/w");
    assert!(plan.with_todo_list);
    let roles = plan.model_roles.unwrap();
    assert_eq!((roles[0].name.as_str(), roles[0].value.as_str()), ("advisor", "openai/gpt-4o"));
    let bare = plan_for(None, &None, &s);
    assert!(bare.model_roles.is_none());
    assert_eq!(bare.workspace_dir, "/w");
}

#[test]
fn a_session_without_a_model_is_bare() {
    let mut s = Settings::default();
    s.ttsr_enabled = true;
    s.advisor.enabled = true;
    let plan = plan_for(None, &None, &s);
    assert_eq!(plan.model_id, "");
    assert_eq!(plan.provider, "anthropic");
    assert!(!plan.with_tools && plan.scoped_models.is_empty() && !plan.start_advisor);
    assert_eq!(plan.context_window, Some(128_000));
    assert_eq!(plan.stream_rules, StreamRules::Defaults);
    let with_model = plan_for(Some("a/b"), &None, &s);
    assert!(with_model.start_advisor);
    assert_eq!(with_model.stream_rules, StreamRules::WithBuiltins(true));
    s.ttsr_interrupt_mode = "never".to_string();
    assert_eq!(
        plan_for(Some("a/b"), &None, &s).stream_rules,
        StreamRules::WithBuiltins(false)
    );
    s.auto_compaction = false;
    assert_eq!(plan_for(None, &None, &s).compaction_strategy, CompactionStrategy::Disabled);
}

#[test]
fn the_prompt_of_a_session() {
    let mut s = Settings::default();
    s.workspace_search.enabled = true;
    let asked = |model: Option<&str>| CreateAgentSessionFromServicesOptions {
        model_id: model.map(|m| m.to_string()),
        thinking_level: Some(ThinkingLevel::High),
        scoped_models: vec![],
    };
    let p = Some(persona("You review.", None));
    let made =
        make(asked(Some("a/b")), &p, &s, "MEM".to_string(), true);
    let prompt = made.session.prompt;
    assert_eq!(prompt.thinking_level, ThinkingLevel::High);
    assert_eq!(prompt.persona_prompt.as_deref(), Some("You review."));
    let appended = prompt.append_system_prompt.unwrap();
    assert!(appended.starts_with("MEM\n\nFor a workspace-grounded question"));
    assert!(appended.ends_with("They render as ASCII diagrams in the terminal."));
    let plain = plan_for(Some("a/b"), &None, &Settings::default());
    assert_eq!(plain.prompt.append_system_prompt.as_deref(), Some(TOOL_GUIDANCE));
    s.memory_enabled = false;
    let bare = make(asked(None), &None, &s, "MEM".to_string(), false);
    assert_eq!(bare.session.prompt.append_system_prompt.as_deref(), Some(TOOL_GUIDANCE));
    let full =
        make(asked(Some("a/b")), &None, &s, "MEM".to_string(), false);
    assert!(full.session.prompt.append_system_prompt.unwrap().starts_with("MEM"));
}

#[test]
fn default_persona_body_reaches_session_prompt() {
    let found = Ok(Some(persona("You are an expert focused on security.", None)));
    let resolved = resolve_default_persona(found);
    assert!(resolved.as_ref().unwrap().system_prompt.contains("security"));
    assert!(resolved.as_ref().unwrap().preferred_model.is_none());
    let prompt =
        build_system_prompt_with_memory(ThinkingLevel::Medium, None, None, None, &resolved);
    assert_eq!(
        prompt.persona_prompt.as_deref(),
        Some("You are an expert focused on security.")
    );
    let appended = prompt.append_system_prompt.unwrap();
    assert!(!appended.contains("Preferred model:") && !appended.contains("Allowed tools:"));
    let no_persona =
        build_system_prompt_with_memory(ThinkingLevel::Medium, None, None, None, &None);
    assert!(no_persona.persona_prompt.is_none());
}

#[test]
fn test_get_default_agent_dir() {
    assert_eq!(get_default_agent_dir(Some("/home/u/.oxi/oxicode")), "/home/u/.oxi/oxicode");
}

#[test]
fn the_fragment_of_the_search_is_kept_among_the_blocks() {
    let t = |s: &str| Some(s.to_string());
    for memory in [None, t("m")] {
        for read in [None, t("r")] {
            let plan = build_system_prompt_with_memory(
                ThinkingLevel::Off,
                memory.clone(),
                read.clone(),
                t("FRAGMENT"),
                &None,
            );
            assert!(plan.append_system_prompt.unwrap().contains("FRAGMENT"));
            assert!(plan.persona_prompt.is_none() && plan.skills.is_empty());
        }
    }
}

#[test]
fn blocks_are_combined() {
    let t = |s: &str| Some(s.to_string());
    assert_eq!(combine_blocks(None, None, None), None);
    assert_eq!(combine_blocks(t("m"), t("r"), t("w")), t("mr\n\nw"));
    assert_eq!(combine_blocks(None, t("r"), None), t("r"));
    assert_eq!(combine_blocks(None, None, t("w")), t("w"));
    assert_eq!(
        append_memory_and_tool_guidance(t("mem")).unwrap(),
        format!("mem{TOOL_GUIDANCE}")
    );
}

#[test]
fn the_guidance_needs_the_setting_and_the_tool() {
    let mut s = Settings::default();
    assert!(workspace_search_guidance(&s, true).is_none());
    s.workspace_search.enabled = true;
    assert!(workspace_search_guidance(&s, false).is_none());
    assert!(workspace_search_guidance(&s, true).unwrap().contains("workspace_search query"));
}

#[test]
fn directories_of_the_agent() {
    assert_eq!(get_default_agent_dir(Some("/h")), "/h");
    assert_eq!(get_default_agent_dir(None), ".oxicode");
    assert_eq!(get_default_session_dir("/h"), "/h/sessions");
    assert_eq!(session_cwd(""), None);
    assert_eq!(session_cwd("/w").as_deref(), Some("/w"));
    assert_eq!(provider_not_found("x"), "Provider 'x' not found");
}

fn rule(name: &str, ast: Option<&str>) -> StreamRule {
    StreamRule {
        name: name.to_string(),
        ast_condition: ast.map(|s| s.to_string()),
        globs: vec!["*.rs".to_string()],
        interrupt_mode: Some("always".to_string()),
    }
}

#[test]
fn syntax_rules_are_taken_out_in_order() {
    let rules = vec![rule("a", Some("p1")), rule("b", None), rule("c", Some("p2"))];
    let found = ast_rules(&rules);
    assert_eq!(found.len(), 2);
    assert_eq!((found[0].name.as_str(), found[0].pattern.as_str()), ("a", "p1"));
    assert_eq!((found[1].name.as_str(), found[1].pattern.as_str()), ("c", "p2"));
    assert_eq!(found[1].file_scope, vec!["*.rs"]);
    assert_eq!(found[1].interrupt_mode.as_deref(), Some("always"));
}

fn made(session: u8) -> CreateAgentSessionRuntimeResult<u8, u8> {
    CreateAgentSessionRuntimeResult {
        session,
        services: session,
        diagnostics: vec![AgentSessionRuntimeDiagnostic {
            severity: DiagnosticSeverity::Info,
            message: "m".to_string(),
        }],
        model_fallback_message: None,
    }
}

#[test]
fn a_session_is_replaced_only_by_one_that_was_made() {
    let bad_cwd: Result<AgentSessionRuntime<u8, u8>, String> =
        create_agent_session_runtime(Err("gone".to_string()), Ok(made(1)));
    assert_eq!(bad_cwd.err().unwrap(), "gone");
    let mut runtime = create_agent_session_runtime(Ok(()), Ok(made(1))).ok().unwrap();
    assert!(runtime.switch_session("/w", Err("gone".to_string())).is_err());
    let next = runtime.switch_session("/w", Ok(())).unwrap();
    assert_eq!(next.reason, SessionSwitchReason::Resume);
    assert_eq!(next.cwd, "/w");
    assert!(runtime.finish_replacement(Err("failed".to_string())).is_err());
    assert_eq!(runtime.session, 1);
    assert!(runtime.finish_replacement(Ok(made(2))).is_ok());
    assert_eq!((runtime.session, runtime.services), (2, 2));
    assert_eq!(runtime.diagnostics().len(), 1);
    assert_eq!((*runtime.session(), *runtime.services()), (2, 2));
    assert!(runtime.model_fallback_message().is_none());
    assert_eq!(runtime.new_session("/w").reason, SessionSwitchReason::New);
}

#[test]
fn a_fork_holds_the_history_up_to_an_entry() {
    let runtime = create_agent_session_runtime(Ok(()), Ok(made(1))).ok().unwrap();
    let mut log = SessionLog::new();
    for text in ["one", "two", "three"] {
        log.persist_user_message(text.to_string());
    }
    let ids: Vec<String> = ["a", "b", "c"].iter().map(|id| id.to_string()).collect();
    let texts = |log: &SessionLog| -> Vec<String> {
        log.entries
            .iter()
            .map(|e| match e {
                AgentMessage::User { content } => content.clone(),
                _ => String::new(),
            })
            .collect()
    };
    let (next, at) = runtime.fork(&log, &ids, "b", ForkPosition::At, "/w");
    assert_eq!((next.reason, next.cwd.as_str()), (SessionSwitchReason::Fork, "/w"));
    assert_eq!(texts(&at), vec!["one", "two"]);
    let (_, before) = runtime.fork(&log, &ids, "b", ForkPosition::Before, "/w");
    assert_eq!(texts(&before), vec!["one"]);
    let (_, none) = runtime.fork(&log, &ids, "z", ForkPosition::At, "/w");
    assert!(texts(&none).is_empty());
    assert_eq!(log.entries.len(), 3);
}

#[test]
fn an_import_needs_its_file() {
    let runtime = create_agent_session_runtime(Ok(()), Ok(made(1))).ok().unwrap();
    let err = runtime.import_from_jsonl("s.jsonl", "/cur", false, "/dir").err().unwrap();
    assert_eq!(err.file_path, "/cur/s.jsonl");
    let plan = runtime.import_from_jsonl("s.jsonl", "/cur", true, "/dir").unwrap();
    assert_eq!((plan.source.as_str(), plan.destination.as_str()), ("/cur/s.jsonl", "/dir/s.jsonl"));
    assert!(plan.copy);
    let same = runtime.import_from_jsonl("/dir/s.jsonl", "/cur", true, "/dir").unwrap();
    assert!(!same.copy);
    let odd = runtime.import_from_jsonl("/dir//./s.jsonl", "/cur", true, "/dir/").unwrap();
    assert!(!odd.copy);
    assert_eq!(odd.destination, "/dir/s.jsonl");
    let nameless = runtime.import_from_jsonl("..", "/cur", true, "/dir").unwrap();
    assert_eq!(nameless.destination, "/dir/");
}

#[test]
fn a_session_that_ends_is_summed_up() {
    let mut session = AgentSession::new(
        "a/b".to_string(),
        vec![],
        Settings::default(),
        SessionLog::new(),
        "s1".to_string(),
        None,
        "/w".to_string(),
        SessionQueues::new(),
        false,
        &vec![],
    );
    for text in ["a", "b"] {
        session.messages.push(Message::user(text.to_string()));
    }
    let short = teardown_current(&mut session, true, false);
    assert!(short.summary.is_none() && !short.tell_hooks);
    for text in ["a", "b", "c"] {
        session.messages.push(Message::user(text.to_string()));
    }
    let long = teardown_current(&mut session, true, true);
    assert_eq!(long.summary.as_deref(), Some("Session s1: 3 messages"));
    assert!(long.tell_hooks);
    assert!(session.messages.is_empty());
}
