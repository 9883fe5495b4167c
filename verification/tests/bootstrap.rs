use oxicode::bootstrap::{
    all_hooks, apply_thinking, build_app, check_model, count_occurrences, custom_provider_api,
    decide_project_hooks, dispatch_run_mode, fetch_and_register_models, is_tui_mode,
    load_wasm_extensions, ownership_id_with, parse_pin_tier, parse_router_thinking,
    proc_ownership_id, process_identity, project_hooks, provider_to_refresh,
    register_builtin_tools, register_custom_providers, register_router_provider, router_profile,
    servers_to_sign_in, tool_names, tui_ownership_id, BootStep, CliArgs, CustomApi, HookDecision, KnownModel,
    ModelCheck, PrintMode, ProfileConfig, ProjectHooks, RouterStoreConfig, RouterTier, RunPlan, TierConfig, ToolServer,
};
use oxicode::settings::{CustomProvider, HookSpec, Settings, ThinkingLevel};
use oxicode::tools::grep::GrepTool;
use oxicode::tools::registry::ToolRegistry;
use std::sync::Arc;

fn args() -> CliArgs {
    CliArgs {
        model: None,
        provider: None,
        mode: None,
        print: false,
        interactive: false,
        no_session: false,
        prompt: vec![String::new()],
        timeout: None,
        thinking: None,
        tools: None,
        append_system_prompt: None,
    }
}

fn in_mode(mode: &str) -> CliArgs {
    let mut a = args();
    a.mode = Some(mode.to_string());
    a
}

fn with_prompt(words: &[&str]) -> CliArgs {
    let mut a = args();
    a.prompt = words.iter().map(|w| w.to_string()).collect();
    a
}

#[test]
fn rpc_mode_is_headless() {
    assert!(!is_tui_mode(&in_mode("rpc")));
}

#[test]
fn which_runs_are_interactive() {
    assert!(is_tui_mode(&args()));
    assert!(!is_tui_mode(&in_mode("json")));
    assert!(!is_tui_mode(&with_prompt(&["do", "it"])));
    let mut a = with_prompt(&["do", "it"]);
    a.interactive = true;
    assert!(is_tui_mode(&a));
    a.print = true;
    assert!(!is_tui_mode(&a));
}

#[test]
fn runs_are_dispatched() {
    assert!(matches!(dispatch_run_mode(&args()), Ok(RunPlan::Tui)));
    assert!(matches!(dispatch_run_mode(&in_mode("rpc")), Ok(RunPlan::Rpc)));
    assert_eq!(dispatch_run_mode(&in_mode("x")).err().unwrap(), "Unknown run mode: x");
    match dispatch_run_mode(&with_prompt(&["do", "it"])) {
        Ok(RunPlan::SinglePrompt { prompt }) => assert_eq!(prompt, "do it"),
        other => panic!("a single prompt was expected, not {other:?}"),
    }
    let mut a = with_prompt(&["do", "it"]);
    a.print = true;
    a.timeout = Some(9);
    match dispatch_run_mode(&a) {
        Ok(RunPlan::Print(o)) => {
            assert_eq!(o.mode, PrintMode::Text);
            assert_eq!(o.initial_message.as_deref(), Some("do it"));
            assert!(o.no_stdin && o.no_session && o.quiet);
            assert_eq!(o.timeout, Some(9));
        }
        other => panic!("printing was expected, not {other:?}"),
    }
    match dispatch_run_mode(&in_mode("json")) {
        Ok(RunPlan::Print(o)) => {
            assert_eq!(o.mode, PrintMode::Json);
            assert!(o.initial_message.is_none() && !o.no_session);
        }
        other => panic!("printing was expected, not {other:?}"),
    }
}

#[test]
fn empty_hooks_does_not_block() {
    let s = Settings::default();
    assert!(s.hooks.is_empty());
    assert!(all_hooks(s.hooks, vec![]).is_empty());
}

fn hook(command: &str) -> HookSpec {
    HookSpec {
        event: "PreToolUse".to_string(),
        matcher: None,
        command: command.to_string(),
        timeout_secs: None,
    }
}

#[test]
fn hooks_of_the_user_come_first() {
    let all = all_hooks(vec![hook("a")], vec![hook("b")]);
    assert_eq!(all[0].command, "a");
    assert_eq!(all[1].command, "b");
}

#[test]
fn hooks_of_a_project_run_where_the_user_agrees() {
    let parsed = || Some(vec![hook("p")]);
    assert_eq!(project_hooks(HookDecision::Use, false, parsed()).len(), 1);
    assert_eq!(project_hooks(HookDecision::Ask(1), true, parsed()).len(), 1);
    assert!(project_hooks(HookDecision::Ask(1), false, parsed()).is_empty());
    assert!(project_hooks(HookDecision::Skip, true, parsed()).is_empty());
    assert!(project_hooks(HookDecision::Use, true, None).is_empty());
}

#[test]
fn hooks_of_a_project_need_approval() {
    let content = "[[hooks]]\nx = 1\n[[hooks]]\n";
    assert_eq!(count_occurrences(content, "[[hooks]]"), 2);
    assert_eq!(count_occurrences("aaaa", "aa"), 2);
    assert_eq!(count_occurrences("", "aa"), 0);
    assert_eq!(decide_project_hooks(true, "", false), HookDecision::Use);
    assert_eq!(decide_project_hooks(false, content, true), HookDecision::Ask(2));
    assert_eq!(decide_project_hooks(false, content, false), HookDecision::Skip);
    assert_eq!(decide_project_hooks(false, "", true), HookDecision::Skip);
}

#[test]
fn tui_ownership_ids_are_unique_and_prefixed() {
    let a = tui_ownership_id(42);
    let b = tui_ownership_id(42);
    assert!(a.starts_with("tui-"), "prefix missing: {a}");
    assert!(b.starts_with("tui-"), "prefix missing: {b}");
    assert_ne!(a, b, "ids must be unique per call (pid + uuid)");
    assert!(!a.contains(' '), "no whitespace: {a}");
    assert!(a.starts_with("tui-42-"));
    assert_eq!(a.len(), "tui-42-".len() + 32);
}

#[test]
fn identities_of_other_processes() {
    let id = proc_ownership_id(7);
    assert!(id.starts_with("proc-7-"));
    assert!(id["proc-7-".len()..].chars().all(|c| c.is_ascii_hexdigit() && !c.is_uppercase()));
    assert_eq!(ownership_id_with("tui", 1, "ab"), "tui-1-ab");
    assert!(process_identity(&args(), 5).starts_with("tui-5-"));
    assert!(process_identity(&in_mode("rpc"), 5).starts_with("proc-5-"));
}

#[test]
fn a_run_needs_a_model() {
    let mut s = Settings::default();
    assert!(matches!(check_model(&s, true, false), ModelCheck::RunSetup));
    match check_model(&s, true, true) {
        ModelCheck::Fail { message } => {
            assert_eq!(message, "No model configured. Run `oxicode setup` to configure.");
        }
        other => panic!("a failure was expected, not {other:?}"),
    }
    assert!(matches!(check_model(&s, false, false), ModelCheck::Fail { .. }));
    s.last_used_model = Some("m".to_string());
    assert!(matches!(check_model(&s, false, false), ModelCheck::Ready));
}

#[test]
fn the_thinking_level_of_the_command_line() {
    let mut s = Settings::default();
    assert!(apply_thinking(&mut s, "HIGH").is_ok());
    assert_eq!(s.thinking_level, ThinkingLevel::High);
    assert_eq!(
        apply_thinking(&mut s, "huge").err().unwrap(),
        "Invalid thinking level: huge. Valid options: off, minimal, low, medium, high, xhigh"
    );
    assert_eq!(s.thinking_level, ThinkingLevel::High);
}

#[test]
fn the_start_of_the_program() {
    assert!(matches!(build_app(Settings::default(), &args(), false, vec![], None), BootStep::RunSetup));
    assert!(matches!(build_app(Settings::default(), &args(), true, vec![], None), BootStep::Fail { .. }));
    let mut a = args();
    a.model = Some("a/b".to_string());
    a.thinking = Some("low".to_string());
    a.tools = Some("read, grep".to_string());
    match build_app(Settings::default(), &a, false, vec![], None) {
        BootStep::Build {
            settings,
            tui,
            selected_tools,
            refreshed_provider,
            system_prompt_file,
            hooks,
        } => {
            assert!(system_prompt_file.is_none() && refreshed_provider.is_none());
            assert!(tui && hooks.is_empty());
            assert_eq!(settings.effective_model(None).as_deref(), Some("a/b"));
            assert_eq!(settings.thinking_level, ThinkingLevel::Low);
            assert_eq!(selected_tools.unwrap(), vec!["read", "grep"]);
        }
        other => panic!("a build was expected, not {other:?}"),
    }
    a.thinking = Some("huge".to_string());
    assert!(matches!(build_app(Settings::default(), &a, false, vec![], None), BootStep::Fail { .. }));
}

fn booted(stored: &str, model: Option<&str>, provider: Option<&str>) -> Settings {
    let mut s = Settings::default();
    s.save_last_used(stored);
    let mut a = args();
    a.model = model.map(|m| m.to_string());
    a.provider = provider.map(|p| p.to_string());
    match build_app(s, &a, false, vec![], None) {
        BootStep::Build { settings, .. } => settings,
        other => panic!("a build was expected, not {other:?}"),
    }
}

#[test]
fn the_model_of_the_command_line_is_used() {
    let used = |s: Settings| s.effective_model(None).unwrap();
    assert_eq!(used(booted("x/y", Some("a/b"), None)), "a/b");
    assert_eq!(used(booted("x/y", Some("a/b/c"), None)), "a/b/c");
    assert_eq!(used(booted("x/y", Some("b"), None)), "x/b");
    assert_eq!(used(booted("x/y", Some("a/b"), Some("a"))), "a/b");
    assert_eq!(used(booted("x/y", Some("b/c"), Some("a"))), "a/b/c");
    assert_eq!(used(booted("x/y", None, None)), "x/y");
    assert_eq!(used(booted("x/y", None, Some("a"))), "a/y");
}

fn installed(approved: bool, agreed: bool, tui: bool) -> Vec<String> {
    let mut a = args();
    a.model = Some("a/b".to_string());
    a.print = !tui;
    assert_eq!(is_tui_mode(&a), tui);
    let project = ProjectHooks {
        content: "[[hooks]]\ncommand = \"theirs\"\n".to_string(),
        parsed: Some(vec![hook("theirs")]),
        approved,
        agreed,
    };
    match build_app(Settings::default(), &a, false, vec![hook("mine")], Some(project)) {
        BootStep::Build { hooks, .. } => hooks.into_iter().map(|h| h.command).collect(),
        other => panic!("a build was expected, not {other:?}"),
    }
}

#[test]
fn unapproved_hooks_are_not_installed() {
    assert_eq!(installed(true, false, false), vec!["mine", "theirs"]);
    assert_eq!(installed(false, true, true), vec!["mine", "theirs"]);
    assert_eq!(installed(false, false, true), vec!["mine"]);
    assert_eq!(installed(false, true, false), vec!["mine"]);
    assert_eq!(installed(false, false, false), vec!["mine"]);
}

fn provider(api: &str) -> CustomProvider {
    CustomProvider {
        name: "mine".to_string(),
        base_url: "https://x/v1".to_string(),
        api_key_env: "K".to_string(),
        api: api.to_string(),
    }
}

#[test]
fn the_api_of_a_custom_provider() {
    assert_eq!(custom_provider_api(&provider("OpenAI")), Ok(CustomApi::OpenAiCompletions));
    assert_eq!(
        custom_provider_api(&provider("openai-completions")),
        Ok(CustomApi::OpenAiCompletions)
    );
    assert_eq!(custom_provider_api(&provider("Responses")), Ok(CustomApi::OpenAiResponses));
    assert_eq!(
        custom_provider_api(&provider("Foo")).err().unwrap(),
        "Unknown API type 'Foo' for custom provider 'mine'. Supported: openai-completions, openai-responses"
    );
}

#[test]
fn models_of_a_custom_provider() {
    let known = KnownModel { reasoning: true, context_window: 200_000, max_tokens: 64_000 };
    let models = fetch_and_register_models(
        &provider("openai"),
        None,
        &vec!["a".to_string(), "b".to_string()],
        &vec![Some(known), None],
    );
    assert_eq!((models[0].context_window, models[0].max_tokens), (200_000, 64_000));
    assert!(models[0].reasoning && !models[1].reasoning);
    assert_eq!((models[1].context_window, models[1].max_tokens), (128_000, 8_192));
    assert_eq!(models[1].api, CustomApi::OpenAiCompletions);
    assert_eq!((models[1].id.as_str(), models[1].provider.as_str()), ("b", "mine"));
}

#[test]
fn names_of_tools_are_trimmed() {
    assert_eq!(tool_names(" read ,grep,,"), vec!["read", "grep", "", ""]);
}

#[test]
fn built_in_tools_bring_their_manager() {
    let mut run: ToolRegistry<GrepTool, u8> = ToolRegistry::new();
    let all = vec![Arc::new(GrepTool::new())];
    register_builtin_tools(&mut run, &all, &None, &vec![], Arc::new(3), None);
    assert!(run.get("grep").is_some());
    assert_eq!(*run.mcp_manager().unwrap(), 3);
}

#[test]
fn selected_tools_come_without_a_manager() {
    let all = vec![Arc::new(GrepTool::new())];
    let mut run: ToolRegistry<GrepTool, u8> = ToolRegistry::new();
    register_builtin_tools(&mut run, &all, &Some(tool_names("read")), &vec![], Arc::new(3), None);
    assert!(run.get("grep").is_none() && run.mcp_manager().is_none());
    let own = Arc::new(GrepTool::with_cwd("/c".to_string()));
    let named = Some(tool_names("grep"));
    register_builtin_tools(&mut run, &all, &named, &vec![], Arc::new(3), Some(own));
    assert_eq!(run.get("grep").unwrap().root_dir.as_deref(), Some("/c"));
}

#[test]
fn servers_that_need_a_sign_in() {
    let server = |name: &str, oauth: Option<u8>| ToolServer { name: name.to_string(), oauth };
    let all = || vec![server("a", Some(1)), server("b", None), server("c", Some(3))];
    assert_eq!(
        servers_to_sign_in(all(), true).unwrap(),
        vec![("a".to_string(), 1), ("c".to_string(), 3)]
    );
    assert!(servers_to_sign_in(all(), false).is_none());
    assert!(servers_to_sign_in(vec![server("b", None)], true).is_none());
}

#[test]
fn the_prompt_of_a_file_and_the_provider_of_the_command_line() {
    let mut a = args();
    a.append_system_prompt = Some("p.md".to_string());
    a.provider = Some("openai".to_string());
    a.model = Some("m".to_string());
    match build_app(Settings::default(), &a, false, vec![], None) {
        BootStep::Build { refreshed_provider, system_prompt_file, .. } => {
            assert_eq!(refreshed_provider.as_deref(), Some("openai"));
            assert_eq!(system_prompt_file.as_deref(), Some("p.md"));
        }
        _ => panic!("the program was expected to be built"),
    }
}

#[test]
fn custom_providers_are_registered_in_order() {
    let mut s = Settings::default();
    s.custom_providers = vec![provider("Responses"), provider("Foo")];
    let made = register_custom_providers(&s, &vec![true, false]);
    assert_eq!(made.len(), 2);
    assert_eq!(made[0].api, Ok(CustomApi::OpenAiResponses));
    assert!(made[0].fetch_models && !made[1].fetch_models);
    assert!(made[1].api.is_err());
    assert_eq!((made[0].name.as_str(), made[0].base_url.as_str()), ("mine", "https://x/v1"));
}

#[test]
fn extensions_must_be_on_found_and_loaded() {
    assert!(load_wasm_extensions(true, 2, 1));
    assert!(!load_wasm_extensions(false, 2, 1));
    assert!(!load_wasm_extensions(true, 0, 0));
    assert!(!load_wasm_extensions(true, 2, 0));
}

fn tier(model: &str, thinking: Option<&str>) -> TierConfig {
    TierConfig {
        model: model.to_string(),
        thinking: thinking.map(|t| t.to_string()),
        fallbacks: vec!["f".to_string()],
    }
}

#[test]
fn routers_are_configured() {
    let profile = router_profile(ProfileConfig {
        name: "p".to_string(),
        high: tier("h", Some("xhigh")),
        medium: tier("m", Some("Medium")),
        low: tier("l", None),
    });
    assert_eq!(profile.high.thinking, Some(ThinkingLevel::XHigh));
    assert_eq!(profile.medium.thinking, None);
    assert_eq!(profile.low.thinking, None);
    assert_eq!(profile.low.fallbacks, vec!["f"]);
    for (word, level) in [
        ("off", ThinkingLevel::Off),
        ("minimal", ThinkingLevel::Minimal),
        ("low", ThinkingLevel::Low),
        ("medium", ThinkingLevel::Medium),
        ("high", ThinkingLevel::High),
    ] {
        assert_eq!(parse_router_thinking(&Some(word.to_string())), Some(level));
    }
    assert!(register_router_provider(None).is_none());
    let plan = register_router_provider(Some(RouterStoreConfig {
        default_profile: "p".to_string(),
        classifier_model: None,
        profiles: vec![
            ProfileConfig {
                name: "p".to_string(),
                high: tier("h", None),
                medium: tier("m", None),
                low: tier("l", Some("low")),
            },
            ProfileConfig {
                name: "q".to_string(),
                high: tier("h", None),
                medium: tier("m", None),
                low: tier("l", None),
            },
        ],
        pin_tier: Some("low".to_string()),
    }))
    .unwrap();
    assert_eq!((plan.model_id.as_str(), plan.provider.as_str()), ("auto", "router"));
    assert_eq!(plan.model_name, "Router (auto)");
    assert_eq!(plan.profiles[0].name, "p");
    assert_eq!(plan.profiles[0].low.thinking, Some(ThinkingLevel::Low));
    assert_eq!(plan.profiles[1].name, "q");
    assert_eq!(plan.pin_tier, Some(RouterTier::Low));
    assert_eq!(parse_pin_tier(Some("high")), Some(RouterTier::High));
    assert_eq!(parse_pin_tier(Some("medium")), Some(RouterTier::Medium));
    assert_eq!(parse_pin_tier(Some("low")), Some(RouterTier::Low));
    assert_eq!(parse_pin_tier(Some("top")), None);
    assert_eq!(parse_pin_tier(None), None);
}

#[test]
fn credentials_are_refreshed_for_a_provider() {
    let mut s = Settings::default();
    assert_eq!(provider_to_refresh(&s, None), None);
    assert_eq!(provider_to_refresh(&s, Some("")), None);
    s.last_used_provider = Some("openai".to_string());
    assert_eq!(provider_to_refresh(&s, None).as_deref(), Some("openai"));
}
