use oxicode::settings::{
    default_custom_provider_api, default_false, default_session_history_size, default_true,
    parse_boolish, parse_thinking_level, AdvisorSettings, CustomProvider, EditFormat, GlyphSet,
    ProjectLevel, Settings, SettingsFiles, SettingsFormat, Temperature, ThinkingLevel,
    TodoEagerMode, WorkspaceSearchSettings, SETTINGS_VERSION,
};

const NONE: SettingsFiles = SettingsFiles { json: false, toml: false };
const JSON: SettingsFiles = SettingsFiles { json: true, toml: false };
const TOML: SettingsFiles = SettingsFiles { json: false, toml: true };
const BOTH: SettingsFiles = SettingsFiles { json: true, toml: true };

#[test]
fn resolve_settings_path_prefers_canonical() {
    let got = Settings::resolve_settings_path_in("/c", TOML, Some(("/l", JSON)), true);
    assert_eq!(got, "/c/settings.toml");
}

#[test]
fn resolve_settings_path_falls_back_to_legacy() {
    let json = Settings::resolve_settings_path_in("/c", NONE, Some(("/l", BOTH)), true);
    assert_eq!(json, "/l/settings.json");
    let toml = Settings::resolve_settings_path_in("/c", NONE, Some(("/l", BOTH)), false);
    assert_eq!(toml, "/l/settings.toml");
}

#[test]
fn resolve_settings_path_defaults_to_canonical() {
    let got = Settings::resolve_settings_path_in("/c", NONE, None, true);
    assert_eq!(got, "/c/settings.json");
    let empty = Settings::resolve_settings_path_in("/c", NONE, Some(("/l", NONE)), false);
    assert_eq!(empty, "/c/settings.toml");
}

#[test]
fn save_targets_canonical_dir() {
    let json = Settings::resolve_settings_path_in("/c", TOML, None, true);
    assert_eq!(json, "/c/settings.toml");
    assert_eq!(Settings::canonical_settings_path("/c", TOML), "/c/settings.toml");
    assert_eq!(Settings::canonical_settings_path("/c", BOTH), "/c/settings.json");
    assert_eq!(Settings::canonical_settings_path("/c", NONE), "/c/settings.json");
}

#[test]
fn paths_of_the_settings() {
    assert_eq!(Settings::settings_json_path("/c"), "/c/settings.json");
    assert_eq!(Settings::settings_toml_path("/c/"), "/c/settings.toml");
    assert_eq!(Settings::settings_path("/c", BOTH, None), "/c/settings.json");
    assert_eq!(
        Settings::settings_path_with_preference("/c", BOTH, None, false),
        "/c/settings.toml"
    );
}

#[test]
fn workspace_search_defaults_to_disabled() {
    let s = Settings::default();
    assert!(!s.workspace_search.enabled);
    assert_eq!(s.workspace_search.space, "dev");
    assert!(s.workspace_search.executable.is_none());
    let w = WorkspaceSearchSettings::default();
    assert!(w.include_globs.is_none() && w.exclude_globs.is_none() && w.max_file_bytes.is_none());
}

#[test]
fn todo_settings_default_preserve_current_behavior() {
    let s = Settings::default();
    assert_eq!(s.todo_eager_mode, TodoEagerMode::Off);
    assert!(s.todo_reminders_enabled);
    assert_eq!(s.todo_reminders_max, 3);
    assert_eq!(s.todo_clear_delay_secs, 60);
}

#[test]
fn test_default_settings() {
    let settings = Settings::default();
    assert_eq!(settings.version, SETTINGS_VERSION);
    assert_eq!(settings.thinking_level, ThinkingLevel::Medium);
    assert_eq!(settings.theme, "default");
    assert!(settings.last_used_model.is_none());
    assert!(settings.last_used_provider.is_none());
    assert!(settings.extensions_enabled);
    assert!(settings.auto_compaction);
    assert_eq!(settings.tool_timeout_seconds, 120);
}

#[test]
fn the_other_defaults() {
    let s = Settings::default();
    assert_eq!(SETTINGS_VERSION, 10);
    assert_eq!(s.session_history_size, default_session_history_size());
    assert_eq!(s.session_history_size, 100);
    assert_eq!(s.ask_timeout_secs, 0);
    assert_eq!(s.edit_format, EditFormat::Hashline);
    assert_eq!(EditFormat::default(), EditFormat::Hashline);
    assert_eq!(ThinkingLevel::default(), ThinkingLevel::Off);
    assert!(s.inline_images && s.mermaid_render_enabled && s.agent_hub_enabled);
    assert!(s.memory_enabled && s.todo_panel_enabled);
    assert!(!s.snapcompact_enabled && !s.commit_tool_enabled && !s.bash_pty && !s.ttsr_enabled);
    assert_eq!(s.ttsr_interrupt_mode, "prose_only");
    let a = AdvisorSettings::default();
    assert!(!a.enabled);
    assert_eq!((a.sync_backlog.as_str(), a.immune_turns), ("off", 0));
    assert!(default_true() && !default_false());
}

#[test]
fn test_merge_cli() {
    let mut settings = Settings::default();
    settings.last_used_model = Some("gpt-4o".to_string());

    settings.merge_cli(Some("sonnet".to_string()), None);
    assert_eq!(settings.last_used_model, Some("sonnet".to_string()));

    settings.merge_cli(None, Some("google".to_string()));
    assert_eq!(settings.last_used_provider, Some("google".to_string()));
}

#[test]
fn test_from_env() {
    let settings = Settings::from_env();
    assert_eq!(settings.last_used_model, None);
    assert_eq!(settings.theme, "default");
    assert_eq!(settings.tool_timeout_seconds, 120);
}

#[test]
fn test_apply_env_boolish() {
    let mut settings = Settings::default();
    settings.apply_env();
    assert!(settings.extensions_enabled);
}

#[test]
fn test_apply_env_temperature() {
    let mut settings = Settings::default();
    settings.apply_env();
    assert_eq!(settings.default_temperature, None);
}

#[test]
fn test_env_does_not_override_when_unset() {
    let settings = Settings::from_env();
    assert!(settings.last_used_model.is_none());
    assert!(settings.last_used_provider.is_none());
}

#[test]
fn test_parse_thinking_level() {
    assert_eq!(parse_thinking_level("off"), Some(ThinkingLevel::Off));
    assert_eq!(parse_thinking_level("none"), Some(ThinkingLevel::Off));
    assert_eq!(parse_thinking_level("MINIMAL"), Some(ThinkingLevel::Minimal));
    assert_eq!(parse_thinking_level("Low"), Some(ThinkingLevel::Low));
    assert_eq!(parse_thinking_level("medium"), Some(ThinkingLevel::Medium));
    assert_eq!(parse_thinking_level("Medium"), Some(ThinkingLevel::Medium));
    assert_eq!(parse_thinking_level("Standard"), Some(ThinkingLevel::Medium));
    assert_eq!(parse_thinking_level("High"), Some(ThinkingLevel::High));
    assert_eq!(parse_thinking_level("thorough"), Some(ThinkingLevel::High));
    assert_eq!(parse_thinking_level("xhigh"), Some(ThinkingLevel::XHigh));
    assert_eq!(parse_thinking_level("invalid"), None);
}

#[test]
fn test_parse_boolish() {
    assert!(parse_boolish("true").unwrap());
    assert!(parse_boolish("1").unwrap());
    assert!(parse_boolish("yes").unwrap());
    assert!(parse_boolish("ON").unwrap());
    assert!(!parse_boolish("false").unwrap());
    assert!(!parse_boolish("0").unwrap());
    assert!(!parse_boolish("no").unwrap());
    assert!(!parse_boolish("OFF").unwrap());
    assert!(parse_boolish("maybe").is_err());
    assert_eq!(parse_boolish("Maybe").err().unwrap(), "Cannot parse 'Maybe' as boolean");
}

#[test]
fn test_effective_model_returns_last_used() {
    let mut settings = Settings::default();
    settings.last_used_model = Some("openai/gpt-4o".to_string());
    assert_eq!(settings.effective_model(None), Some("openai/gpt-4o".to_string()));
}

#[test]
fn test_effective_model_cli_overrides() {
    let mut settings = Settings::default();
    settings.last_used_model = Some("openai/gpt-4o".to_string());
    assert_eq!(
        settings.effective_model(Some("anthropic/sonnet-3")),
        Some("anthropic/sonnet-3".to_string())
    );
}

#[test]
fn test_effective_model_none_when_unset() {
    let settings = Settings::default();
    assert_eq!(settings.effective_model(None), None);
}

#[test]
fn test_effective_model_falls_back_to_last_used() {
    let mut settings = Settings::default();
    settings.last_used_model = Some("anthropic/sonnet-3".to_string());
    assert_eq!(settings.effective_model(None), Some("anthropic/sonnet-3".to_string()));
}

#[test]
fn test_effective_model_returns_none_when_nothing_set() {
    let settings = Settings::default();
    assert_eq!(settings.effective_model(None), None);
}

#[test]
fn a_model_goes_under_its_provider() {
    let mut settings = Settings::default();
    settings.save_last_used("anthropic/sonnet-3");
    assert_eq!(settings.last_used_provider.as_deref(), Some("anthropic"));
    assert_eq!(settings.last_used_model.as_deref(), Some("sonnet-3"));
    assert_eq!(settings.effective_model(None).as_deref(), Some("anthropic/sonnet-3"));
    assert_eq!(settings.effective_provider(None).as_deref(), Some("anthropic"));
    assert_eq!(settings.effective_provider(Some("x")).as_deref(), Some("x"));
    settings.save_last_used("bare");
    assert_eq!(settings.effective_model(None).as_deref(), Some("anthropic/bare"));
    settings.last_used_provider = None;
    assert_eq!(settings.effective_model(None).as_deref(), Some("bare"));
}

#[test]
fn a_model_identifier_comes_back_as_it_was_saved() {
    for id in ["openrouter/meta-llama/llama-3", "openrouter/openrouter/auto", "openai/gpt-4o"] {
        let mut settings = Settings::default();
        settings.save_last_used(id);
        assert_eq!(settings.effective_model(None).as_deref(), Some(id));
    }
    let mut settings = Settings::default();
    settings.last_used_provider = Some("openrouter".to_string());
    settings.last_used_model = Some("meta-llama/llama-3".to_string());
    assert_eq!(settings.effective_model(None).as_deref(), Some("openrouter/meta-llama/llama-3"));
}

#[test]
fn the_command_line_comes_before_what_is_stored() {
    let merged = |model: Option<&str>, provider: Option<&str>| {
        let mut settings = Settings::default();
        settings.save_last_used("anthropic/sonnet-3");
        settings.merge_cli(model.map(|m| m.to_string()), provider.map(|p| p.to_string()));
        settings.effective_model(None).unwrap()
    };
    assert_eq!(merged(Some("openai/gpt-4o"), None), "openai/gpt-4o");
    assert_eq!(merged(Some("openrouter/a/b"), None), "openrouter/a/b");
    assert_eq!(merged(Some("openai/gpt-4o"), Some("openai")), "openai/gpt-4o");
    assert_eq!(merged(Some("gpt-4o"), Some("openai")), "openai/gpt-4o");
    assert_eq!(merged(Some("other"), None), "anthropic/other");
    assert_eq!(merged(None, None), "anthropic/sonnet-3");
}

#[test]
fn the_name_of_a_thinking_level_is_read_back() {
    for level in [
        ThinkingLevel::Off,
        ThinkingLevel::Minimal,
        ThinkingLevel::Low,
        ThinkingLevel::Medium,
        ThinkingLevel::High,
        ThinkingLevel::XHigh,
    ] {
        let name = oxicode::agent_session::stored_level_name(level);
        assert_eq!(parse_thinking_level(&name), Some(level));
        assert_eq!(parse_thinking_level(&name.to_uppercase()), Some(level));
        assert_eq!(parse_thinking_level(&format!("{level:?}")), Some(level));
    }
}

fn shown(t: Option<Temperature>) -> Option<f64> {
    match t {
        Some(Temperature::Double(bits)) => Some(f64::from_bits(bits)),
        Some(Temperature::Single(bits)) => Some(f64::from(f32::from_bits(bits))),
        None => None,
    }
}

#[test]
fn test_effective_temperature_prefers_f64() {
    let mut settings = Settings::default();
    settings.temperature = Some(0.5f32.to_bits());
    settings.default_temperature = Some(0.7f64.to_bits());
    assert_eq!(shown(settings.effective_temperature()), Some(0.7));
}

#[test]
fn test_effective_temperature_falls_back_to_f32() {
    let mut settings = Settings::default();
    assert_eq!(settings.effective_temperature(), None);
    settings.temperature = Some(0.5f32.to_bits());
    assert_eq!(shown(settings.effective_temperature()), Some(0.5));
}

#[test]
fn test_effective_max_tokens_prefers_usize() {
    let mut settings = Settings::default();
    settings.max_tokens = Some(1024);
    settings.max_response_tokens = Some(4096);
    assert_eq!(settings.effective_max_tokens(), Some(4096));
}

#[test]
fn test_effective_max_tokens_falls_back_to_u32() {
    let mut settings = Settings::default();
    settings.max_tokens = Some(1024);
    assert_eq!(settings.effective_max_tokens(), Some(1024));
}

#[test]
fn test_effective_session_dir_default() {
    let settings = Settings::default();
    let dir = settings.effective_session_dir("/h");
    assert!(dir.ends_with("sessions"), "dir was: {:?}", dir);
    assert_eq!(dir, "/h/sessions");
}

#[test]
fn test_effective_session_dir_from_field() {
    let mut settings = Settings::default();
    settings.session_dir = Some("/tmp/oxicode-sessions".to_string());
    assert_eq!(settings.effective_session_dir("/h"), "/tmp/oxicode-sessions");
}

#[test]
fn test_migration_v0_to_v1() {
    let mut settings = Settings::default();
    settings.version = 0;
    settings.tool_timeout_seconds = 0;

    let migrated = Settings::migrate(settings).unwrap();
    assert_eq!(migrated.version, SETTINGS_VERSION);
    assert_eq!(migrated.tool_timeout_seconds, 120);
}

#[test]
fn test_migration_already_current() {
    let settings = Settings::default();
    let migrated = Settings::migrate(settings).unwrap();
    assert_eq!(migrated.version, SETTINGS_VERSION);
}

#[test]
fn test_migration_v3_to_v4_splits_model() {
    let mut settings = Settings::default();
    settings.version = 3;
    settings.default_model = Some("openai/gpt-4o".to_string());
    settings.default_provider = None;

    let migrated = Settings::migrate(settings).unwrap();
    assert_eq!(migrated.version, SETTINGS_VERSION);
    assert_eq!(migrated.last_used_model, Some("gpt-4o".to_string()));
    assert_eq!(migrated.last_used_provider, Some("openai".to_string()));
    assert!(migrated.default_model.is_none());
}

#[test]
fn test_migration_v3_no_slash_keeps_model() {
    let mut settings = Settings::default();
    settings.version = 3;
    settings.default_model = Some("bare-model-name".to_string());

    let migrated = Settings::migrate(settings).unwrap();
    assert_eq!(migrated.version, SETTINGS_VERSION);
    assert_eq!(migrated.last_used_model, Some("bare-model-name".to_string()));
}

#[test]
fn test_migration_future_version_fails() {
    let mut settings = Settings::default();
    settings.version = 9999;
    let err = Settings::migrate(settings).err();
    assert!(err.is_some());
    assert_eq!(
        err.unwrap(),
        "Settings version 9999 is newer than supported version 10. Please update oxicode."
    );
}

#[test]
fn every_older_version_is_brought_up_to_date_once() {
    for version in 0..=SETTINGS_VERSION {
        let mut settings = Settings::default();
        settings.version = version;
        settings.tool_timeout_seconds = 7;
        let once = Settings::migrate(settings).unwrap();
        assert_eq!(once.version, SETTINGS_VERSION);
        assert_eq!(once.tool_timeout_seconds, 7);
        let shown = format!("{once:?}");
        let twice = Settings::migrate(once).unwrap();
        assert_eq!(format!("{twice:?}"), shown);
    }
}

#[test]
fn test_default_glyph_set_is_unicode() {
    let settings = Settings::default();
    assert_eq!(settings.glyph_set, GlyphSet::Unicode, "glyph_set must default to Unicode");
}

#[test]
fn test_migration_v7_to_v8_defaults_glyph_set_to_unicode() {
    let mut settings = Settings::default();
    settings.version = 7;
    settings.glyph_set = GlyphSet::default();

    let migrated = Settings::migrate(settings).unwrap();
    assert_eq!(migrated.version, SETTINGS_VERSION);
    assert_eq!(
        migrated.glyph_set,
        GlyphSet::Unicode,
        "v7 → v8 migration must default glyph_set to unicode"
    );
}

fn level(dir: &str, files: SettingsFiles) -> ProjectLevel {
    ProjectLevel { dir: dir.to_string(), files, is_repo_root: false }
}

#[test]
fn test_find_project_settings_json_priority() {
    let found = Settings::find_project_settings(&vec![level("/p", BOTH), level("/", NONE)]);
    assert!(found.is_some());
    assert_eq!(found.unwrap(), "/p/.oxicode/settings.json");
}

#[test]
fn test_find_project_settings_json_only() {
    let found = Settings::find_project_settings(&vec![level("/p", JSON)]);
    assert!(found.is_some());
    assert_eq!(found.unwrap(), "/p/.oxicode/settings.json");
}

#[test]
fn test_find_project_settings_toml_fallback() {
    let found = Settings::find_project_settings(&vec![level("/p", TOML)]);
    assert!(found.is_some());
    assert_eq!(found.unwrap(), "/p/.oxicode/settings.toml");
}

#[test]
fn the_nearest_project_settings_are_found() {
    let up = vec![level("/a/b", NONE), level("/a", TOML), level("/", JSON)];
    assert_eq!(Settings::find_project_settings(&up).unwrap(), "/a/.oxicode/settings.toml");
    assert!(Settings::find_project_settings(&vec![level("/a", NONE)]).is_none());
    assert!(Settings::find_project_settings(&vec![]).is_none());
}

#[test]
fn the_search_for_project_settings_ends_at_the_repository() {
    let mut up = vec![level("/a/b", NONE), level("/a", NONE), level("/", JSON)];
    assert_eq!(Settings::find_project_settings(&up).unwrap(), "/.oxicode/settings.json");
    up[1].is_repo_root = true;
    assert!(Settings::find_project_settings(&up).is_none());
    up[1].files = TOML;
    assert_eq!(Settings::find_project_settings(&up).unwrap(), "/a/.oxicode/settings.toml");
}

#[test]
fn test_detect_format() {
    assert_eq!(Settings::detect_format("/test/settings.json"), SettingsFormat::Json);
    assert_eq!(Settings::detect_format("/test/settings.toml"), SettingsFormat::Toml);
    assert_eq!(Settings::detect_format("/test/settings"), SettingsFormat::Json);
    assert_eq!(Settings::detect_format("/test/.toml"), SettingsFormat::Json);
    assert_eq!(Settings::detect_format("a.toml/"), SettingsFormat::Toml);
    assert_eq!(Settings::detect_format("a.toml/."), SettingsFormat::Toml);
    assert_eq!(Settings::detect_format("a.toml.bak"), SettingsFormat::Json);
    assert_eq!(Settings::detect_format(""), SettingsFormat::Json);
}

#[test]
fn test_settings_format_extension() {
    assert_eq!(SettingsFormat::Json.extension(), "json");
    assert_eq!(SettingsFormat::Toml.extension(), "toml");
    assert_eq!(SettingsFormat::default(), SettingsFormat::Json);
}

#[test]
fn test_save_project_preserves_existing_format() {
    let path = Settings::project_settings_path("/p", TOML);
    assert_eq!(path, "/p/.oxicode/settings.toml");
    assert_eq!(Settings::detect_format(&path), SettingsFormat::Toml);
}

#[test]
fn test_save_project_creates_json_by_default() {
    let path = Settings::project_settings_path("/p", NONE);
    assert_eq!(path, "/p/.oxicode/settings.json");
    assert_eq!(Settings::detect_format(&path), SettingsFormat::Json);
}

#[test]
fn test_custom_provider_default_api() {
    let cp = CustomProvider {
        name: "test".to_string(),
        base_url: "https://api.test.com/v1".to_string(),
        api_key_env: "TEST_API_KEY".to_string(),
        api: default_custom_provider_api(),
    };
    assert_eq!(cp.api, "openai-completions");
}

#[test]
fn test_custom_provider_defaults_empty() {
    let settings = Settings::default();
    assert!(settings.custom_providers.is_empty());
}

#[test]
fn settings_default_has_no_hooks() {
    let s = Settings::default();
    assert!(s.hooks.is_empty());
}

#[test]
fn the_theme_has_a_name() {
    let mut s = Settings::default();
    assert_eq!(s.get_theme_name(), "oxi");
    s.save_theme("");
    assert_eq!(s.get_theme_name(), "oxi");
    s.save_theme("nord");
    assert_eq!(s.get_theme_name(), "nord");
}
