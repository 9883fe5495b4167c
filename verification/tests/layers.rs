use oxicode::json::{merge_json_values, toml_value_to_json, Json, Num, Toml, TomlMember};
use oxicode::layers::{layer_file, parse_document};
use oxicode::settings::SettingsFormat;

fn text(s: &str) -> Json {
    Json::Str(s.to_string())
}

fn number(n: u64) -> Json {
    Json::Number(Num::Unsigned(n))
}

fn string<'a>(j: &'a Json, key: &str) -> Option<&'a str> {
    j.get_str(key).map(|s| s.as_str())
}

/// The settings beneath a file, as far as the tests look at them.
fn base() -> Json {
    Json::object()
        .with("last_used_model", Json::Null)
        .with("last_used_provider", Json::Null)
        .with("theme", text("default"))
        .with("thinking_level", text("medium"))
        .with("extensions_enabled", Json::Bool(true))
        .with("auto_compaction", Json::Bool(true))
        .with("tool_timeout_seconds", number(120))
        .with("inline_images", Json::Bool(true))
}

#[test]
fn test_layer_file_overrides() {
    let content = r#"
last_used_model = "openai/gpt-4o"
theme = "dracula"
"#;
    let merged = layer_file(base(), content, "/tmp/x.toml").unwrap();
    assert_eq!(string(&merged, "last_used_model"), Some("openai/gpt-4o"));
    assert_eq!(string(&merged, "theme"), Some("dracula"));
    assert_eq!(string(&merged, "thinking_level"), Some("medium"));
    assert_eq!(merged.get_bool("extensions_enabled"), Some(true));
}

#[test]
fn test_layer_file_preserves_unset() {
    let base = base().with("last_used_provider", text("deepseek"));
    let merged = layer_file(base, "theme = \"monokai\"\n", "/tmp/x.toml").unwrap();
    assert_eq!(string(&merged, "theme"), Some("monokai"));
    assert_eq!(string(&merged, "last_used_provider"), Some("deepseek"));
}

#[test]
fn test_layer_file_json() {
    let content = r#"{
            "last_used_model": "gpt-4o",
            "last_used_provider": "openai",
            "theme": "dracula",
            "auto_compaction": false
        }"#;
    let merged = layer_file(base(), content, "/tmp/x.json").unwrap();
    assert_eq!(string(&merged, "last_used_model"), Some("gpt-4o"));
    assert_eq!(string(&merged, "last_used_provider"), Some("openai"));
    assert_eq!(string(&merged, "theme"), Some("dracula"));
    assert_eq!(merged.get_bool("auto_compaction"), Some(false));
    assert_eq!(string(&merged, "thinking_level"), Some("medium"));
    assert_eq!(merged.get_bool("extensions_enabled"), Some(true));
    assert_eq!(merged.get_u64("tool_timeout_seconds"), Some(120));
}

#[test]
fn test_layer_file_json_preserves_unset() {
    let base = base().with("last_used_provider", text("deepseek"));
    let merged = layer_file(base, r#"{ "theme": "nord" }"#, "/tmp/x.json").unwrap();
    assert_eq!(string(&merged, "theme"), Some("nord"));
    assert_eq!(string(&merged, "last_used_provider"), Some("deepseek"));
}

#[test]
fn test_mixed_format_loading() {
    let content = r#"
last_used_model = "loaded-via-toml"
theme = "loaded-theme"
"#;
    let merged = layer_file(base(), content, "/tmp/x.toml").unwrap();
    assert_eq!(string(&merged, "last_used_model"), Some("loaded-via-toml"));
    assert_eq!(string(&merged, "theme"), Some("loaded-theme"));
}

#[test]
fn test_custom_provider_layer_file() {
    let content = r#"
[[custom_providers]]
name = "my-provider"
base_url = "https://api.my-provider.com/v1"
api_key_env = "MY_PROVIDER_API_KEY"
"#;
    let merged = layer_file(base(), content, "/tmp/x.toml").unwrap();
    match merged.get("custom_providers") {
        Some(Json::Array(providers)) => {
            assert_eq!(providers.len(), 1);
            assert_eq!(string(&providers[0], "name"), Some("my-provider"));
            assert_eq!(string(&providers[0], "api"), None);
        }
        other => panic!("a list was expected, not {other:?}"),
    }
}

#[test]
fn the_workspace_search_section_is_read() {
    let raw = r#"
[workspace_search]
enabled = true
space = "dev"
executable = "/opt/oxibrain/bin/oxibrain"
"#;
    let s = parse_document(raw, SettingsFormat::Toml).unwrap();
    let section = s.get("workspace_search").unwrap();
    assert_eq!(section.get_bool("enabled"), Some(true));
    assert_eq!(string(section, "executable"), Some("/opt/oxibrain/bin/oxibrain"));
}

#[test]
fn a_file_that_is_not_in_its_format_is_an_error() {
    assert_eq!(
        layer_file(base(), "theme = \"x\"", "/c/settings.json").err().unwrap(),
        "Failed to parse JSON settings from /c/settings.json"
    );
    assert_eq!(
        layer_file(base(), "{ \"a\": 1 }", "/c/settings.toml").err().unwrap(),
        "Failed to parse TOML settings from /c/settings.toml"
    );
    assert!(parse_document("{", SettingsFormat::Json).is_none());
}

#[test]
fn numbers_of_documents() {
    let j = parse_document("{\"a\": 7, \"b\": -7, \"c\": 0.5}", SettingsFormat::Json).unwrap();
    assert!(matches!(j.get("a"), Some(Json::Number(Num::Unsigned(7)))));
    assert!(matches!(j.get("b"), Some(Json::Number(Num::Negative(-7)))));
    match j.get("c") {
        Some(Json::Number(Num::Float(bits))) => assert_eq!(f64::from_bits(*bits), 0.5),
        other => panic!("a number was expected, not {other:?}"),
    }
    let t = parse_document("a = 7\nb = -7\nc = 0.5\nd = 1979-05-27\ne = nan", SettingsFormat::Toml)
        .unwrap();
    assert_eq!(t.get_u64("a"), Some(7));
    assert!(matches!(t.get("b"), Some(Json::Number(Num::Negative(-7)))));
    assert!(matches!(t.get("c"), Some(Json::Number(Num::Float(_)))));
    assert_eq!(string(&t, "d"), Some("1979-05-27"));
    assert!(matches!(t.get("e"), Some(Json::Null)));
}

#[test]
fn test_merge_json_values() {
    let base = Json::object()
        .with("version", number(1))
        .with("theme", text("default"))
        .with("extensions", Json::Array(vec![text("ext1")]))
        .with("nested", Json::object().with("a", number(1)).with("b", number(2)));
    let over = Json::object()
        .with("version", number(2))
        .with("theme", text("dark"))
        .with("extensions", Json::Array(vec![text("ext2")]))
        .with("nested", Json::object().with("b", number(20)).with("c", number(30)));

    let merged = merge_json_values(base, over);

    assert_eq!(merged.get_u64("version"), Some(2));
    assert_eq!(string(&merged, "theme"), Some("dark"));
    match merged.get("extensions") {
        Some(Json::Array(v)) => {
            assert_eq!(v.len(), 1);
            assert!(matches!(&v[0], Json::Str(s) if s == "ext2"));
        }
        other => panic!("a list was expected, not {other:?}"),
    }
    let nested = merged.get("nested").unwrap();
    assert_eq!(nested.get_u64("a"), Some(1));
    assert_eq!(nested.get_u64("b"), Some(20));
    assert_eq!(nested.get_u64("c"), Some(30));
}

#[test]
fn what_is_no_object_is_replaced() {
    assert!(matches!(merge_json_values(base(), Json::Null), Json::Null));
    assert!(matches!(merge_json_values(Json::Null, Json::Bool(true)), Json::Bool(true)));
    let merged = merge_json_values(text("x"), Json::object().with("a", number(1)));
    assert_eq!(merged.get_u64("a"), Some(1));
}

#[test]
fn tables_become_objects() {
    let table = Toml::Table(vec![
        TomlMember { key: "s".to_string(), value: Toml::Str("x".to_string()) },
        TomlMember { key: "b".to_string(), value: Toml::Boolean(true) },
        TomlMember {
            key: "a".to_string(),
            value: Toml::Array(vec![Toml::Integer(-1), Toml::Float(f64::INFINITY.to_bits())]),
        },
    ]);
    let j = toml_value_to_json(&table);
    assert_eq!(string(&j, "s"), Some("x"));
    assert_eq!(j.get_bool("b"), Some(true));
    match j.get("a") {
        Some(Json::Array(v)) => {
            assert!(matches!(v[0], Json::Number(Num::Negative(-1))));
            assert!(matches!(v[1], Json::Null));
        }
        other => panic!("a list was expected, not {other:?}"),
    }
}

#[test]
fn members_are_read_by_their_type() {
    let j = base();
    assert!(j.get("nope").is_none());
    assert!(j.get_str("tool_timeout_seconds").is_none());
    assert!(j.get_u64("theme").is_none());
    assert!(j.get_bool("theme").is_none());
    assert!(text("x").get("a").is_none());
    let twice = j.with("theme", text("b"));
    assert_eq!(string(&twice, "theme"), Some("b"));
}

#[test]
fn later_layers_win() {
    let global = "theme = \"global\"\ntool_timeout_seconds = 5\n[advisor]\nenabled = true\n";
    let project = "{ \"theme\": \"project\", \"advisor\": { \"immune_turns\": 2 } }";
    let beneath = layer_file(base(), global, "/c/settings.toml").unwrap();
    let all = layer_file(beneath, project, "/p/.oxicode/settings.json").unwrap();
    assert_eq!(string(&all, "theme"), Some("project"));
    assert_eq!(all.get_u64("tool_timeout_seconds"), Some(5));
    assert_eq!(string(&all, "thinking_level"), Some("medium"));
    let advisor = all.get("advisor").unwrap();
    assert_eq!(advisor.get_bool("enabled"), Some(true));
    assert_eq!(advisor.get_u64("immune_turns"), Some(2));
}

#[test]
fn the_former_key_of_the_ask_timeout_sets_it() {
    let base = Json::object().with("ask_timeout_secs", Json::Number(Num::Unsigned(5)));
    let merged = layer_file(base, r#"{"questionnaire_timeout_secs":30}"#, "o.json").unwrap();
    assert_eq!(merged.get_u64("ask_timeout_secs"), Some(30));
    assert!(merged.get("questionnaire_timeout_secs").is_none());
    let base = Json::object().with("ask_timeout_secs", Json::Number(Num::Unsigned(5)));
    let both = "ask_timeout_secs = 1\nquestionnaire_timeout_secs = 2\n";
    let kept = layer_file(base, both, "o.toml").unwrap();
    assert_eq!(kept.get_u64("ask_timeout_secs"), Some(1));
    assert_eq!(kept.get_u64("questionnaire_timeout_secs"), Some(2));
}
