use oxicode::json::Json;
use oxicode::tools::grep::GrepTool;
use oxicode::tools::registry::{holds_text, ToolRegistry};
use oxicode::tools::{AgentTool, AgentToolResult, ToolExecutionMode, ToolTier};
use std::sync::Arc;

struct CustomTool {
    name: &'static str,
    description: &'static str,
    essential: bool,
}

impl AgentTool for CustomTool {
    fn name(&self) -> &str {
        self.name
    }
    fn label(&self) -> &str {
        "Custom"
    }
    fn description(&self) -> &str {
        self.description
    }
    fn parameters_schema(&self) -> Json {
        Json::object()
            .with("type", Json::Str("object".to_string()))
            .with("properties", Json::object())
    }
    fn essential(&self) -> bool {
        self.essential
    }
}

type Registry = ToolRegistry<CustomTool, u32>;

fn tool(name: &'static str) -> CustomTool {
    CustomTool { name, description: "A custom test tool", essential: false }
}

fn builtins() -> Vec<Arc<CustomTool>> {
    let mut tools: Vec<Arc<CustomTool>> = Vec::new();
    for name in ["read", "grep"] {
        tools.push(Arc::new(CustomTool { name, description: "d", essential: true }));
    }
    for name in ["web_search", "get_search_results", "github"] {
        tools.push(Arc::new(tool(name)));
    }
    tools
}

fn sorted(registry: &Registry) -> Vec<String> {
    let mut names = registry.names();
    names.sort();
    names
}

fn texts(names: &[&str]) -> Vec<String> {
    names.iter().map(|n| n.to_string()).collect()
}

#[test]
fn test_registry_custom_tool() {
    let mut registry = Registry::new();
    registry.register(tool("custom"));
    assert!(registry.get("custom").is_some());
}

#[test]
fn test_registry_get_tool() {
    let registry = Registry::with_builtins(&builtins(), Arc::new(1));
    let read_tool = registry.get("read");
    assert!(read_tool.is_some());
    assert_eq!(read_tool.unwrap().name(), "read");

    let missing = registry.get("nonexistent");
    assert!(missing.is_none());
}

#[test]
fn a_later_tool_takes_the_place_of_an_earlier_one() {
    let mut registry = Registry::new();
    registry.register(tool("custom"));
    registry.register_arc(Arc::new(CustomTool {
        name: "custom",
        description: "another",
        essential: false,
    }));
    assert_eq!(registry.names(), vec!["custom"]);
    assert_eq!(registry.get("custom").unwrap().description(), "another");
}

#[test]
fn unregister_says_whether_there_was_one() {
    let mut registry = Registry::new();
    registry.register(tool("a"));
    registry.register(tool("b"));
    assert!(registry.unregister("a"));
    assert!(!registry.unregister("a"));
    assert!(registry.get("a").is_none());
    assert!(registry.get("b").is_some());
}

#[test]
fn missing_names_keep_their_order() {
    let mut registry = Registry::new();
    registry.register(tool("a"));
    assert!(registry.has_all(&["a"]));
    assert!(registry.has_all(&[]));
    assert!(!registry.has_all(&["a", "z"]));
    assert_eq!(registry.missing(&["z", "a", "y"]), vec!["z", "y"]);
    assert!(registry.missing(&["a"]).is_empty());
}

#[test]
fn disabled_tools_are_left_out_unless_essential() {
    let all = builtins();
    let off = texts(&["grep", "github"]);
    let registry = Registry::with_builtins_cwd(&all, &off, Arc::new(1));
    assert_eq!(sorted(&registry), texts(&["get_search_results", "grep", "read", "web_search"]));
}

#[test]
fn search_results_follow_the_web_search() {
    let all = builtins();
    let registry = Registry::with_builtins_cwd(&all, &texts(&["web_search"]), Arc::new(1));
    assert_eq!(sorted(&registry), texts(&["github", "grep", "read"]));
}

#[test]
fn register_arc_copies_tools_not_mcp_manager() {
    let src = Registry::with_builtins_cwd(&builtins(), &[].to_vec(), Arc::new(7));
    assert!(src.mcp_manager().is_some(), "with_builtins_cwd attaches the MCP manager");

    let mut dst = Registry::new();
    for name in src.names() {
        if let Some(tool) = src.get(&name) {
            dst.register_arc(tool);
        }
    }
    assert!(
        dst.mcp_manager().is_none(),
        "register_arc copies tools only, never the manager — the trap"
    );

    if let Some(mgr) = src.mcp_manager() {
        dst.set_mcp_manager(mgr);
    }
    assert!(dst.mcp_manager().is_some(), "set_mcp_manager propagates the live manager");
    assert_eq!(*dst.mcp_manager().unwrap(), 7);
}

#[test]
fn extend_from_prefers_the_other_registry() {
    let mut a = Registry::new();
    a.register(tool("x"));
    a.register(tool("y"));
    let mut b = Registry::new();
    b.register(CustomTool { name: "x", description: "from b", essential: false });
    b.register(tool("z"));
    a.extend_from(&b);
    assert_eq!(sorted(&a), texts(&["x", "y", "z"]));
    assert_eq!(a.get("x").unwrap().description(), "from b");
}

#[test]
fn selected_tools_are_those_that_are_named() {
    let registry =
        Registry::with_selected_tools(&builtins(), &texts(&["read", "nope"]), Arc::new(1));
    assert_eq!(sorted(&registry), texts(&["read"]));
    assert!(registry.mcp_manager().is_none());
}

#[test]
fn definitions_and_tools_cover_the_registry() {
    let registry = Registry::with_builtins(&builtins(), Arc::new(1));
    let defs = registry.definitions();
    assert_eq!(defs.len(), 5);
    for def in &defs {
        assert!(!def.name.is_empty());
        assert!(!def.description.is_empty());
    }
    assert_eq!(registry.get_tools().len(), 5);
}

#[test]
fn tools_have_defaults() {
    let t = tool("x");
    assert!(t.render_call(&Json::Null).is_none());
    assert!(t.render_result(&AgentToolResult::success(String::new())).is_none());
    assert!(t.intent().is_none());
    assert!(matches!(t.execution_mode(), ToolExecutionMode::ParallelSafe));
    assert_eq!(t.tool_tier(), ToolTier::Exec);
    assert_eq!(ToolTier::default(), ToolTier::Exec);
    assert!(t.current_tab_id().is_none());
}

#[test]
fn the_grep_tool_can_be_registered() {
    let mut registry: ToolRegistry<GrepTool, ()> = ToolRegistry::new();
    registry.register(GrepTool::new());
    assert_eq!(registry.definitions()[0].name, "grep");
    assert!(holds_text(&registry.names(), "grep"));
}
