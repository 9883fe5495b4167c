use oxicode::json::{Json, Num};
use oxicode::tools::workspace_search::{
    read_query, render, truncate_snippet, SearchPassage, WorkspaceSearchBackend,
    WorkspaceSearchPage, WorkspaceSearchTool, DEFAULT_LIMIT, MAX_LIMIT,
};
use oxicode::tools::AgentTool;
use std::cell::RefCell;
use std::sync::Arc;

struct FakeBackend {
    page: RefCell<Option<WorkspaceSearchPage>>,
    seen_limit: RefCell<Vec<usize>>,
    fail: bool,
}

impl WorkspaceSearchBackend for FakeBackend {
    fn search(&self, _query: &str, limit: usize) -> Result<WorkspaceSearchPage, String> {
        if self.fail {
            return Err("workspace_search is unavailable: backend offline. Use grep for exact search and read to inspect files.".to_string());
        }
        self.seen_limit.borrow_mut().push(limit);
        let page = self.page.borrow().clone();
        Ok(page.unwrap_or(WorkspaceSearchPage { passages: vec![], freshness: None }))
    }
}

fn backend(page: Option<WorkspaceSearchPage>, fail: bool) -> Arc<FakeBackend> {
    Arc::new(FakeBackend {
        page: RefCell::new(page),
        seen_limit: RefCell::new(vec![]),
        fail,
    })
}

fn query() -> Json {
    Json::object().with("query", Json::Str("x".to_string()))
}

fn page() -> WorkspaceSearchPage {
    WorkspaceSearchPage {
        passages: vec![SearchPassage {
            locator: "src/auth.rs".to_string(),
            ordinal: 3,
            revision: "abc".to_string(),
            score: format!("{:.3}", 0.912),
            snippet: "ownership_session_id".repeat(80),
            modified_at_ms: 1,
        }],
        freshness: Some("reconciled: ws-oxi (12 files)".to_string()),
    }
}

#[test]
fn limit_is_capped_at_max_and_defaults_to_eight() {
    let backend = backend(None, false);
    let tool = WorkspaceSearchTool::new(backend.clone());
    tool.execute(&query().with("limit", Json::Number(Num::Unsigned(500)))).unwrap();
    tool.execute(&query()).unwrap();
    let seen = backend.seen_limit.borrow().clone();
    assert_eq!(seen, vec![20, 8], "cap at 20, default 8");
    assert_eq!((DEFAULT_LIMIT, MAX_LIMIT), (8, 20));
}

#[test]
fn a_limit_within_the_bounds_is_taken() {
    let (q, limit) = read_query(&query().with("limit", Json::Number(Num::Unsigned(3)))).unwrap();
    assert_eq!((q.as_str(), limit), ("x", 3));
    let (_, none) = read_query(&query().with("limit", Json::Number(Num::Unsigned(0)))).unwrap();
    assert_eq!(none, 0);
    let (_, wrong) = read_query(&query().with("limit", Json::Number(Num::Negative(-1)))).unwrap();
    assert_eq!(wrong, 8);
}

#[test]
fn a_missing_query_is_an_error() {
    let tool = WorkspaceSearchTool::new(backend(None, false));
    let err = tool.execute(&Json::object()).err().unwrap();
    assert_eq!(err, "Missing required parameter: query");
}

#[test]
fn empty_page_names_alternatives() {
    let empty = WorkspaceSearchPage { passages: vec![], freshness: None };
    let tool = WorkspaceSearchTool::new(backend(Some(empty), false));
    let text = tool.execute(&query()).unwrap().output;
    assert!(text.contains("Use grep for exact search"), "{text}");
}

#[test]
fn backend_failure_surfaces_typed_error() {
    let tool = WorkspaceSearchTool::new(backend(None, true));
    let err = tool.execute(&query()).err().unwrap();
    assert!(err.contains("unavailable") && err.contains("grep"), "{err}");
}

#[test]
fn rendered_page_truncates_snippet_and_reports_freshness() {
    let tool = WorkspaceSearchTool::new(backend(Some(page()), false));
    let text = tool.execute(&query()).unwrap().output;
    assert!(text.contains("Found 1 ranked passages"), "{text}");
    assert!(text.contains("src/auth.rs#3"), "{text}");
    assert!(text.contains("(score 0.912, rev abc)"), "{text}");
    assert!(!text.contains(&"ownership_session_id".repeat(80)), "{text}");
    assert_eq!(text.matches("...").count(), 1, "exactly one truncation marker");
    assert!(text.contains("freshness: reconciled: ws-oxi (12 files)"), "{text}");
    assert!(text.contains("Verify each passage with read or grep"), "{text}");
}

#[test]
fn the_exact_text_of_a_page() {
    let mut p = page();
    p.passages[0].snippet = "short".to_string();
    p.freshness = None;
    assert_eq!(
        render(&p),
        "Found 1 ranked passages:\n\n1. src/auth.rs#3 (score 0.912, rev abc)\n   short\n\nVerify each passage with read or grep before relying on it."
    );
}

#[test]
fn a_snippet_keeps_its_first_five_hundred_characters() {
    let just = "x".repeat(500);
    assert_eq!(truncate_snippet(&just), just);
    assert_eq!(truncate_snippet(&"x".repeat(501)), format!("{just}..."));
}

#[test]
fn the_search_tool_describes_itself() {
    let tool = WorkspaceSearchTool::new(backend(None, false));
    assert_eq!(tool.name(), "workspace_search");
    assert_eq!(tool.label(), "Workspace Search");
    assert!(!tool.essential());
    let schema = tool.parameters_schema();
    let properties = schema.get("properties").unwrap();
    assert_eq!(
        properties.get("limit").unwrap().get_str("description").unwrap(),
        "Maximum passages to return (default 8, max 20)"
    );
}
