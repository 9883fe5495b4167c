use oxicode::json::{Json, Num};
use oxicode::tools::exact_search::{looks_binary, Found, WalkEntry};
use oxicode::tools::grep::{
    grep_content, legacy_result, read_file_lines, read_params, search_content, walks_entry, Engine, GrepStep, GrepTool, LegacyStep, LegacyWalk,
    NamedNode, ReadFailure, WalkNode,
};
use oxicode::tools::{AgentTool, AgentToolResult, ResolvedContent, ToolContext, UrlResolver};
use std::sync::Arc;

fn text(s: &str) -> Json {
    Json::Str(s.to_string())
}

fn number(n: u64) -> Json {
    Json::Number(Num::Unsigned(n))
}

/// Runs the tool over files that are held in memory.
fn execute_tool(tool: &GrepTool, params: Json, files: &[(&str, &str)]) -> AgentToolResult {
    let ctx = ToolContext::new("/w".to_string());
    match tool.execute(&params, &ctx).ok().unwrap() {
        GrepStep::Done(result) => result,
        GrepStep::Legacy { params: p, .. } => {
            let mut root = directory("d");
            for (rel, content) in files {
                put(&mut root, rel, content);
            }
            legacy_result(GrepTool::grep_impl(&Ok(Some(root)), &p))
        }
        GrepStep::Native { params: p, .. } => {
            let found = files
                .iter()
                .map(|(rel, content)| Found {
                    cancel: false,
                    entry: WalkEntry::File {
                        rel: rel.to_string(),
                        binary: looks_binary(Some(content.as_bytes())),
                    },
                    content: Some(content.as_bytes().to_vec()),
                })
                .collect();
            GrepTool::search_impl(Ok(Some(found)), p)
        }
    }
}

fn directory(name: &str) -> NamedNode {
    NamedNode {
        name: name.to_string(),
        is_dir: true,
        node: WalkNode::Directory { entries: vec![], failure: None },
    }
}

fn file(name: &str, content: Option<&str>) -> NamedNode {
    NamedNode {
        name: name.to_string(),
        is_dir: false,
        node: WalkNode::File { content: content.map(|c| c.to_string()) },
    }
}

fn put(dir: &mut NamedNode, rel: &str, content: &str) {
    if let WalkNode::Directory { entries, .. } = &mut dir.node {
        match rel.split_once('/') {
            None => entries.push(file(rel, Some(content))),
            Some((name, rest)) => {
                if !entries.iter().any(|e| e.name == name) {
                    entries.push(directory(name));
                }
                let below = entries.iter_mut().find(|e| e.name == name).unwrap();
                put(below, rest, content);
            }
        }
    }
}

fn params(pattern: &str) -> Json {
    Json::object().with("pattern", text(pattern)).with("path", text("d"))
}

#[test]
fn test_grep_find_pattern_in_file() {
    let files = [("test.txt", "hello world\nfoo bar\nhello again")];
    let result = execute_tool(&GrepTool::new(), params("hello"), &files);
    assert!(result.success);
    assert!(result.output.contains("hello world"));
    assert!(result.output.contains("hello again"));
    assert!(!result.output.contains("foo bar"));
}

#[test]
fn test_grep_case_insensitive() {
    let files = [("test.txt", "Hello World")];
    let p = params("hello").with("case_insensitive", Json::Bool(true));
    let result = execute_tool(&GrepTool::new(), p, &files);
    assert!(result.success);
    assert!(result.output.contains("Hello World"));
}

#[test]
fn test_grep_case_sensitive_default() {
    let files = [("test.txt", "Hello World")];
    let result = execute_tool(&GrepTool::new(), params("hello"), &files);
    assert!(result.success);
    assert_eq!(result.output, "No matches found");
}

#[test]
fn test_grep_no_matches() {
    let files = [("test.txt", "hello world")];
    let result = execute_tool(&GrepTool::new(), params("nonexistent"), &files);
    assert!(result.success);
    assert_eq!(result.output, "No matches found");
}

#[test]
fn test_grep_recursive() {
    let files = [("a.txt", "pattern match A"), ("sub/b.txt", "pattern match B")];
    let result = execute_tool(&GrepTool::new(), params("pattern match"), &files);
    assert!(result.success);
    assert!(result.output.contains("match A"));
    assert!(result.output.contains("match B"));
    assert_eq!(result.output.matches("pattern match").count(), 2);
}

#[test]
fn test_grep_max_results() {
    let content: Vec<String> = (0..20).map(|i| format!("match line {}", i)).collect();
    let content = content.join("\n");
    let files = [("test.txt", content.as_str())];
    let p = params("match").with("max_results", number(5));
    let result = execute_tool(&GrepTool::new(), p, &files);
    assert!(result.success);
    let match_count = result.output.matches("match line").count();
    assert_eq!(match_count, 5);
}

#[test]
fn test_grep_line_numbers() {
    let files = [("test.txt", "first\nsecond\nthird match")];
    let result = execute_tool(&GrepTool::new(), params("match"), &files);
    assert!(result.success);
    assert!(result.output.contains(":3:"));
}

#[test]
fn test_grep_invalid_regex() {
    let result = execute_tool(&GrepTool::new(), params("[invalid"), &[]);
    assert!(!result.success);
    assert!(result.output.contains("Invalid pattern") || result.output.contains("Invalid regex"));
}

#[test]
fn test_grep_path_not_found() {
    let path = "/tmp/oxicode_nonexistent_dir_12345";
    let p = Json::object().with("pattern", text("test")).with("path", text(path));
    let ctx = ToolContext::new("/w".to_string());
    let result = match GrepTool::new().execute(&p, &ctx) {
        Ok(GrepStep::Native { target, params, .. }) => {
            assert_eq!(target, path);
            GrepTool::search_impl(Ok(None), params)
        }
        _ => panic!("the files were expected to be walked"),
    };
    assert!(!result.success);
    assert!(result.output.contains("not found"));
    assert_eq!(result.output, "Path not found: /tmp/oxicode_nonexistent_dir_12345");
    let denied = GrepTool::search_impl(
        Err("denied".to_string()),
        read_params(&params("x")).ok().unwrap(),
    );
    assert!(!denied.success);
}

#[test]
fn a_missing_pattern_is_an_error() {
    let ctx = ToolContext::new("/w".to_string());
    let err = GrepTool::new().execute(&Json::object(), &ctx).err().unwrap();
    assert_eq!(err, "Missing required parameter: pattern");
    let wrong = Json::object().with("pattern", number(3));
    assert!(GrepTool::new().execute(&wrong, &ctx).is_err());
}

#[test]
fn parameters_have_their_defaults() {
    let p = read_params(&Json::object().with("pattern", text("x"))).ok().unwrap();
    assert_eq!(p.path, ".");
    assert!(!p.case_insensitive && !p.literal);
    assert_eq!(p.context, 0);
    assert!(p.include_glob.is_none());
    assert_eq!(p.max_results, 100);
    let q = read_params(
        &Json::object()
            .with("pattern", text("x"))
            .with("path", text("src"))
            .with("literal", Json::Bool(true))
            .with("context", number(3))
            .with("include", text("*.rs"))
            .with("max_results", number(7)),
    )
    .ok()
    .unwrap();
    assert_eq!(q.path, "src");
    assert!(q.literal);
    assert_eq!(q.context, 3);
    assert_eq!(q.include_glob.as_deref(), Some("*.rs"));
    assert_eq!(q.max_results, 7);
}

#[test]
fn the_engine_and_the_root_of_a_walk() {
    let ctx = ToolContext::new("/w".to_string()).with_root("/r".to_string());
    match GrepTool::new().execute(&params("x"), &ctx) {
        Ok(GrepStep::Native { root, target, .. }) => {
            assert_eq!(root, "/r");
            assert!(target.starts_with("/r/"));
        }
        _ => panic!("a native walk was expected"),
    }
    match GrepTool::with_cwd("/c".to_string()).execute(&params("x"), &ctx) {
        Ok(GrepStep::Native { root, .. }) => assert_eq!(root, "/c"),
        _ => panic!("a native walk was expected"),
    }
    match GrepTool::legacy_with_cwd("/c".to_string()).execute(&params("x"), &ctx) {
        Ok(GrepStep::Legacy { root, .. }) => assert_eq!(root, "/c"),
        _ => panic!("a walk of the earlier engine was expected"),
    }
    assert!(GrepTool::default().engine == Engine::Native);
}

struct Issues;

impl UrlResolver for Issues {
    fn can_resolve(&self, input: &str) -> bool {
        input.starts_with("issue://")
    }
    fn resolve(&self, uri: &str) -> Result<ResolvedContent, String> {
        if uri == "issue://7" {
            Ok(ResolvedContent {
                content: "one\nneedle\nthree\r\nneedle two".to_string(),
                content_type: "text/plain".to_string(),
                immutable: true,
            })
        } else {
            Err("no such issue".to_string())
        }
    }
}

#[test]
fn an_address_is_searched_in_memory() {
    let ctx = ToolContext::new("/w".to_string()).with_url_resolver(Arc::new(Issues));
    let p = Json::object()
        .with("pattern", text("needle"))
        .with("path", text("issue://7"))
        .with("context", number(1));
    match GrepTool::new().execute(&p, &ctx) {
        Ok(GrepStep::Done(result)) => {
            assert!(result.success);
            assert!(result.metadata.is_none());
            assert_eq!(
                result.output,
                "Found 4 matches:\nissue://7-1- one\nissue://7:2: needle\nissue://7-3- three\nissue://7:4: needle two"
            );
        }
        _ => panic!("the search was expected to be over"),
    }
    let gone = Json::object().with("pattern", text("x")).with("path", text("issue://8"));
    assert_eq!(GrepTool::new().execute(&gone, &ctx).err().unwrap(), "no such issue");
    let file = Json::object().with("pattern", text("x")).with("path", text("src"));
    assert!(matches!(GrepTool::new().execute(&file, &ctx), Ok(GrepStep::Native { .. })));
}

#[test]
fn a_bad_pattern_on_content_names_the_pattern() {
    let p = read_params(&params("(")).ok().unwrap();
    let err = search_content(&p, "text").err().unwrap();
    assert!(err.starts_with("Invalid pattern '(': "), "{err}");
}

#[test]
fn content_shows_at_most_the_results_asked_for() {
    let texts: Vec<String> = ["a", "b", "c", "d"].iter().map(|s| s.to_string()).collect();
    let matched = vec![false, true, false, true];
    let (found, cut) = grep_content("p", &texts, &matched, 1, 1);
    assert_eq!(found, vec!["p-1- a"]);
    assert!(!cut);
    let (all, _) = grep_content("p", &texts, &matched, 1, 9);
    assert_eq!(all, vec!["p-1- a", "p:2: b", "p-3- c", "p:4: d"]);
    let (none, _) = grep_content("p", &texts, &matched, 1, 0);
    assert!(none.is_empty());
}

#[test]
fn cut_lines_are_told_in_the_metadata() {
    let long = "y".repeat(501);
    let p = read_params(&params("y")).ok().unwrap();
    let result = search_content(&p, &long).ok().unwrap();
    let meta = result.metadata.unwrap();
    assert_eq!(meta.get_bool("lines_truncated"), Some(true));
    assert_eq!(
        meta.get_str("message").map(|s| s.as_str()),
        Some("Some lines truncated to 500 chars. Use read tool to see full lines.")
    );
}

#[test]
fn native_results_tell_cuts_and_cancellation() {
    let files = [("a.txt", "needle")];
    let plain = execute_tool(&GrepTool::new(), params("needle"), &files);
    assert!(plain.metadata.is_none());
    let long = format!("needle {}", "y".repeat(501));
    let files = [("a.txt", long.as_str())];
    let cut = execute_tool(&GrepTool::new(), params("needle"), &files);
    let meta = cut.metadata.unwrap();
    assert_eq!(meta.get_bool("lines_truncated"), Some(true));
    assert_eq!(meta.get_bool("cancelled"), Some(false));
}

#[test]
fn the_earlier_engine_finds_the_same_lines() {
    let tool = GrepTool::legacy_with_cwd("/c".to_string());
    let files = [
        ("a.rs", "hello world\r\nfoo\rhello again"),
        ("target/x.rs", "hello"),
        (".hidden", "hello"),
        ("b.txt", "hello"),
    ];
    let p = params("hello").with("include", text("*.rs"));
    let result = execute_tool(&tool, p, &files);
    assert_eq!(
        result.output,
        "Found 2 matches:\na.rs:1: hello world\na.rs:3: hello again"
    );
}

#[test]
fn the_earlier_engine_shows_only_windows_that_fit() {
    let tool = GrepTool::legacy_with_cwd("/c".to_string());
    let files = [("a.txt", "one\nhit\nthree\nhit\nfive")];
    let p = params("hit").with("context", number(1)).with("max_results", number(5));
    let result = execute_tool(&tool, p, &files);
    assert_eq!(result.output, "Found 3 matches:\na.txt-1- one\na.txt:2: hit\na.txt-3- three");
    let p = params("hit").with("context", number(1)).with("max_results", number(2));
    assert_eq!(execute_tool(&tool, p, &files).output, "No matches found");
}

#[test]
fn the_earlier_engine_walks_directories_in_order() {
    let tool = GrepTool::legacy_with_cwd("/c".to_string());
    let files = [
        ("src/a/x.txt", "hit 1"),
        ("src/node_modules/y.txt", "hit 2"),
        ("z.txt", "hit 3"),
        ("src/a/w.txt", "hit 4"),
    ];
    let result = execute_tool(&tool, params("hit"), &files);
    assert_eq!(
        result.output,
        "Found 3 matches:\nsrc/a/x.txt:1: hit 1\nsrc/a/w.txt:1: hit 4\nz.txt:1: hit 3"
    );
    let p = params("hit").with("max_results", number(2));
    let result = execute_tool(&tool, p, &files);
    assert_eq!(
        result.output,
        "Found 2 matches:\nsrc/a/x.txt:1: hit 1\nsrc/a/w.txt:1: hit 4"
    );
}

#[test]
fn the_earlier_engine_ends_at_a_directory_that_cannot_be_read() {
    let p = |max: u64| {
        read_params(&params("hit").with("max_results", number(max))).ok().unwrap()
    };
    let closed = NamedNode {
        name: "closed".to_string(),
        is_dir: true,
        node: WalkNode::Directory {
            entries: vec![],
            failure: Some(ReadFailure::Open {
                path: "/w/closed".to_string(),
                error: "denied".to_string(),
            }),
        },
    };
    let broken = NamedNode {
        name: "link".to_string(),
        is_dir: false,
        node: WalkNode::BrokenLink,
    };
    let root = NamedNode {
        name: "w".to_string(),
        is_dir: true,
        node: WalkNode::Directory {
            entries: vec![broken, file("u", None), file("a", Some("hit")), closed],
            failure: Some(ReadFailure::Entry { error: "gone".to_string() }),
        },
    };
    let read = Ok(Some(root));
    let err = GrepTool::grep_impl(&read, &p(9)).err().unwrap();
    assert_eq!(err, "Cannot read directory /w/closed: denied");
    let err = GrepTool::grep_impl(&read, &p(1)).err().unwrap();
    assert_eq!(err, "Error reading entry: gone");
    let alone = Ok(Some(file("one.txt", Some("hit"))));
    assert_eq!(GrepTool::grep_impl(&alone, &p(9)).ok().unwrap().0, "Found 1 matches:\n:1: hit");
    assert_eq!(GrepTool::grep_impl(&Ok(None), &p(9)).err().unwrap(), "Path not found: d");
    assert_eq!(GrepTool::grep_impl(&Err("out".to_string()), &p(9)).err().unwrap(), "out");
}

#[test]
fn the_earlier_engine_names_the_pattern_that_it_compiled() {
    let err = LegacyWalk::begin("(a", false, false).err().unwrap();
    assert!(err.starts_with("Invalid pattern '(a': "), "{err}");
    assert!(LegacyWalk::begin("(a", true, false).is_ok());
}

#[test]
fn steps_of_the_earlier_engine() {
    let walk = LegacyWalk { matches: vec!["x".to_string()], lines_truncated: false };
    assert_eq!(walk.enter(1, false, true, "a", &None), LegacyStep::Return);
    assert_eq!(walk.enter(2, true, true, "a", &None), LegacyStep::Return);
    assert_eq!(walk.enter(2, false, false, "a", &None), LegacyStep::ReadDirectory);
    let glob = Some("*.rs".to_string());
    assert_eq!(walk.enter(2, false, true, "a.rs", &glob), LegacyStep::ReadFile);
    assert_eq!(walk.enter(2, false, true, "a.ts", &glob), LegacyStep::Return);
    assert!(!walks_entry(".git", true));
    assert!(!walks_entry("node_modules", true));
    assert!(walks_entry("node_modules", false));
    assert!(walks_entry("", true));
}

#[test]
fn simple_globs() {
    assert!(GrepTool::matches_glob("main.rs", "*.rs"));
    assert!(GrepTool::matches_glob("mainrs", "*.rs"));
    assert!(!GrepTool::matches_glob("main.ts", "*.rs"));
    assert!(GrepTool::matches_glob("test_a.py", "test_*.py"));
    assert!(!GrepTool::matches_glob("best_a.py", "test_*.py"));
    assert!(!GrepTool::matches_glob("abc", "a*b*c"));
    assert!(GrepTool::matches_glob("a*b*c", "a*b*c"));
    assert!(GrepTool::matches_glob("Makefile", "Makefile"));
}

#[test]
fn lines_with_any_ending() {
    let lines = read_file_lines("a\r\nb\rc\n\r\n");
    assert_eq!(lines, vec!["a", "b", "c", ""]);
    assert!(read_file_lines("").is_empty());
}

#[test]
fn the_tool_describes_itself() {
    let tool = GrepTool::new();
    assert_eq!(tool.name(), "grep");
    assert_eq!(tool.label(), "Grep");
    assert!(tool.essential());
    assert!(tool.description().contains("Long lines are truncated to 500 chars."));
    let def = tool.to_definition();
    assert_eq!(def.name, "grep");
    let schema = def.input_schema;
    assert_eq!(schema.get_str("type").map(|s| s.as_str()), Some("object"));
    let properties = schema.get("properties").unwrap();
    assert_eq!(properties.get("path").unwrap().get_str("default").unwrap(), ".");
    assert_eq!(properties.get("max_results").unwrap().get_u64("default"), Some(100));
    assert!(properties.get("include").unwrap().get("default").is_none());
    assert!(matches!(schema.get("required"), Some(Json::Array(v)) if v.len() == 1));
}

#[test]
fn what_was_found_stays_where_the_walk_fails() {
    let mut root = directory("d");
    put(&mut root, "a.txt", "needle");
    if let WalkNode::Directory { failure, .. } = &mut root.node {
        *failure = Some(ReadFailure::Entry { error: "gone".to_string() });
    }
    let p = read_params(&params("needle")).ok().unwrap();
    let mut walk = LegacyWalk { matches: vec!["first".to_string()], lines_truncated: true };
    assert!(walk.grep_walk("", &root, &p).is_err());
    assert_eq!(walk.matches[0], "first");
    assert_eq!(walk.matches.len(), 2);
    assert!(walk.lines_truncated);
}
