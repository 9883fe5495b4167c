//! The tools that an agent can call, what they are given, and what they give back.

pub mod exact_search;
pub mod grep;
pub mod patterns;
pub mod registry;
pub mod workspace_search;

use crate::json::Json;
use crate::messages::ContentBlock;
use std::sync::Arc;
use vstd::prelude::*;

verus! {

/// What a tool reports when it fails.
pub type ToolError = String;

/// A fact that a memory holds.
#[derive(Debug, Clone)]
pub struct MemoryItem {
    pub id: String,
    pub kind: String,
    pub content: String,
    pub subject: String,
}

/// A store of facts that outlives a session.
pub trait MemoryBackend {
    /// Stores a fact under a subject and gives its identifier.
    fn put(&self, content: &str, kind: &str, subject: &str) -> Result<String, ToolError>;

    /// The facts closest to a query, at most `k` of them.
    fn search(&self, query: &str, k: usize) -> Result<Vec<MemoryItem>, ToolError>;

    /// The facts of a subject.
    fn list(&self, subject: &str) -> Result<Vec<MemoryItem>, ToolError>;

    /// Removes a fact.
    fn delete(&self, id: &str) -> Result<(), ToolError>;

    /// A line about the store, where it has one.
    fn memory_info(&self) -> (r: Option<String>)
        default_ensures
            r is None,
    {
        None
    }

    /// Starts a consolidation of the store, where it has one.
    fn trigger_consolidation(&self) -> (r: Option<String>)
        default_ensures
            r is None,
    {
        None
    }

    /// Starts a harmonisation of the store, where it has one.
    fn trigger_harmonize(&self) -> (r: Option<String>)
        default_ensures
            r is None,
    {
        None
    }

    /// Removes every fact and gives their number, where the store can.
    fn clear_all(&self) -> (r: Result<usize, ToolError>)
        default_ensures
            r is Err,
            r->Err_0@
                == "clear_all not supported by this backend (no list-all subject primitive)"@,
    {
        Err("clear_all not supported by this backend (no list-all subject primitive)".to_owned())
    }

    /// Queues a consolidation, where the store can.
    fn enqueue_consolidation(&self) -> (r: Result<String, ToolError>)
        default_ensures
            r is Err,
            r->Err_0@ == "enqueue_consolidation not supported by this backend"@,
    {
        Err("enqueue_consolidation not supported by this backend".to_owned())
    }
}

/// What an address resolves to.
pub struct ResolvedContent {
    pub content: String,
    pub content_type: String,
    pub immutable: bool,
}

/// Resolves addresses such as `issue://7` to content.
pub trait UrlResolver {
    /// Whether the resolver handles an input.
    open spec fn handles(&self, input: Seq<char>) -> bool {
        arbitrary()
    }

    /// Whether the resolver may answer so for an address. What it does answer is left to
    /// it, and may differ from one call to the next.
    open spec fn may_answer(
        &self,
        uri: Seq<char>,
        answer: Result<ResolvedContent, ToolError>,
    ) -> bool {
        true
    }

    /// Whether the input is an address of this resolver.
    fn can_resolve(&self, input: &str) -> (r: bool)
        ensures
            r == self.handles(input@),
    ;

    /// The content of an address.
    fn resolve(&self, uri: &str) -> (r: Result<ResolvedContent, ToolError>)
        ensures
            self.may_answer(uri@, r),
    ;
}

/// Holds the todo list of a session. Phases, operations and results are JSON values.
pub trait TodoStateProvider {
    /// The phases of the list.
    fn get_phases(&self) -> Json;

    /// Replaces the phases of the list.
    fn set_phases_sync(&self, phases: Json);

    /// Applies operations to the list and gives what changed.
    fn apply_ops(&self, ops: Json) -> Result<Json, String>;
}

/// What an agent is for.
#[derive(Debug, Clone, Copy, PartialEq, Eq, Structural)]
pub enum AgentKind {
    Main,
    Task,
    Advisor,
}

/// What an agent does.
#[derive(Debug, Clone, Copy, PartialEq, Eq, Structural)]
pub enum AgentHubStatus {
    Running,
    Idle,
    Parked,
    Aborted,
}

/// An agent as the hub lists it.
#[derive(Debug, Clone)]
pub struct AgentInfo {
    pub id: String,
    pub display_name: String,
    pub kind: AgentKind,
    pub status: AgentHubStatus,
    pub current_task: Option<String>,
}

/// Knows the agents that run.
pub trait AgentPoolProvider {
    /// The agents that run.
    fn list_agents(&self) -> Vec<AgentInfo>;

    /// An agent by its identifier.
    fn get_agent(&self, id: &str) -> Option<AgentInfo>;
}

/// The diagnostics of one file.
#[derive(Debug)]
pub struct FileDiagnosticEntry {
    pub uri: String,
    pub path: String,
    pub diagnostics: Json,
}

/// The diagnostics of a workspace.
#[derive(Debug)]
pub struct DiagnosticsSummary {
    pub count: usize,
    pub errors: usize,
    pub warnings: usize,
    pub entries: Vec<FileDiagnosticEntry>,
}

impl Default for DiagnosticsSummary {
    fn default() -> (r: Self)
        ensures
            r.count == 0,
            r.errors == 0,
            r.warnings == 0,
            r.entries@.len() == 0,
    {
        DiagnosticsSummary { count: 0, errors: 0, warnings: 0, entries: Vec::new() }
    }
}

/// What a language server is asked.
#[derive(Debug)]
pub enum LspAction {
    Diagnostics { file: String },
    Definition { file: String, line: u32, symbol: Option<String> },
    References { file: String, line: u32, symbol: Option<String> },
    Hover { file: String, line: u32, symbol: Option<String> },
    Rename { file: String, line: u32, symbol: String, new_name: String, apply: bool },
    Symbols { file: String, query: Option<String> },
    Status,
    CodeActions { file: String, line: u32, symbol: Option<String> },
    TypeDefinition { file: String, line: u32, symbol: Option<String> },
    Implementation { file: String, line: u32, symbol: Option<String> },
    FileRename { old_path: String, new_path: String, apply: bool },
    Reload,
    Capabilities,
    Request { query: String, payload: Option<Json> },
}

/// Speaks to language servers.
pub trait LspProvider {
    /// Starts the servers without waiting for them.
    fn ensure_started_background(&self);

    /// Waits until the servers are ready.
    fn ensure_ready(&self) -> Result<(), String>;

    /// The diagnostics that came within the time, in milliseconds.
    fn drain_diagnostics(&self, timeout_ms: u64) -> Option<DiagnosticsSummary>;

    /// The diagnostics of some files.
    fn read_diagnostics(&self, paths: &Vec<String>) -> Vec<FileDiagnosticEntry>;

    /// Tells the servers that a file has changed.
    fn notify_file_changed(&self, _path: &str, _content: &str) {
    }

    /// Asks a server.
    fn execute_action(&self, action: &LspAction) -> Result<String, ToolError>;
}

/// What a subagent came back with.
#[derive(Debug, Clone)]
pub struct ForkResult {
    pub text: String,
    pub input_tokens: usize,
    pub output_tokens: usize,
    pub turns: u32,
    pub model: Option<String>,
    pub error: Option<String>,
}

impl Default for ForkResult {
    fn default() -> (r: Self)
        ensures
            r.text@.len() == 0,
            r.input_tokens == 0,
            r.output_tokens == 0,
            r.turns == 0,
            r.model is None,
            r.error is None,
    {
        ForkResult {
            text: String::new(),
            input_tokens: 0,
            output_tokens: 0,
            turns: 0,
            model: None,
            error: None,
        }
    }
}

/// Runs a task in an agent of its own.
pub trait SubagentRunner {
    /// Runs the task and waits for what comes of it.
    fn run_isolated(
        &self,
        agent_name: &str,
        task: &str,
        system_prompt: Option<&str>,
        model: Option<&str>,
        tools: &Vec<String>,
        cwd: &str,
        depth: u8,
    ) -> Result<ForkResult, String>;
}

/// A store of file snapshots. The context of a tool only carries it.
pub trait SnapshotStore {

}

/// What a tool is given besides its parameters.
pub struct ToolContext {
    pub workspace_dir: String,
    pub root_dir: Option<String>,
    pub session_id: Option<String>,
    pub snapshot_store: Option<Arc<dyn SnapshotStore>>,
    pub memory: Option<Arc<dyn MemoryBackend>>,
    pub url_resolver: Option<Arc<dyn UrlResolver>>,
    pub todo: Option<Arc<dyn TodoStateProvider>>,
    pub agent_pool: Option<Arc<dyn AgentPoolProvider>>,
    pub lsp: Option<Arc<dyn LspProvider>>,
    pub subagent_runner: Option<Arc<dyn SubagentRunner>>,
    pub subagent_depth: u8,
    pub intent: Option<String>,
}

/// The value as one that is there.
fn present<T>(value: T) -> (r: Option<T>)
    ensures
        r == Some(value),
{
    Some(value)
}

impl ToolContext {
    /// A context for a workspace, with nothing else in it.
    pub fn new(workspace_dir: String) -> (r: Self)
        ensures
            r == (ToolContext {
                workspace_dir,
                root_dir: None,
                session_id: None,
                snapshot_store: None,
                memory: None,
                url_resolver: None,
                todo: None,
                agent_pool: None,
                lsp: None,
                subagent_runner: None,
                subagent_depth: 0,
                intent: None,
            }),
    {
        ToolContext {
            workspace_dir,
            root_dir: None,
            session_id: None,
            snapshot_store: None,
            memory: None,
            url_resolver: None,
            todo: None,
            agent_pool: None,
            lsp: None,
            subagent_runner: None,
            subagent_depth: 0,
            intent: None,
        }
    }

    /// The directory that a tool works in.
    pub open spec fn root_spec(&self) -> Seq<char> {
        match self.root_dir {
            Some(root) => root@,
            None => self.workspace_dir@,
        }
    }

    /// The directory that a tool works in: the root, or else the workspace.
    pub fn root(&self) -> (r: &str)
        ensures
            r@ == self.root_spec(),
    {
        match &self.root_dir {
            Some(root) => root.as_str(),
            None => self.workspace_dir.as_str(),
        }
    }

    /// The context within a session.
    pub fn with_session(self, session_id: String) -> (r: Self)
        ensures
            r == (ToolContext { session_id: Some(session_id), ..self }),
    {
        ToolContext { session_id: Some(session_id), ..self }
    }

    /// The context with a root.
    pub fn with_root(self, root_dir: String) -> (r: Self)
        ensures
            r == (ToolContext { root_dir: Some(root_dir), ..self }),
            r.root_spec() == root_dir@,
    {
        ToolContext { root_dir: Some(root_dir), ..self }
    }

    /// The context with a store of snapshots.
    pub fn with_snapshot_store(self, store: Arc<dyn SnapshotStore>) -> (r: Self)
        ensures
            r.snapshot_store is Some,
            r.snapshot_store->0 == store,
            r == (ToolContext { snapshot_store: r.snapshot_store, ..self }),
    {
        let snapshot_store = present(store);
        ToolContext { snapshot_store, ..self }
    }

    /// The context with a memory.
    pub fn with_memory(self, memory: Arc<dyn MemoryBackend>) -> (r: Self)
        ensures
            r.memory is Some,
            r.memory->0 == memory,
            r == (ToolContext { memory: r.memory, ..self }),
    {
        let memory = present(memory);
        ToolContext { memory, ..self }
    }

    /// The context with a resolver of addresses.
    pub fn with_url_resolver(self, resolver: Arc<dyn UrlResolver>) -> (r: Self)
        ensures
            r.url_resolver is Some,
            r.url_resolver->0 == resolver,
            r == (ToolContext { url_resolver: r.url_resolver, ..self }),
    {
        let url_resolver = present(resolver);
        ToolContext { url_resolver, ..self }
    }

    /// The context with a todo list.
    pub fn with_todo(self, todo: Arc<dyn TodoStateProvider>) -> (r: Self)
        ensures
            r.todo is Some,
            r.todo->0 == todo,
            r == (ToolContext { todo: r.todo, ..self }),
    {
        let todo = present(todo);
        ToolContext { todo, ..self }
    }

    /// The context with a runner of subagents.
    pub fn with_subagent_runner(self, runner: Arc<dyn SubagentRunner>) -> (r: Self)
        ensures
            r.subagent_runner is Some,
            r.subagent_runner->0 == runner,
            r == (ToolContext { subagent_runner: r.subagent_runner, ..self }),
    {
        let subagent_runner = present(runner);
        ToolContext { subagent_runner, ..self }
    }

    /// The context with what the caller wants.
    pub fn with_intent(self, intent: String) -> (r: Self)
        ensures
            r == (ToolContext { intent: Some(intent), ..self }),
    {
        ToolContext { intent: Some(intent), ..self }
    }
}

/// What a tool gives back.
#[derive(Debug)]
pub struct AgentToolResult {
    pub success: bool,
    pub output: String,
    pub metadata: Option<Json>,
    pub content_blocks: Option<Vec<ContentBlock>>,
    pub terminate: bool,
    pub intent: Option<String>,
}

impl AgentToolResult {
    /// A result of a tool that did its work.
    pub fn success(output: String) -> (r: Self)
        ensures
            r == (AgentToolResult {
                success: true,
                output,
                metadata: None,
                content_blocks: None,
                terminate: false,
                intent: None,
            }),
    {
        AgentToolResult {
            success: true,
            output,
            metadata: None,
            content_blocks: None,
            terminate: false,
            intent: None,
        }
    }

    /// A result of a tool that failed.
    pub fn error(output: String) -> (r: Self)
        ensures
            r == (AgentToolResult {
                success: false,
                output,
                metadata: None,
                content_blocks: None,
                terminate: false,
                intent: None,
            }),
    {
        AgentToolResult {
            success: false,
            output,
            metadata: None,
            content_blocks: None,
            terminate: false,
            intent: None,
        }
    }

    /// The result with metadata.
    pub fn with_metadata(self, metadata: Json) -> (r: Self)
        ensures
            r == (AgentToolResult { metadata: Some(metadata), ..self }),
    {
        AgentToolResult { metadata: Some(metadata), ..self }
    }

    /// The result with content blocks.
    pub fn with_content_blocks(self, blocks: Vec<ContentBlock>) -> (r: Self)
        ensures
            r == (AgentToolResult { content_blocks: Some(blocks), ..self }),
    {
        AgentToolResult { content_blocks: Some(blocks), ..self }
    }

    /// The result as the last of its run.
    pub fn with_terminate(self) -> (r: Self)
        ensures
            r == (AgentToolResult { terminate: true, ..self }),
    {
        AgentToolResult { terminate: true, ..self }
    }

    /// The result with what the caller wanted.
    pub fn with_intent(self, intent: String) -> (r: Self)
        ensures
            r == (AgentToolResult { intent: Some(intent), ..self }),
    {
        AgentToolResult { intent: Some(intent), ..self }
    }

    /// The result as a text: its output.
    pub fn to_text(&self) -> (r: String)
        ensures
            r@ == self.output@,
    {
        self.output.clone()
    }
}

/// How a tool may run beside others.
#[derive(Debug, Clone)]
pub enum ToolExecutionMode {
    ParallelSafe,
    SequentialOnly,
    MutatesFile(String),
    ReadOnly,
}

/// How a call or a result is shown.
#[derive(Debug, Clone)]
pub struct RenderOutput {
    pub content: String,
    pub collapsed: bool,
    pub summary: Option<String>,
}

/// What a tool can do to the machine.
#[derive(Debug, Clone, Copy, PartialEq, Eq, Structural)]
pub enum ToolTier {
    Read,
    Write,
    Exec,
}

impl Default for ToolTier {
    fn default() -> (r: Self)
        ensures
            r == ToolTier::Exec,
    {
        ToolTier::Exec
    }
}

/// A tool as a model is told of it.
#[derive(Debug)]
pub struct ToolDefinition {
    pub name: String,
    pub description: String,
    pub input_schema: Json,
}

/// A tool that an agent can call.
pub trait AgentTool {
    /// The name that the tool is called by.
    open spec fn name_view(&self) -> Seq<char> {
        arbitrary()
    }

    /// What the tool does.
    open spec fn description_view(&self) -> Seq<char> {
        arbitrary()
    }

    /// What the tool's parameters look like.
    open spec fn schema_view(&self) -> crate::json::JsonView {
        arbitrary()
    }

    /// Whether the tool cannot be turned off.
    open spec fn essential_view(&self) -> bool {
        arbitrary()
    }

    /// The name that the tool is called by.
    fn name(&self) -> (r: &str)
        ensures
            r@ == self.name_view(),
    ;

    /// The name that the tool is shown by.
    fn label(&self) -> &str;

    /// What the tool does.
    fn description(&self) -> (r: &str)
        ensures
            r@ == self.description_view(),
    ;

    /// What the tool's parameters look like.
    fn parameters_schema(&self) -> (r: Json)
        ensures
            r@ == self.schema_view(),
            crate::json::json_wf(r),
    ;

    /// Whether the tool cannot be turned off.
    fn essential(&self) -> (r: bool)
        ensures
            r == self.essential_view(),
    ;

    /// How a call is shown, where the tool has a say.
    fn render_call(&self, _params: &Json) -> (r: Option<RenderOutput>)
        default_ensures
            r is None,
    {
        None
    }

    /// How a result is shown, where the tool has a say.
    fn render_result(&self, _result: &AgentToolResult) -> (r: Option<RenderOutput>)
        default_ensures
            r is None,
    {
        None
    }

    /// What the tool is called for, where it knows.
    fn intent(&self) -> (r: Option<String>)
        default_ensures
            r is None,
    {
        None
    }

    /// How the tool may run beside others.
    fn execution_mode(&self) -> (r: ToolExecutionMode)
        default_ensures
            r is ParallelSafe,
    {
        ToolExecutionMode::ParallelSafe
    }

    /// What the tool can do to the machine.
    fn tool_tier(&self) -> (r: ToolTier)
        default_ensures
            r == ToolTier::Exec,
    {
        ToolTier::Exec
    }

    /// The tab that the tool works in, where it has one.
    fn current_tab_id(&self) -> (r: Option<u128>)
        default_ensures
            r is None,
    {
        None
    }

    /// The tool as a model is told of it.
    fn to_definition(&self) -> (r: ToolDefinition)
        ensures
            r.name@ == self.name_view(),
            r.description@ == self.description_view(),
            r.input_schema@ == self.schema_view(),
            crate::json::json_wf(r.input_schema),
    {
        ToolDefinition {
            name: self.name().to_owned(),
            description: self.description().to_owned(),
            input_schema: self.parameters_schema(),
        }
    }
}

} // verus!
