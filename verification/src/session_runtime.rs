//! Making sessions and replacing them: which model, which prompt, and what happens to
//! the session before.

use crate::agent_session::{compaction_strategy, strategy_for, CompactionStrategy, ScopedModel};
use crate::app::PromptSkill;
use crate::messages::{copy_opt, entry_views, opt_view};
use crate::paths::{components, file_name, file_name_of, same_path};
use crate::session_log::SessionLog;
use crate::settings::{
    copy_named, model_used, named_views, NamedValue, Settings, Temperature, ThinkingLevel,
    TodoEagerMode,
};
use crate::text::{
    copy_texts, decimal, decimal_text, find_place, join_path, path_join, place_of, split_once,
    split_once_text, str_eq, trim, trim_text, views,
};
use crate::tools::registry::{offered, ToolRegistry};
use crate::tools::AgentTool;
use std::sync::Arc;
use vstd::prelude::*;

verus! {

/// How strongly the agent makes a todo list on the first turn.
#[derive(Debug, Clone, Copy, PartialEq, Eq, Structural)]
pub enum LoopTodoEagerMode {
    Off,
    Preferred,
    Always,
}

/// The agent's mode for a mode of the settings.
pub fn convert_todo_eager_mode(mode: TodoEagerMode) -> (r: LoopTodoEagerMode)
    ensures
        r == (match mode {
            TodoEagerMode::Off => LoopTodoEagerMode::Off,
            TodoEagerMode::Preferred => LoopTodoEagerMode::Preferred,
            TodoEagerMode::Always => LoopTodoEagerMode::Always,
        }),
{
    match mode {
        TodoEagerMode::Off => LoopTodoEagerMode::Off,
        TodoEagerMode::Preferred => LoopTodoEagerMode::Preferred,
        TodoEagerMode::Always => LoopTodoEagerMode::Always,
    }
}

/// Something that went wrong while a session was made, without ending it.
#[derive(Debug, Clone)]
pub struct AgentSessionRuntimeDiagnostic {
    pub severity: DiagnosticSeverity,
    pub message: String,
}

/// How grave a diagnostic is.
#[derive(Debug, Clone, Copy, PartialEq, Eq, Structural)]
pub enum DiagnosticSeverity {
    Info,
    Warning,
    Error,
}

impl DiagnosticSeverity {
    /// The severity as a word.
    pub fn to_text(&self) -> (r: String)
        ensures
            r@ == match self {
                DiagnosticSeverity::Info => "info"@,
                DiagnosticSeverity::Warning => "warning"@,
                DiagnosticSeverity::Error => "error"@,
            },
    {
        match self {
            DiagnosticSeverity::Info => "info".to_owned(),
            DiagnosticSeverity::Warning => "warning".to_owned(),
            DiagnosticSeverity::Error => "error".to_owned(),
        }
    }
}

/// Why a session is replaced.
#[derive(Debug, Clone, Copy, PartialEq, Eq, Structural)]
pub enum SessionSwitchReason {
    New,
    Resume,
    Fork,
    Import,
    Quit,
}

/// Where a session is forked relative to an entry.
#[derive(Debug, Clone, Copy, PartialEq, Eq, Structural)]
pub enum ForkPosition {
    /// At the entry, which the fork holds.
    At,
    /// Before the entry, which the fork does not hold.
    Before,
}

/// A file to import that does not exist.
#[derive(Debug)]
pub struct SessionImportFileNotFoundError {
    pub file_path: String,
}

impl SessionImportFileNotFoundError {
    /// The error as a sentence.
    pub fn to_text(&self) -> (r: String)
        ensures
            r@ == "File not found: "@ + self.file_path@,
    {
        let mut out = "File not found: ".to_owned();
        out.append(self.file_path.as_str());
        out
    }
}

/// The provider and the model of an identifier; without a slash it is a model of
/// `anthropic`.
pub open spec fn model_parts(model_id: Seq<char>) -> (Seq<char>, Seq<char>) {
    match split_once(model_id, '/') {
        Some(parts) => parts,
        None => ("anthropic"@, model_id),
    }
}

/// The provider and the model of an identifier.
pub fn parse_model_id(model_id: &str) -> (r: (String, String))
    ensures
        (r.0@, r.1@) == model_parts(model_id@),
{
    match split_once_text(model_id, '/') {
        Some(parts) => parts,
        None => ("anthropic".to_owned(), model_id.to_owned()),
    }
}

/// A persona: what it says of itself, and the model that it prefers.
#[derive(Debug)]
pub struct Persona {
    pub system_prompt: String,
    pub preferred_model: Option<String>,
}

/// The default persona, where the lookup found one that says something.
pub fn resolve_default_persona(lookup: Result<Option<Persona>, String>) -> (r: Option<Persona>)
    ensures
        r == (match lookup {
            Ok(Some(p)) => if trim(p.system_prompt@).len() == 0 {
                None
            } else {
                Some(p)
            },
            _ => None,
        }),
{
    match lookup {
        Ok(Some(p)) => {
            if trim_text(p.system_prompt.as_str()).as_str().is_empty() {
                None
            } else {
                Some(p)
            }
        },
        _ => None,
    }
}

/// What the system prompt says of the tools.
pub const TOOL_GUIDANCE: &'static str = "\n\n## Task Management\nWhen working on multi-step tasks (3+ steps), use the `todo` tool to plan, start, and complete phases before writing code. Tasks are 5-10 words describing WHAT not HOW.\n\n## Project Memory\nUse `memory_retain` to save project facts/preferences across sessions. Use `memory_recall` to search past knowledge. Use `memory_reflect` at session end.\n\n## Commit Messages\nUse `commit` with `--dry-run` first to preview conventional commit messages. Handles scope detection, validation, and changelog updates.\n\n## Diagrams\nUse ` ```mermaid ` code blocks to explain architecture and flow. They render as ASCII diagrams in the terminal.";

/// What the system prompt says of the workspace search.
pub const WORKSPACE_SEARCH_GUIDANCE: &'static str = "For a workspace-grounded question with unknown wording or location, use one focused workspace_search query. Verify its source passages with read or grep. Use grep for exact identifiers, paths, literals, regular expressions, and exhaustive occurrence searches. Do not use workspace_search to create, update, or delete an index.";

/// The memory with what is said of the tools behind it.
pub fn append_memory_and_tool_guidance(memory_block: Option<String>) -> (r: Option<String>)
    ensures
        opt_view(r) == Some(with_tool_guidance(opt_view(memory_block))),
{
    match memory_block {
        Some(m) => {
            let mut out = m;
            out.append(TOOL_GUIDANCE);
            Some(out)
        },
        None => Some(TOOL_GUIDANCE.to_owned()),
    }
}

/// The blocks that follow the prompt: the memory, what is read from it, and the workspace
/// search after an empty line.
pub open spec fn combined_blocks(
    memory: Option<Seq<char>>,
    read_path: Option<Seq<char>>,
    workspace_search: Option<Seq<char>>,
) -> Option<Seq<char>> {
    let first = match (memory, read_path) {
        (Some(m), Some(p)) => Some(m + p),
        (Some(m), None) => Some(m),
        (None, Some(p)) => Some(p),
        (None, None) => None,
    };
    match (first, workspace_search) {
        (Some(existing), Some(w)) => Some(existing + "\n\n"@ + w),
        (None, Some(w)) => Some(w),
        (existing, None) => existing,
    }
}

/// The blocks that follow the prompt.
pub fn combine_blocks(
    memory: Option<String>,
    read_path: Option<String>,
    workspace_search: Option<String>,
) -> (r: Option<String>)
    ensures
        opt_view(r) == combined_blocks(
            opt_view(memory),
            opt_view(read_path),
            opt_view(workspace_search),
        ),
{
    let first = match memory {
        Some(m) => match read_path {
            Some(p) => {
                let mut out = m;
                out.append(p.as_str());
                Some(out)
            },
            None => Some(m),
        },
        None => read_path,
    };
    match workspace_search {
        Some(w) => match first {
            Some(existing) => {
                let mut out = existing;
                out.append("\n\n");
                out.append(w.as_str());
                Some(out)
            },
            None => Some(w),
        },
        None => first,
    }
}

/// What a system prompt is made with besides what every prompt says.
#[derive(Debug)]
pub struct PromptPlan {
    pub thinking_level: ThinkingLevel,
    pub skills: Vec<PromptSkill>,
    /// What follows the prompt.
    pub append_system_prompt: Option<String>,
    /// What the persona says of itself.
    pub persona_prompt: Option<String>,
}

/// A block with what is said of the tools behind it.
pub open spec fn with_tool_guidance(block: Option<Seq<char>>) -> Seq<char> {
    match block {
        Some(b) => b + TOOL_GUIDANCE@,
        None => TOOL_GUIDANCE@,
    }
}

/// Whether a plan is that of a session's prompt.
pub open spec fn is_session_prompt(
    plan: PromptPlan,
    thinking_level: ThinkingLevel,
    memory: Option<Seq<char>>,
    read_path: Option<Seq<char>>,
    workspace_search: Option<Seq<char>>,
    persona: Option<Persona>,
) -> bool {
    &&& plan.thinking_level == thinking_level
    &&& plan.skills@.len() == 0
    &&& opt_view(plan.append_system_prompt) == Some(
        with_tool_guidance(combined_blocks(memory, read_path, workspace_search)),
    )
    &&& opt_view(plan.persona_prompt) == match persona {
        Some(p) => Some(p.system_prompt@),
        None => None,
    }
}

/// What a session's prompt is made with: the blocks follow it with what is said of the
/// tools behind them, and the persona speaks for itself.
pub fn build_system_prompt_with_memory(
    thinking_level: ThinkingLevel,
    memory_block: Option<String>,
    read_path_block: Option<String>,
    workspace_search_block: Option<String>,
    persona: &Option<Persona>,
) -> (r: PromptPlan)
    ensures
        is_session_prompt(
            r,
            thinking_level,
            opt_view(memory_block),
            opt_view(read_path_block),
            opt_view(workspace_search_block),
            *persona,
        ),
{
    let blocks = combine_blocks(memory_block, read_path_block, workspace_search_block);
    PromptPlan {
        thinking_level,
        skills: Vec::new(),
        append_system_prompt: append_memory_and_tool_guidance(blocks),
        persona_prompt: match persona {
            Some(p) => Some(p.system_prompt.clone()),
            None => None,
        },
    }
}

/// What a prompt is told of the workspace search stands in it, whatever the other blocks
/// hold.
pub proof fn lemma_fragment_is_kept(
    memory: Option<Seq<char>>,
    read_path: Option<Seq<char>>,
    fragment: Seq<char>,
)
    ensures
        exists|before: Seq<char>, after: Seq<char>|
            with_tool_guidance(combined_blocks(memory, read_path, Some(fragment))) == #[trigger] (
            before + fragment + after),
{
    let all = with_tool_guidance(combined_blocks(memory, read_path, Some(fragment)));
    match combined_blocks(memory, read_path, None) {
        Some(existing) => {
            assert(all =~= (existing + "\n\n"@) + fragment + TOOL_GUIDANCE@);
        },
        None => {
            assert(all =~= Seq::empty() + fragment + TOOL_GUIDANCE@);
        },
    }
}

/// Whether the prompt names the workspace search: it must be turned on and registered.
pub open spec fn names_workspace_search(settings: Settings, registered: bool) -> bool {
    settings.workspace_search.enabled && registered
}

/// What the prompt says of the workspace search, where it names it.
pub open spec fn search_guidance(settings: Settings, registered: bool) -> Option<Seq<char>> {
    if names_workspace_search(settings, registered) {
        Some(WORKSPACE_SEARCH_GUIDANCE@)
    } else {
        None
    }
}

/// What the prompt says of the workspace search, where it names it.
pub fn workspace_search_guidance(settings: &Settings, registered: bool) -> (r: Option<String>)
    ensures
        opt_view(r) == search_guidance(*settings, registered),
{
    if settings.workspace_search.enabled && registered {
        Some(WORKSPACE_SEARCH_GUIDANCE.to_owned())
    } else {
        None
    }
}

/// The prompt never names a tool that is not registered, nor one that is turned off.
pub proof fn lemma_guidance_needs_both(settings: Settings)
    ensures
        !names_workspace_search(settings, false),
        !settings.workspace_search.enabled ==> !names_workspace_search(settings, true),
        crate::settings::is_default_settings(settings) ==> !names_workspace_search(settings, true),
{
}

/// The data directory of the agent: the home, or a directory in the working directory.
pub fn get_default_agent_dir(home: Option<&str>) -> (r: String)
    ensures
        r@ == match home {
            Some(h) => h@,
            None => ".oxicode"@,
        },
{
    match home {
        Some(h) => h.to_owned(),
        None => ".oxicode".to_owned(),
    }
}

/// The directory of the sessions.
pub fn get_default_session_dir(agent_dir: &str) -> (r: String)
    ensures
        r@ == agent_dir@ + "/sessions"@,
{
    let mut out = agent_dir.to_owned();
    out.append("/sessions");
    out
}

/// The working directory that a session names, where it names one.
pub fn session_cwd(cwd: &str) -> (r: Option<String>)
    ensures
        opt_view(r) == if cwd@.len() == 0 {
            None
        } else {
            Some(cwd@)
        },
{
    if cwd.is_empty() {
        None
    } else {
        Some(cwd.to_owned())
    }
}

/// Options for the services of a working directory; what is not given is made.
pub struct CreateAgentSessionServicesOptions<A, R, L, P> {
    pub cwd: String,
    pub agent_dir: Option<String>,
    pub auth_storage: Option<A>,
    pub settings: Option<Settings>,
    pub model_registry: Option<R>,
    pub resource_loader: Option<L>,
    pub persona_provider: Option<P>,
}

impl<A, R, L, P> CreateAgentSessionServicesOptions<A, R, L, P> {
    /// Options that give the working directory alone.
    pub fn new(cwd: String) -> (r: Self)
        ensures
            r == (CreateAgentSessionServicesOptions::<A, R, L, P> {
                cwd,
                agent_dir: None,
                auth_storage: None,
                settings: None,
                model_registry: None,
                resource_loader: None,
                persona_provider: None,
            }),
    {
        CreateAgentSessionServicesOptions {
            cwd,
            agent_dir: None,
            auth_storage: None,
            settings: None,
            model_registry: None,
            resource_loader: None,
            persona_provider: None,
        }
    }
}

/// The services of a working directory.
pub struct AgentSessionServices<A, R, L, P, H> {
    pub cwd: String,
    pub agent_dir: String,
    pub auth_storage: A,
    pub settings: Settings,
    pub model_registry: R,
    pub resource_loader: L,
    pub persona_provider: P,
    pub diagnostics: Vec<AgentSessionRuntimeDiagnostic>,
    pub hook_runner: Option<H>,
}

impl<A, R, L, P, H> AgentSessionServices<A, R, L, P, H> {
    /// What runs the hooks, where there is one.
    pub fn hook_runner(&self) -> (r: Option<&H>)
        ensures
            match r {
                Some(runner) => self.hook_runner == Some(*runner),
                None => self.hook_runner is None,
            },
    {
        match &self.hook_runner {
            Some(runner) => Some(runner),
            None => None,
        }
    }
}

/// What the services are where the options give none.
pub struct ServiceDefaults<A, R, L, P> {
    pub agent_dir: String,
    pub auth_storage: A,
    pub settings: Settings,
    pub model_registry: R,
    pub resource_loader: L,
    pub persona_provider: P,
}

/// A value that is given, or its default.
fn given_or<T>(given: Option<T>, default: T) -> (r: T)
    ensures
        r == (match given {
            Some(v) => v,
            None => default,
        }),
{
    match given {
        Some(v) => v,
        None => default,
    }
}

/// The services of a working directory: those that the options give, and defaults for the
/// rest.
pub fn create_agent_session_services<A, R, L, P, H>(
    options: CreateAgentSessionServicesOptions<A, R, L, P>,
    defaults: ServiceDefaults<A, R, L, P>,
    hook_runner: Option<H>,
) -> (r: AgentSessionServices<A, R, L, P, H>)
    ensures
        r.cwd == options.cwd,
        r.agent_dir == (match options.agent_dir {
            Some(v) => v,
            None => defaults.agent_dir,
        }),
        r.auth_storage == (match options.auth_storage {
            Some(v) => v,
            None => defaults.auth_storage,
        }),
        r.settings == (match options.settings {
            Some(v) => v,
            None => defaults.settings,
        }),
        r.model_registry == (match options.model_registry {
            Some(v) => v,
            None => defaults.model_registry,
        }),
        r.resource_loader == (match options.resource_loader {
            Some(v) => v,
            None => defaults.resource_loader,
        }),
        r.persona_provider == (match options.persona_provider {
            Some(v) => v,
            None => defaults.persona_provider,
        }),
        r.diagnostics@.len() == 0,
        r.hook_runner == hook_runner,
{
    AgentSessionServices {
        cwd: options.cwd,
        agent_dir: given_or(options.agent_dir, defaults.agent_dir),
        auth_storage: given_or(options.auth_storage, defaults.auth_storage),
        settings: given_or(options.settings, defaults.settings),
        model_registry: given_or(options.model_registry, defaults.model_registry),
        resource_loader: given_or(options.resource_loader, defaults.resource_loader),
        persona_provider: given_or(options.persona_provider, defaults.persona_provider),
        diagnostics: Vec::new(),
        hook_runner,
    }
}

/// The directory of the personas.
pub fn personas_dir(agent_dir: &str) -> (r: String)
    ensures
        r@ == path_join(agent_dir@, "personas"@),
{
    join_path(agent_dir, "personas")
}

/// A rule over the stream of a response.
#[derive(Debug)]
pub struct StreamRule {
    pub name: String,
    pub ast_condition: Option<String>,
    pub globs: Vec<String>,
    pub interrupt_mode: Option<String>,
}

/// A rule that looks at syntax trees.
#[derive(Debug)]
pub struct AstRule {
    pub name: String,
    pub pattern: String,
    pub file_scope: Vec<String>,
    pub interrupt_mode: Option<String>,
}

/// Whether `a` is the syntax rule of `r`.
pub open spec fn is_ast_rule_of(a: AstRule, r: StreamRule) -> bool {
    &&& r.ast_condition is Some
    &&& a.name@ == r.name@
    &&& a.pattern@ == r.ast_condition->0@
    &&& crate::text::views(a.file_scope@) == crate::text::views(r.globs@)
    &&& opt_view(a.interrupt_mode) == opt_view(r.interrupt_mode)
}

/// The places of the rules that look at syntax trees.
pub open spec fn ast_places(rules: Seq<StreamRule>) -> Seq<int>
    decreases rules.len(),
{
    if rules.len() == 0 {
        Seq::empty()
    } else if rules.last().ast_condition is Some {
        ast_places(rules.drop_last()).push(rules.len() - 1)
    } else {
        ast_places(rules.drop_last())
    }
}

/// The rules that look at syntax trees, in their order.
pub fn ast_rules(rules: &Vec<StreamRule>) -> (r: Vec<AstRule>)
    ensures
        r@.len() == ast_places(rules@).len(),
        forall|i: int|
            0 <= i < r@.len() ==> 0 <= #[trigger] ast_places(rules@)[i] < rules@.len(),
        forall|i: int|
            0 <= i < r@.len() ==> is_ast_rule_of(
                #[trigger] r@[i],
                rules@[ast_places(rules@)[i]],
            ),
{
    let mut out: Vec<AstRule> = Vec::new();
    let mut i: usize = 0;
    proof {
        assert(rules@.take(0) =~= Seq::empty());
    }
    while i < rules.len()
        invariant
            i <= rules@.len(),
            out@.len() == ast_places(rules@.take(i as int)).len(),
            forall|j: int|
                0 <= j < out@.len() ==> 0 <= #[trigger] ast_places(rules@.take(i as int))[j] < i,
            forall|j: int|
                0 <= j < out@.len() ==> is_ast_rule_of(
                    #[trigger] out@[j],
                    rules@[ast_places(rules@.take(i as int))[j]],
                ),
        decreases rules@.len() - i,
    {
        let ghost before = out@;
        let ghost places = ast_places(rules@.take(i as int));
        let ghost next = ast_places(rules@.take(i + 1));
        proof {
            assert(rules@.take(i + 1).drop_last() =~= rules@.take(i as int));
            assert(rules@.take(i + 1).last() == rules@[i as int]);
        }
        match &rules[i].ast_condition {
            Some(pattern) => {
                out.push(
                    AstRule {
                        name: rules[i].name.clone(),
                        pattern: pattern.clone(),
                        file_scope: copy_texts(&rules[i].globs),
                        interrupt_mode: copy_opt(&rules[i].interrupt_mode),
                    },
                );
            },
            None => {},
        }
        proof {
            assert forall|j: int| 0 <= j < out@.len() implies 0 <= #[trigger] next[j] < i + 1 by {
                if j < before.len() {
                    assert(next[j] == places[j]);
                }
            }
            assert forall|j: int| 0 <= j < out@.len() implies is_ast_rule_of(
                #[trigger] out@[j],
                rules@[next[j]],
            ) by {
                if j < before.len() {
                    assert(out@[j] == before[j]);
                    assert(next[j] == places[j]);
                }
            }
        }
        i += 1;
    }
    proof {
        assert(rules@.take(i as int) =~= rules@);
    }
    out
}

/// The model of a session: the one that is asked for, else that of the persona, else
/// that of the settings; empty where there is none.
pub open spec fn session_model(
    asked: Option<Seq<char>>,
    preferred: Option<Seq<char>>,
    settings: Settings,
) -> Seq<char> {
    let used = model_used(
        None,
        opt_view(settings.last_used_model),
        opt_view(settings.last_used_provider),
    );
    match (asked, preferred, used) {
        (Some(id), _, _) => id,
        (None, Some(id), _) => id,
        (None, None, Some(id)) => id,
        (None, None, None) => Seq::empty(),
    }
}

/// What the rules over the stream are made with.
#[derive(Debug, Clone, Copy, PartialEq, Eq, Structural)]
pub enum StreamRules {
    /// There are none.
    Off,
    /// With the settings that they have by themselves.
    Defaults,
    /// With or without the rules that are built in.
    WithBuiltins(bool),
}

/// What a session is made with.
#[derive(Debug)]
pub struct SessionPlan {
    /// The name of the agent.
    pub name: String,
    pub description: String,
    /// The directory that the agent works in.
    pub workspace_dir: String,
    pub model_id: String,
    /// The provider that is made; a session without a model has a stand-in.
    pub provider: String,
    pub prompt: PromptPlan,
    pub stream_rules: StreamRules,
    pub timeout_seconds: u64,
    pub temperature: Option<Temperature>,
    pub max_tokens: Option<usize>,
    pub compaction_strategy: CompactionStrategy,
    /// The window of a session without a model; with one it is the agent's default.
    pub context_window: Option<usize>,
    /// Whether the session begins with a todo list of its own.
    pub with_todo_list: bool,
    pub todo_reminders_enabled: bool,
    pub todo_reminders_max: u32,
    pub todo_eager_mode: LoopTodoEagerMode,
    /// The models by their roles, through which the provider is reached; a session without
    /// a model reaches it directly.
    pub model_roles: Option<Vec<NamedValue>>,
    /// Whether the session has its memory and its tools.
    pub with_tools: bool,
    /// The models that the user cycles through.
    pub scoped_models: Vec<ScopedModel>,
    /// Whether the advisor is started.
    pub start_advisor: bool,
}

/// What is asked of a session.
pub struct CreateAgentSessionFromServicesOptions {
    pub model_id: Option<String>,
    pub thinking_level: Option<ThinkingLevel>,
    pub scoped_models: Vec<ScopedModel>,
}

/// What a session is made with, and why its model is another than the one asked for.
pub struct CreateAgentSessionResult {
    pub session: SessionPlan,
    pub model_fallback_message: Option<String>,
}

/// A block that says nothing counts as none.
pub open spec fn block_or_none(block: Seq<char>) -> Option<Seq<char>> {
    if block.len() == 0 {
        None
    } else {
        Some(block)
    }
}

/// Whether a plan is the one for a session.
pub open spec fn is_session_plan(
    plan: SessionPlan,
    asked: Option<Seq<char>>,
    persona: Option<Persona>,
    settings: Settings,
    thinking: Option<ThinkingLevel>,
    memory_block: Seq<char>,
    registered: bool,
    scoped_models: Seq<ScopedModel>,
    cwd: Seq<char>,
) -> bool {
    let preferred = match persona {
        Some(p) => opt_view(p.preferred_model),
        None => None,
    };
    let id = session_model(asked, preferred, settings);
    let bare = id.len() == 0;
    let memory = if bare && !settings.memory_enabled {
        None
    } else {
        block_or_none(memory_block)
    };
    &&& plan.name@ == "oxicode"@
    &&& plan.description@ == "oxicode CLI agent"@
    &&& plan.workspace_dir@ == cwd
    &&& plan.model_id@ == id
    &&& plan.provider@ == if bare {
        "anthropic"@
    } else {
        model_parts(id).0
    }
    &&& is_session_prompt(
        plan.prompt,
        match thinking {
            Some(level) => level,
            None => settings.thinking_level,
        },
        memory,
        None,
        search_guidance(settings, registered),
        persona,
    )
    &&& plan.stream_rules == if !settings.ttsr_enabled {
        StreamRules::Off
    } else if bare {
        StreamRules::Defaults
    } else {
        StreamRules::WithBuiltins(settings.ttsr_interrupt_mode@ != "never"@)
    }
    &&& plan.timeout_seconds == settings.tool_timeout_seconds
    &&& plan.temperature == (match (settings.default_temperature, settings.temperature) {
        (Some(d), _) => Some(Temperature::Double(d)),
        (None, Some(t)) => Some(Temperature::Single(t)),
        (None, None) => None,
    })
    &&& plan.max_tokens == (match (settings.max_response_tokens, settings.max_tokens) {
        (Some(n), _) => Some(n),
        (None, Some(n)) => Some(n as usize),
        (None, None) => None,
    })
    &&& plan.compaction_strategy == strategy_for(settings.auto_compaction)
    &&& plan.context_window == if bare {
        Some(128_000usize)
    } else {
        None
    }
    &&& plan.with_todo_list
    &&& plan.todo_reminders_enabled == settings.todo_reminders_enabled
    &&& plan.todo_reminders_max == settings.todo_reminders_max
    &&& plan.todo_eager_mode == (match settings.todo_eager_mode {
        TodoEagerMode::Off => LoopTodoEagerMode::Off,
        TodoEagerMode::Preferred => LoopTodoEagerMode::Preferred,
        TodoEagerMode::Always => LoopTodoEagerMode::Always,
    })
    &&& match plan.model_roles {
        Some(roles) => !bare && named_views(roles@) == named_views(settings.model_roles@),
        None => bare,
    }
    &&& plan.with_tools == !bare
    &&& plan.scoped_models@ == if bare {
        Seq::empty()
    } else {
        scoped_models
    }
    &&& plan.start_advisor == (!bare && settings.advisor.enabled)
}

/// The tools that a session is given: those of a registry, or else the built-in ones
/// without those that are turned off.
pub open spec fn given_tools<T: AgentTool, M>(
    registry: Option<&ToolRegistry<T, M>>,
    all_tools: Seq<Arc<T>>,
    disabled: Seq<Seq<char>>,
) -> Map<Seq<char>, Arc<T>> {
    match registry {
        Some(r) => r@,
        None => offered(all_tools, disabled),
    }
}

/// The manager of the tool servers that a session is given: that of a registry, or else
/// that of the built-in tools.
pub open spec fn given_manager<T: AgentTool, M>(
    registry: Option<&ToolRegistry<T, M>>,
    mcp_manager: Arc<M>,
) -> Option<Arc<M>> {
    match registry {
        Some(r) => r.mcp_manager,
        None => Some(mcp_manager),
    }
}

/// Hands the tools of a registry on to an agent, and the manager of their servers with
/// them.
pub fn hand_on_tools<T: AgentTool, M>(
    agent_tools: &mut ToolRegistry<T, M>,
    registry: &ToolRegistry<T, M>,
)
    requires
        old(agent_tools).wf(),
        registry.wf(),
    ensures
        final(agent_tools).wf(),
        final(agent_tools)@ == old(agent_tools)@.union_prefer_right(registry@),
        final(agent_tools).mcp_manager == if registry.mcp_manager is Some {
            registry.mcp_manager
        } else {
            old(agent_tools).mcp_manager
        },
{
    agent_tools.extend_from(registry);
    match registry.mcp_manager() {
        Some(manager) => {
            agent_tools.set_mcp_manager(manager);
        },
        None => {},
    }
}

/// What a session is made with. Without a model it is a bare one, which the user then
/// sets up, and which recalls nothing where the memory is turned off. Any other is handed
/// its tools and the manager of their servers.
pub fn create_agent_session_from_services<T: AgentTool, M>(
    options: CreateAgentSessionFromServicesOptions,
    persona: &Option<Persona>,
    settings: &Settings,
    memory_block: String,
    registered: bool,
    cwd: &str,
    agent_tools: &mut ToolRegistry<T, M>,
    tool_registry: Option<&ToolRegistry<T, M>>,
    all_tools: &Vec<Arc<T>>,
    mcp_manager: Arc<M>,
) -> (r: CreateAgentSessionResult)
    requires
        old(agent_tools).wf(),
        tool_registry is Some ==> tool_registry->0.wf(),
    ensures
        final(agent_tools).wf(),
        ({
            let tools = given_tools(tool_registry, all_tools@, views(settings.disabled_tools@));
            let manager = given_manager(tool_registry, mcp_manager);
            if r.session.with_tools {
                &&& final(agent_tools)@ == old(agent_tools)@.union_prefer_right(tools)
                &&& final(agent_tools).mcp_manager == if manager is Some {
                    manager
                } else {
                    old(agent_tools).mcp_manager
                }
            } else {
                *final(agent_tools) == *old(agent_tools)
            }
        }),
        is_session_plan(
            r.session,
            opt_view(options.model_id),
            *persona,
            *settings,
            options.thinking_level,
            memory_block@,
            registered,
            options.scoped_models@,
            cwd@,
        ),
        r.model_fallback_message is None,
{
    let thinking = options.thinking_level;
    let asked = match &options.model_id {
        Some(id) => Some(id.as_str()),
        None => None,
    };
    let model_id = resolve_session_model(asked, persona, settings);
    let bare = model_id.as_str().is_empty();
    let provider = if bare {
        "anthropic".to_owned()
    } else {
        parse_model_id(model_id.as_str()).0
    };
    let memory = if memory_block.as_str().is_empty() || (bare && !settings.memory_enabled) {
        None
    } else {
        Some(memory_block)
    };
    let prompt = build_system_prompt_with_memory(
        match thinking {
            Some(level) => level,
            None => settings.thinking_level,
        },
        memory,
        None,
        workspace_search_guidance(settings, registered),
        persona,
    );
    let stream_rules = if !settings.ttsr_enabled {
        StreamRules::Off
    } else if bare {
        StreamRules::Defaults
    } else {
        StreamRules::WithBuiltins(!str_eq(settings.ttsr_interrupt_mode.as_str(), "never"))
    };
    let scoped_models = if bare {
        Vec::new()
    } else {
        options.scoped_models
    };
    if !bare {
        match tool_registry {
            Some(registry) => {
                hand_on_tools(agent_tools, registry);
            },
            None => {
                let builtins = ToolRegistry::with_builtins_cwd(
                    all_tools,
                    &settings.disabled_tools,
                    mcp_manager,
                );
                hand_on_tools(agent_tools, &builtins);
            },
        }
    }
    let model_roles = if bare {
        None
    } else {
        Some(copy_named(&settings.model_roles))
    };
    let session = SessionPlan {
        name: "oxicode".to_owned(),
        description: "oxicode CLI agent".to_owned(),
        workspace_dir: cwd.to_owned(),
        model_id,
        provider,
        prompt,
        stream_rules,
        timeout_seconds: settings.tool_timeout_seconds,
        temperature: settings.effective_temperature(),
        max_tokens: settings.effective_max_tokens(),
        compaction_strategy: compaction_strategy(settings.auto_compaction),
        context_window: if bare {
            Some(128_000)
        } else {
            None
        },
        with_todo_list: true,
        todo_reminders_enabled: settings.todo_reminders_enabled,
        todo_reminders_max: settings.todo_reminders_max,
        todo_eager_mode: convert_todo_eager_mode(settings.todo_eager_mode),
        model_roles,
        with_tools: !bare,
        scoped_models,
        start_advisor: !bare && settings.advisor.enabled,
    };
    CreateAgentSessionResult { session, model_fallback_message: None }
}

/// The model of a session.
pub fn resolve_session_model(
    asked: Option<&str>,
    persona: &Option<Persona>,
    settings: &Settings,
) -> (r: String)
    ensures
        r@ == session_model(
            crate::handoff_prompt::opt_str_view(asked),
            match persona {
                Some(p) => opt_view(p.preferred_model),
                None => None,
            },
            *settings,
        ),
{
    match asked {
        Some(id) => {
            return id.to_owned();
        },
        None => {},
    }
    match persona {
        Some(p) => match &p.preferred_model {
            Some(id) => {
                return id.clone();
            },
            None => {},
        },
        None => {},
    }
    match settings.effective_model(None) {
        Some(id) => id,
        None => String::new(),
    }
}

/// The message for a provider that is not known.
pub fn provider_not_found(provider: &str) -> (r: String)
    ensures
        r@ == "Provider '"@ + provider@ + "' not found"@,
{
    let mut out = "Provider '".to_owned();
    out.append(provider);
    out.append("' not found");
    out
}

/// Options for making a session at a working directory.
pub struct CreateRuntimeOptions<M> {
    pub cwd: String,
    pub agent_dir: String,
    pub session_manager: M,
}

/// A session that was made, with its services.
pub struct CreateAgentSessionRuntimeResult<S, V> {
    pub session: S,
    pub services: V,
    pub diagnostics: Vec<AgentSessionRuntimeDiagnostic>,
    pub model_fallback_message: Option<String>,
}

/// The current session with its services.
pub struct AgentSessionRuntime<S, V> {
    pub session: S,
    pub services: V,
    pub diagnostics: Vec<AgentSessionRuntimeDiagnostic>,
    pub model_fallback_message: Option<String>,
}

/// What is left to do for a session that ends.
#[derive(Debug)]
pub struct Teardown {
    /// Whether the hooks are told that the session ends.
    pub tell_hooks: bool,
    /// What the memory keeps of the session.
    pub summary: Option<String>,
}

/// What the memory keeps of a session: a line where it had three messages or more.
pub open spec fn session_summary(
    session_id: Seq<char>,
    messages: nat,
    has_memory: bool,
) -> Option<Seq<char>> {
    if has_memory && messages >= 3 {
        Some("Session "@ + session_id + ": "@ + decimal(messages) + " messages"@)
    } else {
        None
    }
}

/// Ends a session: its conversation begins anew, and the rest is left to do.
pub fn teardown_current(
    session: &mut crate::agent_session::AgentSession,
    has_memory: bool,
    has_hooks: bool,
) -> (r: Teardown)
    ensures
        r.tell_hooks == has_hooks,
        opt_view(r.summary) == session_summary(
            old(session).session_id@,
            old(session).messages@.len(),
            has_memory,
        ),
        final(session).messages@.len() == 0,
        final(session).queues.steering@.len() == 0,
        final(session).queues.follow_up@.len() == 0,
        crate::agent_session::told(*final(session), *old(session), final(session).queue_event()),
        *final(session) == (crate::agent_session::AgentSession {
            messages: final(session).messages,
            overflow_recovery_attempted: false,
            queues: final(session).queues,
            outbox: final(session).outbox,
            ..*old(session)
        }),
{
    let count: usize = session.messages.len();
    let summary = if has_memory && count >= 3 {
        let mut text = "Session ".to_owned();
        text.append(session.session_id.as_str());
        text.append(": ");
        text.append(decimal_text(count as u64).as_str());
        text.append(" messages");
        Some(text)
    } else {
        None
    };
    session.reset();
    Teardown { tell_hooks: has_hooks, summary }
}

/// A session that is to be replaced.
#[derive(Debug)]
pub struct Replacement {
    pub reason: SessionSwitchReason,
    pub cwd: String,
}

/// How many entries a fork at an entry holds.
pub open spec fn fork_len(ids: Seq<Seq<char>>, entry_id: Seq<char>, position: ForkPosition) -> int {
    let place = place_of(ids, entry_id);
    if place >= ids.len() {
        0
    } else {
        match position {
            ForkPosition::At => place as int + 1,
            ForkPosition::Before => place as int,
        }
    }
}

impl<S, V> AgentSessionRuntime<S, V> {
    /// A runtime for a session.
    pub fn new(
        session: S,
        services: V,
        diagnostics: Vec<AgentSessionRuntimeDiagnostic>,
        model_fallback_message: Option<String>,
    ) -> (r: Self)
        ensures
            r == (AgentSessionRuntime::<S, V> {
                session,
                services,
                diagnostics,
                model_fallback_message,
            }),
    {
        AgentSessionRuntime { session, services, diagnostics, model_fallback_message }
    }

    /// Begins to switch to a session that is stored, at the working directory that it
    /// names. A directory that is not there stops it before anything is torn down.
    pub fn switch_session(&self, cwd: &str, cwd_check: Result<(), String>) -> (r: Result<
        Replacement,
        String,
    >)
        ensures
            match r {
                Ok(next) => cwd_check is Ok && next.reason == SessionSwitchReason::Resume
                    && next.cwd@ == cwd@,
                Err(e) => cwd_check is Err && e == cwd_check->Err_0,
            },
    {
        match cwd_check {
            Ok(_) => Ok(
                Replacement { reason: SessionSwitchReason::Resume, cwd: cwd.to_owned() },
            ),
            Err(e) => Err(e),
        }
    }

    /// Begins a new session at a working directory.
    pub fn new_session(&self, cwd: &str) -> (r: Replacement)
        ensures
            r.reason == SessionSwitchReason::New,
            r.cwd@ == cwd@,
    {
        Replacement { reason: SessionSwitchReason::New, cwd: cwd.to_owned() }
    }

    /// Begins a session that is forked from a log at an entry, at a working directory.
    /// The entries go by their identifiers. A fork at an entry that the log does not
    /// hold begins without any.
    pub fn fork(
        &self,
        log: &SessionLog,
        ids: &Vec<String>,
        entry_id: &str,
        position: ForkPosition,
        cwd: &str,
    ) -> (r: (Replacement, SessionLog))
        requires
            ids@.len() == log.entries@.len(),
        ensures
            r.0.reason == SessionSwitchReason::Fork,
            r.0.cwd@ == cwd@,
            entry_views(r.1.entries@) == entry_views(log.entries@).take(
                fork_len(views(ids@), entry_id@, position),
            ),
            r.1.persisted_count == 0,
    {
        let place: usize = find_place(ids, entry_id);
        let count: usize = if place == ids.len() {
            0
        } else {
            match position {
                ForkPosition::At => place + 1,
                ForkPosition::Before => place,
            }
        };
        let replacement = Replacement {
            reason: SessionSwitchReason::Fork,
            cwd: cwd.to_owned(),
        };
        (replacement, log.first_entries(count))
    }

    /// Takes a session that was made in place of the current one.
    pub fn apply(&mut self, result: CreateAgentSessionRuntimeResult<S, V>)
        ensures
            *final(self) == (AgentSessionRuntime::<S, V> {
                session: result.session,
                services: result.services,
                diagnostics: result.diagnostics,
                model_fallback_message: result.model_fallback_message,
            }),
    {
        self.session = result.session;
        self.services = result.services;
        self.diagnostics = result.diagnostics;
        self.model_fallback_message = result.model_fallback_message;
    }

    /// Ends a replacement: a session that was made takes the place of the current one,
    /// and a failure leaves the runtime as it is.
    pub fn finish_replacement(
        &mut self,
        made: Result<CreateAgentSessionRuntimeResult<S, V>, String>,
    ) -> (r: Result<(), String>)
        ensures
            match made {
                Ok(result) => r is Ok && final(self).session == result.session
                    && final(self).services == result.services && final(self).diagnostics
                    == result.diagnostics && final(self).model_fallback_message
                    == result.model_fallback_message,
                Err(e) => r is Err && r->Err_0 == e && *final(self) == *old(self),
            },
    {
        match made {
            Ok(result) => {
                self.apply(result);
                Ok(())
            },
            Err(e) => Err(e),
        }
    }
}

/// Makes the first runtime, at a working directory that is there.
pub fn create_agent_session_runtime<S, V>(
    cwd_check: Result<(), String>,
    made: Result<CreateAgentSessionRuntimeResult<S, V>, String>,
) -> (r: Result<AgentSessionRuntime<S, V>, String>)
    ensures
        match (cwd_check, made) {
            (Err(e), _) => r is Err && r->Err_0 == e,
            (Ok(_), Err(e)) => r is Err && r->Err_0 == e,
            (Ok(_), Ok(result)) => r is Ok && r->Ok_0.session == result.session
                && r->Ok_0.services == result.services && r->Ok_0.diagnostics
                == result.diagnostics && r->Ok_0.model_fallback_message
                == result.model_fallback_message,
        },
{
    match cwd_check {
        Err(e) => Err(e),
        Ok(_) => match made {
            Err(e) => Err(e),
            Ok(result) => Ok(
                AgentSessionRuntime::new(
                    result.session,
                    result.services,
                    result.diagnostics,
                    result.model_fallback_message,
                ),
            ),
        },
    }
}

/// Where an imported session is found and where it is kept.
#[derive(Debug)]
pub struct ImportPlan {
    pub source: String,
    pub destination: String,
    /// Whether the file is copied: it is kept where it was found otherwise.
    pub copy: bool,
}

/// The file to import: a relative path is below the current directory.
pub fn resolve_import(input_path: &str, current_dir: &str) -> (r: String)
    ensures
        r@ == path_join(current_dir@, input_path@),
{
    join_path(current_dir, input_path)
}

/// The place of an imported file in the directory of the sessions.
pub open spec fn import_destination(source: Seq<char>, session_dir: Seq<char>) -> Seq<char> {
    path_join(
        session_dir,
        match file_name(source) {
            Some(name) => name,
            None => Seq::empty(),
        },
    )
}

impl<S, V> AgentSessionRuntime<S, V> {
    /// Where a session is imported from and to: a file that is not there is an error, and one
    /// that is in its place already is not copied.
    pub fn import_from_jsonl(
        &self,
        input_path: &str,
        current_dir: &str,
        exists: bool,
        session_dir: &str,
    ) -> (r: Result<ImportPlan, SessionImportFileNotFoundError>)
        ensures
            ({
                let source = path_join(current_dir@, input_path@);
                match r {
                    Ok(plan) => exists && plan.source@ == source && plan.destination@
                        == import_destination(source, session_dir@) && plan.copy == (components(
                        plan.destination@,
                    ) != components(source)),
                    Err(e) => !exists && e.file_path@ == source,
                }
            }),
    {
        let source = resolve_import(input_path, current_dir);
        if !exists {
            return Err(SessionImportFileNotFoundError { file_path: source });
        }
        let name = match file_name_of(source.as_str()) {
            Some(name) => name,
            None => String::new(),
        };
        let destination = join_path(session_dir, name.as_str());
        let copy = !same_path(destination.as_str(), source.as_str());
        Ok(ImportPlan { source, destination, copy })
    }

    /// The current session.
    pub fn session(&self) -> (r: &S)
        ensures
            *r == self.session,
    {
        &self.session
    }

    /// The current services.
    pub fn services(&self) -> (r: &V)
        ensures
            *r == self.services,
    {
        &self.services
    }

    /// What went wrong when the session was made.
    pub fn diagnostics(&self) -> (r: &Vec<AgentSessionRuntimeDiagnostic>)
        ensures
            *r == self.diagnostics,
    {
        &self.diagnostics
    }

    /// Why the model is another than the one asked for.
    pub fn model_fallback_message(&self) -> (r: Option<&str>)
        ensures
            crate::handoff_prompt::opt_str_view(r) == opt_view(self.model_fallback_message),
    {
        match &self.model_fallback_message {
            Some(message) => Some(message.as_str()),
            None => None,
        }
    }
}

/// An identifier with a provider is taken apart at its first slash; one without a slash is a
/// model of `anthropic`.
pub proof fn lemma_model_parts_when(provider: Seq<char>, model: Seq<char>)
    requires
        !provider.contains('/'),
    ensures
        model_parts(provider + "/"@ + model) == (provider, model),
        model_parts(provider) == ("anthropic"@, provider),
{
    reveal_strlit("/");
    crate::text::lemma_split_once_at(provider, '/', model);
    assert(provider.push('/') + model =~= provider + "/"@ + model);
}

/// Behind a session's prompt stand, each where it is there, the memory, what is read from
/// it, and what is said of the workspace search, behind an empty line where anything stands
/// before it; and last, always, what is said of the tools.
pub proof fn lemma_prompt_blocks_in_order(
    memory: Option<Seq<char>>,
    read_path: Option<Seq<char>>,
    workspace_search: Option<Seq<char>>,
)
    ensures
        with_tool_guidance(combined_blocks(memory, read_path, workspace_search)) == (
        if memory is Some {
            memory->0
        } else {
            Seq::empty()
        }) + (if read_path is Some {
            read_path->0
        } else {
            Seq::empty()
        }) + (if workspace_search is Some {
            (if memory is Some || read_path is Some {
                "\n\n"@
            } else {
                Seq::empty()
            }) + workspace_search->0
        } else {
            Seq::empty()
        }) + TOOL_GUIDANCE@,
{
    let none = Seq::<char>::empty();
    let m = if memory is Some {
        memory->0
    } else {
        none
    };
    let r = if read_path is Some {
        read_path->0
    } else {
        none
    };
    let w = if workspace_search is Some {
        (if memory is Some || read_path is Some {
            "\n\n"@
        } else {
            none
        }) + workspace_search->0
    } else {
        none
    };
    assert(with_tool_guidance(combined_blocks(memory, read_path, workspace_search)) =~= m + r + w
        + TOOL_GUIDANCE@);
}

/// The rules that look at syntax trees are all those with a condition on them, in their
/// order.
pub proof fn lemma_ast_places_ascend(rules: Seq<StreamRule>)
    ensures
        forall|i: int, j: int|
            0 <= i < j < ast_places(rules).len() ==> ast_places(rules)[i] < ast_places(rules)[j],
        forall|k: int| #[trigger]
            ast_places(rules).contains(k) <==> 0 <= k < rules.len() && rules[k].ast_condition is Some,
    decreases rules.len(),
{
    let places = ast_places(rules);
    if rules.len() > 0 {
        let front = rules.drop_last();
        let before = ast_places(front);
        let last = rules.len() - 1;
        lemma_ast_places_ascend(front);
        assert forall|i: int, j: int| 0 <= i < j < places.len() implies places[i] < places[j] by {
            assert(places[i] == before[i]);
            if j < before.len() {
                assert(places[j] == before[j]);
            } else {
                assert(before.contains(before[i]));
            }
        }
        assert forall|k: int| #[trigger] places.contains(k) <==> 0 <= k < rules.len()
            && rules[k].ast_condition is Some by {
            if places.contains(k) {
                let i = places.index_of(k);
                if i < before.len() {
                    assert(before[i] == k);
                    assert(before.contains(k));
                    assert(front[k] == rules[k]);
                }
            }
            if 0 <= k < last && rules[k].ast_condition is Some {
                assert(front[k] == rules[k]);
                assert(before.contains(k));
                assert(places[before.index_of(k)] == k);
            }
            if k == last && rules[k].ast_condition is Some {
                assert(places[before.len() as int] == k);
            }
        }
    } else {
        assert forall|k: int| !(#[trigger] places.contains(k)) by {}
    }
}

/// A session runs with the model that is asked for, else with that of the persona, else with
/// the one used last, under its provider where that is known; else with none.
pub proof fn lemma_session_model_when(
    asked: Option<Seq<char>>,
    preferred: Option<Seq<char>>,
    settings: Settings,
)
    ensures
        asked is Some ==> session_model(asked, preferred, settings) == asked->0,
        asked is None && preferred is Some ==> session_model(asked, preferred, settings)
            == preferred->0,
        asked is None && preferred is None && settings.last_used_model is None ==> session_model(
            asked,
            preferred,
            settings,
        ).len() == 0,
        asked is None && preferred is None && settings.last_used_model is Some
            && settings.last_used_provider is Some ==> session_model(asked, preferred, settings)
            == settings.last_used_provider->0@ + "/"@ + settings.last_used_model->0@,
        asked is None && preferred is None && settings.last_used_model is Some
            && settings.last_used_provider is None ==> session_model(asked, preferred, settings)
            == settings.last_used_model->0@,
{
}

/// What a session is made of. One without a model has neither tools nor models to cycle
/// through, no advisor and no roles; any other has them as they are set. Both have the
/// prompt, the limits and the reminders that the settings ask for.
pub proof fn lemma_session_plan_tells(
    plan: SessionPlan,
    asked: Option<Seq<char>>,
    persona: Option<Persona>,
    settings: Settings,
    thinking: Option<ThinkingLevel>,
    memory_block: Seq<char>,
    registered: bool,
    scoped_models: Seq<ScopedModel>,
    cwd: Seq<char>,
)
    requires
        is_session_plan(
            plan,
            asked,
            persona,
            settings,
            thinking,
            memory_block,
            registered,
            scoped_models,
            cwd,
        ),
    ensures
        plan.model_id@ == session_model(
            asked,
            if persona is Some {
                opt_view(persona->0.preferred_model)
            } else {
                None
            },
            settings,
        ),
        plan.workspace_dir@ == cwd,
        plan.model_id@.len() == 0 || !plan.model_id@.contains('/') ==> plan.provider@
            == "anthropic"@,
        plan.model_id@.contains('/') ==> !plan.provider@.contains('/') && (plan.provider@
            + "/"@).is_prefix_of(plan.model_id@),
        thinking is Some ==> plan.prompt.thinking_level == thinking->0,
        thinking is None ==> plan.prompt.thinking_level == settings.thinking_level,
        plan.prompt.skills@.len() == 0,
        plan.prompt.append_system_prompt is Some,
        plan.prompt.append_system_prompt->0@ == ({
            let remembers = memory_block.len() > 0 && (plan.model_id@.len() > 0
                || settings.memory_enabled);
            (if remembers {
                memory_block
            } else {
                Seq::empty()
            }) + (if settings.workspace_search.enabled && registered {
                (if remembers {
                    "\n\n"@
                } else {
                    Seq::empty()
                }) + WORKSPACE_SEARCH_GUIDANCE@
            } else {
                Seq::empty()
            }) + TOOL_GUIDANCE@
        }),
        persona is Some ==> plan.prompt.persona_prompt is Some
            && plan.prompt.persona_prompt->0@ == persona->0.system_prompt@,
        persona is None ==> plan.prompt.persona_prompt is None,
        !settings.ttsr_enabled ==> plan.stream_rules == StreamRules::Off,
        settings.ttsr_enabled && plan.model_id@.len() == 0 ==> plan.stream_rules
            == StreamRules::Defaults,
        settings.ttsr_enabled && plan.model_id@.len() > 0 ==> plan.stream_rules
            == StreamRules::WithBuiltins(settings.ttsr_interrupt_mode@ != "never"@),
        plan.timeout_seconds == settings.tool_timeout_seconds,
        plan.temperature == (if settings.default_temperature is Some {
            Some(Temperature::Double(settings.default_temperature->0))
        } else if settings.temperature is Some {
            Some(Temperature::Single(settings.temperature->0))
        } else {
            None
        }),
        plan.max_tokens == (if settings.max_response_tokens is Some {
            settings.max_response_tokens
        } else if settings.max_tokens is Some {
            Some(settings.max_tokens->0 as usize)
        } else {
            None
        }),
        settings.auto_compaction ==> plan.compaction_strategy
            == CompactionStrategy::ThresholdPercent(80),
        !settings.auto_compaction ==> plan.compaction_strategy == CompactionStrategy::Disabled,
        plan.model_id@.len() == 0 ==> {
            &&& plan.context_window == Some(128_000usize)
            &&& !plan.with_tools
            &&& plan.scoped_models@.len() == 0
            &&& !plan.start_advisor
            &&& plan.model_roles is None
        },
        plan.model_id@.len() > 0 ==> {
            &&& plan.context_window is None
            &&& plan.with_tools
            &&& plan.scoped_models@ == scoped_models
            &&& plan.start_advisor == settings.advisor.enabled
            &&& plan.model_roles is Some
            &&& named_views(plan.model_roles->0@) == named_views(settings.model_roles@)
        },
        plan.with_todo_list,
        plan.todo_reminders_enabled == settings.todo_reminders_enabled,
        plan.todo_reminders_max == settings.todo_reminders_max,
        plan.todo_eager_mode == LoopTodoEagerMode::Off <==> settings.todo_eager_mode
            == TodoEagerMode::Off,
        plan.todo_eager_mode == LoopTodoEagerMode::Preferred <==> settings.todo_eager_mode
            == TodoEagerMode::Preferred,
        plan.todo_eager_mode == LoopTodoEagerMode::Always <==> settings.todo_eager_mode
            == TodoEagerMode::Always,
{
    reveal_strlit("/");
    let id = plan.model_id@;
    crate::text::lemma_position_bounds(id, '/');
    let p = crate::text::position(id, '/') as int;
    if id.contains('/') {
        let at = id.index_of('/');
        assert(id[at] == '/');
        assert(p < id.len());
        assert(plan.provider@ == id.take(p));
        assert(plan.provider@ + "/"@ =~= id.subrange(0, p + 1));
        assert forall|i: int| 0 <= i < p implies plan.provider@[i] != '/' by {
            assert(id[i] != '/');
        }
    } else if p < id.len() {
        assert(id.contains(id[p]));
    }
    let memory = if id.len() == 0 && !settings.memory_enabled {
        None
    } else {
        block_or_none(memory_block)
    };
    lemma_prompt_blocks_in_order(memory, None, search_guidance(settings, registered));
    let remembers = memory_block.len() > 0 && (id.len() > 0 || settings.memory_enabled);
    assert(remembers <==> memory is Some);
    assert(plan.prompt.append_system_prompt->0@ =~= ((if remembers {
        memory_block
    } else {
        Seq::empty()
    }) + (if settings.workspace_search.enabled && registered {
        (if remembers {
            "\n\n"@
        } else {
            Seq::empty()
        }) + WORKSPACE_SEARCH_GUIDANCE@
    } else {
        Seq::empty()
    }) + TOOL_GUIDANCE@));
}

/// A fork holds the entries up to the one at `i`, which is the first by that identifier, with
/// it or without it; of an entry that is not there it holds none.
pub proof fn lemma_fork_len_when(
    ids: Seq<Seq<char>>,
    entry_id: Seq<char>,
    position: ForkPosition,
    i: int,
)
    requires
        0 <= i <= ids.len(),
        forall|j: int| 0 <= j < i ==> #[trigger] ids[j] != entry_id,
        i < ids.len() ==> ids[i] == entry_id,
    ensures
        i == ids.len() ==> fork_len(ids, entry_id, position) == 0,
        i < ids.len() && position == ForkPosition::At ==> fork_len(ids, entry_id, position) == i
            + 1,
        i < ids.len() && position == ForkPosition::Before ==> fork_len(ids, entry_id, position)
            == i,
{
    crate::text::lemma_place_of_is_first(ids, entry_id);
    let place = crate::text::place_of(ids, entry_id) as int;
    if place < i {
        assert(ids[place] != entry_id);
    }
    if place > i {
        assert(ids[i] != entry_id);
    }
}

/// The memory keeps a line of a session exactly where there is a memory and the session had
/// at least three messages.
pub proof fn lemma_session_summary_when(session_id: Seq<char>, messages: nat, has_memory: bool)
    ensures
        session_summary(session_id, messages, has_memory) is Some <==> has_memory && messages >= 3,
        session_summary(session_id, messages, has_memory) is Some ==> session_summary(
            session_id,
            messages,
            has_memory,
        )->0 == "Session "@ + session_id + ": "@ + decimal(messages) + " messages"@,
{
}

/// An imported file goes under its own name into the directory of the sessions.
pub proof fn lemma_import_keeps_name(source_dir: Seq<char>, name: Seq<char>, session_dir: Seq<char>)
    requires
        name.len() > 0,
        !name.contains('/'),
        name != "."@,
        name != ".."@,
        session_dir.len() > 0,
        session_dir.last() != '/',
    ensures
        import_destination(source_dir + "/"@ + name, session_dir) == session_dir + "/"@ + name,
{
    crate::paths::lemma_name_behind_directory(source_dir, name);
    assert(name.contains(name[0]));
}

/// A session's prompt has its thinking level, no skills, the prompt of the persona where
/// there is one, and behind it the blocks that are there, what is said of the tools last.
pub proof fn lemma_session_prompt_tells(
    plan: PromptPlan,
    thinking_level: ThinkingLevel,
    memory: Option<Seq<char>>,
    read_path: Option<Seq<char>>,
    workspace_search: Option<Seq<char>>,
    persona: Option<Persona>,
)
    requires
        is_session_prompt(plan, thinking_level, memory, read_path, workspace_search, persona),
    ensures
        plan.thinking_level == thinking_level,
        plan.skills@.len() == 0,
        persona is Some ==> plan.persona_prompt is Some && plan.persona_prompt->0@
            == persona->0.system_prompt@,
        persona is None ==> plan.persona_prompt is None,
        plan.append_system_prompt is Some,
        plan.append_system_prompt->0@ == (if memory is Some {
            memory->0
        } else {
            Seq::empty()
        }) + (if read_path is Some {
            read_path->0
        } else {
            Seq::empty()
        }) + (if workspace_search is Some {
            (if memory is Some || read_path is Some {
                "\n\n"@
            } else {
                Seq::empty()
            }) + workspace_search->0
        } else {
            Seq::empty()
        }) + TOOL_GUIDANCE@,
{
    lemma_prompt_blocks_in_order(memory, read_path, workspace_search);
}

/// The prompt names the workspace search exactly where it is turned on and registered.
pub proof fn lemma_search_guidance_when(settings: Settings, registered: bool)
    ensures
        settings.workspace_search.enabled && registered ==> search_guidance(settings, registered)
            == Some(WORKSPACE_SEARCH_GUIDANCE@),
        !settings.workspace_search.enabled || !registered ==> search_guidance(settings, registered)
            is None,
{
}

/// A syntax rule is that of a rule with a condition, and has its name, its condition, its
/// globs and when it interrupts.
pub proof fn lemma_ast_rule_tells(a: AstRule, r: StreamRule)
    requires
        is_ast_rule_of(a, r),
    ensures
        r.ast_condition is Some,
        a.pattern@ == r.ast_condition->0@,
        a.name@ == r.name@,
        a.file_scope@.len() == r.globs@.len(),
        forall|i: int| 0 <= i < r.globs@.len() ==> (#[trigger] a.file_scope@[i])@ == r.globs@[i]@,
        a.interrupt_mode is Some <==> r.interrupt_mode is Some,
        a.interrupt_mode is Some ==> a.interrupt_mode->0@ == r.interrupt_mode->0@,
{
    let mine = crate::text::views(a.file_scope@);
    let given = crate::text::views(r.globs@);
    assert(mine.len() == given.len());
    assert forall|i: int| 0 <= i < r.globs@.len() implies (#[trigger] a.file_scope@[i])@
        == r.globs@[i]@ by {
        assert(mine[i] == given[i]);
    }
}

} // verus!
