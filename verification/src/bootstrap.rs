//! Starting the program: what the command line asks for, what must be set up first, and
//! which providers, tools and hooks a run has.

use crate::messages::{copy_opt, opt_view};
use crate::settings::{
    cli_model, first_of, level_named, model_used, parse_thinking_level, CustomProvider, HookSpec,
    Settings, ThinkingLevel,
};
use crate::text::{
    chars_of, decimal, decimal_text, join, join_texts, lemma_join_in_turn, lowercase, split,
    split_text, str_eq, to_lowercase, trim, trim_text, views,
};
use crate::tools::registry::{named_tools, offered, ToolRegistry};
use crate::tools::AgentTool;
use std::sync::Arc;
use vstd::prelude::*;

verus! {

/// What the command line asks for.
#[derive(Debug)]
pub struct CliArgs {
    pub model: Option<String>,
    pub provider: Option<String>,
    pub mode: Option<String>,
    pub print: bool,
    pub interactive: bool,
    pub no_session: bool,
    pub prompt: Vec<String>,
    pub timeout: Option<u64>,
    pub thinking: Option<String>,
    pub tools: Option<String>,
    pub append_system_prompt: Option<String>,
}

/// How a response is printed.
#[derive(Debug, Clone, Copy, PartialEq, Eq, Structural)]
pub enum PrintMode {
    Text,
    Json,
}

/// How a run that prints goes.
#[derive(Debug)]
pub struct PrintModeOptions {
    pub mode: PrintMode,
    pub initial_message: Option<String>,
    pub no_stdin: bool,
    pub no_session: bool,
    pub quiet: bool,
    pub timeout: Option<u64>,
}

/// How the program runs.
#[derive(Debug)]
pub enum RunPlan {
    Print(PrintModeOptions),
    Rpc,
    Tui,
    SinglePrompt { prompt: String },
}

/// Whether the mode is the given one.
pub open spec fn mode_is(args: CliArgs, name: Seq<char>) -> bool {
    args.mode is Some && args.mode->0@ == name
}

/// The words of the prompt with spaces between them.
pub open spec fn joined_prompt(args: CliArgs) -> Seq<char> {
    join(views(args.prompt@), " "@)
}

/// Whether the run is interactive in a terminal.
pub open spec fn tui_mode(args: CliArgs) -> bool {
    &&& !mode_is(args, "json"@)
    &&& !mode_is(args, "rpc"@)
    &&& !args.print
    &&& args.interactive || joined_prompt(args).len() == 0
}

/// Whether the mode is the given one.
fn has_mode(args: &CliArgs, name: &str) -> (r: bool)
    ensures
        r == mode_is(*args, name@),
{
    match &args.mode {
        Some(mode) => str_eq(mode.as_str(), name),
        None => false,
    }
}

/// Whether the run is interactive in a terminal: neither printing nor remote, and not for
/// a single prompt.
pub fn is_tui_mode(args: &CliArgs) -> (r: bool)
    ensures
        r == tui_mode(*args),
{
    if has_mode(args, "json") || has_mode(args, "rpc") || args.print {
        return false;
    }
    let prompt = join_texts(args.prompt.as_slice(), " ");
    args.interactive || prompt.as_str().is_empty()
}

/// Whether a plan is that of a run that prints.
pub open spec fn is_print_plan(o: PrintModeOptions, args: CliArgs) -> bool {
    let prompt = joined_prompt(args);
    &&& o.mode == if mode_is(args, "json"@) {
        PrintMode::Json
    } else {
        PrintMode::Text
    }
    &&& opt_view(o.initial_message) == if prompt.len() == 0 {
        None
    } else {
        Some(prompt)
    }
    &&& o.no_stdin == args.print
    &&& o.no_session == (args.print || args.no_session)
    &&& o.quiet == args.print
    &&& o.timeout == args.timeout
}

/// How the program runs: it prints where asked to or in the mode `json`, it is remote in
/// the mode `rpc`, and no other mode is known; without one it is interactive, or runs the
/// one prompt that is given.
pub fn dispatch_run_mode(args: &CliArgs) -> (r: Result<RunPlan, String>)
    ensures
        match r {
            Ok(RunPlan::Print(o)) => (mode_is(*args, "json"@) || args.print) && is_print_plan(
                o,
                *args,
            ),
            Ok(RunPlan::Rpc) => !mode_is(*args, "json"@) && !args.print && mode_is(*args, "rpc"@),
            Ok(RunPlan::Tui) => !args.print && args.mode is None && (joined_prompt(*args).len()
                == 0 || args.interactive),
            Ok(RunPlan::SinglePrompt { prompt }) => !args.print && args.mode is None && prompt@
                == joined_prompt(*args) && prompt@.len() > 0 && !args.interactive,
            Err(e) => !args.print && args.mode is Some && !mode_is(*args, "json"@) && !mode_is(
                *args,
                "rpc"@,
            ) && e@ == "Unknown run mode: "@ + args.mode->0@,
        },
{
    let prompt = join_texts(args.prompt.as_slice(), " ");
    let json = has_mode(args, "json");
    if json || args.print {
        let initial_message = if prompt.as_str().is_empty() {
            None
        } else {
            Some(prompt)
        };
        return Ok(
            RunPlan::Print(
                PrintModeOptions {
                    mode: if json {
                        PrintMode::Json
                    } else {
                        PrintMode::Text
                    },
                    initial_message,
                    no_stdin: args.print,
                    no_session: args.print || args.no_session,
                    quiet: args.print,
                    timeout: args.timeout,
                },
            ),
        );
    }
    if has_mode(args, "rpc") {
        return Ok(RunPlan::Rpc);
    }
    match &args.mode {
        Some(mode) => {
            let mut message = "Unknown run mode: ".to_owned();
            message.append(mode.as_str());
            return Err(message);
        },
        None => {},
    }
    if prompt.as_str().is_empty() || args.interactive {
        return Ok(RunPlan::Tui);
    }
    Ok(RunPlan::SinglePrompt { prompt })
}

/// Without a mode that is not known, a run is interactive exactly where it is dispatched
/// to the terminal.
pub proof fn lemma_tui_mode_mirrors_dispatch(args: CliArgs)
    requires
        args.mode is Some ==> mode_is(args, "json"@) || mode_is(args, "rpc"@),
    ensures
        tui_mode(args) == (!args.print && args.mode is None && (joined_prompt(args).len() == 0
            || args.interactive)),
{
}

/// The hexadecimal digits of a random identifier.
pub open spec fn is_simple_uuid(s: Seq<char>) -> bool {
    &&& s.len() == 32
    &&& forall|i: int|
        0 <= i < s.len() ==> ('0' <= #[trigger] s[i] <= '9' || 'a' <= s[i] <= 'f')
}

/// `uuid::Uuid::new_v4` and `uuid::Uuid::simple`: a random identifier as thirty-two
/// hexadecimal digits in lower case. Which digits come is chance.
#[verifier::external_body]
fn random_uuid() -> (r: String)
    ensures
        is_simple_uuid(r@),
{
    uuid::Uuid::new_v4().simple().to_string()
}

/// The identity of a process: what it is, its number and a random identifier.
pub open spec fn ownership_id(kind: Seq<char>, pid: u32, uuid: Seq<char>) -> Seq<char> {
    kind + "-"@ + decimal(pid as nat) + "-"@ + uuid
}

/// The identity of a process with a given identifier.
pub fn ownership_id_with(kind: &str, pid: u32, uuid: &str) -> (r: String)
    ensures
        r@ == ownership_id(kind@, pid, uuid@),
{
    let mut id = kind.to_owned();
    id.append("-");
    id.append(decimal_text(pid as u64).as_str());
    id.append("-");
    id.append(uuid);
    id
}

/// The identity of an interactive process.
pub fn tui_ownership_id(pid: u32) -> (r: String)
    ensures
        exists|uuid: Seq<char>|
            is_simple_uuid(uuid) && r@ == #[trigger] ownership_id("tui"@, pid, uuid),
{
    let uuid = random_uuid();
    let id = ownership_id_with("tui", pid, uuid.as_str());
    proof {
        assert(id@ == ownership_id("tui"@, pid, uuid@));
    }
    id
}

/// The identity of a process that is not interactive.
pub fn proc_ownership_id(pid: u32) -> (r: String)
    ensures
        exists|uuid: Seq<char>|
            is_simple_uuid(uuid) && r@ == #[trigger] ownership_id("proc"@, pid, uuid),
{
    let uuid = random_uuid();
    let id = ownership_id_with("proc", pid, uuid.as_str());
    proof {
        assert(id@ == ownership_id("proc"@, pid, uuid@));
    }
    id
}

/// What the process of a run is: interactive or not.
pub open spec fn process_kind(args: CliArgs) -> Seq<char> {
    if tui_mode(args) {
        "tui"@
    } else {
        "proc"@
    }
}

/// The identity of the process of a run.
pub fn process_identity(args: &CliArgs, pid: u32) -> (r: String)
    ensures
        exists|uuid: Seq<char>|
            is_simple_uuid(uuid) && r@ == #[trigger] ownership_id(process_kind(*args), pid, uuid),
{
    let id = if is_tui_mode(args) {
        tui_ownership_id(pid)
    } else {
        proc_ownership_id(pid)
    };
    proof {
        let kind = process_kind(*args);
        let uuid = choose|uuid: Seq<char>|
            is_simple_uuid(uuid) && id@ == #[trigger] ownership_id(kind, pid, uuid);
        assert(id@ == ownership_id(process_kind(*args), pid, uuid));
    }
    id
}

/// Processes with different random identifiers have different identities.
pub proof fn lemma_ownership_ids_differ(kind: Seq<char>, pid: u32, a: Seq<char>, b: Seq<char>)
    requires
        a != b,
        a.len() == b.len(),
    ensures
        ownership_id(kind, pid, a) != ownership_id(kind, pid, b),
{
    let front = kind + "-"@ + decimal(pid as nat) + "-"@;
    let x = ownership_id(kind, pid, a);
    let y = ownership_id(kind, pid, b);
    if x == y {
        assert(a =~= x.skip(front.len() as int));
        assert(b =~= y.skip(front.len() as int));
    }
}

/// The times that `pattern` occurs in `s` from the left, without overlap.
pub open spec fn occurrences(s: Seq<char>, pattern: Seq<char>) -> nat
    decreases s.len(),
{
    if pattern.len() == 0 || s.len() < pattern.len() {
        0
    } else if pattern.is_prefix_of(s) {
        1 + occurrences(s.skip(pattern.len() as int), pattern)
    } else {
        occurrences(s.skip(1), pattern)
    }
}

/// The times that `pattern` occurs in a text from the left, without overlap.
pub fn count_occurrences(s: &str, pattern: &str) -> (r: usize)
    requires
        pattern@.len() > 0,
    ensures
        r == occurrences(s@, pattern@),
{
    let text = chars_of(s);
    let pat = chars_of(pattern);
    let mut n: usize = 0;
    let mut i: usize = 0;
    proof {
        assert(s@.skip(0) =~= s@);
    }
    while i < text.len() && pat.len() <= text.len() - i
        invariant
            text@ == s@,
            pat@ == pattern@,
            pat@.len() > 0,
            i <= text.len(),
            n <= i,
            n + occurrences(s@.skip(i as int), pattern@) == occurrences(s@, pattern@),
        decreases text.len() - i,
    {
        let ghost rest = s@.skip(i as int);
        let mut k: usize = 0;
        while k < pat.len() && text[i + k] == pat[k]
            invariant
                text@ == s@,
                pat@ == pattern@,
                i <= text.len(),
                pat.len() <= text.len() - i,
                k <= pat.len(),
                rest == s@.skip(i as int),
                forall|j: int| 0 <= j < k ==> rest[j] == pattern@[j],
            decreases pat.len() - k,
        {
            k += 1;
        }
        if k == pat.len() {
            proof {
                assert(pattern@ =~= rest.subrange(0, pattern@.len() as int));
                assert(rest.skip(pattern@.len() as int) =~= s@.skip(i + pattern@.len()));
            }
            n += 1;
            i += pat.len();
        } else {
            proof {
                assert(rest[k as int] != pattern@[k as int]);
                if pattern@.is_prefix_of(rest) {
                    assert(rest.subrange(0, pattern@.len() as int)[k as int] == rest[k as int]);
                }
                assert(rest.skip(1) =~= s@.skip(i + 1));
            }
            i += 1;
        }
    }
    n
}

/// What is done with the hooks of a project.
#[derive(Debug, Clone, Copy, PartialEq, Eq, Structural)]
pub enum HookDecision {
    /// They run.
    Use,
    /// The user is asked whether they run.
    Ask(usize),
    /// They do not run.
    Skip,
}

/// What is done with the hooks of a project: those that were approved run; of any others
/// the user is asked, where the run is interactive and there are some.
pub open spec fn hook_decision(approved: bool, content: Seq<char>, tui: bool) -> HookDecision {
    if approved {
        HookDecision::Use
    } else if occurrences(content, "[[hooks]]"@) > 0 && tui {
        HookDecision::Ask(occurrences(content, "[[hooks]]"@) as usize)
    } else {
        HookDecision::Skip
    }
}

/// What is done with the hooks of a project.
pub fn decide_project_hooks(approved: bool, content: &str, tui: bool) -> (r: HookDecision)
    ensures
        r == hook_decision(approved, content@, tui),
{
    if approved {
        return HookDecision::Use;
    }
    proof {
        reveal_strlit("[[hooks]]");
    }
    let count: usize = count_occurrences(content, "[[hooks]]");
    if count > 0 && tui {
        HookDecision::Ask(count)
    } else {
        HookDecision::Skip
    }
}

/// Whether the hooks of a project run: those that were approved do, and others where the
/// user is asked and agrees.
pub open spec fn project_hooks_run(
    approved: bool,
    content: Seq<char>,
    tui: bool,
    agreed: bool,
) -> bool {
    match hook_decision(approved, content, tui) {
        HookDecision::Use => true,
        HookDecision::Ask(_) => agreed,
        HookDecision::Skip => false,
    }
}

/// The hooks of a project that run, by what was decided and what the user answered. A file
/// that cannot be read has none.
pub fn project_hooks(decision: HookDecision, agreed: bool, parsed: Option<Vec<HookSpec>>) -> (r: Vec<
    HookSpec,
>)
    ensures
        ({
            let runs = match decision {
                HookDecision::Use => true,
                HookDecision::Ask(_) => agreed,
                HookDecision::Skip => false,
            };
            r@ == if runs && parsed is Some {
                parsed->0@
            } else {
                Seq::empty()
            }
        }),
{
    let runs = match decision {
        HookDecision::Use => true,
        HookDecision::Ask(_) => agreed,
        HookDecision::Skip => false,
    };
    if runs {
        match parsed {
            Some(hooks) => hooks,
            None => Vec::new(),
        }
    } else {
        Vec::new()
    }
}

/// The hooks that a project's settings file asks for.
#[derive(Debug)]
pub struct ProjectHooks {
    /// What the file holds.
    pub content: String,
    /// The hooks in it, where it can be read.
    pub parsed: Option<Vec<HookSpec>>,
    /// Whether the user has approved a file with this content.
    pub approved: bool,
    /// Whether the user, where they are asked, agrees.
    pub agreed: bool,
}

/// The hooks of a run: those of the user, then those of the project as far as they run.
pub open spec fn installed_hooks(
    user: Seq<HookSpec>,
    project: Option<ProjectHooks>,
    tui: bool,
) -> Seq<HookSpec> {
    match project {
        Some(p) => if project_hooks_run(p.approved, p.content@, tui, p.agreed) && p.parsed is Some {
            user + p.parsed->0@
        } else {
            user
        },
        None => user,
    }
}

/// The hooks of a run.
pub fn hooks_to_install(user: Vec<HookSpec>, project: Option<ProjectHooks>, tui: bool) -> (r: Vec<
    HookSpec,
>)
    ensures
        r@ == installed_hooks(user@, project, tui),
{
    match project {
        Some(p) => {
            let decision = decide_project_hooks(p.approved, p.content.as_str(), tui);
            let hooks = all_hooks(user, project_hooks(decision, p.agreed, p.parsed));
            proof {
                assert(user@ + Seq::<HookSpec>::empty() =~= user@);
            }
            hooks
        },
        None => user,
    }
}

/// Hooks of a project that were not approved are not installed, unless the run is
/// interactive and the user agrees: the hooks are then those of the user alone.
pub proof fn lemma_unapproved_hooks_are_left_out(
    user: Seq<HookSpec>,
    project: ProjectHooks,
    tui: bool,
)
    requires
        !project.approved,
        !tui || !project.agreed,
    ensures
        installed_hooks(user, Some(project), tui) == user,
{
}

/// Hooks of a project that were not approved run only in an interactive run where the user
/// agrees.
pub proof fn lemma_unapproved_hooks_need_consent(content: Seq<char>, tui: bool, agreed: bool)
    ensures
        project_hooks_run(false, content, tui, agreed) ==> tui && agreed,
{
}

/// The hooks of a run: those of the user, then those of the project.
pub fn all_hooks(global: Vec<HookSpec>, project: Vec<HookSpec>) -> (r: Vec<HookSpec>)
    ensures
        r@ == global@ + project@,
{
    let mut out = global;
    let mut rest = project;
    out.append(&mut rest);
    out
}

/// Whether a model is set.
pub open spec fn has_model(settings: Settings) -> bool {
    match model_used(
        None,
        opt_view(settings.last_used_model),
        opt_view(settings.last_used_provider),
    ) {
        Some(id) => id.len() > 0,
        None => false,
    }
}

/// What comes before a run.
#[derive(Debug)]
pub enum ModelCheck {
    /// Nothing: a model is set.
    Ready,
    /// The user sets the program up.
    RunSetup,
    /// The run ends with a message.
    Fail { message: String },
}

/// What comes before a run. Without a model an interactive run begins with the setup, once;
/// any other ends.
pub fn check_model(settings: &Settings, tui: bool, setup_done: bool) -> (r: ModelCheck)
    ensures
        match r {
            ModelCheck::Ready => has_model(*settings),
            ModelCheck::RunSetup => !has_model(*settings) && tui && !setup_done,
            ModelCheck::Fail { message } => !has_model(*settings) && (!tui || setup_done)
                && message@ == "No model configured. Run `oxicode setup` to configure."@,
        },
{
    let set = match settings.effective_model(None) {
        Some(id) => !id.as_str().is_empty(),
        None => false,
    };
    if set {
        ModelCheck::Ready
    } else if tui && !setup_done {
        ModelCheck::RunSetup
    } else {
        ModelCheck::Fail {
            message: "No model configured. Run `oxicode setup` to configure.".to_owned(),
        }
    }
}

/// Takes the thinking level of the command line.
pub fn apply_thinking(settings: &mut Settings, level: &str) -> (r: Result<(), String>)
    ensures
        match level_named(lowercase(level@)) {
            Some(l) => r is Ok && *final(settings) == (Settings {
                thinking_level: l,
                ..*old(settings)
            }),
            None => r is Err && *final(settings) == *old(settings) && r->Err_0@
                == "Invalid thinking level: "@ + level@
                + ". Valid options: off, minimal, low, medium, high, xhigh"@,
        },
{
    match parse_thinking_level(level) {
        Some(l) => {
            settings.thinking_level = l;
            Ok(())
        },
        None => {
            let mut message = "Invalid thinking level: ".to_owned();
            message.append(level);
            message.append(". Valid options: off, minimal, low, medium, high, xhigh");
            Err(message)
        },
    }
}

/// The API that a custom provider speaks.
#[derive(Debug, Clone, Copy, PartialEq, Eq, Structural)]
pub enum CustomApi {
    OpenAiCompletions,
    OpenAiResponses,
}

/// The API of a name in lower case, where it is known.
pub open spec fn api_named(name: Seq<char>) -> Option<CustomApi> {
    if name == "openai-completions"@ || name == "openai"@ {
        Some(CustomApi::OpenAiCompletions)
    } else if name == "openai-responses"@ || name == "responses"@ {
        Some(CustomApi::OpenAiResponses)
    } else {
        None
    }
}

/// The API of a name in lower case.
pub fn custom_api_named(name: &str) -> (r: Option<CustomApi>)
    ensures
        r == api_named(name@),
{
    if str_eq(name, "openai-completions") || str_eq(name, "openai") {
        Some(CustomApi::OpenAiCompletions)
    } else if str_eq(name, "openai-responses") || str_eq(name, "responses") {
        Some(CustomApi::OpenAiResponses)
    } else {
        None
    }
}

/// The API of a custom provider, in any case of its letters, or what is wrong with it.
pub fn custom_provider_api(provider: &CustomProvider) -> (r: Result<CustomApi, String>)
    ensures
        match r {
            Ok(api) => api_named(lowercase(provider.api@)) == Some(api),
            Err(e) => api_named(lowercase(provider.api@)) is None && e@ == "Unknown API type '"@
                + provider.api@ + "' for custom provider '"@ + provider.name@
                + "'. Supported: openai-completions, openai-responses"@,
        },
{
    match custom_api_named(to_lowercase(provider.api.as_str()).as_str()) {
        Some(api) => Ok(api),
        None => {
            let mut message = "Unknown API type '".to_owned();
            message.append(provider.api.as_str());
            message.append("' for custom provider '");
            message.append(provider.name.as_str());
            message.append("'. Supported: openai-completions, openai-responses");
            Err(message)
        },
    }
}

/// What becomes of a custom provider.
#[derive(Debug)]
pub struct ProviderRegistration {
    pub name: String,
    pub base_url: String,
    /// The API that it is registered with, or why it is not registered.
    pub api: Result<CustomApi, String>,
    /// Whether its models are fetched: a key is needed for that.
    pub fetch_models: bool,
}

/// Whether this is what becomes of a custom provider.
pub open spec fn is_registration(
    r: ProviderRegistration,
    provider: CustomProvider,
    has_key: bool,
) -> bool {
    &&& r.name@ == provider.name@
    &&& r.base_url@ == provider.base_url@
    &&& match r.api {
        Ok(api) => api_named(lowercase(provider.api@)) == Some(api),
        Err(e) => api_named(lowercase(provider.api@)) is None && e@ == "Unknown API type '"@
            + provider.api@ + "' for custom provider '"@ + provider.name@
            + "'. Supported: openai-completions, openai-responses"@,
    }
    &&& r.fetch_models == has_key
}

/// What becomes of the custom providers, in their order.
pub fn register_custom_providers(settings: &Settings, has_key: &Vec<bool>) -> (r: Vec<
    ProviderRegistration,
>)
    requires
        has_key@.len() == settings.custom_providers@.len(),
    ensures
        r@.len() == settings.custom_providers@.len(),
        forall|i: int|
            #![trigger r@[i]]
            0 <= i < r@.len() ==> is_registration(
                r@[i],
                settings.custom_providers@[i],
                has_key@[i],
            ),
{
    let mut out: Vec<ProviderRegistration> = Vec::new();
    let mut i: usize = 0;
    while i < settings.custom_providers.len()
        invariant
            i <= settings.custom_providers@.len() == has_key@.len(),
            out@.len() == i,
            forall|j: int|
                #![trigger out@[j]]
                0 <= j < i ==> is_registration(
                    out@[j],
                    settings.custom_providers@[j],
                    has_key@[j],
                ),
        decreases settings.custom_providers@.len() - i,
    {
        let provider = &settings.custom_providers[i];
        out.push(
            ProviderRegistration {
                name: provider.name.clone(),
                base_url: provider.base_url.clone(),
                api: custom_provider_api(provider),
                fetch_models: has_key[i],
            },
        );
        i += 1;
    }
    out
}

/// What a catalog knows of a model.
#[derive(Debug, Clone, Copy, PartialEq, Eq, Structural)]
pub struct KnownModel {
    pub reasoning: bool,
    pub context_window: u32,
    pub max_tokens: u32,
}

/// A model that a custom provider offers.
#[derive(Debug)]
pub struct FetchedModel {
    pub id: String,
    pub name: String,
    pub api: CustomApi,
    pub provider: String,
    pub base_url: String,
    pub reasoning: bool,
    pub context_window: usize,
    pub max_tokens: usize,
}

/// The model that a provider offers under an identifier. What the catalog does not know is
/// taken low, and an API that is not known counts as the completions one.
pub fn fetched_model(
    provider: &CustomProvider,
    api: Option<CustomApi>,
    model_id: &str,
    known: Option<KnownModel>,
) -> (r: FetchedModel)
    ensures
        r.id@ == model_id@,
        r.name@ == model_id@,
        r.api == (match api {
            Some(a) => a,
            None => CustomApi::OpenAiCompletions,
        }),
        r.provider@ == provider.name@,
        r.base_url@ == provider.base_url@,
        r.reasoning == (known is Some && known->0.reasoning),
        r.context_window == (match known {
            Some(k) => k.context_window as usize,
            None => 128_000usize,
        }),
        r.max_tokens == (match known {
            Some(k) => k.max_tokens as usize,
            None => 8_192usize,
        }),
{
    FetchedModel {
        id: model_id.to_owned(),
        name: model_id.to_owned(),
        api: match api {
            Some(a) => a,
            None => CustomApi::OpenAiCompletions,
        },
        provider: provider.name.clone(),
        base_url: provider.base_url.clone(),
        reasoning: match known {
            Some(k) => k.reasoning,
            None => false,
        },
        context_window: match known {
            Some(k) => k.context_window as usize,
            None => 128_000,
        },
        max_tokens: match known {
            Some(k) => k.max_tokens as usize,
            None => 8_192,
        },
    }
}

/// The models that a provider offers, in their order.
pub fn fetch_and_register_models(
    provider: &CustomProvider,
    api: Option<CustomApi>,
    model_ids: &Vec<String>,
    known: &Vec<Option<KnownModel>>,
) -> (r: Vec<FetchedModel>)
    requires
        known@.len() == model_ids@.len(),
    ensures
        r@.len() == model_ids@.len(),
        forall|i: int|
            #![trigger r@[i]]
            0 <= i < r@.len() ==> {
                &&& r@[i].id@ == model_ids@[i]@
                &&& r@[i].name@ == model_ids@[i]@
                &&& r@[i].api == (match api {
                    Some(a) => a,
                    None => CustomApi::OpenAiCompletions,
                })
                &&& r@[i].provider@ == provider.name@
                &&& r@[i].base_url@ == provider.base_url@
                &&& r@[i].reasoning == (known@[i] is Some && known@[i]->0.reasoning)
                &&& r@[i].context_window == (match known@[i] {
                    Some(k) => k.context_window as usize,
                    None => 128_000usize,
                })
                &&& r@[i].max_tokens == (match known@[i] {
                    Some(k) => k.max_tokens as usize,
                    None => 8_192usize,
                })
            },
{
    let mut out: Vec<FetchedModel> = Vec::new();
    let mut i: usize = 0;
    while i < model_ids.len()
        invariant
            i <= model_ids@.len() == known@.len(),
            out@.len() == i,
            forall|j: int|
                #![trigger out@[j]]
                0 <= j < i ==> {
                    &&& out@[j].id@ == model_ids@[j]@
                    &&& out@[j].name@ == model_ids@[j]@
                    &&& out@[j].api == (match api {
                        Some(a) => a,
                        None => CustomApi::OpenAiCompletions,
                    })
                    &&& out@[j].provider@ == provider.name@
                    &&& out@[j].base_url@ == provider.base_url@
                    &&& out@[j].reasoning == (known@[j] is Some && known@[j]->0.reasoning)
                    &&& out@[j].context_window == (match known@[j] {
                        Some(k) => k.context_window as usize,
                        None => 128_000usize,
                    })
                    &&& out@[j].max_tokens == (match known@[j] {
                        Some(k) => k.max_tokens as usize,
                        None => 8_192usize,
                    })
                },
        decreases model_ids@.len() - i,
    {
        out.push(fetched_model(provider, api, model_ids[i].as_str(), known[i]));
        i += 1;
    }
    out
}

/// The names of a list with commas, without the white space around them.
pub open spec fn listed_names(list: Seq<char>) -> Seq<Seq<char>> {
    Seq::new(split(list, ',').len(), |i: int| trim(split(list, ',')[i]))
}

/// The names of a list with commas.
pub fn tool_names(list: &str) -> (r: Vec<String>)
    ensures
        views(r@) == listed_names(list@),
{
    let pieces = split_text(list, ',');
    let mut out: Vec<String> = Vec::new();
    let mut i: usize = 0;
    while i < pieces.len()
        invariant
            i <= pieces@.len(),
            out@.len() == i,
            forall|j: int| 0 <= j < i ==> (#[trigger] out@[j])@ == trim(pieces@[j]@),
        decreases pieces@.len() - i,
    {
        out.push(trim_text(pieces[i].as_str()));
        i += 1;
    }
    proof {
        assert(views(pieces@).len() == pieces@.len());
        assert forall|j: int| 0 <= j < out@.len() implies views(out@)[j] == listed_names(
            list@,
        )[j] by {
            assert(views(pieces@)[j] == pieces@[j]@);
        }
        assert(views(out@) =~= listed_names(list@));
    }
    out
}

/// The built-in tools of a run: those that are selected by name, or else all that are not
/// turned off.
pub open spec fn builtin_tools<T: AgentTool>(
    all_tools: Seq<Arc<T>>,
    selected: Option<Vec<String>>,
    disabled: Seq<Seq<char>>,
) -> Map<Seq<char>, Arc<T>> {
    match selected {
        Some(names) => named_tools(all_tools, views(names@)),
        None => offered(all_tools, disabled),
    }
}

/// Registers the built-in tools in the registry of a run, in place of those with their
/// names. Where none are selected by name, the manager of their tool servers comes with
/// them. A tool for commits that has a model of its own takes the place of the plain one.
pub fn register_builtin_tools<T: AgentTool, M>(
    tools: &mut ToolRegistry<T, M>,
    all_tools: &Vec<Arc<T>>,
    selected: &Option<Vec<String>>,
    disabled_tools: &Vec<String>,
    mcp_manager: Arc<M>,
    commit_tool: Option<Arc<T>>,
)
    requires
        old(tools).wf(),
    ensures
        final(tools).wf(),
        ({
            let base = old(tools)@.union_prefer_right(
                builtin_tools(all_tools@, *selected, views(disabled_tools@)),
            );
            final(tools)@ == match commit_tool {
                Some(tool) => base.insert(tool.name_view(), tool),
                None => base,
            }
        }),
        final(tools).mcp_manager == if selected is None {
            Some(mcp_manager)
        } else {
            old(tools).mcp_manager
        },
{
    let builtins = match selected {
        Some(names) => ToolRegistry::with_selected_tools(all_tools, names, mcp_manager),
        None => ToolRegistry::with_builtins_cwd(all_tools, disabled_tools, mcp_manager),
    };
    tools.extend_from(&builtins);
    match builtins.mcp_manager() {
        Some(mgr) => {
            tools.set_mcp_manager(mgr);
        },
        None => {},
    }
    match commit_tool {
        Some(tool) => {
            tools.register_arc(tool);
        },
        None => {},
    }
}

/// Whether a run has extensions: they must be turned on, found and loaded.
pub fn load_wasm_extensions(enabled: bool, found: usize, loaded: usize) -> (r: bool)
    ensures
        r == (enabled && found > 0 && loaded > 0),
{
    enabled && found > 0 && loaded > 0
}

/// The level that a router's configuration names.
pub open spec fn router_level(name: Seq<char>) -> Option<ThinkingLevel> {
    if name == "off"@ {
        Some(ThinkingLevel::Off)
    } else if name == "minimal"@ {
        Some(ThinkingLevel::Minimal)
    } else if name == "low"@ {
        Some(ThinkingLevel::Low)
    } else if name == "medium"@ {
        Some(ThinkingLevel::Medium)
    } else if name == "high"@ {
        Some(ThinkingLevel::High)
    } else if name == "xhigh"@ {
        Some(ThinkingLevel::XHigh)
    } else {
        None
    }
}

/// The level that a router's configuration names, by its exact word.
pub fn parse_router_thinking(name: &Option<String>) -> (r: Option<ThinkingLevel>)
    ensures
        r == (match name {
            Some(s) => router_level(s@),
            None => None,
        }),
{
    match name {
        None => None,
        Some(s) => {
            let w = s.as_str();
            if str_eq(w, "off") {
                Some(ThinkingLevel::Off)
            } else if str_eq(w, "minimal") {
                Some(ThinkingLevel::Minimal)
            } else if str_eq(w, "low") {
                Some(ThinkingLevel::Low)
            } else if str_eq(w, "medium") {
                Some(ThinkingLevel::Medium)
            } else if str_eq(w, "high") {
                Some(ThinkingLevel::High)
            } else if str_eq(w, "xhigh") {
                Some(ThinkingLevel::XHigh)
            } else {
                None
            }
        },
    }
}

/// A tier of a router.
#[derive(Debug, Clone, Copy, PartialEq, Eq, Structural)]
pub enum RouterTier {
    High,
    Medium,
    Low,
}

/// The tier that a configuration pins.
pub fn parse_pin_tier(name: Option<&str>) -> (r: Option<RouterTier>)
    ensures
        r == (match name {
            None => None,
            Some(s) => tier_named(s@),
        }),
{
    match name {
        None => None,
        Some(s) => {
            if str_eq(s, "high") {
                Some(RouterTier::High)
            } else if str_eq(s, "medium") {
                Some(RouterTier::Medium)
            } else if str_eq(s, "low") {
                Some(RouterTier::Low)
            } else {
                None
            }
        },
    }
}

/// A tier of a router as it is configured.
#[derive(Debug)]
pub struct TierConfig {
    pub model: String,
    pub thinking: Option<String>,
    pub fallbacks: Vec<String>,
}

/// A tier of a router as it routes.
#[derive(Debug)]
pub struct RoutedTierConfig {
    pub model: String,
    pub thinking: Option<ThinkingLevel>,
    pub fallbacks: Vec<String>,
}

/// The tier that a configuration gives.
pub fn routed_tier(tier: TierConfig) -> (r: RoutedTierConfig)
    ensures
        r.model == tier.model,
        r.fallbacks == tier.fallbacks,
        r.thinking == (match tier.thinking {
            Some(s) => router_level(s@),
            None => None,
        }),
{
    let thinking = parse_router_thinking(&tier.thinking);
    RoutedTierConfig { model: tier.model, thinking, fallbacks: tier.fallbacks }
}

/// A profile of a router as it is configured.
#[derive(Debug)]
pub struct ProfileConfig {
    pub name: String,
    pub high: TierConfig,
    pub medium: TierConfig,
    pub low: TierConfig,
}

/// A profile of a router as it routes.
#[derive(Debug)]
pub struct RouterProfile {
    pub name: String,
    pub high: RoutedTierConfig,
    pub medium: RoutedTierConfig,
    pub low: RoutedTierConfig,
}

/// Whether a tier is what a configuration gives.
pub open spec fn is_routed(r: RoutedTierConfig, tier: TierConfig) -> bool {
    &&& r.model == tier.model
    &&& r.fallbacks == tier.fallbacks
    &&& r.thinking == match tier.thinking {
        Some(s) => router_level(s@),
        None => None,
    }
}

/// The profile that a configuration gives.
pub fn router_profile(p: ProfileConfig) -> (r: RouterProfile)
    ensures
        is_profile(r, p),
{
    RouterProfile {
        name: p.name,
        high: routed_tier(p.high),
        medium: routed_tier(p.medium),
        low: routed_tier(p.low),
    }
}

/// A router as it is configured.
#[derive(Debug)]
pub struct RouterStoreConfig {
    pub default_profile: String,
    pub classifier_model: Option<String>,
    pub profiles: Vec<ProfileConfig>,
    pub pin_tier: Option<String>,
}

/// A router as it is registered, and the model that it is offered as.
#[derive(Debug)]
pub struct RouterPlan {
    pub model_id: String,
    pub model_name: String,
    pub provider: String,
    pub base_url: String,
    pub default_profile: String,
    pub classifier_model: Option<String>,
    pub profiles: Vec<RouterProfile>,
    pub pin_tier: Option<RouterTier>,
}

/// Whether a profile is what a configuration gives.
pub open spec fn is_profile(r: RouterProfile, p: ProfileConfig) -> bool {
    &&& r.name == p.name
    &&& is_routed(r.high, p.high)
    &&& is_routed(r.medium, p.medium)
    &&& is_routed(r.low, p.low)
}

/// The tier that a word pins.
pub open spec fn tier_named(word: Seq<char>) -> Option<RouterTier> {
    if word == "high"@ {
        Some(RouterTier::High)
    } else if word == "medium"@ {
        Some(RouterTier::Medium)
    } else if word == "low"@ {
        Some(RouterTier::Low)
    } else {
        None
    }
}

/// Whether a plan is that of a configured router.
pub open spec fn is_router_plan(plan: RouterPlan, cfg: RouterStoreConfig) -> bool {
    &&& plan.model_id@ == "auto"@
    &&& plan.model_name@ == "Router (auto)"@
    &&& plan.provider@ == "router"@
    &&& plan.base_url@ == "router://local"@
    &&& plan.default_profile == cfg.default_profile
    &&& plan.classifier_model == cfg.classifier_model
    &&& plan.profiles@.len() == cfg.profiles@.len()
    &&& forall|i: int|
        #![trigger plan.profiles@[i]]
        0 <= i < plan.profiles@.len() ==> is_profile(plan.profiles@[i], cfg.profiles@[i])
    &&& plan.pin_tier == match cfg.pin_tier {
        Some(word) => tier_named(word@),
        None => None,
    }
}

/// The profiles that a configuration gives, in their order.
fn router_profiles(profiles: Vec<ProfileConfig>) -> (r: Vec<RouterProfile>)
    ensures
        r@.len() == profiles@.len(),
        forall|i: int|
            #![trigger r@[i]]
            0 <= i < r@.len() ==> is_profile(r@[i], profiles@[i]),
{
    let ghost all = profiles@;
    let mut rest = profiles;
    let mut backward: Vec<RouterProfile> = Vec::new();
    while rest.len() > 0
        invariant
            rest@.len() + backward@.len() == all.len(),
            rest@ == all.take(rest@.len() as int),
            forall|j: int|
                #![trigger backward@[j]]
                0 <= j < backward@.len() ==> is_profile(backward@[j], all[all.len() - 1 - j]),
        decreases rest@.len(),
    {
        let ghost n = rest@.len();
        let last = rest.pop().unwrap();
        proof {
            assert(last == all[n - 1]);
            assert(rest@ =~= all.take(n - 1));
        }
        backward.push(router_profile(last));
    }
    let mut out: Vec<RouterProfile> = Vec::new();
    while backward.len() > 0
        invariant
            backward@.len() + out@.len() == all.len(),
            forall|j: int|
                #![trigger backward@[j]]
                0 <= j < backward@.len() ==> is_profile(backward@[j], all[all.len() - 1 - j]),
            forall|j: int|
                #![trigger out@[j]]
                0 <= j < out@.len() ==> is_profile(out@[j], all[j]),
        decreases backward@.len(),
    {
        let ghost n = backward@.len();
        let ghost b = backward@;
        let next = backward.pop().unwrap();
        proof {
            assert(next == b[n - 1]);
        }
        out.push(next);
    }
    out
}

/// A router is registered where one is configured, under a model of its own.
pub fn register_router_provider(cfg: Option<RouterStoreConfig>) -> (r: Option<RouterPlan>)
    ensures
        match r {
            Some(plan) => cfg is Some && is_router_plan(plan, cfg->0),
            None => cfg is None,
        },
{
    match cfg {
        None => None,
        Some(c) => {
            let pin_tier = match &c.pin_tier {
                Some(word) => parse_pin_tier(Some(word.as_str())),
                None => None,
            };
            Some(
                RouterPlan {
                    model_id: "auto".to_owned(),
                    model_name: "Router (auto)".to_owned(),
                    provider: "router".to_owned(),
                    base_url: "router://local".to_owned(),
                    default_profile: c.default_profile,
                    classifier_model: c.classifier_model,
                    profiles: router_profiles(c.profiles),
                    pin_tier,
                },
            )
        },
    }
}

/// A provider, where it has a name.
pub open spec fn named_provider(provider: Option<Seq<char>>) -> Option<Seq<char>> {
    if provider is Some && provider->0.len() > 0 {
        provider
    } else {
        None
    }
}

/// The provider whose credentials are refreshed at the start, where one is set.
pub fn provider_to_refresh(settings: &Settings, cli_provider: Option<&str>) -> (r: Option<String>)
    ensures
        opt_view(r) == named_provider(
            match cli_provider {
                Some(p) => Some(p@),
                None => opt_view(settings.last_used_provider),
            },
        ),
{
    match settings.effective_provider(cli_provider) {
        Some(p) => {
            if p.as_str().is_empty() {
                None
            } else {
                Some(p)
            }
        },
        None => None,
    }
}

/// A server of tools, with what it takes to sign in where that is needed.
pub struct ToolServer<C> {
    pub name: String,
    pub oauth: Option<C>,
}

/// The servers that need a sign-in, in order.
pub open spec fn signed_servers<C>(servers: Seq<ToolServer<C>>) -> Seq<(Seq<char>, C)>
    decreases servers.len(),
{
    if servers.len() == 0 {
        Seq::empty()
    } else {
        let rest = signed_servers(servers.drop_first());
        match servers[0].oauth {
            Some(config) => seq![(servers[0].name@, config)] + rest,
            None => rest,
        }
    }
}

/// The names of servers with what it takes to sign in.
pub open spec fn server_views<C>(servers: Seq<(String, C)>) -> Seq<(Seq<char>, C)> {
    Seq::new(servers.len(), |i: int| (servers[i].0@, servers[i].1))
}

/// The servers for which credentials are provided: those that need a sign-in, where there
/// is one and something manages the servers.
pub fn servers_to_sign_in<C>(servers: Vec<ToolServer<C>>, managed: bool) -> (r: Option<
    Vec<(String, C)>,
>)
    ensures
        ({
            let wanted = signed_servers(servers@);
            match r {
                Some(v) => managed && wanted.len() > 0 && server_views(v@) == wanted,
                None => !managed || wanted.len() == 0,
            }
        }),
{
    let ghost all = servers@;
    let mut rest = servers;
    let mut out: Vec<(String, C)> = Vec::new();
    proof {
        assert(server_views(out@) =~= signed_servers(all.skip(all.len() as int)));
    }
    while rest.len() > 0
        invariant
            rest@.len() <= all.len(),
            rest@ == all.take(rest@.len() as int),
            server_views(out@) == signed_servers(all.skip(rest@.len() as int)),
        decreases rest@.len(),
    {
        let ghost before = server_views(out@);
        let server = rest.pop().unwrap();
        let ghost i = rest@.len() as int;
        proof {
            assert(server == all[i]);
            assert(rest@ =~= all.take(i));
            assert(all.skip(i).drop_first() =~= all.skip(i + 1));
        }
        match server.oauth {
            Some(config) => {
                out.insert(0, (server.name, config));
                proof {
                    assert(server_views(out@) =~= seq![(server.name@, config)] + before);
                }
            },
            None => {},
        }
    }
    proof {
        assert(all.skip(0) =~= all);
        assert(server_views(out@).len() == out@.len());
    }
    if managed && out.len() > 0 {
        Some(out)
    } else {
        None
    }
}

/// What comes next at the start of the program.
#[derive(Debug)]
pub enum BootStep {
    /// The user sets the program up, and the start begins anew.
    RunSetup,
    /// The start ends with a message.
    Fail { message: String },
    /// The program is built: with these settings, with the tools that are selected, with
    /// the credentials of a provider refreshed, and with the system prompt of a file.
    Build {
        settings: Settings,
        tui: bool,
        selected_tools: Option<Vec<String>>,
        refreshed_provider: Option<String>,
        system_prompt_file: Option<String>,
        /// The hooks that are installed.
        hooks: Vec<HookSpec>,
    },
}

/// The model and the provider of a run: those of the command line before those of the
/// settings.
pub open spec fn boot_model(settings: Settings, args: CliArgs) -> (
    Option<Seq<char>>,
    Option<Seq<char>>,
) {
    let named = cli_model(opt_view(args.model), opt_view(args.provider));
    (
        first_of(named.0, opt_view(settings.last_used_model)),
        first_of(named.1, opt_view(settings.last_used_provider)),
    )
}

/// Whether a model is set once the command line has been taken.
pub open spec fn boots_with_model(settings: Settings, args: CliArgs) -> bool {
    match model_used(None, boot_model(settings, args).0, boot_model(settings, args).1) {
        Some(id) => id.len() > 0,
        None => false,
    }
}

/// A model of the command line that names its provider is the model that is used.
pub proof fn lemma_cli_model_is_used(settings: Settings, args: CliArgs)
    requires
        args.model is Some,
        match args.provider {
            Some(p) => (p@ + "/"@).is_prefix_of(args.model->0@),
            None => args.model->0@.contains('/'),
        },
    ensures
        model_used(None, boot_model(settings, args).0, boot_model(settings, args).1) == Some(
            args.model->0@,
        ),
{
    crate::settings::lemma_named_model_is_used(args.model->0@, opt_view(args.provider));
}

/// The thinking level of a run, where the command line names none or a known one.
pub open spec fn boot_level(settings: Settings, args: CliArgs) -> Option<ThinkingLevel> {
    match args.thinking {
        Some(word) => level_named(lowercase(word@)),
        None => Some(settings.thinking_level),
    }
}

/// Whether `s` is what the command line makes of the settings.
pub open spec fn is_boot_settings(s: Settings, settings: Settings, args: CliArgs) -> bool {
    &&& opt_view(s.last_used_model) == boot_model(settings, args).0
    &&& opt_view(s.last_used_provider) == boot_model(settings, args).1
    &&& boot_level(settings, args) == Some(s.thinking_level)
    &&& s == (Settings {
        last_used_model: s.last_used_model,
        last_used_provider: s.last_used_provider,
        thinking_level: s.thinking_level,
        ..settings
    })
}

/// Whether `s` differs from the settings at most in what the command line sets of the
/// model.
#[verifier::opaque]
spec fn has_cli_model(s: Settings, settings: Settings, args: CliArgs) -> bool {
    &&& opt_view(s.last_used_model) == boot_model(settings, args).0
    &&& opt_view(s.last_used_provider) == boot_model(settings, args).1
    &&& s == (Settings {
        last_used_model: s.last_used_model,
        last_used_provider: s.last_used_provider,
        ..settings
    })
}

/// The settings with the model of the command line.
fn with_cli_model(settings: Settings, args: &CliArgs) -> (s: Settings)
    ensures
        has_cli_model(s, settings, *args),
{
    let mut s = settings;
    s.merge_cli(copy_opt(&args.model), copy_opt(&args.provider));
    proof {
        reveal(has_cli_model);
    }
    s
}

/// The settings with the thinking level of the command line.
fn with_cli_thinking(settings: Settings, args: &CliArgs) -> (r: Result<Settings, String>)
    ensures
        match r {
            Ok(s) => boot_level(settings, *args) == Some(s.thinking_level) && s == (Settings {
                thinking_level: s.thinking_level,
                ..settings
            }),
            Err(e) => boot_level(settings, *args) is None && e@ == "Invalid thinking level: "@
                + args.thinking->0@ + ". Valid options: off, minimal, low, medium, high, xhigh"@,
        },
{
    match &args.thinking {
        Some(level) => {
            let mut s = settings;
            match apply_thinking(&mut s, level.as_str()) {
                Ok(_) => Ok(s),
                Err(message) => Err(message),
            }
        },
        None => Ok(settings),
    }
}

proof fn lemma_boot_settings(s: Settings, mid: Settings, settings: Settings, args: CliArgs)
    requires
        has_cli_model(mid, settings, args),
        boot_level(mid, args) == Some(s.thinking_level),
        s == (Settings { thinking_level: s.thinking_level, ..mid }),
    ensures
        is_boot_settings(s, settings, args),
{
    reveal(has_cli_model);
}

proof fn lemma_boot_model(mid: Settings, settings: Settings, args: CliArgs)
    requires
        has_cli_model(mid, settings, args),
    ensures
        has_model(mid) == boots_with_model(settings, args),
        mid.thinking_level == settings.thinking_level,
{
    reveal(has_cli_model);
}

/// Why a run cannot begin, where it cannot: no model is set, or the thinking level of the
/// command line is not known.
pub open spec fn boot_failure(settings: Settings, args: CliArgs) -> Option<Seq<char>> {
    if !boots_with_model(settings, args) {
        Some("No model configured. Run `oxicode setup` to configure."@)
    } else if boot_level(settings, args) is None {
        Some(
            "Invalid thinking level: "@ + args.thinking->0@
                + ". Valid options: off, minimal, low, medium, high, xhigh"@,
        )
    } else {
        None
    }
}

/// Whether the user sets the program up before a run: where no model is set, the run is
/// interactive, and they have not done so yet.
pub open spec fn boots_with_setup(settings: Settings, args: CliArgs, setup_done: bool) -> bool {
    !boots_with_model(settings, args) && tui_mode(args) && !setup_done
}

/// The settings of a run.
fn boot_settings(settings: Settings, args: &CliArgs, setup_done: bool) -> (r: Result<
    Settings,
    Option<String>,
>)
    ensures
        match r {
            Ok(s) => boot_failure(settings, *args) is None && is_boot_settings(s, settings, *args),
            Err(None) => boots_with_setup(settings, *args, setup_done),
            Err(Some(message)) => !boots_with_setup(settings, *args, setup_done) && boot_failure(
                settings,
                *args,
            ) == Some(message@),
        },
{
    let mid = with_cli_model(settings, args);
    proof {
        lemma_boot_model(mid, settings, *args);
    }
    match check_model(&mid, is_tui_mode(args), setup_done) {
        ModelCheck::Ready => {},
        ModelCheck::RunSetup => {
            return Err(None);
        },
        ModelCheck::Fail { message } => {
            return Err(Some(message));
        },
    }
    let ghost before = mid;
    match with_cli_thinking(mid, args) {
        Err(message) => Err(Some(message)),
        Ok(s) => {
            proof {
                lemma_boot_settings(s, before, settings, *args);
            }
            Ok(s)
        },
    }
}

/// What comes next at the start of the program: the command line is taken over the
/// settings, a model must be set, and the thinking level must be known. The hooks are those
/// of the user's own settings, and those of the project as far as they may run.
pub fn build_app(
    settings: Settings,
    args: &CliArgs,
    setup_done: bool,
    user_hooks: Vec<HookSpec>,
    project: Option<ProjectHooks>,
) -> (r: BootStep)
    ensures
        match r {
            BootStep::RunSetup => boots_with_setup(settings, *args, setup_done),
            BootStep::Fail { message } => !boots_with_setup(settings, *args, setup_done)
                && boot_failure(settings, *args) == Some(message@),
            BootStep::Build {
                settings: s,
                tui,
                selected_tools,
                refreshed_provider,
                system_prompt_file,
                hooks,
            } => {
                &&& boot_failure(settings, *args) is None
                &&& is_boot_settings(s, settings, *args)
                &&& tui == tui_mode(*args)
                &&& match args.tools {
                    Some(list) => selected_tools is Some && views(selected_tools->0@)
                        == listed_names(list@),
                    None => selected_tools is None,
                }
                &&& opt_view(refreshed_provider) == named_provider(
                    first_of(opt_view(args.provider), opt_view(settings.last_used_provider)),
                )
                &&& opt_view(system_prompt_file) == opt_view(args.append_system_prompt)
                &&& hooks@ == installed_hooks(user_hooks@, project, tui_mode(*args))
            },
        },
{
    let cli_provider = match &args.provider {
        Some(p) => Some(p.as_str()),
        None => None,
    };
    let refreshed_provider = provider_to_refresh(&settings, cli_provider);
    match boot_settings(settings, args, setup_done) {
        Err(None) => BootStep::RunSetup,
        Err(Some(message)) => BootStep::Fail { message },
        Ok(s) => {
            let tui = is_tui_mode(args);
            let selected_tools = match &args.tools {
                Some(list) => Some(tool_names(list.as_str())),
                None => None,
            };
            let system_prompt_file = copy_opt(&args.append_system_prompt);
            let hooks = hooks_to_install(user_hooks, project, tui);
            BootStep::Build {
                settings: s,
                tui,
                selected_tools,
                refreshed_provider,
                system_prompt_file,
                hooks,
            }
        },
    }
}

/// A run is interactive where its mode is neither `json` nor `rpc`, it does not print, and
/// it is asked to be or has no prompt: no word, or one that is empty.
pub proof fn lemma_tui_mode_when(args: CliArgs)
    ensures
        tui_mode(args) <==> {
            &&& args.mode is None || (args.mode->0@ != "json"@ && args.mode->0@ != "rpc"@)
            &&& !args.print
            &&& args.interactive || args.prompt@.len() == 0 || (args.prompt@.len() == 1
                && args.prompt@[0]@.len() == 0)
        },
        process_kind(args) == if tui_mode(args) {
            "tui"@
        } else {
            "proc"@
        },
{
    lemma_joined_prompt_len(args);
}

proof fn lemma_joined_prompt_len(args: CliArgs)
    ensures
        joined_prompt(args).len() == 0 <==> args.prompt@.len() == 0 || (args.prompt@.len() == 1
            && args.prompt@[0]@.len() == 0),
{
    reveal_strlit(" ");
    let words = views(args.prompt@);
    if words.len() > 1 {
        assert(joined_prompt(args).len() >= 1);
    } else if words.len() == 1 {
        assert(joined_prompt(args) == words[0]);
    }
}

/// A run that prints does so in JSON exactly where its mode is `json`. Its first message is
/// the words of the prompt with single spaces between them, where there are any; it reads
/// nothing more, keeps no session and is quiet where it is asked to print.
pub proof fn lemma_print_plan_tells(o: PrintModeOptions, args: CliArgs)
    requires
        is_print_plan(o, args),
    ensures
        o.mode == PrintMode::Json <==> args.mode is Some && args.mode->0@ == "json"@,
        o.mode == PrintMode::Text <==> args.mode is None || args.mode->0@ != "json"@,
        o.initial_message is None <==> args.prompt@.len() == 0 || (args.prompt@.len() == 1
            && args.prompt@[0]@.len() == 0),
        o.initial_message is Some ==> o.initial_message->0@ == Seq::new(
            args.prompt@.len(),
            |k: int|
                if k == 0 {
                    args.prompt@[k]@
                } else {
                    " "@ + args.prompt@[k]@
                },
        ).flatten(),
        o.no_stdin == args.print,
        o.no_session == (args.print || args.no_session),
        o.quiet == args.print,
        o.timeout == args.timeout,
{
    lemma_joined_prompt_len(args);
    let words = views(args.prompt@);
    lemma_join_in_turn(words, " "@);
    assert(Seq::new(
        words.len(),
        |k: int|
            if k == 0 {
                words[k]
            } else {
                " "@ + words[k]
            },
    ) =~= Seq::new(
        args.prompt@.len(),
        |k: int|
            if k == 0 {
                args.prompt@[k]@
            } else {
                " "@ + args.prompt@[k]@
            },
    ));
}

/// A pattern is counted where it first stands, at `i`, and then from behind it on; where it
/// stands nowhere it is not counted.
pub proof fn lemma_occurrences_from_first(s: Seq<char>, pattern: Seq<char>, i: int)
    requires
        pattern.len() > 0,
        0 <= i,
        forall|j: int|
            0 <= j < i && j + pattern.len() <= s.len() ==> #[trigger] s.subrange(
                j,
                j + pattern.len(),
            ) != pattern,
        i + pattern.len() <= s.len() ==> s.subrange(i, i + pattern.len()) == pattern,
    ensures
        occurrences(s, pattern) == if i + pattern.len() <= s.len() {
            1 + occurrences(s.skip(i + pattern.len()), pattern)
        } else {
            0
        },
    decreases s.len(),
{
    let n = pattern.len() as int;
    if s.len() >= n {
        if pattern.is_prefix_of(s) {
            assert(s.subrange(0, n) =~= pattern);
            if i > 0 {
                assert(s.subrange(0, 0int + pattern.len()) != pattern);
            }
        } else {
            assert(i > 0) by {
                if i == 0 {
                    assert(s.subrange(0, n) =~= pattern);
                }
            }
            let rest = s.skip(1);
            assert forall|j: int|
                0 <= j < i - 1 && j + pattern.len() <= rest.len() implies #[trigger] rest.subrange(
                j,
                j + pattern.len(),
            ) != pattern by {
                assert(rest.subrange(j, j + n) =~= s.subrange(j + 1, j + 1 + pattern.len()));
            }
            if i + n <= s.len() {
                assert(rest.subrange(i - 1, i - 1 + n) =~= s.subrange(i, i + n));
                assert(rest.skip(i - 1 + n) =~= s.skip(i + n));
            }
            lemma_occurrences_from_first(rest, pattern, i - 1);
        }
    }
}

/// What is done with the hooks of a project: approved ones are used; of others the user is
/// asked, with their number, in an interactive run; else, and where there are none, they are
/// skipped.
pub proof fn lemma_hook_decision_when(approved: bool, content: Seq<char>, tui: bool)
    ensures
        approved ==> hook_decision(approved, content, tui) == HookDecision::Use,
        !approved && (!tui || occurrences(content, "[[hooks]]"@) == 0) ==> hook_decision(
            approved,
            content,
            tui,
        ) == HookDecision::Skip,
        !approved && tui && occurrences(content, "[[hooks]]"@) > 0 ==> hook_decision(
            approved,
            content,
            tui,
        ) == HookDecision::Ask(occurrences(content, "[[hooks]]"@) as usize),
{
}

/// The hooks of the user are always installed, first and in their order. Behind them come
/// those of the project, all and in their order, exactly where they could be read and were
/// approved, or the user was asked of them and agreed.
pub proof fn lemma_hooks_in_order(
    user: Seq<HookSpec>,
    project: Option<ProjectHooks>,
    tui: bool,
)
    ensures
        ({
            let run = project is Some && project->0.parsed is Some && (project->0.approved || (tui
                && project->0.agreed && occurrences(project->0.content@, "[[hooks]]"@) > 0));
            installed_hooks(user, project, tui) == if run {
                user + project->0.parsed->0@
            } else {
                user
            }
        }),
{
}

/// The names of two lists with a comma between them are those of the one, then those of the
/// other; those of a list without a comma are the list without the white space around it.
pub proof fn lemma_listed_names_add_up(first: Seq<char>, second: Seq<char>)
    ensures
        listed_names(first.push(',') + second) == listed_names(first) + listed_names(second),
        !first.contains(',') ==> listed_names(first) == seq![trim(first)],
{
    crate::text::lemma_split_adds_up(first, ',', second);
    assert(listed_names(first.push(',') + second) =~= listed_names(first) + listed_names(second));
    if !first.contains(',') {
        crate::text::lemma_position_bounds(first, ',');
        assert(split(first, ',') == seq![first]);
        assert(listed_names(first) =~= seq![trim(first)]);
    }
}

/// The servers that need a sign-in are those that say what it takes, all of them and in their
/// order.
pub proof fn lemma_signed_servers_in_turn<C>(servers: Seq<ToolServer<C>>)
    ensures
        signed_servers(servers) == Seq::new(
            servers.len(),
            |k: int|
                if servers[k].oauth is Some {
                    seq![(servers[k].name@, servers[k].oauth->0)]
                } else {
                    Seq::<(Seq<char>, C)>::empty()
                },
        ).flatten(),
    decreases servers.len(),
{
    let parts = Seq::new(
        servers.len(),
        |k: int|
            if servers[k].oauth is Some {
                seq![(servers[k].name@, servers[k].oauth->0)]
            } else {
                Seq::<(Seq<char>, C)>::empty()
            },
    );
    if servers.len() > 0 {
        let rest = servers.drop_first();
        lemma_signed_servers_in_turn(rest);
        assert(parts.drop_first() =~= Seq::new(
            rest.len(),
            |k: int|
                if rest[k].oauth is Some {
                    seq![(rest[k].name@, rest[k].oauth->0)]
                } else {
                    Seq::<(Seq<char>, C)>::empty()
                },
        ));
        assert(signed_servers(servers) =~= parts.first() + signed_servers(rest));
    }
}

/// A custom provider speaks the API that its settings name, in any case of the letters, by
/// either of its two names; another name is an error that tells both names.
pub proof fn lemma_registration_api(
    r: ProviderRegistration,
    provider: CustomProvider,
    has_key: bool,
)
    requires
        is_registration(r, provider, has_key),
    ensures
        ({
            let name = lowercase(provider.api@);
            &&& r.api == Ok::<CustomApi, String>(CustomApi::OpenAiCompletions) <==> name
                == "openai-completions"@ || name == "openai"@
            &&& name == "openai-responses"@ || name == "responses"@ ==> r.api == Ok::<
                CustomApi,
                String,
            >(CustomApi::OpenAiResponses)
            &&& r.api == Ok::<CustomApi, String>(CustomApi::OpenAiResponses) ==> name
                == "openai-responses"@ || name == "responses"@
            &&& r.api is Err <==> name != "openai-completions"@ && name != "openai"@ && name
                != "openai-responses"@ && name != "responses"@
        }),
        r.api is Err ==> r.api->Err_0@ == "Unknown API type '"@ + provider.api@
            + "' for custom provider '"@ + provider.name@
            + "'. Supported: openai-completions, openai-responses"@,
        r.name@ == provider.name@,
        r.base_url@ == provider.base_url@,
        r.fetch_models == has_key,
{
    reveal_strlit("openai-completions");
    reveal_strlit("openai");
    reveal_strlit("openai-responses");
    reveal_strlit("responses");
    assert("openai-completions"@.len() == 18 && "openai"@.len() == 6 && "openai-responses"@.len()
        == 16 && "responses"@.len() == 9);
}

/// The model of a run: what the command line names goes before what is stored, the model and
/// the provider each for itself. A model that the command line names with its provider is
/// taken apart: behind the provider that is given and a slash, or else at its first slash.
pub proof fn lemma_boot_model_when(settings: Settings, args: CliArgs)
    ensures
        args.model is None ==> boot_model(settings, args).0 == opt_view(settings.last_used_model),
        args.model is None && args.provider is None ==> boot_model(settings, args).1 == opt_view(
            settings.last_used_provider,
        ),
        args.provider is Some ==> boot_model(settings, args).1 == Some(args.provider->0@),
        args.model is Some && args.provider is None && !args.model->0@.contains('/') ==> {
            &&& boot_model(settings, args).0 == Some(args.model->0@)
            &&& boot_model(settings, args).1 == opt_view(settings.last_used_provider)
        },
        forall|p: Seq<char>, m: Seq<char>|
            #![trigger p.push('/') + m]
            args.model is Some && args.provider is None && args.model->0@ == p.push('/') + m
                && !p.contains('/') ==> boot_model(settings, args) == (Some(m), Some(p)),
        forall|m: Seq<char>|
            #![trigger args.provider->0@.push('/') + m]
            args.model is Some && args.provider is Some && args.model->0@
                == args.provider->0@.push('/') + m ==> boot_model(settings, args).0 == Some(m),
        args.model is Some && args.provider is Some && !(args.provider->0@
            + "/"@).is_prefix_of(args.model->0@) ==> boot_model(settings, args).0 == Some(
            args.model->0@,
        ),
{
    reveal_strlit("/");
    if args.model is Some {
        let id = args.model->0@;
        if args.provider is None {
            if !id.contains('/') {
                crate::text::lemma_split_once_at(id, '/', Seq::empty());
            }
            assert forall|p: Seq<char>, m: Seq<char>|
                #![trigger p.push('/') + m]
                id == p.push('/') + m && !p.contains('/') implies boot_model(settings, args) == (
                Some(m),
                Some(p),
            ) by {
                crate::text::lemma_split_once_at(p, '/', m);
            }
        } else {
            let p = args.provider->0@;
            assert forall|m: Seq<char>|
                #![trigger p.push('/') + m]
                id == p.push('/') + m implies boot_model(settings, args).0 == Some(m) by {
                assert(p + "/"@ =~= id.subrange(0, p.len() as int + 1));
                assert(id.skip(p.len() as int + 1) =~= m);
            }
        }
    }
}

/// A run can begin where a model is set that is not empty and the thinking level of the
/// command line, where it names one, is known. A missing model is told before an unknown
/// level.
pub proof fn lemma_boot_fails_when(settings: Settings, args: CliArgs)
    ensures
        ({
            let (model, provider) = boot_model(settings, args);
            let set = model is Some && (provider is Some || model->0.len() > 0);
            let known = args.thinking is None || level_named(lowercase(args.thinking->0@)) is Some;
            &&& boots_with_model(settings, args) <==> set
            &&& !set ==> boot_failure(settings, args) == Some(
                "No model configured. Run `oxicode setup` to configure."@,
            )
            &&& set && !known ==> boot_failure(settings, args) == Some(
                "Invalid thinking level: "@ + args.thinking->0@
                    + ". Valid options: off, minimal, low, medium, high, xhigh"@,
            )
            &&& set && known ==> boot_failure(settings, args) is None
        }),
{
    reveal_strlit("/");
}

/// The settings of a run are those that are stored, but for the model, its provider and the
/// thinking level, which the command line may name.
pub proof fn lemma_boot_settings_keep(s: Settings, settings: Settings, args: CliArgs)
    requires
        is_boot_settings(s, settings, args),
    ensures
        args.thinking is None ==> s.thinking_level == settings.thinking_level,
        args.thinking is Some ==> level_named(lowercase(args.thinking->0@)) == Some(
            s.thinking_level,
        ),
        opt_view(s.last_used_model) == boot_model(settings, args).0,
        opt_view(s.last_used_provider) == boot_model(settings, args).1,
        s == (Settings {
            last_used_model: s.last_used_model,
            last_used_provider: s.last_used_provider,
            thinking_level: s.thinking_level,
            ..settings
        }),
{
}

/// The levels and the tiers of a router go by their names, and by no other.
pub proof fn lemma_router_names(name: Seq<char>)
    ensures
        router_level(name) == Some(ThinkingLevel::Off) <==> name == "off"@,
        router_level(name) == Some(ThinkingLevel::Minimal) <==> name == "minimal"@,
        router_level(name) == Some(ThinkingLevel::Low) <==> name == "low"@,
        router_level(name) == Some(ThinkingLevel::Medium) <==> name == "medium"@,
        router_level(name) == Some(ThinkingLevel::High) <==> name == "high"@,
        router_level(name) == Some(ThinkingLevel::XHigh) <==> name == "xhigh"@,
        tier_named(name) == Some(RouterTier::High) <==> name == "high"@,
        tier_named(name) == Some(RouterTier::Medium) <==> name == "medium"@,
        tier_named(name) == Some(RouterTier::Low) <==> name == "low"@,
{
    reveal_strlit("off");
    reveal_strlit("minimal");
    reveal_strlit("low");
    reveal_strlit("medium");
    reveal_strlit("high");
    reveal_strlit("xhigh");
    assert("off"@[0] == 'o' && "minimal"@[0] == 'm' && "low"@[0] == 'l' && "medium"@[0] == 'm'
        && "high"@[0] == 'h' && "xhigh"@[0] == 'x');
    assert("minimal"@.len() == 7 && "medium"@.len() == 6);
}

/// A router has the profiles of its configuration, each at its place with all its tiers, and
/// the default profile, the classifier and the pinned tier that the configuration names.
pub proof fn lemma_router_plan_tells(plan: RouterPlan, cfg: RouterStoreConfig, i: int)
    requires
        is_router_plan(plan, cfg),
        0 <= i < cfg.profiles@.len(),
    ensures
        plan.profiles@.len() == cfg.profiles@.len(),
        plan.profiles@[i].name == cfg.profiles@[i].name,
        plan.profiles@[i].high.model == cfg.profiles@[i].high.model,
        plan.profiles@[i].high.fallbacks == cfg.profiles@[i].high.fallbacks,
        plan.profiles@[i].medium.model == cfg.profiles@[i].medium.model,
        plan.profiles@[i].medium.fallbacks == cfg.profiles@[i].medium.fallbacks,
        plan.profiles@[i].low.model == cfg.profiles@[i].low.model,
        plan.profiles@[i].low.fallbacks == cfg.profiles@[i].low.fallbacks,
        cfg.profiles@[i].high.thinking is Some ==> plan.profiles@[i].high.thinking == router_level(
            cfg.profiles@[i].high.thinking->0@,
        ),
        cfg.profiles@[i].high.thinking is None ==> plan.profiles@[i].high.thinking is None,
        cfg.profiles@[i].medium.thinking is Some ==> plan.profiles@[i].medium.thinking
            == router_level(cfg.profiles@[i].medium.thinking->0@),
        cfg.profiles@[i].medium.thinking is None ==> plan.profiles@[i].medium.thinking is None,
        cfg.profiles@[i].low.thinking is Some ==> plan.profiles@[i].low.thinking == router_level(
            cfg.profiles@[i].low.thinking->0@,
        ),
        cfg.profiles@[i].low.thinking is None ==> plan.profiles@[i].low.thinking is None,
        plan.default_profile == cfg.default_profile,
        plan.classifier_model == cfg.classifier_model,
        cfg.pin_tier is Some ==> plan.pin_tier == tier_named(cfg.pin_tier->0@),
        cfg.pin_tier is None ==> plan.pin_tier is None,
{
    assert(is_profile(plan.profiles@[i], cfg.profiles@[i]));
}

/// A model is set where one was used last, unless it is empty and has no provider.
pub proof fn lemma_has_model_when(settings: Settings)
    ensures
        has_model(settings) <==> settings.last_used_model is Some && (settings.last_used_provider
            is Some || settings.last_used_model->0@.len() > 0),
{
    reveal_strlit("/");
}

/// The identity of a process tells what it is, its number and its random identifier, in this
/// order.
pub proof fn lemma_ownership_id_tells(kind: Seq<char>, pid: u32, uuid: Seq<char>)
    ensures
        ownership_id(kind, pid, uuid) == kind + "-"@ + decimal(pid as nat) + "-"@ + uuid,
        is_simple_uuid(uuid) ==> uuid.len() == 32 && !uuid.contains('-'),
{
    if is_simple_uuid(uuid) && uuid.contains('-') {
        let i = uuid.index_of('-');
        assert('0' <= uuid[i] <= '9' || 'a' <= uuid[i] <= 'f');
    }
}

/// The built-in tools of a run are those that are named, whatever is turned off; where none
/// are named, those that are not turned off.
pub proof fn lemma_builtin_tools_when<T: AgentTool>(
    all_tools: Seq<Arc<T>>,
    selected: Option<Vec<String>>,
    disabled: Seq<Seq<char>>,
)
    ensures
        selected is Some ==> builtin_tools(all_tools, selected, disabled) == named_tools(
            all_tools,
            views(selected->0@),
        ),
        selected is None ==> builtin_tools(all_tools, selected, disabled) == offered(
            all_tools,
            disabled,
        ),
{
}

} // verus!
