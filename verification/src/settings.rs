//! The settings of the program: their defaults, where they are kept, how a file lies
//! over them, and how older files are brought up to date.

use crate::messages::{copy_opt, opt_view};
use crate::paths::{extension, extension_of, with_extension, with_extension_of};
use crate::text::{
    ascii_lower, decimal, decimal_text, join_path, lemma_position_at, lemma_position_bounds,
    lowercase, path_join, split_once, split_once_text, str_eq, strip_prefix_text, to_lowercase,
};
use vstd::prelude::*;
use vstd::utf8::is_ascii_chars;

verus! {

/// The version of the settings format.
pub const SETTINGS_VERSION: u32 = 10;

/// How much a model reasons before it responds.
#[derive(Debug, Clone, Copy, PartialEq, Eq, Structural)]
pub enum ThinkingLevel {
    Off,
    Minimal,
    Low,
    Medium,
    High,
    XHigh,
}

impl Default for ThinkingLevel {
    fn default() -> (r: Self)
        ensures
            r == ThinkingLevel::Off,
    {
        ThinkingLevel::Off
    }
}

/// How the edit tool takes its edits.
#[derive(Debug, Clone, Copy, PartialEq, Eq, Structural)]
pub enum EditFormat {
    /// Patches anchored at lines.
    Hashline,
    /// A text and what takes its place.
    StrReplace,
}

impl Default for EditFormat {
    fn default() -> (r: Self)
        ensures
            r == EditFormat::Hashline,
    {
        EditFormat::Hashline
    }
}

/// The symbols that a terminal shows.
#[derive(Debug, Clone, Copy, PartialEq, Eq, Structural)]
pub enum GlyphSet {
    Unicode,
    Ascii,
    Nerd,
}

impl Default for GlyphSet {
    fn default() -> (r: Self)
        ensures
            r == GlyphSet::Unicode,
    {
        GlyphSet::Unicode
    }
}

/// How strongly a todo list is made on the first turn.
#[derive(Debug, Clone, Copy, PartialEq, Eq, Structural)]
pub enum TodoEagerMode {
    Off,
    Preferred,
    Always,
}

impl Default for TodoEagerMode {
    fn default() -> (r: Self)
        ensures
            r == TodoEagerMode::Off,
    {
        TodoEagerMode::Off
    }
}

/// A provider that the user adds.
#[derive(Debug, Clone)]
pub struct CustomProvider {
    pub name: String,
    pub base_url: String,
    pub api_key_env: String,
    pub api: String,
}

/// The API of a provider that names none.
pub fn default_custom_provider_api() -> (r: String)
    ensures
        r@ == "openai-completions"@,
{
    "openai-completions".to_owned()
}

/// A name with its values.
#[derive(Debug, Clone)]
pub struct NamedValues {
    pub name: String,
    pub values: Vec<String>,
}

/// A name with its value.
#[derive(Debug, Clone)]
pub struct NamedValue {
    pub name: String,
    pub value: String,
}

/// The names with their values.
pub open spec fn named_views(values: Seq<NamedValue>) -> Seq<(Seq<char>, Seq<char>)> {
    Seq::new(values.len(), |i: int| (values[i].name@, values[i].value@))
}

/// The same names and values again.
pub fn copy_named(values: &Vec<NamedValue>) -> (r: Vec<NamedValue>)
    ensures
        named_views(r@) == named_views(values@),
{
    let mut out: Vec<NamedValue> = Vec::new();
    let mut i: usize = 0;
    while i < values.len()
        invariant
            i <= values@.len(),
            out@.len() == i,
            forall|j: int|
                0 <= j < i ==> (#[trigger] out@[j]).name@ == values@[j].name@ && out@[j].value@
                    == values@[j].value@,
        decreases values@.len() - i,
    {
        out.push(NamedValue { name: values[i].name.clone(), value: values[i].value.clone() });
        i += 1;
    }
    proof {
        assert(named_views(out@) =~= named_views(values@));
    }
    out
}

/// A command that runs on an event.
#[derive(Debug, Clone)]
pub struct HookSpec {
    pub event: String,
    /// The tools that it runs for, where it is not all of them.
    pub matcher: Option<String>,
    pub command: String,
    pub timeout_secs: Option<u64>,
}

/// The settings of the advisor.
#[derive(Debug, Clone)]
pub struct AdvisorSettings {
    pub enabled: bool,
    pub sync_backlog: String,
    pub immune_turns: u64,
}

/// Whether these are the settings of an advisor that is off.
pub open spec fn is_default_advisor(s: AdvisorSettings) -> bool {
    !s.enabled && s.sync_backlog@ == "off"@ && s.immune_turns == 0
}

impl Default for AdvisorSettings {
    fn default() -> (r: Self)
        ensures
            is_default_advisor(r),
    {
        AdvisorSettings {
            enabled: false,
            sync_backlog: default_advisor_sync_backlog(),
            immune_turns: 0,
        }
    }
}

/// The backlog at which the advisor holds up the session: none.
pub fn default_advisor_sync_backlog() -> (r: String)
    ensures
        r@ == "off"@,
{
    "off".to_owned()
}

/// The settings of the workspace search.
#[derive(Debug, Clone)]
pub struct WorkspaceSearchSettings {
    pub enabled: bool,
    pub executable: Option<String>,
    pub space: String,
    pub include_globs: Option<Vec<String>>,
    pub exclude_globs: Option<Vec<String>>,
    pub max_file_bytes: Option<u64>,
}

/// Whether these are the settings of a workspace search that is off.
pub open spec fn is_default_workspace_search(s: WorkspaceSearchSettings) -> bool {
    &&& !s.enabled
    &&& s.executable is None
    &&& s.space@ == "dev"@
    &&& s.include_globs is None
    &&& s.exclude_globs is None
    &&& s.max_file_bytes is None
}

impl Default for WorkspaceSearchSettings {
    fn default() -> (r: Self)
        ensures
            is_default_workspace_search(r),
    {
        WorkspaceSearchSettings {
            enabled: false,
            executable: None,
            space: default_workspace_search_space(),
            include_globs: None,
            exclude_globs: None,
            max_file_bytes: None,
        }
    }
}

/// The space that a workspace is indexed in.
pub fn default_workspace_search_space() -> (r: String)
    ensures
        r@ == "dev"@,
{
    "dev".to_owned()
}

/// The theme.
pub fn default_theme() -> (r: String)
    ensures
        r@ == "default"@,
{
    "default".to_owned()
}

/// The thinking level of a session.
pub fn default_thinking_level() -> (r: ThinkingLevel)
    ensures
        r == ThinkingLevel::Medium,
{
    ThinkingLevel::Medium
}

/// The entries of a session that are kept in memory.
pub fn default_session_history_size() -> (r: usize)
    ensures
        r == 100,
{
    100
}

/// What is on.
pub fn default_true() -> (r: bool)
    ensures
        r,
{
    true
}

/// What is off.
pub fn default_false() -> (r: bool)
    ensures
        !r,
{
    false
}

/// The reminders of open todos in one run.
pub fn default_todo_reminders_max() -> (r: u32)
    ensures
        r == 3,
{
    3
}

/// The seconds after which a closed todo list goes away.
pub fn default_todo_clear_delay_secs() -> (r: i64)
    ensures
        r == 60,
{
    60
}

/// When stream rules interrupt.
pub fn default_ttsr_mode() -> (r: String)
    ensures
        r@ == "prose_only"@,
{
    "prose_only".to_owned()
}

/// The seconds that a tool may take.
pub fn default_tool_timeout() -> (r: u64)
    ensures
        r == 120,
{
    120
}

/// The settings of the program. The temperatures are held by the bits of their
/// floating-point values.
#[derive(Debug, Clone)]
pub struct Settings {
    pub version: u32,
    pub thinking_level: ThinkingLevel,
    pub theme: String,
    pub glyph_set: GlyphSet,
    pub default_model: Option<String>,
    pub default_provider: Option<String>,
    pub last_used_model: Option<String>,
    pub last_used_provider: Option<String>,
    pub max_tokens: Option<u32>,
    pub temperature: Option<u32>,
    pub default_temperature: Option<u64>,
    pub max_response_tokens: Option<usize>,
    pub session_history_size: usize,
    pub session_dir: Option<String>,
    pub extensions_enabled: bool,
    pub auto_compaction: bool,
    pub disabled_tools: Vec<String>,
    pub tool_timeout_seconds: u64,
    pub ask_timeout_secs: u64,
    pub extensions: Vec<String>,
    pub skills: Vec<String>,
    pub prompts: Vec<String>,
    pub themes: Vec<String>,
    pub custom_providers: Vec<CustomProvider>,
    pub dynamic_models: Vec<NamedValues>,
    pub keybindings: Vec<NamedValues>,
    pub edit_format: EditFormat,
    pub todo_panel_enabled: bool,
    pub todo_eager_mode: TodoEagerMode,
    pub todo_reminders_enabled: bool,
    pub todo_reminders_max: u32,
    pub todo_clear_delay_secs: i64,
    pub agent_hub_enabled: bool,
    pub snapcompact_enabled: bool,
    pub mermaid_render_enabled: bool,
    pub inline_images: bool,
    pub commit_tool_enabled: bool,
    pub bash_pty: bool,
    pub memory_enabled: bool,
    pub workspace_search: WorkspaceSearchSettings,
    pub ttsr_enabled: bool,
    pub ttsr_interrupt_mode: String,
    pub model_roles: Vec<NamedValue>,
    pub advisor: AdvisorSettings,
    pub hooks: Vec<HookSpec>,
}

/// Whether these are the settings before any file is read.
pub open spec fn is_default_settings(s: Settings) -> bool {
    &&& s.version == SETTINGS_VERSION
    &&& s.thinking_level == ThinkingLevel::Medium
    &&& s.theme@ == "default"@
    &&& s.glyph_set == GlyphSet::Unicode
    &&& s.default_model is None
    &&& s.default_provider is None
    &&& s.last_used_model is None
    &&& s.last_used_provider is None
    &&& s.max_tokens is None
    &&& s.temperature is None
    &&& s.default_temperature is None
    &&& s.max_response_tokens is None
    &&& s.session_history_size == 100
    &&& s.session_dir is None
    &&& s.extensions_enabled
    &&& s.auto_compaction
    &&& s.disabled_tools@.len() == 0
    &&& s.tool_timeout_seconds == 120
    &&& s.ask_timeout_secs == 0
    &&& s.extensions@.len() == 0
    &&& s.skills@.len() == 0
    &&& s.prompts@.len() == 0
    &&& s.themes@.len() == 0
    &&& s.custom_providers@.len() == 0
    &&& s.dynamic_models@.len() == 0
    &&& s.keybindings@.len() == 0
    &&& s.edit_format == EditFormat::Hashline
    &&& s.todo_panel_enabled
    &&& s.todo_eager_mode == TodoEagerMode::Off
    &&& s.todo_reminders_enabled
    &&& s.todo_reminders_max == 3
    &&& s.todo_clear_delay_secs == 60
    &&& s.agent_hub_enabled
    &&& !s.snapcompact_enabled
    &&& s.mermaid_render_enabled
    &&& s.inline_images
    &&& !s.commit_tool_enabled
    &&& !s.bash_pty
    &&& s.memory_enabled
    &&& is_default_workspace_search(s.workspace_search)
    &&& !s.ttsr_enabled
    &&& s.ttsr_interrupt_mode@ == "prose_only"@
    &&& s.model_roles@.len() == 0
    &&& is_default_advisor(s.advisor)
    &&& s.hooks@.len() == 0
}

impl Default for Settings {
    fn default() -> (r: Self)
        ensures
            is_default_settings(r),
    {
        Settings {
            version: SETTINGS_VERSION,
            thinking_level: ThinkingLevel::Medium,
            theme: default_theme(),
            glyph_set: GlyphSet::Unicode,
            default_model: None,
            default_provider: None,
            last_used_model: None,
            last_used_provider: None,
            max_tokens: None,
            temperature: None,
            default_temperature: None,
            max_response_tokens: None,
            session_history_size: default_session_history_size(),
            session_dir: None,
            extensions_enabled: true,
            auto_compaction: true,
            disabled_tools: Vec::new(),
            tool_timeout_seconds: default_tool_timeout(),
            ask_timeout_secs: 0,
            extensions: Vec::new(),
            skills: Vec::new(),
            prompts: Vec::new(),
            themes: Vec::new(),
            custom_providers: Vec::new(),
            dynamic_models: Vec::new(),
            keybindings: Vec::new(),
            edit_format: EditFormat::Hashline,
            todo_panel_enabled: true,
            todo_eager_mode: TodoEagerMode::Off,
            todo_reminders_enabled: true,
            todo_reminders_max: default_todo_reminders_max(),
            todo_clear_delay_secs: default_todo_clear_delay_secs(),
            agent_hub_enabled: true,
            snapcompact_enabled: false,
            mermaid_render_enabled: true,
            inline_images: true,
            commit_tool_enabled: false,
            bash_pty: false,
            memory_enabled: true,
            workspace_search: WorkspaceSearchSettings::default(),
            ttsr_enabled: false,
            ttsr_interrupt_mode: default_ttsr_mode(),
            model_roles: Vec::new(),
            advisor: AdvisorSettings::default(),
            hooks: Vec::new(),
        }
    }
}

/// The format of a settings file.
#[derive(Debug, Clone, Copy, PartialEq, Eq, Structural)]
pub enum SettingsFormat {
    Json,
    Toml,
}

impl Default for SettingsFormat {
    fn default() -> (r: Self)
        ensures
            r == SettingsFormat::Json,
    {
        SettingsFormat::Json
    }
}

impl SettingsFormat {
    /// The extension of a file in this format.
    pub fn extension(&self) -> (r: &'static str)
        ensures
            r@ == match self {
                SettingsFormat::Json => "json"@,
                SettingsFormat::Toml => "toml"@,
            },
    {
        match self {
            SettingsFormat::Json => "json",
            SettingsFormat::Toml => "toml",
        }
    }
}

/// Which settings files are in a directory.
#[derive(Debug, Clone, Copy, PartialEq, Eq, Structural)]
pub struct SettingsFiles {
    pub json: bool,
    pub toml: bool,
}

/// The settings file of a directory in a format.
pub open spec fn settings_file(dir: Seq<char>, json: bool) -> Seq<char> {
    if json {
        path_join(dir, "settings.json"@)
    } else {
        path_join(dir, "settings.toml"@)
    }
}

/// The settings file of a directory in a format.
fn settings_file_path(dir: &str, json: bool) -> (r: String)
    ensures
        r@ == settings_file(dir@, json),
{
    if json {
        join_path(dir, "settings.json")
    } else {
        join_path(dir, "settings.toml")
    }
}

/// The settings file that a directory has: that of the preferred format before the
/// other.
pub open spec fn existing_file(
    dir: Seq<char>,
    files: SettingsFiles,
    prefer_json: bool,
) -> Option<Seq<char>> {
    if if prefer_json { files.json } else { files.toml } {
        Some(settings_file(dir, prefer_json))
    } else if if prefer_json { files.toml } else { files.json } {
        Some(settings_file(dir, !prefer_json))
    } else {
        None
    }
}

/// The settings file that is read: that of the home, else that of the former home,
/// else the preferred one of the home, though it is not there yet.
pub open spec fn resolved_file(
    dir: Seq<char>,
    files: SettingsFiles,
    legacy: Option<(Seq<char>, SettingsFiles)>,
    prefer_json: bool,
) -> Seq<char> {
    match existing_file(dir, files, prefer_json) {
        Some(path) => path,
        None => match legacy {
            Some(l) => match existing_file(l.0, l.1, prefer_json) {
                Some(path) => path,
                None => settings_file(dir, prefer_json),
            },
            None => settings_file(dir, prefer_json),
        },
    }
}

/// The settings file that is written: that of the home, whatever the former one holds.
pub open spec fn written_file(dir: Seq<char>, files: SettingsFiles) -> Seq<char> {
    match existing_file(dir, files, true) {
        Some(path) => path,
        None => settings_file(dir, true),
    }
}

/// A directory on the way up from the working directory, and the settings files in its
/// `.oxicode` directory.
#[derive(Debug, Clone)]
pub struct ProjectLevel {
    pub dir: String,
    pub files: SettingsFiles,
    /// Whether the directory is the root of a repository.
    pub is_repo_root: bool,
}

/// The settings file of the nearest directory that has one, up to the root of the
/// repository.
pub open spec fn project_file(levels: Seq<ProjectLevel>) -> Option<Seq<char>>
    decreases levels.len(),
{
    if levels.len() == 0 {
        None
    } else {
        match existing_file(path_join(levels[0].dir@, ".oxicode"@), levels[0].files, true) {
            Some(path) => Some(path),
            None => if levels[0].is_repo_root {
                None
            } else {
                project_file(levels.drop_first())
            },
        }
    }
}

/// The model that is used: the one of the command line, else the last used one, under
/// its provider where one is stored.
pub open spec fn model_used(
    cli_model: Option<Seq<char>>,
    model: Option<Seq<char>>,
    provider: Option<Seq<char>>,
) -> Option<Seq<char>> {
    match cli_model {
        Some(m) => Some(m),
        None => match model {
            None => None,
            Some(m) => match provider {
                Some(p) => Some(p + "/"@ + m),
                None => Some(m),
            },
        },
    }
}

/// The model and the provider that the command line names. A model that names its
/// provider is taken apart: at its first slash, or behind the provider that is given.
pub open spec fn cli_model(model: Option<Seq<char>>, provider: Option<Seq<char>>) -> (
    Option<Seq<char>>,
    Option<Seq<char>>,
) {
    match (model, provider) {
        (Some(id), Some(p)) => if (p + "/"@).is_prefix_of(id) {
            (Some(id.skip(p.len() as int + 1)), provider)
        } else {
            (model, provider)
        },
        (Some(id), None) => match split_once(id, '/') {
            Some((p, rest)) => (Some(rest), Some(p)),
            None => (model, provider),
        },
        (None, _) => (model, provider),
    }
}

/// A text, or another where there is none.
pub open spec fn first_of(text: Option<Seq<char>>, other: Option<Seq<char>>) -> Option<Seq<char>> {
    if text is Some {
        text
    } else {
        other
    }
}

/// The model and the provider that the command line names.
fn named_by_cli(model: Option<String>, provider: Option<String>) -> (r: (
    Option<String>,
    Option<String>,
))
    ensures
        (opt_view(r.0), opt_view(r.1)) == cli_model(opt_view(model), opt_view(provider)),
{
    proof {
        reveal_strlit("/");
    }
    match (model, provider) {
        (Some(id), Some(p)) => {
            let mut start = p.clone();
            start.append("/");
            match strip_prefix_text(id.as_str(), start.as_str()) {
                Some(rest) => (Some(rest), Some(p)),
                None => (Some(id), Some(p)),
            }
        },
        (Some(id), None) => match split_once_text(id.as_str(), '/') {
            Some((p, rest)) => (Some(rest), Some(p)),
            None => (Some(id), None),
        },
        (None, p) => (None, p),
    }
}

/// A temperature by the bits of its floating-point value.
#[derive(Debug, Clone, Copy, PartialEq, Eq, Structural)]
pub enum Temperature {
    Double(u64),
    Single(u32),
}

/// Whether `s` differs from `base` at most in the last used model and provider, which
/// are those of a model identifier: split at its first slash, or the model alone.
pub open spec fn has_last_used(s: Settings, base: Settings, model_id: Seq<char>) -> bool {
    &&& s == (Settings {
        last_used_model: s.last_used_model,
        last_used_provider: s.last_used_provider,
        ..base
    })
    &&& match split_once(model_id, '/') {
        Some((provider, model)) => opt_view(s.last_used_provider) == Some(provider) && opt_view(
            s.last_used_model,
        ) == Some(model),
        None => s.last_used_provider == base.last_used_provider && opt_view(s.last_used_model)
            == Some(model_id),
    }
}

/// The settings file that a directory has.
fn find_existing(dir: &str, files: SettingsFiles, prefer_json: bool) -> (r: Option<String>)
    ensures
        opt_view(r) == existing_file(dir@, files, prefer_json),
{
    let first = if prefer_json {
        files.json
    } else {
        files.toml
    };
    let second = if prefer_json {
        files.toml
    } else {
        files.json
    };
    if first {
        Some(settings_file_path(dir, prefer_json))
    } else if second {
        Some(settings_file_path(dir, !prefer_json))
    } else {
        None
    }
}

/// The format of a settings file by the extension of its name: TOML for `toml`, JSON
/// for any other.
pub open spec fn format_of(path: Seq<char>) -> SettingsFormat {
    if extension(path) == Some("toml"@) {
        SettingsFormat::Toml
    } else {
        SettingsFormat::Json
    }
}

impl Settings {
    /// The settings file that is read. The former home is never written.
    pub fn resolve_settings_path_in(
        canonical_dir: &str,
        canonical_files: SettingsFiles,
        legacy: Option<(&str, SettingsFiles)>,
        prefer_json: bool,
    ) -> (r: String)
        ensures
            r@ == resolved_file(
                canonical_dir@,
                canonical_files,
                match legacy {
                    Some(l) => Some((l.0@, l.1)),
                    None => None,
                },
                prefer_json,
            ),
    {
        match find_existing(canonical_dir, canonical_files, prefer_json) {
            Some(path) => {
                return path;
            },
            None => {},
        }
        match legacy {
            Some((legacy_dir, legacy_files)) => match find_existing(
                legacy_dir,
                legacy_files,
                prefer_json,
            ) {
                Some(path) => {
                    return path;
                },
                None => {},
            },
            None => {},
        }
        settings_file_path(canonical_dir, prefer_json)
    }

    /// The settings file that is written.
    pub fn canonical_settings_path(dir: &str, files: SettingsFiles) -> (r: String)
        ensures
            r@ == written_file(dir@, files),
    {
        match find_existing(dir, files, true) {
            Some(path) => path,
            None => settings_file_path(dir, true),
        }
    }

    /// The TOML settings file of a directory.
    pub fn settings_toml_path(dir: &str) -> (r: String)
        ensures
            r@ == path_join(dir@, "settings.toml"@),
    {
        join_path(dir, "settings.toml")
    }

    /// The JSON settings file of a directory.
    pub fn settings_json_path(dir: &str) -> (r: String)
        ensures
            r@ == path_join(dir@, "settings.json"@),
    {
        join_path(dir, "settings.json")
    }

    /// The settings file that is read, JSON before TOML.
    pub fn settings_path(
        dir: &str,
        files: SettingsFiles,
        legacy: Option<(&str, SettingsFiles)>,
    ) -> (r: String)
        ensures
            r@ == resolved_file(
                dir@,
                files,
                match legacy {
                    Some(l) => Some((l.0@, l.1)),
                    None => None,
                },
                true,
            ),
    {
        Self::resolve_settings_path_in(dir, files, legacy, true)
    }

    /// The settings file that is read, the preferred format before the other.
    pub fn settings_path_with_preference(
        dir: &str,
        files: SettingsFiles,
        legacy: Option<(&str, SettingsFiles)>,
        prefer_json: bool,
    ) -> (r: String)
        ensures
            r@ == resolved_file(
                dir@,
                files,
                match legacy {
                    Some(l) => Some((l.0@, l.1)),
                    None => None,
                },
                prefer_json,
            ),
    {
        Self::resolve_settings_path_in(dir, files, legacy, prefer_json)
    }

    /// The format of a settings file.
    pub fn detect_format(path: &str) -> (r: SettingsFormat)
        ensures
            r == format_of(path@),
    {
        match extension_of(path) {
            Some(ext) => {
                if str_eq(ext.as_str(), "toml") {
                    SettingsFormat::Toml
                } else {
                    SettingsFormat::Json
                }
            },
            None => SettingsFormat::Json,
        }
    }

    /// Where a settings file is written before it takes the place of the former one: beside
    /// it, with the extension `tmp`.
    pub fn temporary_path(path: &str) -> (r: String)
        ensures
            r@ == with_extension(path@, "tmp"@),
    {
        with_extension_of(path, "tmp")
    }

    /// The settings file of the project: that of the nearest directory that has one,
    /// from the working directory up to the root of the repository.
    pub fn find_project_settings(levels: &Vec<ProjectLevel>) -> (r: Option<String>)
        ensures
            opt_view(r) == project_file(levels@),
    {
        let mut i: usize = 0;
        proof {
            assert(levels@.skip(0) =~= levels@);
        }
        while i < levels.len()
            invariant
                i <= levels@.len(),
                project_file(levels@.skip(i as int)) == project_file(levels@),
            decreases levels@.len() - i,
        {
            let dir = join_path(levels[i].dir.as_str(), ".oxicode");
            proof {
                assert(levels@.skip(i as int).drop_first() =~= levels@.skip(i + 1));
            }
            match find_existing(dir.as_str(), levels[i].files, true) {
                Some(path) => {
                    return Some(path);
                },
                None => {},
            }
            if levels[i].is_repo_root {
                return None;
            }
            i += 1;
        }
        None
    }

    /// The settings file of a project that is written.
    pub fn project_settings_path(project_dir: &str, files: SettingsFiles) -> (r: String)
        ensures
            r@ == written_file(path_join(project_dir@, ".oxicode"@), files),
    {
        let dir = join_path(project_dir, ".oxicode");
        Self::canonical_settings_path(dir.as_str(), files)
    }

    /// The directory of the sessions: the one that is set, or that of the home.
    pub fn effective_session_dir(&self, settings_dir: &str) -> (r: String)
        ensures
            r@ == match self.session_dir {
                Some(dir) => dir@,
                None => path_join(settings_dir@, "sessions"@),
            },
    {
        match &self.session_dir {
            Some(dir) => dir.clone(),
            None => join_path(settings_dir, "sessions"),
        }
    }

    /// Takes what the command line gives, which comes before what is stored. A model that
    /// names its provider is taken apart.
    pub fn merge_cli(&mut self, model: Option<String>, provider: Option<String>)
        ensures
            ({
                let named = cli_model(opt_view(model), opt_view(provider));
                &&& opt_view(final(self).last_used_model) == first_of(
                    named.0,
                    opt_view(old(self).last_used_model),
                )
                &&& opt_view(final(self).last_used_provider) == first_of(
                    named.1,
                    opt_view(old(self).last_used_provider),
                )
            }),
            *final(self) == (Settings {
                last_used_model: final(self).last_used_model,
                last_used_provider: final(self).last_used_provider,
                ..*old(self)
            }),
    {
        let (model, provider) = named_by_cli(model, provider);
        if model.is_some() {
            self.last_used_model = model;
        }
        if provider.is_some() {
            self.last_used_provider = provider;
        }
    }

    /// The model that is used, where one is set.
    pub fn effective_model(&self, cli_model: Option<&str>) -> (r: Option<String>)
        ensures
            opt_view(r) == model_used(
                match cli_model {
                    Some(m) => Some(m@),
                    None => None,
                },
                opt_view(self.last_used_model),
                opt_view(self.last_used_provider),
            ),
    {
        match cli_model {
            Some(m) => Some(m.to_owned()),
            None => match &self.last_used_model {
                None => None,
                Some(model) => match &self.last_used_provider {
                    Some(provider) => {
                        let mut id = provider.clone();
                        id.append("/");
                        id.append(model.as_str());
                        Some(id)
                    },
                    None => Some(model.clone()),
                },
            },
        }
    }

    /// The provider that is used, where one is set.
    pub fn effective_provider(&self, cli_provider: Option<&str>) -> (r: Option<String>)
        ensures
            opt_view(r) == match cli_provider {
                Some(p) => Some(p@),
                None => opt_view(self.last_used_provider),
            },
    {
        match cli_provider {
            Some(p) => Some(p.to_owned()),
            None => copy_opt(&self.last_used_provider),
        }
    }

    /// The temperature that is used: the double-precision one before the other.
    pub fn effective_temperature(&self) -> (r: Option<Temperature>)
        ensures
            r == (match (self.default_temperature, self.temperature) {
                (Some(d), _) => Some(Temperature::Double(d)),
                (None, Some(s)) => Some(Temperature::Single(s)),
                (None, None) => None,
            }),
    {
        match self.default_temperature {
            Some(d) => Some(Temperature::Double(d)),
            None => match self.temperature {
                Some(s) => Some(Temperature::Single(s)),
                None => None,
            },
        }
    }

    /// The highest number of tokens of a response: that of the wider type before the
    /// other.
    pub fn effective_max_tokens(&self) -> (r: Option<usize>)
        ensures
            r == (match (self.max_response_tokens, self.max_tokens) {
                (Some(n), _) => Some(n),
                (None, Some(n)) => Some(n as usize),
                (None, None) => None,
            }),
    {
        match self.max_response_tokens {
            Some(n) => Some(n),
            None => match self.max_tokens {
                Some(n) => Some(n as usize),
                None => None,
            },
        }
    }

    /// Remembers a model as the last used one.
    pub fn save_last_used(&mut self, model_id: &str)
        ensures
            has_last_used(*final(self), *old(self), model_id@),
    {
        match split_once_text(model_id, '/') {
            Some((provider, model)) => {
                self.last_used_provider = Some(provider);
                self.last_used_model = Some(model);
            },
            None => {
                self.last_used_model = Some(model_id.to_owned());
            },
        }
    }

    /// Turns the advisor on or off.
    pub fn set_advisor_enabled(&mut self, enabled: bool)
        ensures
            *final(self) == (Settings {
                advisor: AdvisorSettings { enabled, ..old(self).advisor },
                ..*old(self)
            }),
    {
        self.advisor.enabled = enabled;
    }

    /// Applies what the environment overrides: nothing, the files alone count.
    pub fn apply_env(&mut self)
        ensures
            *final(self) == *old(self),
    {
    }

    /// Sets the theme.
    pub fn save_theme(&mut self, name: &str)
        ensures
            final(self).theme@ == name@,
            *final(self) == (Settings { theme: final(self).theme, ..*old(self) }),
    {
        self.theme = name.to_owned();
    }

    /// The name of the theme that is shown.
    pub fn get_theme_name(&self) -> (r: String)
        ensures
            r@ == if self.theme@.len() == 0 || self.theme@ == "default"@ {
                "oxi"@
            } else {
                self.theme@
            },
    {
        if self.theme.as_str().is_empty() || str_eq(self.theme.as_str(), "default") {
            "oxi".to_owned()
        } else {
            self.theme.clone()
        }
    }

    /// The settings that the environment alone gives: the defaults.
    pub fn from_env() -> (r: Settings)
        ensures
            is_default_settings(r),
    {
        Settings::default()
    }

    /// Brings settings of an older format up to date. Before version one a tool timeout
    /// of zero meant the default; in version three the model stood whole in a field of
    /// its own. Settings of a newer format are refused.
    pub fn migrate(settings: Settings) -> (r: Result<Settings, String>)
        ensures
            match r {
                Ok(s) => settings.version <= SETTINGS_VERSION && is_migrated(s, settings)
                    && s.version == SETTINGS_VERSION && s.thinking_level == settings.thinking_level,
                Err(e) => settings.version > SETTINGS_VERSION && e@ == too_new(settings.version),
            },
    {
        let v: u32 = settings.version;
        if v == SETTINGS_VERSION {
            return Ok(settings);
        }
        if v > SETTINGS_VERSION {
            let mut message = "Settings version ".to_owned();
            message.append(decimal_text(v as u64).as_str());
            message.append(" is newer than supported version ");
            message.append(decimal_text(SETTINGS_VERSION as u64).as_str());
            message.append(". Please update oxicode.");
            return Err(message);
        }
        if v == 0 && settings.tool_timeout_seconds == 0 {
            return Ok(
                Settings {
                    version: SETTINGS_VERSION,
                    tool_timeout_seconds: default_tool_timeout(),
                    ..settings
                },
            );
        }
        if v == 3 {
            return Ok(Self::adopt_default_model(settings));
        }
        Ok(Settings { version: SETTINGS_VERSION, ..settings })
    }

    /// Brings settings of version three up to date.
    fn adopt_default_model(settings: Settings) -> (r: Settings)
        requires
            settings.version == 3,
        ensures
            is_migrated(r, settings),
    {
        let model = copy_opt(&settings.default_model);
        match model {
            Some(id) => {
                let mut s = Settings {
                    version: SETTINGS_VERSION,
                    default_model: None,
                    ..settings
                };
                s.save_last_used(id.as_str());
                s
            },
            None => Settings { version: SETTINGS_VERSION, ..settings },
        }
    }
}

/// The message for settings of a newer format.
pub open spec fn too_new(version: u32) -> Seq<char> {
    "Settings version "@ + decimal(version as nat) + " is newer than supported version "@ + decimal(
        SETTINGS_VERSION as nat,
    ) + ". Please update oxicode."@
}

/// Whether `s` is what `old_settings` come to in the format of today.
pub open spec fn is_migrated(s: Settings, old_settings: Settings) -> bool {
    if old_settings.version == 0 {
        s == (Settings {
            version: SETTINGS_VERSION,
            tool_timeout_seconds: if old_settings.tool_timeout_seconds == 0 {
                120
            } else {
                old_settings.tool_timeout_seconds
            },
            ..old_settings
        })
    } else if old_settings.version == 3 && old_settings.default_model is Some {
        has_last_used(
            s,
            Settings { version: SETTINGS_VERSION, default_model: None, ..old_settings },
            old_settings.default_model->0@,
        )
    } else {
        s == (Settings { version: SETTINGS_VERSION, ..old_settings })
    }
}

/// Bringing settings up to date changes their version, and nothing else but two things: a
/// tool timeout of zero from before the first version becomes two minutes, and a model that
/// version three held whole becomes the model that was used last, split at its first slash.
pub proof fn lemma_migrate_keeps(old_settings: Settings, s: Settings)
    requires
        is_migrated(s, old_settings),
    ensures
        s.version == 10,
        s.thinking_level == old_settings.thinking_level,
        s.theme == old_settings.theme,
        s.glyph_set == old_settings.glyph_set,
        s.default_provider == old_settings.default_provider,
        s.max_tokens == old_settings.max_tokens,
        s.temperature == old_settings.temperature,
        s.default_temperature == old_settings.default_temperature,
        s.max_response_tokens == old_settings.max_response_tokens,
        s.session_history_size == old_settings.session_history_size,
        s.session_dir == old_settings.session_dir,
        s.extensions_enabled == old_settings.extensions_enabled,
        s.auto_compaction == old_settings.auto_compaction,
        s.disabled_tools == old_settings.disabled_tools,
        s.ask_timeout_secs == old_settings.ask_timeout_secs,
        s.extensions == old_settings.extensions,
        s.skills == old_settings.skills,
        s.prompts == old_settings.prompts,
        s.themes == old_settings.themes,
        s.custom_providers == old_settings.custom_providers,
        s.dynamic_models == old_settings.dynamic_models,
        s.keybindings == old_settings.keybindings,
        s.edit_format == old_settings.edit_format,
        s.todo_panel_enabled == old_settings.todo_panel_enabled,
        s.todo_eager_mode == old_settings.todo_eager_mode,
        s.todo_reminders_enabled == old_settings.todo_reminders_enabled,
        s.todo_reminders_max == old_settings.todo_reminders_max,
        s.todo_clear_delay_secs == old_settings.todo_clear_delay_secs,
        s.agent_hub_enabled == old_settings.agent_hub_enabled,
        s.snapcompact_enabled == old_settings.snapcompact_enabled,
        s.mermaid_render_enabled == old_settings.mermaid_render_enabled,
        s.inline_images == old_settings.inline_images,
        s.commit_tool_enabled == old_settings.commit_tool_enabled,
        s.bash_pty == old_settings.bash_pty,
        s.memory_enabled == old_settings.memory_enabled,
        s.workspace_search == old_settings.workspace_search,
        s.ttsr_enabled == old_settings.ttsr_enabled,
        s.ttsr_interrupt_mode == old_settings.ttsr_interrupt_mode,
        s.model_roles == old_settings.model_roles,
        s.advisor == old_settings.advisor,
        s.hooks == old_settings.hooks,
        old_settings.version == 0 && old_settings.tool_timeout_seconds == 0
            ==> s.tool_timeout_seconds == 120,
        old_settings.version != 0 || old_settings.tool_timeout_seconds != 0
            ==> s.tool_timeout_seconds == old_settings.tool_timeout_seconds,
        old_settings.version != 3 || old_settings.default_model is None ==> {
            &&& s.default_model == old_settings.default_model
            &&& s.last_used_model == old_settings.last_used_model
            &&& s.last_used_provider == old_settings.last_used_provider
        },
        old_settings.version == 3 && old_settings.default_model is Some ==> {
            &&& s.default_model is None
            &&& s.last_used_model is Some
        },
        forall|at: int|
            #![trigger old_settings.default_model->0@[at]]
            old_settings.version == 3 && old_settings.default_model is Some && 0 <= at
                < old_settings.default_model->0@.len() && old_settings.default_model->0@[at] == '/'
                && !old_settings.default_model->0@.take(at).contains('/') ==> {
                &&& s.last_used_provider is Some
                &&& s.last_used_provider->0@ == old_settings.default_model->0@.take(at)
                &&& s.last_used_model->0@ == old_settings.default_model->0@.skip(at + 1)
            },
        old_settings.version == 3 && old_settings.default_model is Some
            && !old_settings.default_model->0@.contains('/') ==> {
            &&& s.last_used_provider == old_settings.last_used_provider
            &&& s.last_used_model->0@ == old_settings.default_model->0@
        },
{
    if old_settings.version == 3 && old_settings.default_model is Some {
        let id = old_settings.default_model->0@;
        lemma_position_bounds(id, '/');
        assert(!id.contains('/') ==> split_once(id, '/') is None);
        assert forall|at: int|
            #![trigger id[at]]
            0 <= at < id.len() && id[at] == '/' && !id.take(at).contains('/') implies {
            &&& split_once(id, '/') == Some((id.take(at), id.skip(at + 1)))
        } by {
            assert forall|j: int| 0 <= j < at implies id[j] != '/' by {
                assert(id.take(at)[j] == id[j]);
            }
            lemma_position_at(id, '/', at);
        }
    }
}

/// Settings that have been brought up to date stay as they are.
pub proof fn lemma_migrate_idempotent(old_settings: Settings, s: Settings, again: Settings)
    requires
        is_migrated(s, old_settings),
        is_migrated(again, s),
    ensures
        s.version == SETTINGS_VERSION,
        again == s,
{
}

/// A model of the command line that names its provider is the model that is used, whatever
/// is stored.
pub proof fn lemma_named_model_is_used(id: Seq<char>, provider: Option<Seq<char>>)
    requires
        match provider {
            Some(p) => (p + "/"@).is_prefix_of(id),
            None => id.contains('/'),
        },
    ensures
        ({
            let named = cli_model(Some(id), provider);
            &&& named.0 is Some && named.1 is Some
            &&& model_used(None, named.0, named.1) == Some(id)
        }),
{
    reveal_strlit("/");
    match provider {
        Some(p) => {
            assert(p + "/"@ + id.skip(p.len() as int + 1) =~= id);
        },
        None => {
            crate::text::lemma_split_once_joins(id, '/');
            let (p, model) = split_once(id, '/')->0;
            assert(p + "/"@ + model =~= p + seq!['/'] + model);
        },
    }
}

/// What stands above the root of a repository is not looked at.
pub proof fn lemma_repo_root_ends_search(
    below: Seq<ProjectLevel>,
    root: ProjectLevel,
    above: Seq<ProjectLevel>,
)
    requires
        root.is_repo_root,
    ensures
        project_file(below.push(root) + above) == project_file(below.push(root)),
    decreases below.len(),
{
    let all = below.push(root) + above;
    if below.len() > 0 {
        lemma_repo_root_ends_search(below.drop_first(), root, above);
        assert(all.drop_first() =~= below.drop_first().push(root) + above);
        assert(below.push(root).drop_first() =~= below.drop_first().push(root));
    }
}

/// A model identifier that is remembered is the model that is used: split at its first
/// slash, or, where it has none, under the provider that was stored before.
pub proof fn lemma_last_used_is_used(s: Settings, base: Settings, model_id: Seq<char>)
    requires
        has_last_used(s, base, model_id),
    ensures
        model_used(None, opt_view(s.last_used_model), opt_view(s.last_used_provider)) == (
        if model_id.contains('/') || base.last_used_provider is None {
            Some(model_id)
        } else {
            Some(base.last_used_provider->0@ + "/"@ + model_id)
        }),
{
    crate::text::lemma_split_once_joins(model_id, '/');
    reveal_strlit("/");
    if let Some((provider, model)) = split_once(model_id, '/') {
        assert(provider + "/"@ + model =~= provider + seq!['/'] + model);
    }
}

/// A settings file in the home is read before one in the former home, and one that is
/// written is always in the home.
pub proof fn lemma_home_before_former_home(
    dir: Seq<char>,
    files: SettingsFiles,
    legacy: Option<(Seq<char>, SettingsFiles)>,
    prefer_json: bool,
)
    ensures
        files.json || files.toml ==> resolved_file(dir, files, legacy, prefer_json)
            == resolved_file(dir, files, None, prefer_json),
        written_file(dir, files) == resolved_file(dir, files, None, true),
        written_file(dir, files) == settings_file(dir, true) || written_file(dir, files)
            == settings_file(dir, false),
{
}

/// The level that a name stands for, in lower case.
pub open spec fn level_named(name: Seq<char>) -> Option<ThinkingLevel> {
    if name == "off"@ || name == "none"@ {
        Some(ThinkingLevel::Off)
    } else if name == "minimal"@ {
        Some(ThinkingLevel::Minimal)
    } else if name == "low"@ {
        Some(ThinkingLevel::Low)
    } else if name == "medium"@ || name == "standard"@ {
        Some(ThinkingLevel::Medium)
    } else if name == "high"@ || name == "thorough"@ {
        Some(ThinkingLevel::High)
    } else if name == "xhigh"@ {
        Some(ThinkingLevel::XHigh)
    } else {
        None
    }
}

/// The level that a name in lower case stands for.
pub fn thinking_level_named(name: &str) -> (r: Option<ThinkingLevel>)
    ensures
        r == level_named(name@),
{
    if str_eq(name, "off") || str_eq(name, "none") {
        Some(ThinkingLevel::Off)
    } else if str_eq(name, "minimal") {
        Some(ThinkingLevel::Minimal)
    } else if str_eq(name, "low") {
        Some(ThinkingLevel::Low)
    } else if str_eq(name, "medium") || str_eq(name, "standard") {
        Some(ThinkingLevel::Medium)
    } else if str_eq(name, "high") || str_eq(name, "thorough") {
        Some(ThinkingLevel::High)
    } else if str_eq(name, "xhigh") {
        Some(ThinkingLevel::XHigh)
    } else {
        None
    }
}

/// The level that a name stands for, in any case of its letters. A name that stands for a
/// level does so in lower case too, and an ASCII text stands for what its lower case does.
pub fn parse_thinking_level(s: &str) -> (r: Option<ThinkingLevel>)
    ensures
        r == level_named(lowercase(s@)),
        is_ascii_chars(s@) ==> r == level_named(s@.map_values(|c: char| ascii_lower(c))),
        r is Some || is_ascii_chars(s@) ==> level_named(lowercase(lowercase(s@))) == r,
{
    let lowered = to_lowercase(s);
    proof {
        lemma_names_are_lower(lowered@);
        if is_ascii_chars(s@) {
            lemma_lower_twice(s@);
        }
    }
    thinking_level_named(lowered.as_str())
}

/// The lower case of an ASCII text is an ASCII text that the lower case does not change.
proof fn lemma_lower_twice(s: Seq<char>)
    requires
        is_ascii_chars(s),
    ensures
        ({
            let lowered = s.map_values(|c: char| ascii_lower(c));
            &&& is_ascii_chars(lowered)
            &&& lowered.map_values(|c: char| ascii_lower(c)) == lowered
        }),
{
    let lowered = s.map_values(|c: char| ascii_lower(c));
    assert forall|i: int| 0 <= i < lowered.len() implies '\0' <= #[trigger] lowered[i]
        <= '\u{7f}' by {
        assert('\0' <= s[i] <= '\u{7f}');
    }
    assert(lowered.map_values(|c: char| ascii_lower(c)) =~= lowered);
}

/// The names of the levels hold no character that the lower case changes.
proof fn lemma_names_are_lower(name: Seq<char>)
    ensures
        level_named(name) is Some ==> is_ascii_chars(name) && name.map_values(
            |c: char| ascii_lower(c),
        ) == name,
{
    reveal_strlit("off");
    reveal_strlit("none");
    reveal_strlit("minimal");
    reveal_strlit("low");
    reveal_strlit("medium");
    reveal_strlit("standard");
    reveal_strlit("high");
    reveal_strlit("thorough");
    reveal_strlit("xhigh");
    if level_named(name) is Some {
        assert(name.map_values(|c: char| ascii_lower(c)) =~= name);
    }
}

/// The truth value that a word stands for, in lower case.
pub open spec fn bool_named(word: Seq<char>) -> Option<bool> {
    if word == "true"@ || word == "1"@ || word == "yes"@ || word == "on"@ {
        Some(true)
    } else if word == "false"@ || word == "0"@ || word == "no"@ || word == "off"@ {
        Some(false)
    } else {
        None
    }
}

/// The truth value that a word in lower case stands for.
pub fn boolish_named(word: &str) -> (r: Option<bool>)
    ensures
        r == bool_named(word@),
{
    if str_eq(word, "true") || str_eq(word, "1") || str_eq(word, "yes") || str_eq(word, "on") {
        Some(true)
    } else if str_eq(word, "false") || str_eq(word, "0") || str_eq(word, "no") || str_eq(
        word,
        "off",
    ) {
        Some(false)
    } else {
        None
    }
}

/// The truth value that a word stands for, in any case of its letters.
pub fn parse_boolish(s: &str) -> (r: Result<bool, String>)
    ensures
        match r {
            Ok(b) => bool_named(lowercase(s@)) == Some(b),
            Err(e) => bool_named(lowercase(s@)) is None && e@ == "Cannot parse '"@ + s@
                + "' as boolean"@,
        },
{
    match boolish_named(to_lowercase(s).as_str()) {
        Some(b) => Ok(b),
        None => {
            let mut message = "Cannot parse '".to_owned();
            message.append(s);
            message.append("' as boolean");
            Err(message)
        },
    }
}

/// The settings file of a project is that of the first level that has one, at `i`, where no
/// level before it is the root of a repository: its JSON file where it has that, else its
/// TOML file. Where no level up to the root of the repository has one there is none.
pub proof fn lemma_nearest_project_file(levels: Seq<ProjectLevel>, i: int)
    requires
        0 <= i <= levels.len(),
        forall|j: int|
            0 <= j < i ==> !(#[trigger] levels[j]).files.json && !levels[j].files.toml,
        forall|j: int| 0 <= j < i - 1 ==> !(#[trigger] levels[j]).is_repo_root,
        i < levels.len() ==> {
            ||| levels[i].files.json
            ||| levels[i].files.toml
            ||| (i > 0 && levels[i - 1].is_repo_root)
        },
    ensures
        i == levels.len() || (i > 0 && levels[i - 1].is_repo_root) ==> project_file(levels) is None,
        i < levels.len() && !(i > 0 && levels[i - 1].is_repo_root) && levels[i].files.json
            ==> project_file(levels) == Some(
            path_join(path_join(levels[i].dir@, ".oxicode"@), "settings.json"@),
        ),
        i < levels.len() && !(i > 0 && levels[i - 1].is_repo_root) && !levels[i].files.json
            && levels[i].files.toml ==> project_file(levels) == Some(
            path_join(path_join(levels[i].dir@, ".oxicode"@), "settings.toml"@),
        ),
    decreases levels.len(),
{
    if i > 0 {
        let rest = levels.drop_first();
        assert(!levels[0].files.json && !levels[0].files.toml);
        if i > 1 {
            assert(!levels[0].is_repo_root);
        }
        if !levels[0].is_repo_root {
            assert forall|j: int| 0 <= j < i - 1 implies !(#[trigger] rest[j]).files.json
                && !rest[j].files.toml by {
                assert(rest[j] == levels[j + 1]);
            }
            assert forall|j: int| 0 <= j < i - 2 implies !(#[trigger] rest[j]).is_repo_root by {
                assert(rest[j] == levels[j + 1]);
            }
            lemma_nearest_project_file(rest, i - 1);
        }
    }
}

/// The settings file that is read: that of the home before that of the former home, and in
/// either the preferred format before the other. Where neither has one it is the preferred
/// one of the home.
pub proof fn lemma_resolved_file_when(
    dir: Seq<char>,
    files: SettingsFiles,
    legacy: Option<(Seq<char>, SettingsFiles)>,
)
    ensures
        files.json ==> resolved_file(dir, files, legacy, true) == path_join(
            dir,
            "settings.json"@,
        ),
        files.toml ==> resolved_file(dir, files, legacy, false) == path_join(
            dir,
            "settings.toml"@,
        ),
        files.toml && !files.json ==> resolved_file(dir, files, legacy, true) == path_join(
            dir,
            "settings.toml"@,
        ),
        files.json && !files.toml ==> resolved_file(dir, files, legacy, false) == path_join(
            dir,
            "settings.json"@,
        ),
        !files.json && !files.toml && legacy is Some && (legacy->0).1.json ==> resolved_file(
            dir,
            files,
            legacy,
            true,
        ) == path_join((legacy->0).0, "settings.json"@),
        !files.json && !files.toml && legacy is Some && (legacy->0).1.toml ==> resolved_file(
            dir,
            files,
            legacy,
            false,
        ) == path_join((legacy->0).0, "settings.toml"@),
        !files.json && !files.toml && legacy is Some && (legacy->0).1.toml && !(legacy->0).1.json
            ==> resolved_file(dir, files, legacy, true) == path_join(
            (legacy->0).0,
            "settings.toml"@,
        ),
        !files.json && !files.toml && legacy is Some && (legacy->0).1.json && !(legacy->0).1.toml
            ==> resolved_file(dir, files, legacy, false) == path_join(
            (legacy->0).0,
            "settings.json"@,
        ),
        !files.json && !files.toml && (legacy is None || (!(legacy->0).1.json
            && !(legacy->0).1.toml)) ==> {
            &&& resolved_file(dir, files, legacy, true) == path_join(dir, "settings.json"@)
            &&& resolved_file(dir, files, legacy, false) == path_join(dir, "settings.toml"@)
        },
        files.json || !files.toml ==> written_file(dir, files) == path_join(
            dir,
            "settings.json"@,
        ),
        files.toml && !files.json ==> written_file(dir, files) == path_join(
            dir,
            "settings.toml"@,
        ),
{
}

/// A file is read as TOML exactly where its name ends in `.toml` behind something.
pub proof fn lemma_format_by_extension(dir: Seq<char>, stem: Seq<char>, ext: Seq<char>)
    requires
        stem.len() > 0,
        !stem.contains('/'),
        !ext.contains('/'),
        !ext.contains('.'),
        ext.len() > 0,
    ensures
        format_of(dir + "/"@ + (stem + "."@ + ext)) == (if ext == "toml"@ {
            SettingsFormat::Toml
        } else {
            SettingsFormat::Json
        }),
{
    crate::paths::lemma_extension_behind_stem(dir, stem, ext, ext);
}

/// The thinking levels go by their names and three other words, and by nothing else.
pub proof fn lemma_level_words(word: Seq<char>)
    ensures
        level_named(word) == Some(ThinkingLevel::Off) <==> word == "off"@ || word == "none"@,
        level_named(word) == Some(ThinkingLevel::Minimal) <==> word == "minimal"@,
        level_named(word) == Some(ThinkingLevel::Low) <==> word == "low"@,
        level_named(word) == Some(ThinkingLevel::Medium) <==> word == "medium"@ || word
            == "standard"@,
        level_named(word) == Some(ThinkingLevel::High) <==> word == "high"@ || word == "thorough"@,
        level_named(word) == Some(ThinkingLevel::XHigh) <==> word == "xhigh"@,
{
    reveal_strlit("off");
    reveal_strlit("none");
    reveal_strlit("minimal");
    reveal_strlit("low");
    reveal_strlit("medium");
    reveal_strlit("standard");
    reveal_strlit("high");
    reveal_strlit("thorough");
    reveal_strlit("xhigh");
    assert("off"@[0] == 'o' && "none"@[0] == 'n' && "minimal"@[0] == 'm' && "low"@[0] == 'l'
        && "medium"@[0] == 'm' && "standard"@[0] == 's' && "high"@[0] == 'h' && "thorough"@[0]
        == 't' && "xhigh"@[0] == 'x');
    assert("minimal"@.len() == 7 && "medium"@.len() == 6);
}

/// Four words stand for yes, four for no, and every other for neither.
pub proof fn lemma_bool_words(word: Seq<char>)
    ensures
        bool_named(word) == Some(true) <==> word == "true"@ || word == "1"@ || word == "yes"@
            || word == "on"@,
        bool_named(word) == Some(false) <==> word == "false"@ || word == "0"@ || word == "no"@
            || word == "off"@,
{
    reveal_strlit("true");
    reveal_strlit("1");
    reveal_strlit("yes");
    reveal_strlit("on");
    reveal_strlit("false");
    reveal_strlit("0");
    reveal_strlit("no");
    reveal_strlit("off");
    assert("true"@[0] == 't' && "1"@[0] == '1' && "yes"@[0] == 'y' && "on"@[0] == 'o' && "false"@[0]
        == 'f' && "0"@[0] == '0' && "no"@[0] == 'n' && "off"@[0] == 'o');
    assert("on"@.len() == 2 && "off"@.len() == 3);
}

/// A model that is remembered changes nothing in the settings but the model and the provider
/// used last: those before and behind its first slash, or, where it has none, the model
/// alone.
pub proof fn lemma_last_used_keeps_rest(
    s: Settings,
    base: Settings,
    provider: Seq<char>,
    model: Seq<char>,
)
    requires
        !provider.contains('/'),
    ensures
        has_last_used(s, base, provider.push('/') + model) <==> {
            &&& s.last_used_provider is Some
            &&& s.last_used_provider->0@ == provider
            &&& s.last_used_model is Some
            &&& s.last_used_model->0@ == model
            &&& s == (Settings {
                last_used_model: s.last_used_model,
                last_used_provider: s.last_used_provider,
                ..base
            })
        },
        has_last_used(s, base, provider) <==> {
            &&& s.last_used_provider == base.last_used_provider
            &&& s.last_used_model is Some
            &&& s.last_used_model->0@ == provider
            &&& s == (Settings {
                last_used_model: s.last_used_model,
                last_used_provider: s.last_used_provider,
                ..base
            })
        },
{
    crate::text::lemma_split_once_at(provider, '/', model);
}

/// The model that is used is the one that the command line names; else the one used last,
/// under its provider where that is known; else none.
pub proof fn lemma_model_used_when(
    named: Option<Seq<char>>,
    model: Option<Seq<char>>,
    provider: Option<Seq<char>>,
)
    ensures
        named is Some ==> model_used(named, model, provider) == named,
        named is None && model is None ==> model_used(named, model, provider) is None,
        named is None && model is Some && provider is None ==> model_used(named, model, provider)
            == model,
        named is None && model is Some && provider is Some ==> model_used(named, model, provider)
            == Some(provider->0 + "/"@ + model->0),
{
}

/// What the command line names: a model behind its provider and a slash is the model alone,
/// whichever names the provider; anything else stands as it is.
pub proof fn lemma_cli_model_when(provider: Seq<char>, model: Seq<char>)
    ensures
        cli_model(Some(provider + "/"@ + model), Some(provider)) == (Some(model), Some(provider)),
        !provider.contains('/') ==> cli_model(Some(provider + "/"@ + model), None) == (
            Some(model),
            Some(provider),
        ),
        !model.contains('/') ==> cli_model(Some(model), None) == (
            Some(model),
            None::<Seq<char>>,
        ),
        !(provider + "/"@).is_prefix_of(model) ==> cli_model(Some(model), Some(provider)) == (
            Some(model),
            Some(provider),
        ),
        cli_model(None, Some(provider)) == (None::<Seq<char>>, Some(provider)),
        cli_model(None, None) == (None::<Seq<char>>, None::<Seq<char>>),
{
    reveal_strlit("/");
    let id = provider + "/"@ + model;
    assert(provider + "/"@ =~= id.subrange(0, provider.len() as int + 1));
    assert(id.skip(provider.len() as int + 1) =~= model);
    assert(id =~= provider.push('/') + model);
    if !provider.contains('/') {
        crate::text::lemma_split_once_at(provider, '/', model);
    }
    if !model.contains('/') {
        crate::text::lemma_split_once_at(model, '/', model);
    }
}

/// Settings of a newer format are refused with their version and the one that is known.
pub proof fn lemma_too_new_tells_versions(version: u32)
    ensures
        too_new(version) == "Settings version "@ + decimal(version as nat)
            + " is newer than supported version "@ + decimal(10) + ". Please update oxicode."@,
{
}

/// Before any file is read no model and no limit is set, nothing is turned off by name, and
/// nothing is loaded. What costs or reaches out is off: the workspace search, the advisor,
/// the rules on the stream, the tool for commits and the terminal for commands; what shows
/// and keeps is on.
pub proof fn lemma_defaults_are_plain(s: Settings)
    requires
        is_default_settings(s),
    ensures
        s.version == 10,
        s.thinking_level == ThinkingLevel::Medium,
        s.theme@ == "default"@,
        s.last_used_model is None && s.last_used_provider is None && s.default_model is None
            && s.default_provider is None,
        s.max_tokens is None && s.max_response_tokens is None && s.temperature is None
            && s.default_temperature is None,
        s.disabled_tools@.len() == 0 && s.extensions@.len() == 0 && s.skills@.len() == 0
            && s.prompts@.len() == 0 && s.themes@.len() == 0 && s.hooks@.len() == 0
            && s.custom_providers@.len() == 0 && s.model_roles@.len() == 0
            && s.dynamic_models@.len() == 0 && s.keybindings@.len() == 0,
        s.tool_timeout_seconds == 120 && s.ask_timeout_secs == 0 && s.session_history_size == 100,
        s.todo_reminders_max == 3 && s.todo_clear_delay_secs == 60,
        !s.workspace_search.enabled && !s.advisor.enabled && !s.ttsr_enabled
            && !s.commit_tool_enabled && !s.bash_pty && !s.snapcompact_enabled,
        s.extensions_enabled && s.auto_compaction && s.todo_panel_enabled
            && s.todo_reminders_enabled && s.agent_hub_enabled && s.mermaid_render_enabled
            && s.inline_images && s.memory_enabled,
        s.todo_eager_mode == TodoEagerMode::Off && s.edit_format == EditFormat::Hashline
            && s.glyph_set == GlyphSet::Unicode,
        s.ttsr_interrupt_mode@ == "prose_only"@,
        s.workspace_search.space@ == "dev"@ && s.workspace_search.executable is None
            && s.workspace_search.include_globs is None && s.workspace_search.exclude_globs is None
            && s.workspace_search.max_file_bytes is None,
        s.advisor.sync_backlog@ == "off"@ && s.advisor.immune_turns == 0,
        s.session_dir is None,
{
}

} // verus!
