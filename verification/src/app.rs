//! The application: what its agent is made with, which skills are active, and the lock
//! that says that its process lives.

use crate::agent_session::{compaction_strategy, strategy_for, CompactionStrategy, SessionQueues};
use crate::messages::{
    copy_opt, message_text, message_views, opt_view, Message, MessageView,
};
use crate::session_runtime::{
    search_guidance, session_model, workspace_search_guidance, Persona, PromptPlan,
};
use crate::settings::{Settings, Temperature, ThinkingLevel};
use crate::text::{decimal, decimal_text, lowercase, str_eq, to_lowercase, views};
use vstd::prelude::*;

verus! {

/// What extensions are told of a compaction.
#[derive(Debug, Clone)]
pub struct CompactionContext {
    pub messages_count: usize,
    pub tokens_before: usize,
    pub target_tokens: usize,
    pub strategy: String,
}

impl CompactionContext {
    /// A compaction of so many messages, from and to so many tokens.
    pub fn new(
        messages_count: usize,
        tokens_before: usize,
        target_tokens: usize,
        strategy: String,
    ) -> (r: Self)
        ensures
            r == (CompactionContext { messages_count, tokens_before, target_tokens, strategy }),
    {
        CompactionContext { messages_count, tokens_before, target_tokens, strategy }
    }
}

/// What a run shares with its session: whether it is to stop, and what waits.
pub struct SessionState {
    pub should_stop: bool,
    pub queues: SessionQueues,
}

impl Default for SessionState {
    fn default() -> (r: Self)
        ensures
            !r.should_stop,
            r.queues.steering@.len() == 0,
            r.queues.follow_up@.len() == 0,
    {
        SessionState { should_stop: false, queues: SessionQueues::new() }
    }
}

/// How an agent runs the tools that a response calls.
#[derive(Debug, Clone, Copy, PartialEq, Eq, Structural)]
pub enum ToolOrder {
    /// One after another.
    Sequential,
    /// Beside one another.
    Parallel,
}

/// What the agent of the application is made with.
#[derive(Debug)]
pub struct AppPlan {
    pub name: String,
    pub description: String,
    pub model_id: String,
    pub thinking_level: ThinkingLevel,
    pub persona_body: Option<String>,
    pub timeout_seconds: u64,
    pub temperature: Option<Temperature>,
    pub max_tokens: Option<usize>,
    pub compaction_strategy: CompactionStrategy,
    pub context_window: usize,
    pub workspace_dir: String,
    pub session_id: String,
    /// Whether the agent speaks to language servers.
    pub with_lsp: bool,
    /// Whether the agent resolves internal addresses.
    pub with_url_resolver: bool,
    /// How the tools run.
    pub tool_order: ToolOrder,
    /// Whether the agent has the tool that asks the user.
    pub with_ask_tool: bool,
    /// The seconds that a question waits for its answer.
    pub ask_timeout_secs: Option<u64>,
    /// Whether the agent has the tool for issues.
    pub with_issue_tool: bool,
}

/// Whether a plan is that of the application.
pub open spec fn is_app_plan(
    plan: AppPlan,
    settings: Settings,
    persona: Option<Persona>,
    ownership_session_id: Seq<char>,
    current_dir: Option<Seq<char>>,
    lsp_servers: nat,
    has_issue_store: bool,
) -> bool {
    let preferred = match persona {
        Some(p) => opt_view(p.preferred_model),
        None => None,
    };
    &&& plan.name@ == "oxicode"@
    &&& plan.description@ == "oxicode CLI agent"@
    &&& plan.model_id@ == session_model(None, preferred, settings)
    &&& plan.thinking_level == settings.thinking_level
    &&& opt_view(plan.persona_body) == match persona {
        Some(p) => Some(p.system_prompt@),
        None => None,
    }
    &&& plan.timeout_seconds == settings.tool_timeout_seconds
    &&& plan.temperature == (match (settings.default_temperature, settings.temperature) {
        (Some(d), _) => Some(Temperature::Double(d)),
        (None, Some(t)) => Some(Temperature::Single(t)),
        (None, None) => None,
    })
    &&& plan.max_tokens == (match (settings.max_response_tokens, settings.max_tokens) {
        (Some(n), _) => Some(n),
        (None, Some(n)) => Some(n as usize),
        (None, None) => None,
    })
    &&& plan.compaction_strategy == strategy_for(settings.auto_compaction)
    &&& plan.context_window == 128_000
    &&& plan.workspace_dir@ == match current_dir {
        Some(dir) => dir,
        None => "."@,
    }
    &&& plan.session_id@ == ownership_session_id
    &&& plan.with_lsp == (lsp_servers > 0)
    &&& plan.with_url_resolver
    &&& plan.tool_order == ToolOrder::Sequential
    &&& plan.with_ask_tool
    &&& plan.ask_timeout_secs == if settings.ask_timeout_secs > 0 {
        Some(settings.ask_timeout_secs)
    } else {
        None
    }
    &&& plan.with_issue_tool == has_issue_store
}

/// A skill as the system prompt has it.
#[derive(Debug)]
pub struct PromptSkill {
    pub name: String,
    pub content: String,
}

/// The skills that are there, by their places.
pub open spec fn found_contents(found: Seq<Option<String>>) -> Seq<Seq<char>>
    decreases found.len(),
{
    if found.len() == 0 {
        Seq::empty()
    } else {
        let front = found_contents(found.drop_last());
        match found.last() {
            Some(s) => front.push(s@),
            None => front,
        }
    }
}

/// Whether these are the skills of the prompt: those that are there, numbered from zero.
pub open spec fn are_prompt_skills(skills: Seq<PromptSkill>, found: Seq<Option<String>>) -> bool {
    &&& skills.len() == found_contents(found).len()
    &&& forall|i: int|
        0 <= i < skills.len() ==> (#[trigger] skills[i]).name@ == "skill-"@ + decimal(i as nat)
    &&& forall|i: int|
        0 <= i < skills.len() ==> (#[trigger] skills[i]).content@ == found_contents(found)[i]
}

/// The skills of the system prompt: those active ones that are there, numbered from zero.
pub fn prompt_skills(found: &Vec<Option<String>>) -> (r: Vec<PromptSkill>)
    ensures
        are_prompt_skills(r@, found@),
{
    let mut out: Vec<PromptSkill> = Vec::new();
    let mut i: usize = 0;
    proof {
        assert(found@.take(0) =~= Seq::empty());
    }
    while i < found.len()
        invariant
            i <= found@.len(),
            out@.len() == found_contents(found@.take(i as int)).len(),
            forall|j: int|
                0 <= j < out@.len() ==> (#[trigger] out@[j]).name@ == "skill-"@ + decimal(
                    j as nat,
                ),
            forall|j: int|
                0 <= j < out@.len() ==> (#[trigger] out@[j]).content@ == found_contents(
                    found@.take(i as int),
                )[j],
        decreases found@.len() - i,
    {
        let ghost before = out@;
        proof {
            assert(found@.take(i + 1).drop_last() =~= found@.take(i as int));
            assert(found@.take(i + 1).last() == found@[i as int]);
        }
        match &found[i] {
            Some(content) => {
                let mut name = "skill-".to_owned();
                name.append(decimal_text(out.len() as u64).as_str());
                out.push(PromptSkill { name, content: content.clone() });
            },
            None => {},
        }
        i += 1;
    }
    proof {
        assert(found@.take(i as int) =~= found@);
    }
    out
}

/// The application.
pub struct App {
    pub settings: Settings,
    /// The names of the active skills, in lower case.
    pub active_skills: Vec<String>,
    pub ownership_session_id: String,
    /// Whether the process holds the lock of its identity.
    pub has_liveness_lock: bool,
    /// What the persona says of itself.
    pub persona_body: Option<String>,
    pub session_state: SessionState,
}

/// The texts without a name.
pub open spec fn without(texts: Seq<Seq<char>>, name: Seq<char>) -> Seq<Seq<char>>
    decreases texts.len(),
{
    if texts.len() == 0 {
        Seq::empty()
    } else if texts.last() == name {
        without(texts.drop_last(), name)
    } else {
        without(texts.drop_last(), name).push(texts.last())
    }
}

/// The texts with a name, once.
pub open spec fn with_once(texts: Seq<Seq<char>>, name: Seq<char>) -> Seq<Seq<char>> {
    if texts.contains(name) {
        texts
    } else {
        texts.push(name)
    }
}

impl App {
    /// The application before its first run: no skill is active, it has the stop flag and
    /// the queues that it is given or else fresh ones, and what its persona says of itself.
    pub fn new(
        settings: Settings,
        persona: &Option<Persona>,
        ownership_session_id: String,
        has_liveness_lock: bool,
        session_state: Option<SessionState>,
    ) -> (r: App)
        ensures
            r == (App {
                settings,
                active_skills: r.active_skills,
                ownership_session_id,
                has_liveness_lock,
                persona_body: r.persona_body,
                session_state: r.session_state,
            }),
            r.active_skills@.len() == 0,
            opt_view(r.persona_body) == match *persona {
                Some(p) => Some(p.system_prompt@),
                None => None,
            },
            match session_state {
                Some(state) => r.session_state == state,
                None => !r.session_state.should_stop && r.session_state.queues.steering@.len() == 0
                    && r.session_state.queues.follow_up@.len() == 0,
            },
    {
        let persona_body = match persona {
            Some(p) => Some(p.system_prompt.clone()),
            None => None,
        };
        let session_state = match session_state {
            Some(state) => state,
            None => SessionState::default(),
        };
        App {
            settings,
            active_skills: Vec::new(),
            ownership_session_id,
            has_liveness_lock,
            persona_body,
            session_state,
        }
    }
}

impl App {
    /// What the agent of the application is made with.
    pub fn from_oxicode(
        settings: &Settings,
        persona: &Option<Persona>,
        ownership_session_id: &str,
        current_dir: Option<&str>,
        lsp_servers: usize,
        has_issue_store: bool,
    ) -> (r: AppPlan)
        ensures
            is_app_plan(
                r,
                *settings,
                *persona,
                ownership_session_id@,
                crate::handoff_prompt::opt_str_view(current_dir),
                lsp_servers as nat,
                has_issue_store,
            ),
    {
        AppPlan {
            name: "oxicode".to_owned(),
            description: "oxicode CLI agent".to_owned(),
            model_id: crate::session_runtime::resolve_session_model(None, persona, settings),
            thinking_level: settings.thinking_level,
            persona_body: match persona {
                Some(p) => Some(p.system_prompt.clone()),
                None => None,
            },
            timeout_seconds: settings.tool_timeout_seconds,
            temperature: settings.effective_temperature(),
            max_tokens: settings.effective_max_tokens(),
            compaction_strategy: compaction_strategy(settings.auto_compaction),
            context_window: 128_000,
            workspace_dir: match current_dir {
                Some(dir) => dir.to_owned(),
                None => ".".to_owned(),
            },
            session_id: ownership_session_id.to_owned(),
            with_lsp: lsp_servers > 0,
            with_url_resolver: true,
            tool_order: ToolOrder::Sequential,
            with_ask_tool: true,
            ask_timeout_secs: if settings.ask_timeout_secs > 0 {
                Some(settings.ask_timeout_secs)
            } else {
                None
            },
            with_issue_tool: has_issue_store,
        }
    }

    /// Makes a skill active that is there, once and in lower case.
    pub fn activate_skill(&mut self, name: &str, known: bool) -> (r: Result<(), String>)
        ensures
            match r {
                Ok(_) => known && views(final(self).active_skills@) == with_once(
                    views(old(self).active_skills@),
                    lowercase(name@),
                ),
                Err(e) => !known && e@ == "Skill '"@ + name@ + "' not found"@
                    && *final(self) == *old(self),
            },
            *final(self) == (App { active_skills: final(self).active_skills, ..*old(self) }),
    {
        if !known {
            let mut message = "Skill '".to_owned();
            message.append(name);
            message.append("' not found");
            return Err(message);
        }
        let lowered = to_lowercase(name);
        self.add_skill(lowered);
        Ok(())
    }

    /// Makes a skill active by its name in lower case, once.
    pub fn add_skill(&mut self, lowered: String)
        ensures
            views(final(self).active_skills@) == with_once(
                views(old(self).active_skills@),
                lowered@,
            ),
            *final(self) == (App { active_skills: final(self).active_skills, ..*old(self) }),
    {
        if !crate::tools::registry::holds_text(&self.active_skills, lowered.as_str()) {
            let ghost before = views(self.active_skills@);
            self.active_skills.push(lowered);
            proof {
                assert(views(self.active_skills@) =~= before.push(lowered@));
            }
        }
    }

    /// Makes a skill inactive.
    pub fn deactivate_skill(&mut self, name: &str)
        ensures
            views(final(self).active_skills@) == without(
                views(old(self).active_skills@),
                lowercase(name@),
            ),
            *final(self) == (App { active_skills: final(self).active_skills, ..*old(self) }),
    {
        let lowered = to_lowercase(name);
        self.remove_skill(lowered.as_str());
    }

    /// Makes a skill inactive by its name in lower case.
    pub fn remove_skill(&mut self, lowered: &str)
        ensures
            views(final(self).active_skills@) == without(
                views(old(self).active_skills@),
                lowered@,
            ),
            *final(self) == (App { active_skills: final(self).active_skills, ..*old(self) }),
    {
        let ghost all = views(self.active_skills@);
        let mut kept: Vec<String> = Vec::new();
        let mut i: usize = 0;
        proof {
            assert(all.take(0) =~= Seq::empty());
            assert(views(kept@) =~= Seq::empty());
        }
        while i < self.active_skills.len()
            invariant
                all == views(self.active_skills@),
                i <= self.active_skills@.len(),
                views(kept@) == without(all.take(i as int), lowered@),
            decreases self.active_skills@.len() - i,
        {
            let ghost before = views(kept@);
            proof {
                assert(all.take(i + 1).drop_last() =~= all.take(i as int));
                assert(all.take(i + 1).last() == self.active_skills@[i as int]@);
            }
            if !str_eq(self.active_skills[i].as_str(), lowered) {
                kept.push(self.active_skills[i].clone());
                proof {
                    assert(views(kept@) =~= before.push(self.active_skills@[i as int]@));
                }
            }
            i += 1;
        }
        proof {
            assert(all.take(i as int) =~= all);
        }
        self.active_skills = kept;
    }
}

proof fn lemma_without(texts: Seq<Seq<char>>, name: Seq<char>)
    ensures
        !without(texts, name).contains(name),
        forall|other: Seq<char>|
            other != name ==> (#[trigger] without(texts, name).contains(other) == texts.contains(
                other,
            )),
    decreases texts.len(),
{
    if texts.len() > 0 {
        let front = texts.drop_last();
        lemma_without(front, name);
        let w = without(front, name);
        let out = without(texts, name);
        assert(texts =~= front.push(texts.last()));
        if texts.last() != name {
            assert(!out.contains(name)) by {
                if out.contains(name) {
                    let i = out.index_of(name);
                    if i < w.len() {
                        assert(w[i] == name);
                    }
                }
            }
        }
        assert forall|other: Seq<char>| other != name implies (#[trigger] out.contains(other)
            == texts.contains(other)) by {
            if out.contains(other) {
                let i = out.index_of(other);
                if i < w.len() {
                    assert(w[i] == other);
                    assert(w.contains(other));
                    assert(front.contains(other));
                    let k = front.index_of(other);
                    assert(texts[k] == other);
                } else {
                    assert(texts[texts.len() - 1] == other);
                }
            }
            if texts.contains(other) {
                let k = texts.index_of(other);
                if k < front.len() {
                    assert(front[k] == other);
                    assert(front.contains(other));
                    assert(w.contains(other));
                    let i = w.index_of(other);
                    assert(out[i] == other);
                } else {
                    assert(out[out.len() - 1] == other);
                }
            }
        }
    }
}

/// A skill that was made active and then inactive is not active, and the others are as
/// they were.
pub proof fn lemma_deactivate_undoes_activate(texts: Seq<Seq<char>>, name: Seq<char>)
    ensures
        !without(with_once(texts, name), name).contains(name),
        forall|other: Seq<char>|
            other != name ==> (#[trigger] without(with_once(texts, name), name).contains(other)
                == texts.contains(other)),
{
    lemma_without(with_once(texts, name), name);
    assert forall|other: Seq<char>| other != name implies (#[trigger] without(
        with_once(texts, name),
        name,
    ).contains(other) == texts.contains(other)) by {
        let w = with_once(texts, name);
        if w.contains(other) && !texts.contains(name) {
            let i = w.index_of(other);
            assert(texts[i] == other);
        }
        if texts.contains(other) && !texts.contains(name) {
            let i = texts.index_of(other);
            assert(w[i] == other);
        }
    }
}

/// The text of the last response, or the empty text.
pub open spec fn last_response(messages: Seq<MessageView>) -> Seq<char>
    decreases messages.len(),
{
    if messages.len() == 0 {
        Seq::empty()
    } else if messages.last() is Assistant {
        message_text(messages.last())
    } else {
        last_response(messages.drop_last())
    }
}

impl App {
    /// The text of the last response of a conversation.
    pub fn run_prompt_with_events(messages: &Vec<Message>) -> (r: String)
        ensures
            r@ == last_response(message_views(messages@)),
    {
        let ghost all = message_views(messages@);
        let mut i: usize = messages.len();
        proof {
            assert(all.take(i as int) =~= all);
        }
        while i > 0
            invariant
                all == message_views(messages@),
                i <= messages@.len(),
                last_response(all.take(i as int)) == last_response(all),
            decreases i,
        {
            proof {
                assert(all.take(i as int).last() == messages@[i - 1]@);
                assert(all.take(i as int).drop_last() =~= all.take(i - 1));
            }
            i -= 1;
            if matches!(messages[i], Message::Assistant(_)) {
                return messages[i].text_content();
            }
        }
        String::new()
    }

    /// What the prompt is made with anew: the active skills that are there, what the
    /// persona says, and the workspace search as a session's prompt names it.
    pub fn rebuild_system_prompt(&self, found: &Vec<Option<String>>, registered: bool) -> (r:
        PromptPlan)
        ensures
            r.thinking_level == self.settings.thinking_level,
            are_prompt_skills(r.skills@, found@),
            opt_view(r.append_system_prompt) == search_guidance(self.settings, registered),
            opt_view(r.persona_prompt) == opt_view(self.persona_body),
    {
        PromptPlan {
            thinking_level: self.settings.thinking_level,
            skills: prompt_skills(found),
            append_system_prompt: workspace_search_guidance(&self.settings, registered),
            persona_prompt: copy_opt(&self.persona_body),
        }
    }

    /// The settings.
    pub fn settings(&self) -> (r: &Settings)
        ensures
            *r == self.settings,
    {
        &self.settings
    }

    /// The names of the active skills, in the order of their activation.
    pub fn active_skills(&self) -> (r: &Vec<String>)
        ensures
            *r == self.active_skills,
    {
        &self.active_skills
    }

    /// The identity of the process.
    pub fn ownership_session_id(&self) -> (r: &str)
        ensures
            r@ == self.ownership_session_id@,
    {
        self.ownership_session_id.as_str()
    }

    /// Whether the process holds the lock of its identity.
    pub fn has_liveness_lock(&self) -> (r: bool)
        ensures
            r == self.has_liveness_lock,
    {
        self.has_liveness_lock
    }

    /// What a run shares with its session.
    pub fn session_state(&self) -> (r: &SessionState)
        ensures
            *r == self.session_state,
    {
        &self.session_state
    }
}

/// What comes of taking the lock of a process: the lock where there is one to take and it
/// was taken, and none where there is none to take or another process holds it.
pub fn ownership_guard<G>(
    issues_dir: Option<&str>,
    ownership_id: &str,
    taken: Result<G, String>,
) -> (r: Option<G>)
    ensures
        r == (match taken {
            Ok(guard) => if issues_dir is Some && ownership_id@.len() > 0 {
                Some(guard)
            } else {
                None
            },
            Err(_) => None,
        }),
{
    match (acquire_ownership_guard(issues_dir, ownership_id), taken) {
        (Some(_), Ok(guard)) => Some(guard),
        _ => None,
    }
}

/// What is locked for a process: nothing without a store of issues, and never the empty
/// identity.
pub fn acquire_ownership_guard(issues_dir: Option<&str>, ownership_id: &str) -> (r: Option<
    (String, String),
>)
    ensures
        match r {
            Some(lock) => issues_dir is Some && ownership_id@.len() > 0 && lock.0@
                == issues_dir->0@ && lock.1@ == ownership_id@,
            None => issues_dir is None || ownership_id@.len() == 0,
        },
{
    match issues_dir {
        None => None,
        Some(dir) => {
            if ownership_id.is_empty() {
                None
            } else {
                Some((dir.to_owned(), ownership_id.to_owned()))
            }
        },
    }
}

/// The skills of the prompt are those that are there, in the order in which they were asked
/// for, and numbered from zero.
pub proof fn lemma_prompt_skills_in_turn(skills: Seq<PromptSkill>, found: Seq<Option<String>>)
    requires
        are_prompt_skills(skills, found),
    ensures
        Seq::new(skills.len(), |i: int| skills[i].content@) == Seq::new(
            found.len(),
            |k: int|
                if found[k] is Some {
                    seq![found[k]->0@]
                } else {
                    Seq::<Seq<char>>::empty()
                },
        ).flatten(),
        forall|i: int|
            0 <= i < skills.len() ==> (#[trigger] skills[i]).name@ == "skill-"@ + decimal(i as nat),
{
    lemma_found_in_turn(found);
    assert(Seq::new(skills.len(), |i: int| skills[i].content@) =~= found_contents(found));
}

proof fn lemma_found_in_turn(found: Seq<Option<String>>)
    ensures
        found_contents(found) == Seq::new(
            found.len(),
            |k: int|
                if found[k] is Some {
                    seq![found[k]->0@]
                } else {
                    Seq::<Seq<char>>::empty()
                },
        ).flatten(),
    decreases found.len(),
{
    let parts = Seq::new(
        found.len(),
        |k: int|
            if found[k] is Some {
                seq![found[k]->0@]
            } else {
                Seq::<Seq<char>>::empty()
            },
    );
    if found.len() > 0 {
        let front = found.drop_last();
        lemma_found_in_turn(front);
        let before = Seq::new(
            front.len(),
            |k: int|
                if front[k] is Some {
                    seq![front[k]->0@]
                } else {
                    Seq::<Seq<char>>::empty()
                },
        );
        assert(parts =~= before.push(parts.last()));
        before.lemma_flatten_push(parts.last());
        assert(found_contents(found) =~= found_contents(front) + parts.last());
    }
}

/// What is left of a list without a name is every other text of it, in their order; and the
/// list with a name has it once more at the end, unless it was there.
pub proof fn lemma_list_without_name(texts: Seq<Seq<char>>, name: Seq<char>)
    ensures
        without(texts, name) == Seq::new(
            texts.len(),
            |k: int|
                if texts[k] == name {
                    Seq::<Seq<char>>::empty()
                } else {
                    seq![texts[k]]
                },
        ).flatten(),
        texts.contains(name) ==> with_once(texts, name) == texts,
        !texts.contains(name) ==> with_once(texts, name) == texts.push(name),
    decreases texts.len(),
{
    let parts = Seq::new(
        texts.len(),
        |k: int|
            if texts[k] == name {
                Seq::<Seq<char>>::empty()
            } else {
                seq![texts[k]]
            },
    );
    if texts.len() > 0 {
        let front = texts.drop_last();
        lemma_list_without_name(front, name);
        let before = Seq::new(
            front.len(),
            |k: int|
                if front[k] == name {
                    Seq::<Seq<char>>::empty()
                } else {
                    seq![front[k]]
                },
        );
        assert(parts =~= before.push(parts.last()));
        before.lemma_flatten_push(parts.last());
        assert(without(texts, name) =~= without(front, name) + parts.last());
    }
}

/// The last response of a conversation is the text of the message at `i`, where that is a
/// response and none behind it is; without a response it is empty.
pub proof fn lemma_last_response_is_last(messages: Seq<MessageView>, i: int)
    requires
        -1 <= i < messages.len(),
        i >= 0 ==> messages[i] is Assistant,
        forall|j: int| i < j < messages.len() ==> !(#[trigger] messages[j] is Assistant),
    ensures
        last_response(messages) == if i >= 0 {
            message_text(messages[i])
        } else {
            Seq::empty()
        },
    decreases messages.len(),
{
    if messages.len() > 0 && i < messages.len() - 1 {
        assert(!(messages[messages.len() - 1] is Assistant));
        let front = messages.drop_last();
        assert forall|j: int| i < j < front.len() implies !(#[trigger] front[j] is Assistant) by {
            assert(front[j] == messages[j]);
        }
        lemma_last_response_is_last(front, i);
    }
}

/// The agent of the application runs with the model of the persona, else with that of the
/// settings; with the persona's prompt; and with what the settings say of thinking, time,
/// temperature, tokens, compaction and questions.
pub proof fn lemma_app_plan_tells(
    plan: AppPlan,
    settings: Settings,
    persona: Option<Persona>,
    ownership_session_id: Seq<char>,
    current_dir: Option<Seq<char>>,
    lsp_servers: nat,
    has_issue_store: bool,
)
    requires
        is_app_plan(
            plan,
            settings,
            persona,
            ownership_session_id,
            current_dir,
            lsp_servers,
            has_issue_store,
        ),
    ensures
        persona is Some && persona->0.preferred_model is Some ==> plan.model_id@
            == persona->0.preferred_model->0@,
        persona is None || persona->0.preferred_model is None ==> {
            &&& settings.last_used_model is None ==> plan.model_id@.len() == 0
            &&& settings.last_used_model is Some && settings.last_used_provider is None
                ==> plan.model_id@ == settings.last_used_model->0@
            &&& settings.last_used_model is Some && settings.last_used_provider is Some
                ==> plan.model_id@ == settings.last_used_provider->0@ + "/"@
                + settings.last_used_model->0@
        },
        persona is Some ==> plan.persona_body is Some && plan.persona_body->0@
            == persona->0.system_prompt@,
        persona is None ==> plan.persona_body is None,
        plan.thinking_level == settings.thinking_level,
        plan.timeout_seconds == settings.tool_timeout_seconds,
        plan.temperature == (if settings.default_temperature is Some {
            Some(Temperature::Double(settings.default_temperature->0))
        } else if settings.temperature is Some {
            Some(Temperature::Single(settings.temperature->0))
        } else {
            None
        }),
        plan.max_tokens == (if settings.max_response_tokens is Some {
            settings.max_response_tokens
        } else if settings.max_tokens is Some {
            Some(settings.max_tokens->0 as usize)
        } else {
            None
        }),
        settings.auto_compaction ==> plan.compaction_strategy
            == CompactionStrategy::ThresholdPercent(80),
        !settings.auto_compaction ==> plan.compaction_strategy == CompactionStrategy::Disabled,
        plan.context_window == 128_000,
        current_dir is Some ==> plan.workspace_dir@ == current_dir->0,
        current_dir is None ==> plan.workspace_dir@ == "."@,
        plan.session_id@ == ownership_session_id,
        plan.with_lsp <==> lsp_servers > 0,
        plan.with_url_resolver,
        plan.tool_order == ToolOrder::Sequential,
        plan.with_ask_tool,
        settings.ask_timeout_secs > 0 ==> plan.ask_timeout_secs == Some(settings.ask_timeout_secs),
        settings.ask_timeout_secs == 0 ==> plan.ask_timeout_secs is None,
        plan.with_issue_tool <==> has_issue_store,
{
}

} // verus!
