//! A session of an agent: its conversation, its queues, its model, what it stores, and
//! the advisor that reads along.

use crate::messages::{
    copy_opt, message_views, opt_view, AssistantView, BlockView, ContentBlock, EntryView, Message,
    MessageView,
};
use crate::paths::{file_name, file_stem_of, parent, parent_of, stem};
use crate::session_log::{caught_up, resume_messages_from_branch, resumed, ProviderApi, SessionLog};
use crate::session_runtime::{
    build_system_prompt_with_memory, is_session_prompt, search_guidance, workspace_search_guidance,
    PromptPlan,
};
use crate::settings::{has_last_used, level_named, Settings, Temperature, ThinkingLevel};
use crate::text::{
    ascii_lower, decimal, decimal_text, find_place, parse_number, parse_u64, place_of, split_once,
    split_once_text, str_eq, views,
};
use std::collections::VecDeque;
use vstd::prelude::*;
use vstd::utf8::is_ascii_chars;

verus! {

/// Why a conversation is compacted.
#[derive(Debug, Clone, Copy, PartialEq, Eq, Structural)]
pub enum CompactionReason {
    Manual,
    Threshold,
    Overflow,
}

/// When a conversation is compacted: once it fills this many hundredths of the window.
#[derive(Debug, Clone, Copy, PartialEq, Eq, Structural)]
pub struct CompactionConfig {
    pub enabled: bool,
    pub threshold_percent: u32,
}

impl Default for CompactionConfig {
    fn default() -> (r: Self)
        ensures
            r == (CompactionConfig { enabled: true, threshold_percent: 80 }),
    {
        CompactionConfig { enabled: true, threshold_percent: 80 }
    }
}

/// How an agent compacts its conversation by itself.
#[derive(Debug, Clone, Copy, PartialEq, Eq, Structural)]
pub enum CompactionStrategy {
    /// Once it fills this many hundredths of the window.
    ThresholdPercent(u32),
    Disabled,
}

/// The strategy that a setting asks for.
pub open spec fn strategy_for(auto_compaction: bool) -> CompactionStrategy {
    if auto_compaction {
        CompactionStrategy::ThresholdPercent(80)
    } else {
        CompactionStrategy::Disabled
    }
}

/// The strategy that a setting asks for.
pub fn compaction_strategy(auto_compaction: bool) -> (r: CompactionStrategy)
    ensures
        r == strategy_for(auto_compaction),
{
    if auto_compaction {
        CompactionStrategy::ThresholdPercent(80)
    } else {
        CompactionStrategy::Disabled
    }
}

/// What a compaction came to.
#[derive(Debug, Clone)]
pub struct CompactionResult {
    pub tokens_before: usize,
}

/// A model that the user cycles through.
#[derive(Debug, Clone)]
pub struct ScopedModel {
    pub provider: String,
    pub model_id: String,
}

impl ScopedModel {
    /// The identifier of the model with its provider.
    pub open spec fn full_id(&self) -> Seq<char> {
        self.provider@ + "/"@ + self.model_id@
    }

    /// The identifier of the model with its provider.
    pub fn id(&self) -> (r: String)
        ensures
            r@ == self.full_id(),
    {
        let mut id = self.provider.clone();
        id.append("/");
        id.append(self.model_id.as_str());
        id
    }
}

/// The counts of a session.
#[derive(Debug, Clone)]
pub struct SessionStats {
    pub session_id: String,
    pub user_messages: usize,
    pub assistant_messages: usize,
    pub tool_calls: usize,
    pub tool_results: usize,
    pub total_messages: usize,
}

/// How the advisor's note reaches the session.
#[derive(Debug, Clone, Copy, PartialEq, Eq, Structural)]
pub enum AdvisorDeliveryChannel {
    Steer,
    Aside,
    Preserve,
}

/// What an agent does.
#[derive(Debug)]
pub enum AgentEvent {
    TurnEnd,
    ToolCall { name: String, arguments: String },
    ToolExecutionStart { tool_name: String, args: String },
    ToolExecutionEnd { tool_name: String, content: String },
    Other { description: String },
}

/// What a session tells its listeners.
#[derive(Debug)]
pub enum SessionEvent {
    QueueUpdate { steering: Vec<Message>, follow_up: Vec<Message> },
    CompactionStart { reason: CompactionReason },
    CompactionEnd { reason: CompactionReason, error_message: Option<String> },
    SessionInfoChanged,
    Agent(Box<AgentEvent>),
    ThinkingLevelChanged { level: ThinkingLevel },
    Advisor { channel: AdvisorDeliveryChannel, body: String },
    HandoffComplete { doc_path: String, auto_continue: bool },
    HandoffFailed { error: String },
}

/// The view of a [`SessionEvent`].
#[verifier::ext_equal]
pub enum EventView {
    QueueUpdate { steering: Seq<MessageView>, follow_up: Seq<MessageView> },
    CompactionStart { reason: CompactionReason },
    CompactionEnd { reason: CompactionReason, error_message: Option<Seq<char>> },
    SessionInfoChanged,
    Agent(AgentEvent),
    ThinkingLevelChanged { level: ThinkingLevel },
    Advisor { channel: AdvisorDeliveryChannel, body: Seq<char> },
    HandoffComplete { doc_path: Seq<char>, auto_continue: bool },
    HandoffFailed { error: Seq<char> },
}

impl View for SessionEvent {
    type V = EventView;

    open spec fn view(&self) -> EventView {
        match self {
            SessionEvent::QueueUpdate { steering, follow_up } => EventView::QueueUpdate {
                steering: message_views(steering@),
                follow_up: message_views(follow_up@),
            },
            SessionEvent::CompactionStart { reason } => EventView::CompactionStart {
                reason: *reason,
            },
            SessionEvent::CompactionEnd { reason, error_message } => EventView::CompactionEnd {
                reason: *reason,
                error_message: opt_view(*error_message),
            },
            SessionEvent::SessionInfoChanged => EventView::SessionInfoChanged,
            SessionEvent::Agent(event) => EventView::Agent(**event),
            SessionEvent::ThinkingLevelChanged { level } => EventView::ThinkingLevelChanged {
                level: *level,
            },
            SessionEvent::Advisor { channel, body } => EventView::Advisor {
                channel: *channel,
                body: body@,
            },
            SessionEvent::HandoffComplete { doc_path, auto_continue } => EventView::HandoffComplete {
                doc_path: doc_path@,
                auto_continue: *auto_continue,
            },
            SessionEvent::HandoffFailed { error } => EventView::HandoffFailed { error: error@ },
        }
    }
}

/// The views of a sequence of events.
pub open spec fn event_views(events: Seq<SessionEvent>) -> Seq<EventView> {
    Seq::new(events.len(), |i: int| events[i]@)
}

/// What a session stores besides its conversation.
#[derive(Debug)]
pub enum LogRecord {
    ModelChange { provider: String, model: String },
    ThinkingLevelChange { level: String },
    SessionInfo { name: String },
}

/// The view of a [`LogRecord`].
pub enum RecordView {
    ModelChange { provider: Seq<char>, model: Seq<char> },
    ThinkingLevelChange { level: Seq<char> },
    SessionInfo { name: Seq<char> },
}

impl View for LogRecord {
    type V = RecordView;

    open spec fn view(&self) -> RecordView {
        match self {
            LogRecord::ModelChange { provider, model } => RecordView::ModelChange {
                provider: provider@,
                model: model@,
            },
            LogRecord::ThinkingLevelChange { level } => RecordView::ThinkingLevelChange {
                level: level@,
            },
            LogRecord::SessionInfo { name } => RecordView::SessionInfo { name: name@ },
        }
    }
}

/// The views of a sequence of records.
pub open spec fn record_views(records: Seq<LogRecord>) -> Seq<RecordView> {
    Seq::new(records.len(), |i: int| records[i]@)
}

/// The messages that wait: those that steer a run, and those for after it.
pub struct SessionQueues {
    pub steering: VecDeque<Message>,
    pub follow_up: VecDeque<Message>,
}

impl SessionQueues {
    /// Queues without messages.
    pub fn new() -> (r: Self)
        ensures
            r.steering@.len() == 0,
            r.follow_up@.len() == 0,
    {
        SessionQueues { steering: VecDeque::new(), follow_up: VecDeque::new() }
    }

    /// The number of messages that wait.
    pub fn pending(&self) -> (r: usize)
        requires
            self.steering@.len() + self.follow_up@.len() <= usize::MAX,
        ensures
            r == self.steering@.len() + self.follow_up@.len(),
    {
        self.steering.len() + self.follow_up.len()
    }

    /// Takes all messages out, each queue in its order.
    pub fn drain(&mut self) -> (r: (Vec<Message>, Vec<Message>))
        ensures
            r.0@ == old(self).steering@,
            r.1@ == old(self).follow_up@,
            final(self).steering@.len() == 0,
            final(self).follow_up@.len() == 0,
    {
        let steering = drain_queue(&mut self.steering);
        let follow_up = drain_queue(&mut self.follow_up);
        (steering, follow_up)
    }
}

/// Takes all messages out of a queue, in their order.
fn drain_queue(queue: &mut VecDeque<Message>) -> (r: Vec<Message>)
    ensures
        r@ == old(queue)@,
        final(queue)@.len() == 0,
{
    let ghost all = queue@;
    let mut out: Vec<Message> = Vec::new();
    proof {
        assert(out@ + queue@ =~= all);
    }
    while queue.len() > 0
        invariant
            out@ + queue@ == all,
        decreases queue@.len(),
    {
        let ghost before = queue@;
        let ghost sofar = out@;
        let m = queue.pop_front().unwrap();
        out.push(m);
        proof {
            assert(out@ + queue@ =~= sofar + before);
        }
    }
    proof {
        assert(out@ =~= all);
    }
    out
}

/// Copies of the messages of a queue, in their order.
fn copy_queue(queue: &VecDeque<Message>) -> (r: Vec<Message>)
    ensures
        message_views(r@) == message_views(queue@),
{
    let mut out: Vec<Message> = Vec::new();
    let mut i: usize = 0;
    while i < queue.len()
        invariant
            i <= queue@.len(),
            out@.len() == i,
            forall|j: int| 0 <= j < i ==> (#[trigger] out@[j])@ == queue@[j]@,
        decreases queue@.len() - i,
    {
        out.push(queue[i].copy());
        i += 1;
    }
    proof {
        assert(message_views(out@) =~= message_views(queue@));
    }
    out
}

/// How the advisor's notes have reached the session.
#[derive(Debug, Clone, Copy, PartialEq, Eq, Structural)]
pub struct AdvisorDeliveryState {
    /// Whether the user interrupted on purpose and has not gone on since.
    pub auto_resume_suppressed: bool,
    /// The turn at which notes stop steering for a while.
    pub interrupt_immune_turn_start: Option<u64>,
}

impl Default for AdvisorDeliveryState {
    fn default() -> (r: Self)
        ensures
            r == (AdvisorDeliveryState {
                auto_resume_suppressed: false,
                interrupt_immune_turn_start: None,
            }),
    {
        AdvisorDeliveryState { auto_resume_suppressed: false, interrupt_immune_turn_start: None }
    }
}

/// The level after a level, round from the highest to none.
pub open spec fn next_level(level: ThinkingLevel) -> ThinkingLevel {
    match level {
        ThinkingLevel::Off => ThinkingLevel::Minimal,
        ThinkingLevel::Minimal => ThinkingLevel::Low,
        ThinkingLevel::Low => ThinkingLevel::Medium,
        ThinkingLevel::Medium => ThinkingLevel::High,
        ThinkingLevel::High => ThinkingLevel::XHigh,
        ThinkingLevel::XHigh => ThinkingLevel::Off,
    }
}

/// The level after a level.
pub fn level_after(level: ThinkingLevel) -> (r: ThinkingLevel)
    ensures
        r == next_level(level),
{
    match level {
        ThinkingLevel::Off => ThinkingLevel::Minimal,
        ThinkingLevel::Minimal => ThinkingLevel::Low,
        ThinkingLevel::Low => ThinkingLevel::Medium,
        ThinkingLevel::Medium => ThinkingLevel::High,
        ThinkingLevel::High => ThinkingLevel::XHigh,
        ThinkingLevel::XHigh => ThinkingLevel::Off,
    }
}

/// Six steps through the levels lead back to the first, and no fewer do.
pub proof fn lemma_six_levels(level: ThinkingLevel)
    ensures
        next_level(next_level(next_level(next_level(next_level(next_level(level)))))) == level,
        next_level(level) != level,
        next_level(next_level(level)) != level,
        next_level(next_level(next_level(level))) != level,
        next_level(next_level(next_level(next_level(level)))) != level,
        next_level(next_level(next_level(next_level(next_level(level))))) != level,
{
}

/// The name of a level as a session stores it.
pub open spec fn level_name(level: ThinkingLevel) -> Seq<char> {
    match level {
        ThinkingLevel::Off => "off"@,
        ThinkingLevel::Minimal => "minimal"@,
        ThinkingLevel::Low => "low"@,
        ThinkingLevel::Medium => "medium"@,
        ThinkingLevel::High => "high"@,
        ThinkingLevel::XHigh => "xhigh"@,
    }
}

/// The name of a level as a session stores it.
pub fn stored_level_name(level: ThinkingLevel) -> (r: String)
    ensures
        r@ == level_name(level),
{
    match level {
        ThinkingLevel::Off => "off".to_owned(),
        ThinkingLevel::Minimal => "minimal".to_owned(),
        ThinkingLevel::Low => "low".to_owned(),
        ThinkingLevel::Medium => "medium".to_owned(),
        ThinkingLevel::High => "high".to_owned(),
        ThinkingLevel::XHigh => "xhigh".to_owned(),
    }
}

/// The name of a level as it is written in the program.
pub open spec fn written_name(level: ThinkingLevel) -> Seq<char> {
    match level {
        ThinkingLevel::Off => "Off"@,
        ThinkingLevel::Minimal => "Minimal"@,
        ThinkingLevel::Low => "Low"@,
        ThinkingLevel::Medium => "Medium"@,
        ThinkingLevel::High => "High"@,
        ThinkingLevel::XHigh => "XHigh"@,
    }
}

/// The name of a level stands for that level where a session stores it, and where it is
/// read in any case of its letters; so does its name as it is written in the program.
pub proof fn lemma_level_name_is_read(level: ThinkingLevel)
    ensures
        level_named(level_name(level)) == Some(level),
        is_ascii_chars(level_name(level)),
        level_named(level_name(level).map_values(|c: char| ascii_lower(c))) == Some(level),
        is_ascii_chars(written_name(level)),
        level_named(written_name(level).map_values(|c: char| ascii_lower(c))) == Some(level),
{
    reveal_strlit("off");
    reveal_strlit("none");
    reveal_strlit("minimal");
    reveal_strlit("low");
    reveal_strlit("medium");
    reveal_strlit("standard");
    reveal_strlit("high");
    reveal_strlit("thorough");
    reveal_strlit("xhigh");
    reveal_strlit("Off");
    reveal_strlit("Minimal");
    reveal_strlit("Low");
    reveal_strlit("Medium");
    reveal_strlit("High");
    reveal_strlit("XHigh");
    assert("off"@[0] == 'o' && "none"@[0] == 'n' && "minimal"@[0] == 'm' && "low"@[0] == 'l');
    assert("medium"@[0] == 'm' && "medium"@[1] == 'e' && "minimal"@[1] == 'i');
    assert("standard"@[0] == 's' && "high"@[0] == 'h' && "thorough"@[0] == 't' && "xhigh"@[0]
        == 'x');
    let name = level_name(level);
    assert(name.map_values(|c: char| ascii_lower(c)) =~= name);
    assert(written_name(level).map_values(|c: char| ascii_lower(c)) =~= name);
}

/// A session of an agent. What it tells its listeners gathers in `outbox`, the oldest
/// first.
pub struct AgentSession {
    pub model_id: String,
    pub messages: Vec<Message>,
    pub settings: Settings,
    pub log: SessionLog,
    pub records: Vec<LogRecord>,
    pub scoped_models: Vec<ScopedModel>,
    pub queues: SessionQueues,
    pub steering_mode: String,
    pub follow_up_mode: String,
    pub compaction_config: CompactionConfig,
    pub compacting: bool,
    pub overflow_recovery_attempted: bool,
    /// Whether the agent retries by itself.
    pub auto_retry: bool,
    /// Whether the agent waits to try again.
    pub retry_waiting: bool,
    pub session_id: String,
    pub session_file: Option<String>,
    pub cwd: String,
    pub streaming: bool,
    pub should_stop: bool,
    pub has_extension_runner: bool,
    pub advisor_running: bool,
    pub advisor_delivery: AdvisorDeliveryState,
    pub advisor_primary_turns: u64,
    pub outbox: Vec<SessionEvent>,
}

/// Whether `s` has told its listeners one thing more than `base`.
pub open spec fn told(s: AgentSession, base: AgentSession, event: EventView) -> bool {
    event_views(s.outbox@) == event_views(base.outbox@).push(event)
}

impl AgentSession {
    /// What the listeners are told of the queues.
    pub open spec fn queue_event(&self) -> EventView {
        EventView::QueueUpdate {
            steering: message_views(self.queues.steering@),
            follow_up: message_views(self.queues.follow_up@),
        }
    }

    /// A session over what its log holds. A log that stands for a conversation restores
    /// it; with any other the agent's messages stay.
    pub fn new(
        model_id: String,
        agent_messages: Vec<Message>,
        settings: Settings,
        log: SessionLog,
        session_id: String,
        session_file: Option<String>,
        cwd: String,
        queues: SessionQueues,
        should_stop: bool,
        apis: &Vec<ProviderApi>,
    ) -> (r: Self)
        ensures
            ({
                let history = resumed(crate::messages::entry_views(log.entries@), apis@);
                message_views(r.messages@) == if history.len() == 0 {
                    message_views(agent_messages@)
                } else {
                    history
                }
            }),
            r.steering_mode@ == "all"@,
            r.follow_up_mode@ == "all"@,
            r == (AgentSession {
                model_id,
                messages: r.messages,
                settings,
                log,
                records: r.records,
                scoped_models: r.scoped_models,
                queues,
                steering_mode: r.steering_mode,
                follow_up_mode: r.follow_up_mode,
                compaction_config: CompactionConfig {
                    enabled: settings.auto_compaction,
                    threshold_percent: 80,
                },
                compacting: false,
                overflow_recovery_attempted: false,
                auto_retry: true,
                retry_waiting: false,
                session_id,
                session_file,
                cwd,
                streaming: false,
                should_stop,
                has_extension_runner: false,
                advisor_running: false,
                advisor_delivery: AdvisorDeliveryState {
                    auto_resume_suppressed: false,
                    interrupt_immune_turn_start: None,
                },
                advisor_primary_turns: 0,
                outbox: r.outbox,
            }),
            r.records@.len() == 0,
            r.scoped_models@.len() == 0,
            r.outbox@.len() == 0,
    {
        let history = resume_messages_from_branch(&log.entries, apis);
        proof {
            assert(message_views(history@).len() == history@.len());
        }
        let messages = if history.len() == 0 {
            agent_messages
        } else {
            history
        };
        let enabled = settings.auto_compaction;
        AgentSession {
            model_id,
            messages,
            settings,
            log,
            records: Vec::new(),
            scoped_models: Vec::new(),
            queues,
            steering_mode: "all".to_owned(),
            follow_up_mode: "all".to_owned(),
            compaction_config: CompactionConfig { enabled, threshold_percent: 80 },
            compacting: false,
            overflow_recovery_attempted: false,
            auto_retry: true,
            retry_waiting: false,
            session_id,
            session_file,
            cwd,
            streaming: false,
            should_stop,
            has_extension_runner: false,
            advisor_running: false,
            advisor_delivery: AdvisorDeliveryState::default(),
            advisor_primary_turns: 0,
            outbox: Vec::new(),
        }
    }

    /// Tells the listeners something.
    pub fn emit(&mut self, event: SessionEvent)
        ensures
            told(*final(self), *old(self), event@),
            *final(self) == (AgentSession { outbox: final(self).outbox, ..*old(self) }),
    {
        let ghost before = event_views(self.outbox@);
        self.outbox.push(event);
        proof {
            assert(event_views(self.outbox@) =~= before.push(event@));
        }
    }

    /// Tells the listeners what waits.
    pub fn emit_queue_update(&mut self)
        ensures
            told(*final(self), *old(self), old(self).queue_event()),
            *final(self) == (AgentSession { outbox: final(self).outbox, ..*old(self) }),
    {
        let steering = copy_queue(&self.queues.steering);
        let follow_up = copy_queue(&self.queues.follow_up);
        self.emit(SessionEvent::QueueUpdate { steering, follow_up });
    }

    /// Queues a message that steers the run.
    pub fn steer_sync_message(&mut self, msg: Message)
        ensures
            final(self).queues.steering@ == old(self).queues.steering@.push(msg),
            final(self).queues.follow_up == old(self).queues.follow_up,
            told(*final(self), *old(self), final(self).queue_event()),
            *final(self) == (AgentSession {
                queues: final(self).queues,
                outbox: final(self).outbox,
                ..*old(self)
            }),
    {
        self.queues.steering.push_back(msg);
        self.emit_queue_update();
    }

    /// Queues a text that steers the run.
    pub fn steer_sync(&mut self, text: String)
        ensures
            message_views(final(self).queues.steering@) == message_views(
                old(self).queues.steering@,
            ).push(crate::messages::user_text(text@)),
            final(self).queues.follow_up == old(self).queues.follow_up,
            told(*final(self), *old(self), final(self).queue_event()),
            *final(self) == (AgentSession {
                queues: final(self).queues,
                outbox: final(self).outbox,
                ..*old(self)
            }),
    {
        let ghost before = self.queues.steering@;
        let msg = Message::user(text);
        self.steer_sync_message(msg);
        proof {
            assert(message_views(self.queues.steering@) =~= message_views(before).push(msg@));
        }
    }

    /// Queues a text that steers the run, which never fails.
    pub fn steer(&mut self, text: String) -> (r: Result<(), String>)
        ensures
            r is Ok,
            message_views(final(self).queues.steering@) == message_views(
                old(self).queues.steering@,
            ).push(crate::messages::user_text(text@)),
            final(self).queues.follow_up == old(self).queues.follow_up,
            told(*final(self), *old(self), final(self).queue_event()),
            *final(self) == (AgentSession {
                queues: final(self).queues,
                outbox: final(self).outbox,
                ..*old(self)
            }),
    {
        self.steer_sync(text);
        Ok(())
    }

    /// Queues a message for after the run.
    pub fn follow_up_sync_message(&mut self, msg: Message)
        ensures
            final(self).queues.follow_up@ == old(self).queues.follow_up@.push(msg),
            final(self).queues.steering == old(self).queues.steering,
            told(*final(self), *old(self), final(self).queue_event()),
            *final(self) == (AgentSession {
                queues: final(self).queues,
                outbox: final(self).outbox,
                ..*old(self)
            }),
    {
        self.queues.follow_up.push_back(msg);
        self.emit_queue_update();
    }

    /// Queues a text for after the run.
    pub fn follow_up_sync(&mut self, text: String)
        ensures
            message_views(final(self).queues.follow_up@) == message_views(
                old(self).queues.follow_up@,
            ).push(crate::messages::user_text(text@)),
            final(self).queues.steering == old(self).queues.steering,
            told(*final(self), *old(self), final(self).queue_event()),
            *final(self) == (AgentSession {
                queues: final(self).queues,
                outbox: final(self).outbox,
                ..*old(self)
            }),
    {
        let ghost before = self.queues.follow_up@;
        let msg = Message::user(text);
        self.follow_up_sync_message(msg);
        proof {
            assert(message_views(self.queues.follow_up@) =~= message_views(before).push(msg@));
        }
    }

    /// Queues a text for after the run, which never fails.
    pub fn follow_up(&mut self, text: String) -> (r: Result<(), String>)
        ensures
            r is Ok,
            message_views(final(self).queues.follow_up@) == message_views(
                old(self).queues.follow_up@,
            ).push(crate::messages::user_text(text@)),
            final(self).queues.steering == old(self).queues.steering,
            told(*final(self), *old(self), final(self).queue_event()),
            *final(self) == (AgentSession {
                queues: final(self).queues,
                outbox: final(self).outbox,
                ..*old(self)
            }),
    {
        self.follow_up_sync(text);
        Ok(())
    }

    /// Takes out what waits, each queue in its order.
    pub fn clear_queue(&mut self) -> (r: (Vec<Message>, Vec<Message>))
        ensures
            r.0@ == old(self).queues.steering@,
            r.1@ == old(self).queues.follow_up@,
            final(self).queues.steering@.len() == 0,
            final(self).queues.follow_up@.len() == 0,
            told(*final(self), *old(self), final(self).queue_event()),
            *final(self) == (AgentSession {
                queues: final(self).queues,
                outbox: final(self).outbox,
                ..*old(self)
            }),
    {
        let drained = self.queues.drain();
        self.emit_queue_update();
        drained
    }

    /// Stops the run after its turn, and drops what waits.
    pub fn abort(&mut self)
        ensures
            final(self).should_stop,
            final(self).queues.steering@.len() == 0,
            final(self).queues.follow_up@.len() == 0,
            told(*final(self), *old(self), final(self).queue_event()),
            *final(self) == (AgentSession {
                should_stop: true,
                queues: final(self).queues,
                outbox: final(self).outbox,
                ..*old(self)
            }),
    {
        self.should_stop = true;
        self.clear_queue();
    }

    /// Lets a new run begin.
    pub fn reset_should_stop(&mut self)
        ensures
            *final(self) == (AgentSession { should_stop: false, ..*old(self) }),
    {
        self.should_stop = false;
    }

    /// The number of messages that wait.
    pub fn pending_message_count(&self) -> (r: usize)
        requires
            self.queues.steering@.len() + self.queues.follow_up@.len() <= usize::MAX,
        ensures
            r == self.queues.steering@.len() + self.queues.follow_up@.len(),
    {
        self.queues.pending()
    }

    /// The messages that steer the run.
    pub fn steering_messages(&self) -> (r: Vec<Message>)
        ensures
            message_views(r@) == message_views(self.queues.steering@),
    {
        copy_queue(&self.queues.steering)
    }

    /// The messages for after the run.
    pub fn follow_up_messages(&self) -> (r: Vec<Message>)
        ensures
            message_views(r@) == message_views(self.queues.follow_up@),
    {
        copy_queue(&self.queues.follow_up)
    }

    /// Takes a model that the agent has switched to. It is remembered as the last used
    /// one, and the change is stored where the identifier names a provider.
    pub fn set_model(&mut self, model_id: &str)
        ensures
            final(self).model_id@ == model_id@,
            has_last_used(final(self).settings, old(self).settings, model_id@),
            record_views(final(self).records@) == with_model_change(
                record_views(old(self).records@),
                model_id@,
            ),
            *final(self) == (AgentSession {
                model_id: final(self).model_id,
                settings: final(self).settings,
                records: final(self).records,
                ..*old(self)
            }),
    {
        let ghost before = record_views(self.records@);
        self.model_id = model_id.to_owned();
        match split_once_text(model_id, '/') {
            Some((provider, model)) => {
                let record = LogRecord::ModelChange { provider, model };
                self.records.push(record);
                proof {
                    assert(record_views(self.records@) =~= before.push(record@));
                }
            },
            None => {},
        }
        self.settings.save_last_used(model_id);
    }

    /// The model after the current one in the list, round from its end to its start. A
    /// model that is not in the list counts as its first; with fewer than two there is
    /// nothing to cycle through.
    pub open spec fn next_model(&self) -> Option<Seq<char>> {
        let n = self.scoped_models@.len();
        if n < 2 {
            None
        } else {
            let at = scoped_position(self.scoped_models@, self.model_id@);
            let from = if at < n {
                at
            } else {
                0
            };
            Some(self.scoped_models@[(from + 1) as int % n as int].full_id())
        }
    }

    /// The model after the current one in the list.
    pub fn next_scoped_model(&self) -> (r: Option<String>)
        ensures
            opt_view(r) == self.next_model(),
    {
        let n: usize = self.scoped_models.len();
        if n < 2 {
            return None;
        }
        let mut at: usize = 0;
        proof {
            assert(self.scoped_models@.skip(0) =~= self.scoped_models@);
        }
        while at < n && !str_eq(self.scoped_models[at].id().as_str(), self.model_id.as_str())
            invariant
                n == self.scoped_models@.len(),
                at <= n,
                scoped_position(self.scoped_models@, self.model_id@) == at + scoped_position(
                    self.scoped_models@.skip(at as int),
                    self.model_id@,
                ),
            decreases n - at,
        {
            proof {
                assert(self.scoped_models@.skip(at as int).drop_first()
                    =~= self.scoped_models@.skip(at + 1));
            }
            at += 1;
        }
        let from: usize = if at < n {
            at
        } else {
            0
        };
        let next: usize = if from + 1 == n {
            0
        } else {
            from + 1
        };
        proof {
            if from + 1 == n {
                assert((from + 1) % n as int == 0) by (nonlinear_arith)
                    requires
                        from + 1 == n,
                        n > 0,
                ;
            } else {
                assert((from + 1) % n as int == from + 1) by (nonlinear_arith)
                    requires
                        0 <= from + 1 < n,
                ;
            }
        }
        Some(self.scoped_models[next].id())
    }

    /// Cycles to the next model of the list, where the agent took it.
    pub fn cycle_model(&mut self, switched: bool) -> (r: Option<String>)
        ensures
            opt_view(r) == if switched {
                old(self).next_model()
            } else {
                None
            },
            match r {
                Some(id) => final(self).model_id@ == id@ && has_last_used(
                    final(self).settings,
                    old(self).settings,
                    id@,
                ) && record_views(final(self).records@) == with_model_change(
                    record_views(old(self).records@),
                    id@,
                ) && *final(self) == (AgentSession {
                    model_id: final(self).model_id,
                    settings: final(self).settings,
                    records: final(self).records,
                    ..*old(self)
                }),
                None => *final(self) == *old(self),
            },
    {
        if !switched {
            return None;
        }
        match self.next_scoped_model() {
            Some(id) => {
                self.set_model(id.as_str());
                Some(id)
            },
            None => None,
        }
    }

    /// Sets the models that the user cycles through.
    pub fn set_scoped_models(&mut self, models: Vec<ScopedModel>)
        ensures
            *final(self) == (AgentSession { scoped_models: models, ..*old(self) }),
    {
        self.scoped_models = models;
    }

    /// Sets the thinking level. A level that is new is stored, and the listeners are told.
    pub fn set_thinking_level(&mut self, level: ThinkingLevel)
        ensures
            level == old(self).settings.thinking_level ==> *final(self) == *old(self),
            level != old(self).settings.thinking_level ==> {
                &&& final(self).settings == (Settings {
                    thinking_level: level,
                    ..old(self).settings
                })
                &&& record_views(final(self).records@) == record_views(old(self).records@).push(
                    RecordView::ThinkingLevelChange { level: level_name(level) },
                )
                &&& told(*final(self), *old(self), EventView::ThinkingLevelChanged { level })
                &&& *final(self) == (AgentSession {
                    settings: final(self).settings,
                    records: final(self).records,
                    outbox: final(self).outbox,
                    ..*old(self)
                })
            },
    {
        if level == self.settings.thinking_level {
            return;
        }
        let ghost before = record_views(self.records@);
        self.settings.thinking_level = level;
        let record = LogRecord::ThinkingLevelChange { level: stored_level_name(level) };
        self.records.push(record);
        proof {
            assert(record_views(self.records@) =~= before.push(record@));
        }
        self.emit(SessionEvent::ThinkingLevelChanged { level });
    }

    /// Goes on to the next thinking level.
    pub fn cycle_thinking_level(&mut self) -> (r: Option<ThinkingLevel>)
        ensures
            r == Some(next_level(old(self).settings.thinking_level)),
            final(self).settings == (Settings {
                thinking_level: next_level(old(self).settings.thinking_level),
                ..old(self).settings
            }),
            record_views(final(self).records@) == record_views(old(self).records@).push(
                RecordView::ThinkingLevelChange {
                    level: level_name(next_level(old(self).settings.thinking_level)),
                },
            ),
            told(
                *final(self),
                *old(self),
                EventView::ThinkingLevelChanged {
                    level: next_level(old(self).settings.thinking_level),
                },
            ),
            *final(self) == (AgentSession {
                settings: final(self).settings,
                records: final(self).records,
                outbox: final(self).outbox,
                ..*old(self)
            }),
    {
        let next = level_after(self.settings.thinking_level);
        proof {
            lemma_six_levels(self.settings.thinking_level);
        }
        self.set_thinking_level(next);
        Some(next)
    }
}

/// The place of a model in the list, or the length of the list.
pub open spec fn scoped_position(models: Seq<ScopedModel>, id: Seq<char>) -> nat
    decreases models.len(),
{
    if models.len() == 0 || models[0].full_id() == id {
        0
    } else {
        1 + scoped_position(models.drop_first(), id)
    }
}

/// The records with a change of the model, where the identifier names a provider.
pub open spec fn with_model_change(records: Seq<RecordView>, model_id: Seq<char>) -> Seq<
    RecordView,
> {
    match split_once(model_id, '/') {
        Some((provider, model)) => records.push(RecordView::ModelChange { provider, model }),
        None => records,
    }
}

/// The messages of a user.
pub open spec fn count_users(messages: Seq<MessageView>) -> nat
    decreases messages.len(),
{
    if messages.len() == 0 {
        0
    } else {
        count_users(messages.drop_last()) + if messages.last() is User {
            1nat
        } else {
            0nat
        }
    }
}

/// The responses.
pub open spec fn count_assistants(messages: Seq<MessageView>) -> nat
    decreases messages.len(),
{
    if messages.len() == 0 {
        0
    } else {
        count_assistants(messages.drop_last()) + if messages.last() is Assistant {
            1nat
        } else {
            0nat
        }
    }
}

/// The results of tools.
pub open spec fn count_results(messages: Seq<MessageView>) -> nat
    decreases messages.len(),
{
    if messages.len() == 0 {
        0
    } else {
        count_results(messages.drop_last()) + if messages.last() is ToolResult {
            1nat
        } else {
            0nat
        }
    }
}

/// The tool calls among blocks.
pub open spec fn count_block_calls(blocks: Seq<BlockView>) -> nat
    decreases blocks.len(),
{
    if blocks.len() == 0 {
        0
    } else {
        count_block_calls(blocks.drop_last()) + if blocks.last() is ToolCall {
            1nat
        } else {
            0nat
        }
    }
}

/// The tool calls in responses.
pub open spec fn count_calls(messages: Seq<MessageView>) -> nat
    decreases messages.len(),
{
    if messages.len() == 0 {
        0
    } else {
        count_calls(messages.drop_last()) + match messages.last() {
            MessageView::Assistant(a) => count_block_calls(a.content),
            _ => 0nat,
        }
    }
}

/// Every message is of one kind, so the counts add up to the whole.
pub proof fn lemma_counts_add_up(messages: Seq<MessageView>)
    ensures
        count_users(messages) + count_assistants(messages) + count_results(messages)
            == messages.len(),
    decreases messages.len(),
{
    if messages.len() > 0 {
        lemma_counts_add_up(messages.drop_last());
    }
}

proof fn lemma_count_calls_prefix(messages: Seq<MessageView>, i: int)
    requires
        0 <= i <= messages.len(),
    ensures
        count_calls(messages.take(i)) <= count_calls(messages),
    decreases messages.len() - i,
{
    if i < messages.len() {
        lemma_count_calls_prefix(messages, i + 1);
        assert(messages.take(i + 1).drop_last() =~= messages.take(i));
    } else {
        assert(messages.take(i) =~= messages);
    }
}

proof fn lemma_count_block_calls(blocks: Seq<BlockView>)
    ensures
        count_block_calls(blocks) <= blocks.len(),
    decreases blocks.len(),
{
    if blocks.len() > 0 {
        lemma_count_block_calls(blocks.drop_last());
    }
}

/// The tool calls among blocks.
fn block_calls(blocks: &Vec<ContentBlock>) -> (r: usize)
    ensures
        r == count_block_calls(crate::messages::block_views(blocks@)),
{
    let ghost all = crate::messages::block_views(blocks@);
    let mut n: usize = 0;
    let mut i: usize = 0;
    proof {
        assert(all.take(0) =~= Seq::empty());
    }
    while i < blocks.len()
        invariant
            all == crate::messages::block_views(blocks@),
            i <= blocks.len(),
            n <= i,
            n == count_block_calls(all.take(i as int)),
        decreases blocks.len() - i,
    {
        proof {
            assert(all.take(i + 1).drop_last() =~= all.take(i as int));
            assert(all.take(i + 1).last() == blocks@[i as int]@);
        }
        if matches!(blocks[i], ContentBlock::ToolCall { .. }) {
            n += 1;
        }
        i += 1;
    }
    proof {
        assert(all.take(i as int) =~= all);
    }
    n
}

impl AgentSession {
    /// The counts of the session.
    pub fn session_stats(&self) -> (r: SessionStats)
        requires
            count_calls(message_views(self.messages@)) <= usize::MAX,
        ensures
            r.session_id@ == self.session_id@,
            r.user_messages == count_users(message_views(self.messages@)),
            r.assistant_messages == count_assistants(message_views(self.messages@)),
            r.tool_calls == count_calls(message_views(self.messages@)),
            r.tool_results == count_results(message_views(self.messages@)),
            r.total_messages == self.messages@.len(),
    {
        let ghost all = message_views(self.messages@);
        let mut user_messages: usize = 0;
        let mut assistant_messages: usize = 0;
        let mut tool_calls: usize = 0;
        let mut tool_results: usize = 0;
        let mut i: usize = 0;
        proof {
            assert(all.take(0) =~= Seq::empty());
        }
        while i < self.messages.len()
            invariant
                all == message_views(self.messages@),
                count_calls(all) <= usize::MAX,
                i <= self.messages.len(),
                user_messages == count_users(all.take(i as int)),
                assistant_messages == count_assistants(all.take(i as int)),
                tool_calls == count_calls(all.take(i as int)),
                tool_results == count_results(all.take(i as int)),
            decreases self.messages.len() - i,
        {
            proof {
                assert(all.take(i + 1).drop_last() =~= all.take(i as int));
                assert(all.take(i + 1).last() == self.messages@[i as int]@);
                lemma_counts_add_up(all.take(i as int));
                lemma_count_calls_prefix(all, i + 1);
            }
            match &self.messages[i] {
                Message::User { .. } => {
                    user_messages += 1;
                },
                Message::Assistant(a) => {
                    assistant_messages += 1;
                    let calls: usize = block_calls(&a.content);
                    tool_calls += calls;
                },
                Message::ToolResult { .. } => {
                    tool_results += 1;
                },
            }
            i += 1;
        }
        proof {
            assert(all.take(i as int) =~= all);
        }
        SessionStats {
            session_id: self.session_id.clone(),
            user_messages,
            assistant_messages,
            tool_calls,
            tool_results,
            total_messages: self.messages.len(),
        }
    }

    /// Stores the messages of the conversation that have no entry yet.
    pub fn persist_session(&mut self)
        ensures
            crate::messages::entry_views(final(self).log.entries@) == caught_up(
                crate::messages::entry_views(old(self).log.entries@),
                message_views(old(self).messages@),
            ),
            final(self).log.persisted_count == if old(self).log.entries@.len() < old(
                self,
            ).messages@.len() {
                old(self).messages@.len() as usize
            } else {
                old(self).log.persisted_count
            },
            old(self).log.entries@.is_prefix_of(final(self).log.entries@),
            *final(self) == (AgentSession { log: final(self).log, ..*old(self) }),
    {
        self.log.persist_session(&self.messages);
    }

    /// Stores the messages of the conversation that have no entry yet.
    pub fn persist(&mut self)
        ensures
            crate::messages::entry_views(final(self).log.entries@) == caught_up(
                crate::messages::entry_views(old(self).log.entries@),
                message_views(old(self).messages@),
            ),
            final(self).log.persisted_count == if old(self).log.entries@.len() < old(
                self,
            ).messages@.len() {
                old(self).messages@.len() as usize
            } else {
                old(self).log.persisted_count
            },
            old(self).log.entries@.is_prefix_of(final(self).log.entries@),
            *final(self) == (AgentSession { log: final(self).log, ..*old(self) }),
    {
        self.persist_session();
    }

    /// Stores what a user says before the conversation goes on.
    pub fn persist_user_message(&mut self, content: String)
        requires
            old(self).log.persisted_count < usize::MAX,
        ensures
            crate::messages::entry_views(final(self).log.entries@) == crate::messages::entry_views(
                old(self).log.entries@,
            ).push(EntryView::User { content: content@ }),
            old(self).log.entries@.is_prefix_of(final(self).log.entries@),
            final(self).log.persisted_count == old(self).log.persisted_count + 1,
            *final(self) == (AgentSession { log: final(self).log, ..*old(self) }),
    {
        self.log.persist_user_message(content);
    }

    /// Stores a message that has ended.
    pub fn persist_event_message(&mut self, message: &Message)
        requires
            old(self).log.persisted_count < usize::MAX,
        ensures
            crate::messages::entry_views(final(self).log.entries@) == crate::messages::entry_views(
                old(self).log.entries@,
            ).push(crate::session_log::stored(message@)),
            old(self).log.entries@.is_prefix_of(final(self).log.entries@),
            final(self).log.persisted_count == old(self).log.persisted_count + 1,
            *final(self) == (AgentSession { log: final(self).log, ..*old(self) }),
    {
        self.log.persist_event_message(message);
    }

    /// The log of a session that branches off at an entry: it holds the entries up to
    /// that one, which is in it. The entries go by their identifiers; there is no such
    /// log where none goes by the given one.
    pub fn branch_from_entry(&self, ids: &Vec<String>, entry_id: &str) -> (r: Option<SessionLog>)
        requires
            ids@.len() == self.log.entries@.len(),
        ensures
            match r {
                Some(log) => {
                    &&& place_of(views(ids@), entry_id@) < ids@.len()
                    &&& crate::messages::entry_views(log.entries@)
                        == crate::messages::entry_views(self.log.entries@).take(
                        place_of(views(ids@), entry_id@) as int + 1,
                    )
                    &&& log.persisted_count == 0
                },
                None => place_of(views(ids@), entry_id@) >= ids@.len(),
            },
    {
        let place: usize = find_place(ids, entry_id);
        if place < ids.len() {
            Some(self.log.first_entries(place + 1))
        } else {
            None
        }
    }

    /// Gives the session a name.
    pub fn set_session_name(&mut self, name: String)
        ensures
            record_views(final(self).records@) == record_views(old(self).records@).push(
                RecordView::SessionInfo { name: name@ },
            ),
            told(*final(self), *old(self), EventView::SessionInfoChanged),
            *final(self) == (AgentSession {
                records: final(self).records,
                outbox: final(self).outbox,
                ..*old(self)
            }),
    {
        let ghost before = record_views(self.records@);
        let record = LogRecord::SessionInfo { name };
        self.records.push(record);
        proof {
            assert(record_views(self.records@) =~= before.push(record@));
        }
        self.emit(SessionEvent::SessionInfoChanged);
    }

    /// Begins a new conversation in the same session.
    pub fn reset(&mut self)
        ensures
            final(self).messages@.len() == 0,
            !final(self).overflow_recovery_attempted,
            final(self).queues.steering@.len() == 0,
            final(self).queues.follow_up@.len() == 0,
            told(*final(self), *old(self), final(self).queue_event()),
            *final(self) == (AgentSession {
                messages: final(self).messages,
                overflow_recovery_attempted: false,
                queues: final(self).queues,
                outbox: final(self).outbox,
                ..*old(self)
            }),
    {
        self.messages = Vec::new();
        self.overflow_recovery_attempted = false;
        self.clear_queue();
    }

    /// Begins a new session with an empty log. The former log is left as it is.
    pub fn start_new_session(&mut self, session_id: String, session_file: Option<String>)
        ensures
            final(self).log.entries@.len() == 0,
            final(self).log.persisted_count == 0,
            final(self).records@.len() == 0,
            final(self).messages@.len() == 0,
            final(self).queues.steering@.len() == 0,
            final(self).queues.follow_up@.len() == 0,
            told(*final(self), *old(self), final(self).queue_event()),
            *final(self) == (AgentSession {
                log: final(self).log,
                records: final(self).records,
                session_id,
                session_file,
                messages: final(self).messages,
                overflow_recovery_attempted: false,
                queues: final(self).queues,
                outbox: final(self).outbox,
                ..*old(self)
            }),
    {
        self.log = SessionLog::new();
        self.records = Vec::new();
        self.session_id = session_id;
        self.session_file = session_file;
        self.reset();
    }

    /// Tells the listeners that the session was handed over.
    pub fn emit_handoff_complete(&mut self, doc_path: String, auto_continue: bool)
        ensures
            told(
                *final(self),
                *old(self),
                EventView::HandoffComplete { doc_path: doc_path@, auto_continue },
            ),
            *final(self) == (AgentSession { outbox: final(self).outbox, ..*old(self) }),
    {
        self.emit(SessionEvent::HandoffComplete { doc_path, auto_continue });
    }

    /// Tells the listeners that the session could not be handed over.
    pub fn emit_handoff_failed(&mut self, error: String)
        ensures
            told(*final(self), *old(self), EventView::HandoffFailed { error: error@ }),
            *final(self) == (AgentSession { outbox: final(self).outbox, ..*old(self) }),
    {
        self.emit(SessionEvent::HandoffFailed { error });
    }

    /// Goes over to a new session once the document is written; a dry run only writes it.
    pub fn apply_handoff(
        &mut self,
        doc_path: String,
        opts: &crate::handoff::HandoffOptions,
        session_id: String,
        session_file: Option<String>,
    )
        ensures
            opts.dry_run ==> *final(self) == *old(self),
            !opts.dry_run ==> {
                &&& final(self).messages@.len() == 0
                &&& final(self).log.entries@.len() == 0
                &&& final(self).log.persisted_count == 0
                &&& final(self).records@.len() == 0
                &&& final(self).queues.steering@.len() == 0
                &&& final(self).queues.follow_up@.len() == 0
                &&& *final(self) == (AgentSession {
                    log: final(self).log,
                    records: final(self).records,
                    session_id,
                    session_file,
                    messages: final(self).messages,
                    overflow_recovery_attempted: false,
                    queues: final(self).queues,
                    outbox: final(self).outbox,
                    ..*old(self)
                })
                &&& event_views(final(self).outbox@) == event_views(old(self).outbox@).push(
                    final(self).queue_event(),
                ).push(
                    EventView::HandoffComplete {
                        doc_path: doc_path@,
                        auto_continue: opts.auto_continue,
                    },
                )
            },
    {
        if !opts.dry_run {
            self.start_new_session(session_id, session_file);
            self.emit_handoff_complete(doc_path, opts.auto_continue);
        }
    }

    /// Whether there is enough to compact.
    pub fn check_compaction(&self) -> (r: Result<(), String>)
        ensures
            match r {
                Ok(_) => self.messages@.len() >= 3,
                Err(e) => self.messages@.len() < 3 && e@
                    == "Nothing to compact (session too small)"@,
            },
    {
        if self.messages.len() < 3 {
            Err("Nothing to compact (session too small)".to_owned())
        } else {
            Ok(())
        }
    }

    /// Begins a compaction that the user asked for.
    pub fn begin_compaction(&mut self)
        ensures
            told(
                *final(self),
                *old(self),
                EventView::CompactionStart { reason: CompactionReason::Manual },
            ),
            *final(self) == (AgentSession { outbox: final(self).outbox, ..*old(self) }),
    {
        self.emit(SessionEvent::CompactionStart { reason: CompactionReason::Manual });
    }

    /// Ends a compaction that goes on.
    pub fn abort_compaction_sync(&mut self)
        ensures
            *final(self) == (AgentSession { compacting: false, ..*old(self) }),
    {
        self.compacting = false;
    }

    /// Goes on with what a compaction kept, and stores it as far as it has no entry yet.
    pub fn apply_compaction(&mut self, kept: Vec<Message>, tokens_before: usize) -> (r:
        CompactionResult)
        ensures
            r.tokens_before == tokens_before,
            final(self).messages == kept,
            crate::messages::entry_views(final(self).log.entries@) == caught_up(
                crate::messages::entry_views(old(self).log.entries@),
                message_views(kept@),
            ),
            final(self).log.persisted_count == if old(self).log.entries@.len() < kept@.len() {
                kept@.len() as usize
            } else {
                old(self).log.persisted_count
            },
            old(self).log.entries@.is_prefix_of(final(self).log.entries@),
            *final(self) == (AgentSession {
                messages: kept,
                log: final(self).log,
                ..*old(self)
            }),
    {
        self.messages = kept;
        self.persist_session();
        CompactionResult { tokens_before }
    }

    /// Ends a compaction that the user asked for.
    pub fn end_compaction(&mut self, error_message: Option<String>)
        ensures
            told(
                *final(self),
                *old(self),
                EventView::CompactionEnd {
                    reason: CompactionReason::Manual,
                    error_message: opt_view(error_message),
                },
            ),
            *final(self) == (AgentSession { outbox: final(self).outbox, ..*old(self) }),
    {
        self.emit(
            SessionEvent::CompactionEnd { reason: CompactionReason::Manual, error_message },
        );
    }

    /// Why a compaction fails, by what came of it: the messages that were kept and the
    /// tokens before it, or nothing. Too short a conversation is not compacted at all.
    pub open spec fn compaction_failure(&self, outcome: Option<(Vec<Message>, usize)>) -> Option<
        Seq<char>,
    > {
        if self.messages@.len() < 3 {
            Some("Nothing to compact (session too small)"@)
        } else if outcome is None {
            Some("Compaction failed"@)
        } else {
            None
        }
    }

    /// Takes what came of a compaction that the user asked for. The listeners are told of
    /// its beginning and of its end; a conversation whose compaction failed stays as it is.
    pub fn compact(&mut self, outcome: Option<(Vec<Message>, usize)>) -> (r: Result<
        CompactionResult,
        String,
    >)
        ensures
            ({
                let failure = old(self).compaction_failure(outcome);
                &&& event_views(final(self).outbox@) == event_views(old(self).outbox@).push(
                    EventView::CompactionStart { reason: CompactionReason::Manual },
                ).push(
                    EventView::CompactionEnd {
                        reason: CompactionReason::Manual,
                        error_message: failure,
                    },
                )
                &&& match r {
                    Ok(result) => {
                        &&& failure is None
                        &&& result.tokens_before == (outcome->0).1
                        &&& crate::messages::entry_views(final(self).log.entries@) == caught_up(
                            crate::messages::entry_views(old(self).log.entries@),
                            message_views((outcome->0).0@),
                        )
                        &&& final(self).log.persisted_count == if old(self).log.entries@.len()
                            < (outcome->0).0@.len() {
                            (outcome->0).0@.len() as usize
                        } else {
                            old(self).log.persisted_count
                        }
                        &&& old(self).log.entries@.is_prefix_of(final(self).log.entries@)
                        &&& *final(self) == (AgentSession {
                            messages: (outcome->0).0,
                            log: final(self).log,
                            outbox: final(self).outbox,
                            ..*old(self)
                        })
                    },
                    Err(e) => {
                        &&& failure == Some(e@)
                        &&& *final(self) == (AgentSession {
                            outbox: final(self).outbox,
                            ..*old(self)
                        })
                    },
                }
            }),
    {
        self.begin_compaction();
        match self.check_compaction() {
            Err(e) => {
                self.end_compaction(Some(e.clone()));
                return Err(e);
            },
            Ok(_) => {},
        }
        match outcome {
            Some((kept, tokens_before)) => {
                let result = self.apply_compaction(kept, tokens_before);
                self.end_compaction(None);
                Ok(result)
            },
            None => {
                self.end_compaction(Some("Compaction failed".to_owned()));
                Err("Compaction failed".to_owned())
            },
        }
    }

    /// Takes settings that were read anew, and gives the strategy and the prompt for the
    /// agent. The prompt has the thinking level of the settings, and names the workspace
    /// search as a new session's prompt would.
    pub fn rebuild_system_prompt(&mut self, fresh: Settings, registered: bool) -> (r: (
        CompactionStrategy,
        PromptPlan,
    ))
        ensures
            r.0 == strategy_for(fresh.auto_compaction),
            is_session_prompt(
                r.1,
                fresh.thinking_level,
                None,
                None,
                search_guidance(fresh, registered),
                None,
            ),
            *final(self) == (AgentSession {
                settings: fresh,
                compaction_config: CompactionConfig {
                    enabled: fresh.auto_compaction,
                    ..old(self).compaction_config
                },
                ..*old(self)
            }),
    {
        let auto_compaction = fresh.auto_compaction;
        let guidance = workspace_search_guidance(&fresh, registered);
        let prompt = build_system_prompt_with_memory(
            fresh.thinking_level,
            None,
            None,
            guidance,
            &None,
        );
        self.settings = fresh;
        self.compaction_config.enabled = auto_compaction;
        (compaction_strategy(auto_compaction), prompt)
    }
}

/// How severe an advisor's note is.
#[derive(Debug, Clone, Copy, PartialEq, Eq, Structural)]
pub enum AdviceSeverity {
    Nit,
    Concern,
    Blocker,
}

/// What decides how a note reaches the session.
#[derive(Debug, Clone, Copy, PartialEq, Eq, Structural)]
pub struct DeliveryOpts {
    pub severity: AdviceSeverity,
    pub auto_resume_suppressed: bool,
    pub streaming: bool,
    pub aborting: bool,
    pub interrupt_immune_turn_active: bool,
}

/// What an advisor is made with.
#[derive(Debug)]
pub struct AdvisorPlan {
    pub model_id: String,
    pub provider: String,
    pub name: String,
    pub description: String,
    pub timeout_seconds: u64,
    pub temperature: Option<Temperature>,
    pub max_tokens: Option<usize>,
    pub compaction_strategy: CompactionStrategy,
    pub context_window: usize,
    pub workspace_dir: String,
    /// The tools that the advisor reads with, and the one that hands its notes on; it has
    /// none that write.
    pub tools: Vec<String>,
    pub immune_turns: u64,
    /// The messages of the session that the advisor has not to read.
    pub seen_messages: usize,
    /// The directory of the advisor's transcript, where the session has a file.
    pub transcript_dir: Option<String>,
    /// The milliseconds that the advisor's runtime is made with.
    pub runtime_delay_ms: u64,
}

/// What follows the end of a turn where an advisor runs.
#[derive(Debug, Clone, Copy, PartialEq, Eq, Structural)]
pub struct AdvisorTurn {
    /// The backlog down to which the advisor is waited for.
    pub catch_up_to: Option<u64>,
    /// The milliseconds that it is waited for.
    pub wait_ms: u64,
}

/// The backlog down to which the advisor is waited for, by the setting: a number above
/// zero, or none.
pub open spec fn sync_threshold(setting: Seq<char>) -> Option<u64> {
    match parse_number(setting, u64::MAX as nat) {
        Some(n) => if n > 0 {
            Some(n as u64)
        } else {
            None
        },
        None => None,
    }
}

/// The model of the advisor: that of its role, or else that of the session.
pub open spec fn advisor_model(role: Option<ScopedModel>, primary: Seq<char>) -> Seq<char> {
    match role {
        Some(m) => m.full_id(),
        None => primary,
    }
}

/// Whether a plan is that of a session's advisor.
pub open spec fn is_advisor_plan(
    plan: AdvisorPlan,
    s: AgentSession,
    role: Option<ScopedModel>,
) -> bool {
    let id = advisor_model(role, s.model_id@);
    &&& split_once(id, '/') is Some
    &&& plan.model_id@ == id
    &&& plan.provider@ == (split_once(id, '/')->0).0
    &&& plan.name@ == "advisor"@
    &&& plan.description@ == "oxicode read-only advisor"@
    &&& plan.timeout_seconds == s.settings.tool_timeout_seconds
    &&& plan.temperature == (match (s.settings.default_temperature, s.settings.temperature) {
        (Some(d), _) => Some(Temperature::Double(d)),
        (None, Some(t)) => Some(Temperature::Single(t)),
        (None, None) => None,
    })
    &&& plan.max_tokens == (match (s.settings.max_response_tokens, s.settings.max_tokens) {
        (Some(n), _) => Some(n),
        (None, Some(n)) => Some(n as usize),
        (None, None) => None,
    })
    &&& plan.compaction_strategy == CompactionStrategy::ThresholdPercent(80)
    &&& plan.context_window == 128_000
    &&& plan.workspace_dir@ == s.cwd@
    &&& views(plan.tools@) == seq!["read"@, "grep"@, "find"@, "advise"@]
    &&& plan.immune_turns == s.settings.advisor.immune_turns
    &&& plan.seen_messages == s.messages@.len()
    &&& opt_view(plan.transcript_dir) == s.file_dir()
    &&& plan.runtime_delay_ms == 1000
}

impl AgentSession {
    /// The directory of the session's file.
    pub open spec fn file_dir(&self) -> Option<Seq<char>> {
        match self.session_file {
            Some(file) => parent(file@),
            None => None,
        }
    }

    /// The directory of the session's file, which its subagents and its advisor share.
    pub fn session_dir(&self) -> (r: Option<String>)
        ensures
            opt_view(r) == self.file_dir(),
    {
        match &self.session_file {
            Some(file) => parent_of(file.as_str()),
            None => None,
        }
    }

    /// What an advisor is made with. There is none where its model names no provider.
    pub fn build_advisor(&self, role: &Option<ScopedModel>) -> (r: Option<AdvisorPlan>)
        ensures
            match r {
                Some(plan) => is_advisor_plan(plan, *self, *role),
                None => split_once(advisor_model(*role, self.model_id@), '/') is None,
            },
    {
        let model_id = match role {
            Some(m) => m.id(),
            None => self.model_id.clone(),
        };
        let provider = match split_once_text(model_id.as_str(), '/') {
            Some((provider, _)) => provider,
            None => {
                return None;
            },
        };
        let mut tools: Vec<String> = Vec::new();
        tools.push("read".to_owned());
        tools.push("grep".to_owned());
        tools.push("find".to_owned());
        tools.push("advise".to_owned());
        proof {
            assert(views(tools@) =~= seq!["read"@, "grep"@, "find"@, "advise"@]);
        }
        Some(
            AdvisorPlan {
                model_id,
                provider,
                name: "advisor".to_owned(),
                description: "oxicode read-only advisor".to_owned(),
                timeout_seconds: self.settings.tool_timeout_seconds,
                temperature: self.settings.effective_temperature(),
                max_tokens: self.settings.effective_max_tokens(),
                compaction_strategy: CompactionStrategy::ThresholdPercent(80),
                context_window: 128_000,
                workspace_dir: self.cwd.clone(),
                tools,
                immune_turns: self.settings.advisor.immune_turns,
                seen_messages: self.messages.len(),
                transcript_dir: self.session_dir(),
                runtime_delay_ms: 1000,
            },
        )
    }

    /// What decides how a note reaches the session.
    pub fn delivery_opts(&self, severity: AdviceSeverity, immune: bool) -> (r: DeliveryOpts)
        ensures
            r == (DeliveryOpts {
                severity,
                auto_resume_suppressed: self.advisor_delivery.auto_resume_suppressed,
                streaming: self.streaming,
                aborting: false,
                interrupt_immune_turn_active: immune,
            }),
    {
        DeliveryOpts {
            severity,
            auto_resume_suppressed: self.advisor_delivery.auto_resume_suppressed,
            streaming: self.streaming,
            aborting: false,
            interrupt_immune_turn_active: immune,
        }
    }

    /// Hands on a note of the advisor. One that was not accepted goes nowhere; one that
    /// steers is queued, and notes stop steering from the next turn on; any other is
    /// told to the listeners.
    pub fn enqueue_advice(&mut self, accepted: bool, channel: AdvisorDeliveryChannel, body: String)
        requires
            old(self).advisor_primary_turns < u64::MAX,
        ensures
            !accepted ==> *final(self) == *old(self),
            accepted && channel == AdvisorDeliveryChannel::Steer ==> {
                &&& message_views(final(self).queues.steering@) == message_views(
                    old(self).queues.steering@,
                ).push(crate::messages::user_text(body@))
                &&& final(self).queues.follow_up == old(self).queues.follow_up
                &&& *final(self) == (AgentSession {
                    queues: final(self).queues,
                    advisor_delivery: AdvisorDeliveryState {
                        interrupt_immune_turn_start: Some(
                            (old(self).advisor_primary_turns + 1) as u64,
                        ),
                        ..old(self).advisor_delivery
                    },
                    ..*old(self)
                })
            },
            accepted && channel != AdvisorDeliveryChannel::Steer ==> {
                &&& told(*final(self), *old(self), EventView::Advisor { channel, body: body@ })
                &&& *final(self) == (AgentSession { outbox: final(self).outbox, ..*old(self) })
            },
    {
        if !accepted {
            return;
        }
        if channel == AdvisorDeliveryChannel::Steer {
            let ghost before = self.queues.steering@;
            let msg = Message::user(body);
            self.queues.steering.push_back(msg);
            proof {
                assert(message_views(self.queues.steering@) =~= message_views(before).push(msg@));
            }
            self.advisor_delivery.interrupt_immune_turn_start = Some(
                self.advisor_primary_turns + 1,
            );
        } else {
            self.emit(SessionEvent::Advisor { channel, body });
        }
    }

    /// Whether an advisor runs.
    pub fn is_advisor_enabled(&self) -> (r: bool)
        ensures
            r == self.advisor_running,
    {
        self.advisor_running
    }

    /// Turns the advisor on or off, and says whether it runs. One that is turned on runs
    /// where it does already or can be started.
    pub fn set_advisor_enabled(&mut self, enabled: bool, can_start: bool) -> (r: Result<
        bool,
        String,
    >)
        ensures
            ({
                let fails = enabled && !old(self).advisor_running && !can_start;
                match r {
                    Ok(runs) => !fails && runs == enabled,
                    Err(e) => fails && e@
                        == "advisor could not start: no provider/model resolved for the advisor role or the primary model"@,
                }
            }),
            final(self).settings == (Settings {
                advisor: crate::settings::AdvisorSettings {
                    enabled,
                    ..old(self).settings.advisor
                },
                ..old(self).settings
            }),
            final(self).advisor_running == (r is Ok && enabled),
            *final(self) == (AgentSession {
                settings: final(self).settings,
                advisor_running: final(self).advisor_running,
                ..*old(self)
            }),
    {
        self.settings.set_advisor_enabled(enabled);
        if enabled {
            if !self.advisor_running {
                if !can_start {
                    return Err(
                        "advisor could not start: no provider/model resolved for the advisor role or the primary model".to_owned(),
                    );
                }
                self.advisor_running = true;
            }
            Ok(true)
        } else {
            self.advisor_running = false;
            Ok(false)
        }
    }

    /// Turns the advisor on where it does not run, and off where it does.
    pub fn toggle_advisor(&mut self, can_start: bool) -> (r: Result<bool, String>)
        ensures
            match r {
                Ok(runs) => runs == !old(self).advisor_running && (runs ==> can_start),
                Err(e) => !old(self).advisor_running && !can_start && e@
                    == "advisor could not start: no provider/model resolved for the advisor role or the primary model"@,
            },
            final(self).advisor_running == (r is Ok && !old(self).advisor_running),
            final(self).settings == (Settings {
                advisor: crate::settings::AdvisorSettings {
                    enabled: !old(self).advisor_running,
                    ..old(self).settings.advisor
                },
                ..old(self).settings
            }),
            *final(self) == (AgentSession {
                settings: final(self).settings,
                advisor_running: final(self).advisor_running,
                ..*old(self)
            }),
    {
        let enabled = !self.advisor_running;
        self.set_advisor_enabled(enabled, can_start)
    }

    /// A line on the advisor.
    pub fn advisor_status(&self, backlog: u64) -> (r: String)
        ensures
            r@ == "advisor: "@ + (if self.advisor_running {
                "ON"@
            } else {
                "OFF"@
            }) + " | backlog "@ + decimal(
                if self.advisor_running {
                    backlog as nat
                } else {
                    0
                },
            ) + " turn(s) behind | "@ + decimal(self.advisor_primary_turns as nat)
                + " primary turn(s) observed"@,
    {
        let mut out = "advisor: ".to_owned();
        let behind: u64 = if self.advisor_running {
            backlog
        } else {
            0
        };
        if self.advisor_running {
            out.append("ON");
        } else {
            out.append("OFF");
        }
        out.append(" | backlog ");
        out.append(decimal_text(behind).as_str());
        out.append(" turn(s) behind | ");
        out.append(decimal_text(self.advisor_primary_turns).as_str());
        out.append(" primary turn(s) observed");
        out
    }

    /// Lets the advisor begin anew at a boundary of conversations.
    pub fn reset_advisor_state(&mut self)
        ensures
            *final(self) == (AgentSession {
                advisor_delivery: AdvisorDeliveryState {
                    auto_resume_suppressed: false,
                    interrupt_immune_turn_start: None,
                },
                advisor_primary_turns: 0,
                ..*old(self)
            }),
    {
        self.advisor_delivery = AdvisorDeliveryState::default();
        self.advisor_primary_turns = 0;
    }

    /// Counts a turn that has ended. Where an advisor runs it is fed the turn, and the
    /// setting says whether it is waited for, half a minute at most.
    pub fn on_advisor_turn_end(&mut self) -> (r: Option<AdvisorTurn>)
        ensures
            r == (if old(self).advisor_running {
                Some(
                    AdvisorTurn {
                        catch_up_to: sync_threshold(old(self).settings.advisor.sync_backlog@),
                        wait_ms: 30_000,
                    },
                )
            } else {
                None
            }),
            *final(self) == (AgentSession {
                advisor_primary_turns: old(self).advisor_primary_turns.wrapping_add(1),
                ..*old(self)
            }),
    {
        self.advisor_primary_turns = self.advisor_primary_turns.wrapping_add(1);
        if !self.advisor_running {
            return None;
        }
        let catch_up_to = match parse_u64(self.settings.advisor.sync_backlog.as_str()) {
            Some(n) => {
                if n > 0 {
                    Some(n)
                } else {
                    None
                }
            },
            None => None,
        };
        Some(AdvisorTurn { catch_up_to, wait_ms: 30_000 })
    }
}

/// The setting that turns the waiting off is no number.
pub proof fn lemma_sync_off()
    ensures
        sync_threshold("off"@) is None,
{
    reveal_strlit("off");
    assert(!crate::text::is_digit("off"@[0]));
}

/// Why a session ends for its extensions.
#[derive(Debug, Clone, Copy, PartialEq, Eq, Structural)]
pub enum ShutdownReason {
    Reload,
    Quit,
}

/// What an extension runner is told.
#[derive(Debug, Clone, Copy, PartialEq, Eq, Structural)]
pub enum ExtensionSignal {
    Shutdown(ShutdownReason),
    SessionEnd,
    Unload,
    Load,
    SessionStart,
}

/// What the extension runner does with an event of the agent.
#[derive(Debug)]
pub enum ExtensionCall {
    ToolCall { name: String, arguments: String },
    ToolResult { name: String, content: String },
}

/// Whether a call is what an event asks of the extensions.
pub open spec fn is_call_for(call: Option<ExtensionCall>, event: AgentEvent) -> bool {
    match event {
        AgentEvent::ToolCall { name, arguments } => call is Some && call->0 is ToolCall
            && call->0->ToolCall_name@ == name@ && call->0->ToolCall_arguments@ == arguments@,
        AgentEvent::ToolExecutionStart { tool_name, args } => call is Some && call->0 is ToolCall
            && call->0->ToolCall_name@ == tool_name@ && call->0->ToolCall_arguments@ == args@,
        AgentEvent::ToolExecutionEnd { tool_name, content } => call is Some
            && call->0 is ToolResult && call->0->ToolResult_name@ == tool_name@
            && call->0->ToolResult_content@ == content@,
        _ => call is None,
    }
}

/// What an event asks of the extensions.
fn call_for(event: &AgentEvent) -> (r: Option<ExtensionCall>)
    ensures
        is_call_for(r, *event),
{
    match event {
        AgentEvent::ToolCall { name, arguments } => Some(
            ExtensionCall::ToolCall { name: name.clone(), arguments: arguments.clone() },
        ),
        AgentEvent::ToolExecutionStart { tool_name, args } => Some(
            ExtensionCall::ToolCall { name: tool_name.clone(), arguments: args.clone() },
        ),
        AgentEvent::ToolExecutionEnd { tool_name, content } => Some(
            ExtensionCall::ToolResult { name: tool_name.clone(), content: content.clone() },
        ),
        _ => None,
    }
}

impl AgentSession {
    /// Installs an extension runner, and says what the one before it and the new one are
    /// told, in this order.
    pub fn set_extension_runner(&mut self) -> (r: (Vec<ExtensionSignal>, Vec<ExtensionSignal>))
        ensures
            r.0@ == if old(self).has_extension_runner {
                seq![
                    ExtensionSignal::Shutdown(ShutdownReason::Reload),
                    ExtensionSignal::SessionEnd,
                    ExtensionSignal::Unload,
                ]
            } else {
                Seq::empty()
            },
            r.1@ == seq![ExtensionSignal::Load, ExtensionSignal::SessionStart],
            *final(self) == (AgentSession { has_extension_runner: true, ..*old(self) }),
    {
        let mut former: Vec<ExtensionSignal> = Vec::new();
        if self.has_extension_runner {
            former.push(ExtensionSignal::Shutdown(ShutdownReason::Reload));
            former.push(ExtensionSignal::SessionEnd);
            former.push(ExtensionSignal::Unload);
        }
        self.has_extension_runner = true;
        let mut fresh: Vec<ExtensionSignal> = Vec::new();
        fresh.push(ExtensionSignal::Load);
        fresh.push(ExtensionSignal::SessionStart);
        (former, fresh)
    }

    /// Takes the extension runner out, and says what it is told first.
    pub fn take_extension_runner(&mut self) -> (r: Vec<ExtensionSignal>)
        ensures
            r@ == if old(self).has_extension_runner {
                seq![
                    ExtensionSignal::Shutdown(ShutdownReason::Quit),
                    ExtensionSignal::SessionEnd,
                    ExtensionSignal::Unload,
                ]
            } else {
                Seq::empty()
            },
            *final(self) == (AgentSession { has_extension_runner: false, ..*old(self) }),
    {
        let mut signals: Vec<ExtensionSignal> = Vec::new();
        if self.has_extension_runner {
            signals.push(ExtensionSignal::Shutdown(ShutdownReason::Quit));
            signals.push(ExtensionSignal::SessionEnd);
            signals.push(ExtensionSignal::Unload);
        }
        self.has_extension_runner = false;
        signals
    }

    /// Hands an event of the agent on: to the advisor where a turn has ended, to the
    /// listeners always, and to the extensions where a runner is installed.
    pub fn forward_event_to_extensions(&mut self, event: AgentEvent) -> (r: (
        Option<AdvisorTurn>,
        Option<ExtensionCall>,
    ))
        ensures
            r.0 == (if event is TurnEnd && old(self).advisor_running {
                Some(
                    AdvisorTurn {
                        catch_up_to: sync_threshold(old(self).settings.advisor.sync_backlog@),
                        wait_ms: 30_000,
                    },
                )
            } else {
                None
            }),
            old(self).has_extension_runner ==> is_call_for(r.1, event),
            !old(self).has_extension_runner ==> r.1 is None,
            told(*final(self), *old(self), EventView::Agent(event)),
            *final(self) == (AgentSession {
                advisor_primary_turns: if event is TurnEnd {
                    old(self).advisor_primary_turns.wrapping_add(1)
                } else {
                    old(self).advisor_primary_turns
                },
                outbox: final(self).outbox,
                ..*old(self)
            }),
    {
        let turn = match &event {
            AgentEvent::TurnEnd => self.on_advisor_turn_end(),
            _ => None,
        };
        let call = if self.has_extension_runner {
            call_for(&event)
        } else {
            None
        };
        self.emit(SessionEvent::Agent(Box::new(event)));
        (turn, call)
    }

    /// What the extensions answer, where a runner is installed.
    fn asked<T>(&self, answer: T, without: T) -> (r: T)
        ensures
            r == if self.has_extension_runner {
                answer
            } else {
                without
            },
    {
        if self.has_extension_runner {
            answer
        } else {
            without
        }
    }

    /// Whether extensions handle an event, by what the runner says: without one none do.
    pub fn has_extension_handlers(&self, runner_has: bool) -> (r: bool)
        ensures
            r == (self.has_extension_runner && runner_has),
    {
        self.has_extension_runner && runner_has
    }

    /// The tools of the extensions, by what the runner offers: without one there are none.
    pub fn extension_tools<T>(&self, offered: Vec<T>) -> (r: Vec<T>)
        ensures
            self.has_extension_runner ==> r@ == offered@,
            !self.has_extension_runner ==> r@.len() == 0,
    {
        self.asked(offered, Vec::new())
    }

    /// The commands of the extensions, by what the runner offers: without one there are none.
    pub fn extension_commands<C>(&self, offered: Vec<C>) -> (r: Vec<C>)
        ensures
            self.has_extension_runner ==> r@ == offered@,
            !self.has_extension_runner ==> r@.len() == 0,
    {
        self.asked(offered, Vec::new())
    }

    /// What the extensions say to a tool call that is about to be made, by the runner's
    /// answer: without a runner nothing stops it.
    pub fn emit_before_tool_call<A>(&self, answer: A, unopposed: A) -> (r: A)
        ensures
            r == if self.has_extension_runner {
                answer
            } else {
                unopposed
            },
    {
        self.asked(answer, unopposed)
    }

    /// What the extensions say to the result of a tool, by the runner's answer: without a
    /// runner it stays.
    pub fn emit_after_tool_result<A>(&self, answer: A, unopposed: A) -> (r: A)
        ensures
            r == if self.has_extension_runner {
                answer
            } else {
                unopposed
            },
    {
        self.asked(answer, unopposed)
    }

    /// The settings that the extensions are told of, where a runner is installed.
    pub fn notify_extensions_settings_changed(&self) -> (r: Option<&Settings>)
        ensures
            r == (if self.has_extension_runner {
                Some(&self.settings)
            } else {
                None
            }),
    {
        if self.has_extension_runner {
            Some(&self.settings)
        } else {
            None
        }
    }

    /// The current model with its provider.
    pub fn model_id(&self) -> (r: &str)
        ensures
            r@ == self.model_id@,
    {
        self.model_id.as_str()
    }

    /// The conversation.
    pub fn messages(&self) -> (r: &Vec<Message>)
        ensures
            *r == self.messages,
    {
        &self.messages
    }

    /// The identifier of the session.
    pub fn session_id(&self) -> (r: &str)
        ensures
            r@ == self.session_id@,
    {
        self.session_id.as_str()
    }

    /// The file of the session, where it is stored.
    pub fn session_file(&self) -> (r: Option<String>)
        ensures
            opt_view(r) == opt_view(self.session_file),
    {
        copy_opt(&self.session_file)
    }

    /// The name under which the directory of the session's file lists the session itself
    /// among those of its agents.
    pub fn own_listing(&self) -> (r: Option<String>)
        ensures
            opt_view(r) == match self.session_file {
                Some(file) => match file_name(file@) {
                    Some(name) => Some(stem(name)),
                    None => None,
                },
                None => None,
            },
    {
        match &self.session_file {
            Some(file) => file_stem_of(file.as_str()),
            None => None,
        }
    }

    /// The working directory.
    pub fn cwd(&self) -> (r: &str)
        ensures
            r@ == self.cwd@,
    {
        self.cwd.as_str()
    }

    /// The models that the user cycles through.
    pub fn scoped_models(&self) -> (r: &Vec<ScopedModel>)
        ensures
            *r == self.scoped_models,
    {
        &self.scoped_models
    }

    /// How messages that steer are shown.
    pub fn steering_mode(&self) -> (r: &str)
        ensures
            r@ == self.steering_mode@,
    {
        self.steering_mode.as_str()
    }

    /// How messages for after the run are shown.
    pub fn follow_up_mode(&self) -> (r: &str)
        ensures
            r@ == self.follow_up_mode@,
    {
        self.follow_up_mode.as_str()
    }

    /// Whether the agent is responding.
    pub fn is_streaming(&self) -> (r: bool)
        ensures
            r == self.streaming,
    {
        self.streaming
    }

    /// Says that the agent begins or ends to respond.
    pub fn set_streaming(&mut self, streaming: bool)
        ensures
            *final(self) == (AgentSession { streaming, ..*old(self) }),
    {
        self.streaming = streaming;
    }

    /// The current thinking level.
    pub fn thinking_level(&self) -> (r: ThinkingLevel)
        ensures
            r == self.settings.thinking_level,
    {
        self.settings.thinking_level
    }

    /// Whether a compaction runs.
    pub fn is_compacting(&self) -> (r: bool)
        ensures
            r == self.compacting,
    {
        self.compacting
    }

    /// Whether the agent retries by itself.
    pub fn auto_retry_enabled(&self) -> (r: bool)
        ensures
            r == self.auto_retry,
    {
        self.auto_retry
    }

    /// Lets the agent retry by itself, or not.
    pub fn set_auto_retry(&mut self, enabled: bool)
        ensures
            *final(self) == (AgentSession { auto_retry: enabled, ..*old(self) }),
    {
        self.auto_retry = enabled;
    }

    /// Ends a wait before another try.
    pub fn cancel_auto_retry(&mut self)
        ensures
            *final(self) == (AgentSession { retry_waiting: false, ..*old(self) }),
    {
        self.retry_waiting = false;
    }

    /// Whether the session compacts by itself.
    pub fn auto_compaction_enabled(&self) -> (r: bool)
        ensures
            r == self.compaction_config.enabled,
    {
        self.compaction_config.enabled
    }

    /// Sets whether the session compacts by itself.
    pub fn set_auto_compaction(&mut self, enabled: bool)
        ensures
            *final(self) == (AgentSession {
                compaction_config: CompactionConfig { enabled, ..old(self).compaction_config },
                ..*old(self)
            }),
    {
        self.compaction_config.enabled = enabled;
    }

    /// Sets how messages that steer are shown.
    pub fn set_steering_mode(&mut self, mode: String)
        ensures
            *final(self) == (AgentSession { steering_mode: mode, ..*old(self) }),
    {
        self.steering_mode = mode;
    }

    /// Sets how messages for after the run are shown.
    pub fn set_follow_up_mode(&mut self, mode: String)
        ensures
            *final(self) == (AgentSession { follow_up_mode: mode, ..*old(self) }),
    {
        self.follow_up_mode = mode;
    }
}

/// The listeners of a session by their keys. A listener that is gone leaves its place,
/// so that the keys of the others stay.
pub struct ListenerTable {
    pub active: Vec<bool>,
}

impl ListenerTable {
    /// A table without listeners.
    pub fn new() -> (r: Self)
        ensures
            r.active@.len() == 0,
    {
        ListenerTable { active: Vec::new() }
    }

    /// Adds a listener and gives its key.
    pub fn subscribe(&mut self) -> (key: usize)
        ensures
            key == old(self).active@.len(),
            final(self).active@ == old(self).active@.push(true),
    {
        let key: usize = self.active.len();
        self.active.push(true);
        key
    }

    /// Takes a listener out; a key that is not there changes nothing.
    pub fn unsubscribe(&mut self, key: usize)
        ensures
            final(self).active@ == if key < old(self).active@.len() {
                old(self).active@.update(key as int, false)
            } else {
                old(self).active@
            },
    {
        if key < self.active.len() {
            self.active.set(key, false);
        }
    }

    /// Whether the listener of a key is told events.
    pub fn is_active(&self, key: usize) -> (r: bool)
        ensures
            r == (key < self.active@.len() && self.active@[key as int]),
    {
        key < self.active.len() && self.active[key]
    }
}

proof fn lemma_block_calls_add_up(first: Seq<BlockView>, second: Seq<BlockView>)
    ensures
        count_block_calls(first + second) == count_block_calls(first) + count_block_calls(second),
    decreases second.len(),
{
    if second.len() == 0 {
        assert(first + second =~= first);
    } else {
        lemma_block_calls_add_up(first, second.drop_last());
        assert((first + second).drop_last() =~= first + second.drop_last());
        assert((first + second).last() == second.last());
    }
}

/// The counts of a conversation are those of its parts together: nothing that is counted in
/// one part is lost or counted twice in the whole. A conversation without messages counts
/// nothing.
pub proof fn lemma_stats_add_up(first: Seq<MessageView>, second: Seq<MessageView>)
    ensures
        count_users(first + second) == count_users(first) + count_users(second),
        count_assistants(first + second) == count_assistants(first) + count_assistants(second),
        count_results(first + second) == count_results(first) + count_results(second),
        count_calls(first + second) == count_calls(first) + count_calls(second),
        count_users(Seq::empty()) == 0,
        count_assistants(Seq::empty()) == 0,
        count_results(Seq::empty()) == 0,
        count_calls(Seq::empty()) == 0,
    decreases second.len(),
{
    if second.len() == 0 {
        assert(first + second =~= first);
        assert(second =~= Seq::empty());
    } else {
        lemma_stats_add_up(first, second.drop_last());
        assert((first + second).drop_last() =~= first + second.drop_last());
        assert((first + second).last() == second.last());
    }
}

/// One message counts once, by its kind. A response counts each of its blocks that calls a
/// tool, and a call more where such a block is added at any place.
pub proof fn lemma_stats_of_message(
    message: MessageView,
    before: Seq<BlockView>,
    block: BlockView,
    behind: Seq<BlockView>,
)
    ensures
        count_users(seq![message]) == if message is User {
            1nat
        } else {
            0nat
        },
        count_assistants(seq![message]) == if message is Assistant {
            1nat
        } else {
            0nat
        },
        count_results(seq![message]) == if message is ToolResult {
            1nat
        } else {
            0nat
        },
        !(message is Assistant) ==> count_calls(seq![message]) == 0,
        message is Assistant && message->Assistant_0.content.len() == 0 ==> count_calls(
            seq![message],
        ) == 0,
        message is Assistant && message->Assistant_0.content == before + seq![block] + behind
            ==> count_calls(seq![message]) == count_calls(
            seq![
                MessageView::Assistant(
                    AssistantView { content: before + behind, ..message->Assistant_0 },
                ),
            ],
        ) + if block is ToolCall {
            1nat
        } else {
            0nat
        },
{
    let one = seq![message];
    reveal_with_fuel(count_users, 2);
    reveal_with_fuel(count_assistants, 2);
    reveal_with_fuel(count_results, 2);
    reveal_with_fuel(count_calls, 2);
    reveal_with_fuel(count_block_calls, 2);
    assert(one.drop_last() =~= Seq::empty());
    if message is Assistant {
        let other = seq![
            MessageView::Assistant(
                AssistantView { content: before + behind, ..message->Assistant_0 },
            ),
        ];
        assert(other.drop_last() =~= Seq::empty());
        lemma_block_calls_add_up(before + seq![block], behind);
        lemma_block_calls_add_up(before, seq![block]);
        lemma_block_calls_add_up(before, behind);
        assert(seq![block].drop_last() =~= Seq::empty());
    }
}

proof fn lemma_scoped_position_at(models: Seq<ScopedModel>, id: Seq<char>, i: int)
    requires
        0 <= i <= models.len(),
        forall|j: int| 0 <= j < i ==> (#[trigger] models[j]).full_id() != id,
        i < models.len() ==> models[i].full_id() == id,
    ensures
        scoped_position(models, id) == i,
    decreases models.len(),
{
    if i > 0 {
        let rest = models.drop_first();
        assert forall|j: int| 0 <= j < i - 1 implies (#[trigger] rest[j]).full_id() != id by {
            assert(rest[j] == models[j + 1]);
        }
        assert(models[0].full_id() != id);
        lemma_scoped_position_at(rest, id, i - 1);
    }
}

/// The model after the current one, which stands at `i`, is the one behind it in the list,
/// and the first behind the last. Where the current one is in no place, `i` is the length
/// of the list and the second follows. With fewer than two there is none.
pub proof fn lemma_next_model_follows(s: AgentSession, i: int)
    requires
        0 <= i <= s.scoped_models@.len(),
        forall|j: int|
            0 <= j < i ==> (#[trigger] s.scoped_models@[j]).provider@ + "/"@
                + s.scoped_models@[j].model_id@ != s.model_id@,
        i < s.scoped_models@.len() ==> s.scoped_models@[i].provider@ + "/"@
            + s.scoped_models@[i].model_id@ == s.model_id@,
    ensures
        s.scoped_models@.len() < 2 ==> s.next_model() is None,
        s.scoped_models@.len() >= 2 ==> {
            let at = if i < s.scoped_models@.len() - 1 {
                i + 1
            } else if i == s.scoped_models@.len() - 1 {
                0
            } else {
                1
            };
            s.next_model() == Some(
                s.scoped_models@[at].provider@ + "/"@ + s.scoped_models@[at].model_id@,
            )
        },
{
    let models = s.scoped_models@;
    assert forall|j: int| 0 <= j < i implies (#[trigger] models[j]).full_id() != s.model_id@ by {}
    lemma_scoped_position_at(models, s.model_id@, i);
    let n = models.len() as int;
    if n >= 2 {
        if i == n - 1 {
            assert((i + 1) % n == 0) by (nonlinear_arith)
                requires
                    i + 1 == n,
                    n > 0,
            ;
        } else if i < n - 1 {
            assert((i + 1) % n == i + 1) by (nonlinear_arith)
                requires
                    0 <= i + 1 < n,
            ;
        } else {
            assert(1int % n == 1) by (nonlinear_arith)
                requires
                    n >= 2,
            ;
        }
    }
}

/// How high a level is.
pub open spec fn height(level: ThinkingLevel) -> nat {
    match level {
        ThinkingLevel::Off => 0,
        ThinkingLevel::Minimal => 1,
        ThinkingLevel::Low => 2,
        ThinkingLevel::Medium => 3,
        ThinkingLevel::High => 4,
        ThinkingLevel::XHigh => 5,
    }
}

/// Each level but the highest is followed by the next higher one, and the highest by none at
/// all.
pub proof fn lemma_levels_rise(level: ThinkingLevel)
    ensures
        height(level) < 5 ==> height(next_level(level)) == height(level) + 1,
        height(level) == 5 ==> next_level(level) == ThinkingLevel::Off,
{
}

/// A change to a model is recorded with what stands before its first slash as the provider;
/// one to a model without a provider is not recorded.
pub proof fn lemma_model_change_is_recorded(
    records: Seq<RecordView>,
    provider: Seq<char>,
    model: Seq<char>,
)
    requires
        !provider.contains('/'),
    ensures
        with_model_change(records, provider + "/"@ + model) == records.push(
            RecordView::ModelChange { provider, model },
        ),
        with_model_change(records, provider) == records,
{
    reveal_strlit("/");
    crate::text::lemma_split_once_at(provider, '/', model);
    assert(provider.push('/') + model =~= provider + "/"@ + model);
}

/// A compaction fails where the conversation has fewer than three messages, whatever came of
/// it, and where nothing came of it.
pub proof fn lemma_compaction_fails_when(s: AgentSession, outcome: Option<(Vec<Message>, usize)>)
    ensures
        s.messages@.len() < 3 ==> s.compaction_failure(outcome) == Some(
            "Nothing to compact (session too small)"@,
        ),
        s.messages@.len() >= 3 && outcome is None ==> s.compaction_failure(outcome) == Some(
            "Compaction failed"@,
        ),
        s.messages@.len() >= 3 && outcome is Some ==> s.compaction_failure(outcome) is None,
{
}

/// A backlog that is set to a number above zero is that number; zero and what is no number
/// set none.
pub proof fn lemma_sync_threshold_is_number(n: u64, setting: Seq<char>)
    ensures
        n > 0 ==> sync_threshold(decimal(n as nat)) == Some(n),
        n == 0 ==> sync_threshold(decimal(n as nat)) is None,
        (exists|i: int| 1 <= i < setting.len() && !crate::text::is_digit(#[trigger] setting[i]))
            ==> sync_threshold(setting) is None,
{
    crate::text::lemma_parse_decimal(n as nat, u64::MAX as nat);
    if exists|i: int| 1 <= i < setting.len() && !crate::text::is_digit(#[trigger] setting[i]) {
        let i = choose|i: int|
            1 <= i < setting.len() && !crate::text::is_digit(#[trigger] setting[i]);
        let digits = crate::text::unsigned_part(setting);
        if digits.len() == setting.len() {
            assert(digits[i] == setting[i]);
        } else {
            assert(digits[i - 1] == setting[i]);
        }
    }
}

/// The advisor runs with the model of its role where it has one, else with that of the
/// session, and only with the tools that read and the one that advises. It has the time and
/// the limits of the session's settings, and has seen what the session says so far.
pub proof fn lemma_advisor_plan_tells(
    plan: AdvisorPlan,
    s: AgentSession,
    role: Option<ScopedModel>,
)
    requires
        is_advisor_plan(plan, s, role),
    ensures
        role is Some ==> plan.model_id@ == role->0.provider@ + "/"@ + role->0.model_id@,
        role is None ==> plan.model_id@ == s.model_id@,
        (plan.provider@ + "/"@).is_prefix_of(plan.model_id@),
        !plan.provider@.contains('/'),
        plan.tools@.len() == 4,
        plan.tools@[0]@ == "read"@,
        plan.tools@[1]@ == "grep"@,
        plan.tools@[2]@ == "find"@,
        plan.tools@[3]@ == "advise"@,
        plan.timeout_seconds == s.settings.tool_timeout_seconds,
        plan.temperature == (if s.settings.default_temperature is Some {
            Some(Temperature::Double(s.settings.default_temperature->0))
        } else if s.settings.temperature is Some {
            Some(Temperature::Single(s.settings.temperature->0))
        } else {
            None
        }),
        plan.max_tokens == (if s.settings.max_response_tokens is Some {
            s.settings.max_response_tokens
        } else if s.settings.max_tokens is Some {
            Some(s.settings.max_tokens->0 as usize)
        } else {
            None
        }),
        plan.compaction_strategy == CompactionStrategy::ThresholdPercent(80),
        plan.context_window == 128_000,
        plan.workspace_dir@ == s.cwd@,
        plan.immune_turns == s.settings.advisor.immune_turns,
        plan.seen_messages == s.messages@.len(),
        s.session_file is None ==> plan.transcript_dir is None,
        s.session_file is Some ==> opt_view(plan.transcript_dir) == parent(s.session_file->0@),
{
    let id = plan.model_id@;
    reveal_strlit("/");
    crate::text::lemma_position_bounds(id, '/');
    let p = crate::text::position(id, '/') as int;
    assert(plan.provider@ == id.take(p));
    assert(plan.provider@ + "/"@ =~= id.subrange(0, p + 1));
    assert forall|i: int| 0 <= i < p implies plan.provider@[i] != '/' by {
        assert(id[i] != '/');
    }
    let tools = views(plan.tools@);
    assert(tools.len() == plan.tools@.len());
    assert(tools == seq!["read"@, "grep"@, "find"@, "advise"@]);
    assert(tools.len() == 4);
    assert(tools[0] == plan.tools@[0]@ && tools[1] == plan.tools@[1]@ && tools[2]
        == plan.tools@[2]@ && tools[3] == plan.tools@[3]@);
    assert(tools[0] == "read"@ && tools[1] == "grep"@ && tools[2] == "find"@ && tools[3]
        == "advise"@);
}

/// A record is seen by its kind, with every text of it.
pub proof fn lemma_record_view_tells(record: LogRecord)
    ensures
        record matches LogRecord::ModelChange { provider, model } ==> record@ == (
        RecordView::ModelChange { provider: provider@, model: model@ }),
        record matches LogRecord::ThinkingLevelChange { level } ==> record@ == (
        RecordView::ThinkingLevelChange { level: level@ }),
        record matches LogRecord::SessionInfo { name } ==> record@ == (RecordView::SessionInfo {
            name: name@,
        }),
{
}

/// What listeners are told of the queues is all that waits in them, in its order, each queue
/// by itself; and what they are told is told last.
pub proof fn lemma_queue_event_tells(s: AgentSession, base: AgentSession, event: EventView)
    ensures
        s.queue_event() is QueueUpdate,
        s.queue_event()->steering.len() == s.queues.steering@.len(),
        s.queue_event()->follow_up.len() == s.queues.follow_up@.len(),
        forall|i: int|
            0 <= i < s.queues.steering@.len() ==> #[trigger] s.queue_event()->steering[i]
                == s.queues.steering@[i]@,
        forall|i: int|
            0 <= i < s.queues.follow_up@.len() ==> #[trigger] s.queue_event()->follow_up[i]
                == s.queues.follow_up@[i]@,
        told(s, base, event) ==> {
            &&& s.outbox@.len() == base.outbox@.len() + 1
            &&& s.outbox@.last()@ == event
            &&& forall|i: int|
                0 <= i < base.outbox@.len() ==> (#[trigger] s.outbox@[i])@ == base.outbox@[i]@
        },
{
    if told(s, base, event) {
        let now = event_views(s.outbox@);
        let before = event_views(base.outbox@);
        assert(now == before.push(event));
        assert(now.len() == s.outbox@.len());
        assert(now[s.outbox@.len() - 1] == s.outbox@.last()@);
        assert forall|i: int| 0 <= i < base.outbox@.len() implies (#[trigger] s.outbox@[i])@
            == base.outbox@[i]@ by {
            assert(now[i] == before[i]);
        }
    }
}

} // verus!
