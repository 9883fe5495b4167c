use oxicode::agent_session::{
    compaction_strategy, AdviceSeverity, AdvisorDeliveryChannel, AdvisorDeliveryState, AgentEvent,
    AgentSession, CompactionConfig, CompactionReason, CompactionStrategy, ExtensionCall,
    ExtensionSignal, ListenerTable, LogRecord, ScopedModel, SessionEvent, SessionQueues,
    SessionStats, ShutdownReason,
};
use oxicode::handoff::HandoffOptions;
use oxicode::messages::{
    AgentMessage, AssistantContentBlock, AssistantMessage, ContentBlock, Message, MessageContent,
    Usage,
};
use oxicode::session_log::{
    provider_api, resume_messages_from_branch, store_message, to_signed, ProviderApi, SessionLog,
};
use oxicode::settings::{Settings, Temperature, ThinkingLevel};

fn session_over(log: SessionLog) -> AgentSession {
    AgentSession::new(
        "anthropic/sonnet-4-20250514".to_string(),
        vec![],
        Settings::default(),
        log,
        "session-1".to_string(),
        None,
        "/tmp/test".to_string(),
        SessionQueues::new(),
        false,
        &vec![],
    )
}

fn make_session() -> AgentSession {
    session_over(SessionLog::new())
}

fn texts(messages: &[Message]) -> Vec<String> {
    messages.iter().map(|m| m.text_content()).collect()
}

fn user(text: &str) -> Message {
    Message::user(text.to_string())
}

fn assistant(blocks: Vec<ContentBlock>) -> Message {
    Message::Assistant(AssistantMessage {
        api: "anthropic-messages".to_string(),
        provider: "anthropic".to_string(),
        model: "sonnet".to_string(),
        content: blocks,
        usage: Usage { input: 1, output: 2, cache_read: 3, cache_write: 4, total_tokens: u64::MAX },
        stop_reason: Some("EndTurn".to_string()),
    })
}

#[test]
fn test_session_creation_basic_fields() {
    let session = make_session();
    assert!(!session.session_id().is_empty());
    assert_eq!(session.cwd(), "/tmp/test");
    assert!(!session.is_streaming());
    assert!(session.messages().is_empty());
}

#[test]
fn test_session_creation_model_id() {
    let session = make_session();
    assert_eq!(session.model_id(), "anthropic/sonnet-4-20250514");
}

#[test]
fn test_session_creation_default_thinking_level() {
    let session = make_session();
    assert_eq!(session.thinking_level(), ThinkingLevel::Medium);
}

#[test]
fn test_session_creation_empty_queues() {
    let session = make_session();
    assert_eq!(session.pending_message_count(), 0);
    assert!(session.steering_messages().is_empty());
    assert!(session.follow_up_messages().is_empty());
}

#[test]
fn test_scoped_models_empty_by_default() {
    let session = make_session();
    assert!(session.scoped_models().is_empty());
}

fn scoped(provider: &str, model_id: &str) -> ScopedModel {
    ScopedModel { provider: provider.to_string(), model_id: model_id.to_string() }
}

#[test]
fn test_set_scoped_models() {
    let mut session = make_session();
    session.set_scoped_models(vec![
        scoped("anthropic", "sonnet-4-20250514"),
        scoped("openai", "gpt-4o"),
        scoped("google", "gemini-2.0-flash"),
    ]);
    let retrieved = session.scoped_models();
    assert_eq!(retrieved.len(), 3);
    assert_eq!(retrieved[0].provider, "anthropic");
    assert_eq!(retrieved[2].model_id, "gemini-2.0-flash");
}

#[test]
fn test_scoped_model_fields() {
    let model = ScopedModel {
        provider: "anthropic".to_string(),
        model_id: "sonnet-4-20250514".to_string(),
    };
    assert_eq!(model.provider, "anthropic");
    assert_eq!(model.model_id, "sonnet-4-20250514");
    assert_eq!(model.id(), "anthropic/sonnet-4-20250514");
}

#[test]
fn models_are_cycled_round_the_list() {
    let mut session = make_session();
    assert_eq!(session.cycle_model(true), None);
    session.set_scoped_models(vec![scoped("openai", "gpt-4o")]);
    assert_eq!(session.cycle_model(true), None);
    session.set_scoped_models(vec![scoped("openai", "gpt-4o"), scoped("google", "gemini")]);
    assert_eq!(session.next_scoped_model().as_deref(), Some("google/gemini"));
    assert_eq!(session.cycle_model(false), None);
    assert_eq!(session.model_id, "anthropic/sonnet-4-20250514");
    assert_eq!(session.cycle_model(true).as_deref(), Some("google/gemini"));
    assert_eq!(session.model_id, "google/gemini");
    assert_eq!(session.cycle_model(true).as_deref(), Some("openai/gpt-4o"));
    assert_eq!(session.settings.last_used_provider.as_deref(), Some("openai"));
    assert_eq!(session.settings.last_used_model.as_deref(), Some("gpt-4o"));
}

#[test]
fn a_model_is_remembered_and_its_change_stored() {
    let mut session = make_session();
    session.set_model("openrouter/anthropic/sonnet");
    assert_eq!(session.settings.last_used_provider.as_deref(), Some("openrouter"));
    assert_eq!(session.settings.last_used_model.as_deref(), Some("anthropic/sonnet"));
    match &session.records[0] {
        LogRecord::ModelChange { provider, model } => {
            assert_eq!((provider.as_str(), model.as_str()), ("openrouter", "anthropic/sonnet"));
        }
        other => panic!("a change of the model was expected, not {other:?}"),
    }
    session.set_model("bare");
    assert_eq!(session.records.len(), 1);
    assert_eq!(session.settings.last_used_provider.as_deref(), Some("openrouter"));
    assert_eq!(session.settings.last_used_model.as_deref(), Some("bare"));
}

#[test]
fn test_set_thinking_level() {
    let mut session = make_session();
    assert_eq!(session.thinking_level(), ThinkingLevel::Medium);

    session.set_thinking_level(ThinkingLevel::High);
    assert_eq!(session.thinking_level(), ThinkingLevel::High);

    session.set_thinking_level(ThinkingLevel::Off);
    assert_eq!(session.thinking_level(), ThinkingLevel::Off);

    session.set_thinking_level(ThinkingLevel::Minimal);
    assert_eq!(session.thinking_level(), ThinkingLevel::Minimal);
    let stored: Vec<String> = session.records.iter().map(|r| format!("{r:?}")).collect();
    assert_eq!(stored[0], "ThinkingLevelChange { level: \"high\" }");
    assert_eq!(stored.len(), 3);
}

#[test]
fn test_set_thinking_level_noop_when_same() {
    let mut session = make_session();
    session.set_thinking_level(ThinkingLevel::Medium);
    assert_eq!(session.thinking_level(), ThinkingLevel::Medium);
    assert!(session.outbox.is_empty());
    assert!(session.records.is_empty());
}

#[test]
fn test_cycle_thinking_level() {
    let mut session = make_session();
    assert_eq!(session.thinking_level(), ThinkingLevel::Medium);

    let next = session.cycle_thinking_level();
    assert_eq!(next, Some(ThinkingLevel::High));
    assert_eq!(session.thinking_level(), ThinkingLevel::High);

    let next = session.cycle_thinking_level();
    assert_eq!(next, Some(ThinkingLevel::XHigh));
    assert_eq!(session.thinking_level(), ThinkingLevel::XHigh);

    assert_eq!(session.cycle_thinking_level(), Some(ThinkingLevel::Off));
    assert_eq!(session.cycle_thinking_level(), Some(ThinkingLevel::Minimal));
    assert_eq!(session.cycle_thinking_level(), Some(ThinkingLevel::Low));
    assert_eq!(session.cycle_thinking_level(), Some(ThinkingLevel::Medium));
    assert_eq!(session.cycle_thinking_level(), Some(ThinkingLevel::High));
    assert_eq!(session.cycle_thinking_level(), Some(ThinkingLevel::XHigh));
}

#[test]
fn test_thinking_level_full_cycle() {
    let levels = [
        ThinkingLevel::Off,
        ThinkingLevel::Minimal,
        ThinkingLevel::Low,
        ThinkingLevel::Medium,
        ThinkingLevel::High,
        ThinkingLevel::XHigh,
    ];
    let mut current = 0;
    for _ in 0..levels.len() {
        current = (current + 1) % levels.len();
    }
    assert_eq!(current, 0);
    for level in levels {
        let mut session = make_session();
        session.set_thinking_level(level);
        for _ in 0..levels.len() {
            session.cycle_thinking_level();
        }
        assert_eq!(session.thinking_level(), level);
    }
}

#[test]
fn test_steer_message() {
    let mut session = make_session();
    session.steer_sync("direction 1".to_string());
    assert_eq!(texts(&session.steering_messages()), vec!["direction 1"]);
    assert_eq!(session.pending_message_count(), 1);
}

#[test]
fn test_follow_up_message() {
    let mut session = make_session();
    session.follow_up_sync("next task".to_string());
    assert_eq!(texts(&session.follow_up_messages()), vec!["next task"]);
    assert_eq!(session.pending_message_count(), 1);
}

#[test]
fn test_multiple_steer_messages() {
    let mut session = make_session();
    session.steer_sync("first".to_string());
    session.steer_sync("second".to_string());
    session.steer_sync("third".to_string());
    assert_eq!(texts(&session.steering_messages()), vec!["first", "second", "third"]);
    assert_eq!(session.pending_message_count(), 3);
}

#[test]
fn test_multiple_follow_up_messages() {
    let mut session = make_session();
    session.follow_up_sync("a".to_string());
    session.follow_up_sync("b".to_string());
    assert_eq!(texts(&session.follow_up_messages()), vec!["a", "b"]);
}

#[test]
fn test_mixed_steer_and_follow_up() {
    let mut session = make_session();
    session.steer_sync("steer-1".to_string());
    session.follow_up_sync("follow-1".to_string());
    session.steer_sync("steer-2".to_string());
    assert_eq!(session.pending_message_count(), 3);
    assert_eq!(texts(&session.steering_messages()), vec!["steer-1", "steer-2"]);
    assert_eq!(texts(&session.follow_up_messages()), vec!["follow-1"]);
}

#[test]
fn listeners_are_told_of_the_queues() {
    let mut session = make_session();
    session.steer_sync("s".to_string());
    match &session.outbox[0] {
        SessionEvent::QueueUpdate { steering, follow_up } => {
            assert_eq!(texts(steering), vec!["s"]);
            assert!(follow_up.is_empty());
        }
        other => panic!("an update of the queues was expected, not {other:?}"),
    }
}

#[test]
fn test_clear_queue() {
    let mut session = make_session();
    session.queues.steering.push_back(user("s1"));
    session.queues.steering.push_back(user("s2"));
    session.queues.follow_up.push_back(user("f1"));
    assert_eq!(session.pending_message_count(), 3);

    let (steering, follow_up) = session.clear_queue();
    assert_eq!(texts(&steering), vec!["s1", "s2"]);
    assert_eq!(texts(&follow_up), vec!["f1"]);
    assert_eq!(session.pending_message_count(), 0);
}

#[test]
fn test_clear_empty_queue() {
    let mut session = make_session();
    let (s, f) = session.clear_queue();
    assert!(s.is_empty());
    assert!(f.is_empty());
}

#[test]
fn abort_stops_and_drops_what_waits() {
    let mut session = make_session();
    session.steer_sync("s".to_string());
    session.abort();
    assert!(session.should_stop);
    assert_eq!(session.pending_message_count(), 0);
    session.reset_should_stop();
    assert!(!session.should_stop);
}

#[test]
fn test_auto_compaction_default_enabled() {
    let mut session = make_session();
    assert!(session.auto_compaction_enabled());
    session.set_auto_compaction(false);
    assert!(!session.auto_compaction_enabled());
}

#[test]
fn test_is_compacting_initially_false() {
    let session = make_session();
    assert!(!session.is_compacting());
}

#[test]
fn test_compaction_reason_variants() {
    assert_eq!(CompactionReason::Manual, CompactionReason::Manual);
    assert_ne!(CompactionReason::Manual, CompactionReason::Threshold);
    assert_ne!(CompactionReason::Threshold, CompactionReason::Overflow);
    assert_ne!(CompactionReason::Manual, CompactionReason::Overflow);
}

#[test]
fn test_compaction_config_default() {
    let config = CompactionConfig::default();
    assert!(config.enabled);
    assert!(f64::from(config.threshold_percent) / 100.0 > 0.0);
}

#[test]
fn a_compaction_is_told_from_its_beginning_to_its_end() {
    let mut session = make_session();
    let err = session.compact(Some((vec![], 1))).err().unwrap();
    assert_eq!(err, "Nothing to compact (session too small)");
    session.messages = vec![user("a"), user("b"), user("c")];
    assert_eq!(session.compact(None).err().unwrap(), "Compaction failed");
    assert_eq!(session.messages.len(), 3);
    session.outbox.clear();
    let result = session.compact(Some((vec![user("kept")], 900))).ok().unwrap();
    assert_eq!(result.tokens_before, 900);
    assert_eq!(session.messages.len(), 1);
    assert_eq!(session.outbox.len(), 2);
    assert!(matches!(
        &session.outbox[0],
        SessionEvent::CompactionStart { reason: CompactionReason::Manual }
    ));
    assert!(matches!(
        &session.outbox[1],
        SessionEvent::CompactionEnd { reason: CompactionReason::Manual, error_message: None }
    ));
}

#[test]
fn a_small_session_is_not_compacted() {
    let mut session = make_session();
    assert_eq!(
        session.check_compaction().err().unwrap(),
        "Nothing to compact (session too small)"
    );
    session.messages = vec![user("a"), user("b"), user("c")];
    assert!(session.check_compaction().is_ok());
    session.begin_compaction();
    let result = session.apply_compaction(vec![user("kept")], 900);
    assert_eq!(result.tokens_before, 900);
    session.end_compaction(None);
    assert_eq!(texts(&session.messages), vec!["kept"]);
    assert_eq!(session.log.entries.len(), 1);
    assert!(matches!(
        session.outbox[0],
        SessionEvent::CompactionStart { reason: CompactionReason::Manual }
    ));
    assert!(matches!(session.outbox[1], SessionEvent::CompactionEnd { .. }));
}

#[test]
fn settings_that_are_read_anew_reach_the_session() {
    let mut session = make_session();
    let mut fresh = Settings::default();
    fresh.auto_compaction = false;
    fresh.thinking_level = ThinkingLevel::Low;
    fresh.workspace_search.enabled = true;
    let (strategy, prompt) = session.rebuild_system_prompt(fresh, true);
    assert_eq!(strategy, CompactionStrategy::Disabled);
    assert_eq!(prompt.thinking_level, ThinkingLevel::Low);
    assert!(prompt.append_system_prompt.unwrap().contains("workspace_search query"));
    assert!(prompt.persona_prompt.is_none());
    let (_, without) = session.rebuild_system_prompt(Settings::default(), true);
    assert!(!without.append_system_prompt.unwrap().contains("workspace_search query"));
    let mut fresh = Settings::default();
    fresh.auto_compaction = false;
    session.rebuild_system_prompt(fresh, false);
    assert!(!session.auto_compaction_enabled());
    assert_eq!(compaction_strategy(true), CompactionStrategy::ThresholdPercent(80));
}

#[test]
fn test_session_stats_empty() {
    let session = make_session();
    let stats = session.session_stats();
    assert!(!stats.session_id.is_empty());
    assert_eq!(stats.user_messages, 0);
    assert_eq!(stats.assistant_messages, 0);
    assert_eq!(stats.tool_calls, 0);
    assert_eq!(stats.tool_results, 0);
    assert_eq!(stats.total_messages, 0);
}

#[test]
fn test_session_stats_default() {
    let stats = SessionStats {
        session_id: "test".to_string(),
        user_messages: 0,
        assistant_messages: 0,
        tool_calls: 0,
        tool_results: 0,
        total_messages: 0,
    };
    assert_eq!(stats.total_messages, 0);
}

fn call(id: &str, name: &str) -> ContentBlock {
    ContentBlock::ToolCall {
        id: id.to_string(),
        name: name.to_string(),
        arguments: "{}".to_string(),
    }
}

fn text_block(text: &str) -> ContentBlock {
    ContentBlock::Text { text: text.to_string() }
}

fn result(id: &str, name: &str, text: &str) -> Message {
    Message::ToolResult {
        tool_call_id: id.to_string(),
        tool_name: name.to_string(),
        content: vec![text_block(text)],
    }
}

#[test]
fn stats_count_every_kind() {
    let mut session = make_session();
    session.messages = vec![
        user("u"),
        assistant(vec![text_block("t"), call("1", "ls"), call("2", "read")]),
        result("1", "ls", "x"),
        result("2", "read", "y"),
        assistant(vec![text_block("done")]),
    ];
    let stats = session.session_stats();
    assert_eq!(stats.user_messages, 1);
    assert_eq!(stats.assistant_messages, 2);
    assert_eq!(stats.tool_calls, 2);
    assert_eq!(stats.tool_results, 2);
    assert_eq!(stats.total_messages, 5);
}

#[test]
fn test_persist_session_empty_messages() {
    let mut session = make_session();
    session.persist_session();
}

#[test]
fn test_persist_session_empty_is_noop() {
    let mut session = make_session();
    session.persist_session();
    assert_eq!(session.log.persisted_count, 0);
}

#[test]
fn test_persist_session_set_persisted_count() {
    let mut session = make_session();
    session.log.persisted_count = 5;
    assert_eq!(session.log.persisted_count, 5);
}

#[test]
fn test_persist_session_idempotent_with_set() {
    let mut session = make_session();
    session.log.persisted_count = 3;
    session.persist_session();
    assert_eq!(session.log.persisted_count, 3);
}

#[test]
fn only_messages_without_an_entry_are_stored() {
    let mut session = make_session();
    session.persist_user_message("one".to_string());
    session.messages = vec![user("one"), assistant(vec![text_block("two")])];
    session.persist();
    assert_eq!(session.log.entries.len(), 2);
    assert_eq!(session.log.persisted_count, 2);
    session.persist();
    assert_eq!(session.log.entries.len(), 2);
}

#[test]
fn test_set_session_name() {
    let mut session = make_session();
    session.set_session_name("My Test Session".to_string());
    assert!(!session.session_id.is_empty());
    assert!(matches!(session.outbox[0], SessionEvent::SessionInfoChanged));
}

#[test]
fn test_subscribe_receives_events() {
    let mut session = make_session();
    session.set_thinking_level(ThinkingLevel::High);
    let events: Vec<String> = session.outbox.iter().map(|e| format!("{e:?}")).collect();
    assert!(!events.is_empty(), "Listener should receive at least one event");
    assert!(events.iter().any(|e| e.contains("ThinkingLevelChanged")));
}

#[test]
fn test_subscribe_channel_with_guard() {
    let mut session = make_session();
    session.set_thinking_level(ThinkingLevel::Off);
    match &session.outbox[0] {
        SessionEvent::ThinkingLevelChanged { level } => assert_eq!(*level, ThinkingLevel::Off),
        other => panic!("Expected ThinkingLevelChanged, got {:?}", other),
    }
}

#[test]
fn test_reset_clears_queues_and_overflow() {
    let mut session = make_session();
    session.queues.steering.push_back(user("steer"));
    session.queues.follow_up.push_back(user("follow"));
    session.overflow_recovery_attempted = true;

    assert_eq!(session.pending_message_count(), 2);

    session.reset();
    assert_eq!(session.pending_message_count(), 0);
    assert!(!session.overflow_recovery_attempted);
}

#[test]
fn test_no_extension_runner_by_default() {
    let session = make_session();
    assert!(!session.has_extension_runner);
}

#[test]
fn test_extension_tools_empty_without_runner() {
    let session = make_session();
    assert!(session.extension_tools(vec![1, 2]).is_empty());
}

#[test]
fn test_extension_commands_empty_without_runner() {
    let session = make_session();
    assert!(session.extension_commands(vec!["c"]).is_empty());
}

#[test]
fn test_has_extension_handlers_false_without_runner() {
    let session = make_session();
    assert!(!session.has_extension_handlers(true));
}

#[test]
fn extensions_are_asked_where_a_runner_is_installed() {
    let mut session = make_session();
    assert_eq!(session.emit_before_tool_call("blocked", "free"), "free");
    assert_eq!(session.emit_after_tool_result("changed", "same"), "same");
    assert!(session.notify_extensions_settings_changed().is_none());
    session.set_extension_runner();
    assert_eq!(session.extension_tools(vec![1, 2]), vec![1, 2]);
    assert_eq!(session.extension_commands(vec!["c"]), vec!["c"]);
    assert!(session.has_extension_handlers(true));
    assert!(!session.has_extension_handlers(false));
    assert_eq!(session.emit_before_tool_call("blocked", "free"), "blocked");
    assert_eq!(session.emit_after_tool_result("changed", "same"), "changed");
    assert_eq!(session.notify_extensions_settings_changed().unwrap().theme, "default");
}

#[test]
fn a_session_knows_its_own_listing() {
    let mut session = make_session();
    assert!(session.own_listing().is_none() && session.session_file().is_none());
    session.session_file = Some("/s/2026.01.abc.jsonl".to_string());
    assert_eq!(session.own_listing().as_deref(), Some("2026.01.abc"));
    assert_eq!(session.session_file().as_deref(), Some("/s/2026.01.abc.jsonl"));
    assert_eq!(session.session_dir().as_deref(), Some("/s"));
    assert_eq!(make_session().session_dir(), None);
    session.set_streaming(true);
    assert!(session.is_streaming());
    assert_eq!((session.steering_mode(), session.follow_up_mode()), ("all", "all"));
    session.set_steering_mode("system".to_string());
    session.set_follow_up_mode("system".to_string());
    assert_eq!((session.steering_mode(), session.follow_up_mode()), ("system", "system"));
}

#[test]
fn extension_runners_are_told_in_order() {
    let mut session = make_session();
    let (former, fresh) = session.set_extension_runner();
    assert!(former.is_empty());
    assert_eq!(fresh, vec![ExtensionSignal::Load, ExtensionSignal::SessionStart]);
    let (former, _) = session.set_extension_runner();
    assert_eq!(
        former,
        vec![
            ExtensionSignal::Shutdown(ShutdownReason::Reload),
            ExtensionSignal::SessionEnd,
            ExtensionSignal::Unload
        ]
    );
    assert_eq!(
        session.take_extension_runner()[0],
        ExtensionSignal::Shutdown(ShutdownReason::Quit)
    );
    assert!(session.take_extension_runner().is_empty());
}

#[test]
fn events_reach_the_extensions_only_with_a_runner() {
    let event = || AgentEvent::ToolCall { name: "ls".to_string(), arguments: "{}".to_string() };
    let mut session = make_session();
    let (turn, call) = session.forward_event_to_extensions(event());
    assert!(turn.is_none() && call.is_none());
    session.set_extension_runner();
    let (_, call) = session.forward_event_to_extensions(event());
    assert!(matches!(call, Some(ExtensionCall::ToolCall { name, .. }) if name == "ls"));
    let end = AgentEvent::ToolExecutionEnd {
        tool_name: "ls".to_string(),
        content: "out".to_string(),
    };
    let (_, call) = session.forward_event_to_extensions(end);
    assert!(matches!(call, Some(ExtensionCall::ToolResult { content, .. }) if content == "out"));
    assert_eq!(session.outbox.len(), 3);
}

#[test]
fn test_auto_retry_enabled() {
    let session = make_session();
    assert!(session.auto_retry_enabled());
}

#[test]
fn retrying_can_be_turned_off() {
    let mut session = make_session();
    session.set_auto_retry(false);
    assert!(!session.auto_retry_enabled());
    session.set_auto_retry(true);
    assert!(session.auto_retry_enabled());
    session.retry_waiting = true;
    session.cancel_auto_retry();
    assert!(!session.retry_waiting && session.auto_retry_enabled());
}

#[test]
fn a_compaction_can_be_ended() {
    let mut session = make_session();
    session.compacting = true;
    assert!(session.is_compacting());
    session.abort_compaction_sync();
    assert!(!session.is_compacting());
}

#[test]
fn texts_are_queued_without_fail() {
    let mut session = make_session();
    assert!(session.steer("now".to_string()).is_ok());
    assert!(session.follow_up("later".to_string()).is_ok());
    assert_eq!(session.steering_messages()[0].text_content(), "now");
    assert_eq!(session.follow_up_messages()[0].text_content(), "later");
}

#[test]
fn a_branch_holds_the_entries_up_to_one() {
    let mut session = make_session();
    for text in ["one", "two", "three"] {
        session.persist_user_message(text.to_string());
    }
    let ids: Vec<String> = ["a", "b", "c"].iter().map(|id| id.to_string()).collect();
    let branch = session.branch_from_entry(&ids, "b").unwrap();
    assert_eq!(branch.entries.len(), 2);
    assert!(matches!(&branch.entries[1], AgentMessage::User { content } if content == "two"));
    assert!(session.branch_from_entry(&ids, "z").is_none());
    assert_eq!(session.log.entries.len(), 3);
}

#[test]
fn test_listener_guard_drop_removes() {
    let mut table = ListenerTable::new();
    let key = table.subscribe();
    let mut received = 0;
    if table.is_active(key) {
        received += 1;
    }
    table.unsubscribe(key);
    if table.is_active(key) {
        received += 1;
    }
    assert_eq!(received, 1);
    let other = table.subscribe();
    assert_eq!(other, 1);
    assert!(table.is_active(other));
    table.unsubscribe(99);
    assert!(table.is_active(other));
}

#[test]
fn resume_reconstructs_tool_call_and_result() {
    let branch = vec![
        AgentMessage::User { content: "list files".to_string() },
        AgentMessage::Assistant {
            content: vec![
                AssistantContentBlock::Text { text: "Running ls".to_string() },
                AssistantContentBlock::ToolCall {
                    id: "call_1".to_string(),
                    name: "ls".to_string(),
                    arguments: "{}".to_string(),
                },
            ],
            provider: Some("anthropic".to_string()),
            model_id: Some("sonnet-4-20250514".to_string()),
            usage: None,
            stop_reason: None,
        },
        AgentMessage::ToolResult {
            content: "file_a\nfile_b".to_string(),
            tool_call_id: "call_1".to_string(),
        },
    ];

    let messages = resume_messages_from_branch(&branch, &vec![]);
    assert_eq!(messages.len(), 3, "all three turns reconstructed");

    assert!(matches!(messages[0], Message::User { .. }));
    let assistant = match &messages[1] {
        Message::Assistant(a) => a,
        _ => panic!("expected assistant message"),
    };
    assert_eq!(assistant.content.len(), 2);
    assert!(assistant.content.iter().any(
        |b| matches!(b, ContentBlock::ToolCall { id, name, .. } if id == "call_1" && name == "ls")
    ));
    match &messages[2] {
        Message::ToolResult { tool_call_id, tool_name, content } => {
            assert_eq!(tool_call_id, "call_1");
            assert_eq!(tool_name, "ls", "tool name resolved from the call");
            assert!(content.iter().any(
                |b| matches!(b, ContentBlock::Text { text } if text.contains("file_a"))
            ));
        }
        _ => panic!("expected tool result message"),
    }
}

#[test]
fn resume_skips_non_conversation_entries() {
    let branch = vec![
        AgentMessage::System { content: "sys note".to_string() },
        AgentMessage::User { content: "hello".to_string() },
        AgentMessage::BashExecution {
            command: "echo hi".to_string(),
            output: "hi".to_string(),
            exit_code: Some(0),
        },
    ];
    let messages = resume_messages_from_branch(&branch, &vec![]);
    assert_eq!(messages.len(), 1, "only the user turn remains");
    assert!(matches!(messages[0], Message::User { .. }));
}

#[test]
fn resume_honours_compaction_summary() {
    let branch = vec![
        AgentMessage::User { content: "old prompt".to_string() },
        AgentMessage::CompactionSummary {
            summary: "We discussed X.".to_string(),
            tokens_before: 1000,
            timestamp: 0,
        },
        AgentMessage::User { content: "new prompt".to_string() },
    ];
    let messages = resume_messages_from_branch(&branch, &vec![]);
    assert_eq!(messages.len(), 2);
    let first_text = match &messages[0] {
        Message::User { content: MessageContent::Text(t) } => t.clone(),
        _ => panic!("expected summary as user message"),
    };
    assert!(first_text.contains("We discussed X."));
    assert_eq!(first_text, "[Summary of earlier conversation]\nWe discussed X.");
}

#[test]
fn resume_empty_branch_is_empty() {
    let messages = resume_messages_from_branch(&vec![], &vec![]);
    assert!(messages.is_empty());
}

#[test]
fn what_is_not_replayed() {
    let branch = vec![
        AgentMessage::CompactionSummary {
            summary: String::new(),
            tokens_before: 0,
            timestamp: 0,
        },
        AgentMessage::Assistant {
            content: vec![
                AssistantContentBlock::Refusal { refusal: "no".to_string() },
                AssistantContentBlock::ToolPlan { plan: "p".to_string() },
            ],
            provider: None,
            model_id: None,
            usage: None,
            stop_reason: None,
        },
        AgentMessage::ToolResult {
            content: "orphan".to_string(),
            tool_call_id: "unknown".to_string(),
        },
        AgentMessage::Custom { content: "c".to_string() },
        AgentMessage::BranchSummary { summary: "b".to_string() },
        AgentMessage::Assistant {
            content: vec![AssistantContentBlock::Thinking { thinking: "hm".to_string() }],
            provider: None,
            model_id: None,
            usage: None,
            stop_reason: None,
        },
    ];
    let messages = resume_messages_from_branch(&branch, &vec![]);
    assert_eq!(messages.len(), 2);
    assert!(matches!(&messages[0], Message::ToolResult { tool_name, .. } if tool_name == "tool"));
    match &messages[1] {
        Message::Assistant(a) => {
            assert_eq!((a.provider.as_str(), a.model.as_str()), ("assistant", "assistant"));
            assert_eq!(a.api, "openai-completions");
            assert_eq!(a.usage, Usage::default());
        }
        _ => panic!("a response was expected"),
    }
}

#[test]
fn the_api_of_a_provider_comes_from_the_table() {
    let apis = vec![ProviderApi {
        provider: "anthropic".to_string(),
        api: "anthropic-messages".to_string(),
    }];
    assert_eq!(provider_api(&apis, &Some("anthropic".to_string())), "anthropic-messages");
    assert_eq!(provider_api(&apis, &Some("other".to_string())), "openai-completions");
    assert_eq!(provider_api(&apis, &None), "openai-completions");
}

#[test]
fn new_seeds_agent_state_from_resumed_session() {
    let mut log = SessionLog::new();
    log.append_message(AgentMessage::User { content: "what is 2+2".to_string() });
    log.append_message(AgentMessage::Assistant {
        content: vec![AssistantContentBlock::Text { text: "4".to_string() }],
        provider: Some("anthropic".to_string()),
        model_id: Some("sonnet-4-20250514".to_string()),
        usage: None,
        stop_reason: None,
    });
    let before_count = log.entries.len();

    let mut session = session_over(log);
    assert_eq!(session.messages.len(), 2, "agent state seeded with prior history");
    assert!(matches!(session.messages[0], Message::User { .. }));
    assert_eq!(session.log.entries.len(), before_count);

    session.persist_session();
    assert_eq!(
        session.log.entries.len(),
        before_count,
        "persist_session must not duplicate seeded history"
    );
}

#[test]
fn a_stored_conversation_comes_back() {
    let conversation = vec![
        user("list"),
        assistant(vec![
            ContentBlock::Thinking { thinking: "hm".to_string() },
            text_block("running"),
            call("c1", "ls"),
            ContentBlock::Image { data: "AA".to_string(), mime_type: "image/png".to_string() },
        ]),
        result("c1", "ls", "files"),
    ];
    let mut log = SessionLog::new();
    for m in &conversation {
        log.persist_event_message(m);
    }
    assert_eq!(log.persisted_count, 3);
    let back = resume_messages_from_branch(&log.entries, &vec![]);
    assert_eq!(texts(&back), texts(&conversation));
    match (&back[1], &conversation[1]) {
        (Message::Assistant(a), Message::Assistant(b)) => {
            assert_eq!(format!("{:?}", a.content), format!("{:?}", b.content));
            assert_eq!(a.provider, b.provider);
            assert_eq!(a.model, b.model);
        }
        _ => panic!("responses were expected"),
    }
    assert_eq!(format!("{:?}", back[2]), format!("{:?}", conversation[2]));
}

#[test]
fn blocks_are_stored_as_text() {
    let m = Message::User {
        content: MessageContent::Blocks(vec![
            text_block("a"),
            ContentBlock::Image { data: "AA".to_string(), mime_type: "image/png".to_string() },
            text_block("b"),
        ]),
    };
    assert!(matches!(store_message(&m), AgentMessage::User { content } if content == "ab"));
    let odd = assistant(vec![ContentBlock::Unknown { value: "{\"x\":1}".to_string() }]);
    match store_message(&odd) {
        AgentMessage::Assistant { content, usage, stop_reason, .. } => {
            assert!(
                matches!(&content[0], AssistantContentBlock::Text { text } if text == "{\"x\":1}")
            );
            assert_eq!(usage.unwrap().total_tokens, Some(-1));
            assert_eq!(usage.unwrap().cache_write, Some(4));
            assert_eq!(stop_reason.as_deref(), Some("EndTurn"));
        }
        _ => panic!("a response was expected"),
    }
    assert_eq!(to_signed(7), 7);
    assert_eq!(to_signed(1 << 63), i64::MIN);
}

#[test]
fn advice_reaches_the_session_by_its_channel() {
    let mut session = make_session();
    session.enqueue_advice(false, AdvisorDeliveryChannel::Steer, "no".to_string());
    assert_eq!(session.pending_message_count(), 0);
    session.advisor_primary_turns = 4;
    session.enqueue_advice(true, AdvisorDeliveryChannel::Steer, "stop".to_string());
    assert_eq!(texts(&session.steering_messages()), vec!["stop"]);
    assert_eq!(session.advisor_delivery.interrupt_immune_turn_start, Some(5));
    session.enqueue_advice(true, AdvisorDeliveryChannel::Aside, "note".to_string());
    assert_eq!(session.outbox.len(), 1);
    assert!(matches!(&session.outbox[0], SessionEvent::Advisor { body, .. } if body == "note"));
    let opts = session.delivery_opts(AdviceSeverity::Concern, true);
    assert!(opts.interrupt_immune_turn_active && !opts.aborting);
    session.reset_advisor_state();
    assert_eq!(session.advisor_delivery, AdvisorDeliveryState::default());
    assert_eq!(session.advisor_primary_turns, 0);
}

#[test]
fn the_advisor_is_turned_on_and_off() {
    let mut session = make_session();
    assert!(!session.is_advisor_enabled());
    assert_eq!(
        session.set_advisor_enabled(true, false).err().unwrap(),
        "advisor could not start: no provider/model resolved for the advisor role or the primary model"
    );
    assert!(!session.is_advisor_enabled());
    assert!(session.settings.advisor.enabled);
    assert_eq!(session.toggle_advisor(true), Ok(true));
    assert!(session.is_advisor_enabled());
    assert_eq!(session.set_advisor_enabled(true, false), Ok(true));
    session.advisor_primary_turns = 12;
    assert_eq!(
        session.advisor_status(3),
        "advisor: ON | backlog 3 turn(s) behind | 12 primary turn(s) observed"
    );
    assert_eq!(session.toggle_advisor(true), Ok(false));
    assert_eq!(
        session.advisor_status(3),
        "advisor: OFF | backlog 0 turn(s) behind | 12 primary turn(s) observed"
    );
}

#[test]
fn the_end_of_a_turn_is_counted_and_may_be_waited_for() {
    let mut session = make_session();
    assert!(session.on_advisor_turn_end().is_none());
    assert_eq!(session.advisor_primary_turns, 1);
    session.advisor_running = true;
    assert_eq!(session.on_advisor_turn_end().unwrap().catch_up_to, None);
    session.settings.advisor.sync_backlog = "3".to_string();
    let turn = session.on_advisor_turn_end().unwrap();
    assert_eq!((turn.catch_up_to, turn.wait_ms), (Some(3), 30_000));
    session.settings.advisor.sync_backlog = "0".to_string();
    assert_eq!(session.on_advisor_turn_end().unwrap().catch_up_to, None);
    let (turn, _) = session.forward_event_to_extensions(AgentEvent::TurnEnd);
    assert!(turn.is_some());
    assert_eq!(session.advisor_primary_turns, 5);
}

#[test]
fn the_plan_of_an_advisor() {
    let mut session = make_session();
    session.settings.temperature = Some(1);
    session.messages = vec![user("u")];
    let plan = session.build_advisor(&Some(scoped("openai", "gpt-4o"))).unwrap();
    assert_eq!(plan.model_id, "openai/gpt-4o");
    assert_eq!(plan.provider, "openai");
    assert_eq!(plan.temperature, Some(Temperature::Single(1)));
    assert_eq!(plan.seen_messages, 1);
    assert_eq!(plan.context_window, 128_000);
    assert_eq!(plan.tools, vec!["read", "grep", "find", "advise"]);
    assert_eq!((plan.runtime_delay_ms, plan.transcript_dir), (1000, None));
    assert_eq!(session.build_advisor(&None).unwrap().provider, "anthropic");
    session.model_id = "bare".to_string();
    assert!(session.build_advisor(&None).is_none());
}

#[test]
fn a_session_is_handed_over() {
    let mut session = make_session();
    session.messages = vec![user("u")];
    session.persist();
    let dry = HandoffOptions { slug: None, auto_continue: true, dry_run: true };
    session.apply_handoff("d.md".to_string(), &dry, "s2".to_string(), None);
    assert_eq!(session.session_id, "session-1");
    session.apply_handoff(
        "d.md".to_string(),
        &HandoffOptions::default(),
        "s2".to_string(),
        Some("s2.jsonl".to_string()),
    );
    assert_eq!(session.session_id, "s2");
    assert!(session.messages.is_empty() && session.log.entries.is_empty());
    assert!(matches!(
        session.outbox.last(),
        Some(SessionEvent::HandoffComplete { auto_continue: true, .. })
    ));
    session.emit_handoff_failed("e".to_string());
    assert!(matches!(session.outbox.last(), Some(SessionEvent::HandoffFailed { .. })));
}

#[test]
fn what_is_kept_of_a_stored_conversation() {
    let mut log = SessionLog::new();
    let call = AssistantMessage {
        api: "x".to_string(),
        provider: "p".to_string(),
        model: "m".to_string(),
        content: vec![
            ContentBlock::Unknown { value: "odd".to_string() },
            ContentBlock::ToolCall {
                id: "c1".to_string(),
                name: "read".to_string(),
                arguments: "{}".to_string(),
            },
        ],
        usage: Usage::default(),
        stop_reason: Some("tool_use".to_string()),
    };
    let empty = AssistantMessage {
        api: "x".to_string(),
        provider: "p".to_string(),
        model: "m".to_string(),
        content: vec![],
        usage: Usage::default(),
        stop_reason: None,
    };
    let messages = vec![
        user("go"),
        Message::Assistant(call),
        Message::ToolResult {
            tool_call_id: "c1".to_string(),
            tool_name: "renamed".to_string(),
            content: vec![
                ContentBlock::Text { text: "a".to_string() },
                ContentBlock::Text { text: "b".to_string() },
            ],
        },
        Message::Assistant(empty),
    ];
    log.persist_session(&messages);
    assert_eq!(log.entries.len(), 4);
    let back = resume_messages_from_branch(&log.entries, &vec![]);
    assert_eq!(back.len(), 3);
    match &back[1] {
        Message::Assistant(a) => {
            assert!(matches!(&a.content[0], ContentBlock::Text { text } if text == "odd"));
            assert!(a.stop_reason.is_none());
            assert_eq!(a.api, "openai-completions");
        }
        _ => panic!("a response was expected"),
    }
    match &back[2] {
        Message::ToolResult { tool_name, content, .. } => {
            assert_eq!(tool_name, "read");
            assert_eq!(content.len(), 1);
            assert_eq!(back[2].text_content(), messages[2].text_content());
        }
        _ => panic!("a result was expected"),
    }
    let mut again = SessionLog::new();
    again.persist_session(&back);
    let twice = resume_messages_from_branch(&again.entries, &vec![]);
    assert_eq!(texts(&twice), texts(&back));
}

#[test]
fn stored_entries_stay_as_they_are() {
    let mut log = SessionLog::new();
    log.append_message(AgentMessage::CompactionSummary {
        summary: "s".to_string(),
        tokens_before: 9,
        timestamp: 4,
    });
    log.append_message(AgentMessage::System { content: "sys".to_string() });
    log.persist_session(&vec![user("a"), user("b"), user("c")]);
    assert_eq!(log.entries.len(), 3);
    assert!(matches!(
        &log.entries[0],
        AgentMessage::CompactionSummary { tokens_before: 9, timestamp: 4, .. }
    ));
    assert!(matches!(&log.entries[1], AgentMessage::System { content } if content == "sys"));
}
