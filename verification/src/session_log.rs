//! The log of a session: storing the messages of a conversation, and restoring a
//! conversation from what was stored.

use crate::messages::{
    block_views, blocks_text, content_text, copy_opt, entry_views, message_views, opt_view,
    stored_views, text_of_blocks, user_text, AgentMessage, AssistantContentBlock, AssistantMessage,
    AssistantView, BlockView, ContentBlock, EntryView, Message, MessageView,
    StoredBlockView, StoredUsage, Usage,
};
use crate::text::str_eq;
use vstd::prelude::*;

verus! {

/// The API that a provider speaks.
#[derive(Debug)]
pub struct ProviderApi {
    pub provider: String,
    pub api: String,
}

/// The API of a provider that is not known.
pub open spec fn fallback_api() -> Seq<char> {
    "openai-completions"@
}

/// The API of a provider: that of its first line in the table.
pub open spec fn api_of(apis: Seq<ProviderApi>, provider: Option<Seq<char>>) -> Seq<char>
    decreases apis.len(),
{
    if apis.len() == 0 || provider is None {
        fallback_api()
    } else if apis[0].provider@ == provider->0 {
        apis[0].api@
    } else {
        api_of(apis.drop_first(), provider)
    }
}

/// A count as a signed number, by its two's complement.
pub open spec fn signed(n: u64) -> int {
    if n <= i64::MAX {
        n as int
    } else {
        n - 0x1_0000_0000_0000_0000
    }
}

/// A count as a signed number, by its two's complement.
pub fn to_signed(n: u64) -> (r: i64)
    ensures
        r == signed(n),
{
    if n <= 0x7fff_ffff_ffff_ffff {
        n as i64
    } else {
        -((u64::MAX - n) as i64) - 1
    }
}

/// A block as a session stores it.
pub open spec fn stored_block(block: BlockView) -> StoredBlockView {
    match block {
        BlockView::Text { text } => StoredBlockView::Text { text },
        BlockView::Thinking { thinking } => StoredBlockView::Thinking { thinking },
        BlockView::ToolCall { id, name, arguments } => StoredBlockView::ToolCall {
            id,
            name,
            arguments,
        },
        BlockView::Image { data, mime_type } => StoredBlockView::ImageResult {
            data,
            media_type: mime_type,
        },
        BlockView::Unknown { value } => StoredBlockView::Text { text: value },
    }
}

/// The blocks as a session stores them.
pub open spec fn stored_blocks(blocks: Seq<BlockView>) -> Seq<StoredBlockView> {
    Seq::new(blocks.len(), |i: int| stored_block(blocks[i]))
}

/// The tokens that a response took, as a session stores them.
pub open spec fn stored_usage(usage: Usage) -> StoredUsage {
    StoredUsage {
        input: Some(signed(usage.input) as i64),
        output: Some(signed(usage.output) as i64),
        cache_read: Some(signed(usage.cache_read) as i64),
        cache_write: Some(signed(usage.cache_write) as i64),
        total_tokens: Some(signed(usage.total_tokens) as i64),
    }
}

/// A message as a session stores it.
pub open spec fn stored(message: MessageView) -> EntryView {
    match message {
        MessageView::User { content } => EntryView::User { content: content_text(content) },
        MessageView::Assistant(a) => EntryView::Assistant {
            content: stored_blocks(a.content),
            provider: Some(a.provider),
            model_id: Some(a.model),
            usage: Some(stored_usage(a.usage)),
            stop_reason: a.stop_reason,
        },
        MessageView::ToolResult { tool_call_id, tool_name: _, content } => EntryView::ToolResult {
            content: blocks_text(content),
            tool_call_id,
        },
    }
}

/// The messages as a session stores them.
pub open spec fn stored_all(messages: Seq<MessageView>) -> Seq<EntryView> {
    Seq::new(messages.len(), |i: int| stored(messages[i]))
}

/// The blocks as a session stores them.
pub fn store_blocks(blocks: &Vec<ContentBlock>) -> (r: Vec<AssistantContentBlock>)
    ensures
        stored_views(r@) == stored_blocks(block_views(blocks@)),
{
    let mut out: Vec<AssistantContentBlock> = Vec::new();
    let mut i: usize = 0;
    while i < blocks.len()
        invariant
            i <= blocks@.len(),
            out@.len() == i,
            forall|j: int| 0 <= j < i ==> (#[trigger] out@[j])@ == stored_block(blocks@[j]@),
        decreases blocks@.len() - i,
    {
        let block = match &blocks[i] {
            ContentBlock::Text { text } => AssistantContentBlock::Text { text: text.clone() },
            ContentBlock::Thinking { thinking } => AssistantContentBlock::Thinking {
                thinking: thinking.clone(),
            },
            ContentBlock::ToolCall { id, name, arguments } => AssistantContentBlock::ToolCall {
                id: id.clone(),
                name: name.clone(),
                arguments: arguments.clone(),
            },
            ContentBlock::Image { data, mime_type } => AssistantContentBlock::ImageResult {
                data: data.clone(),
                media_type: mime_type.clone(),
            },
            ContentBlock::Unknown { value } => AssistantContentBlock::Text { text: value.clone() },
        };
        out.push(block);
        i += 1;
    }
    proof {
        assert(stored_views(out@) =~= stored_blocks(block_views(blocks@)));
    }
    out
}

/// A message as a session stores it.
pub fn store_message(message: &Message) -> (r: AgentMessage)
    ensures
        r@ == stored(message@),
{
    match message {
        Message::User { content } => AgentMessage::User { content: content.text() },
        Message::Assistant(a) => AgentMessage::Assistant {
            content: store_blocks(&a.content),
            provider: Some(a.provider.clone()),
            model_id: Some(a.model.clone()),
            usage: Some(
                StoredUsage {
                    input: Some(to_signed(a.usage.input)),
                    output: Some(to_signed(a.usage.output)),
                    cache_read: Some(to_signed(a.usage.cache_read)),
                    cache_write: Some(to_signed(a.usage.cache_write)),
                    total_tokens: Some(to_signed(a.usage.total_tokens)),
                },
            ),
            stop_reason: copy_opt(&a.stop_reason),
        },
        Message::ToolResult { tool_call_id, tool_name: _, content } => AgentMessage::ToolResult {
            content: text_of_blocks(content),
            tool_call_id: tool_call_id.clone(),
        },
    }
}

/// A block as a model sees it again; some are not replayed.
pub open spec fn replayed_block(block: StoredBlockView) -> Option<BlockView> {
    match block {
        StoredBlockView::Text { text } => Some(BlockView::Text { text }),
        StoredBlockView::Thinking { thinking } => Some(BlockView::Thinking { thinking }),
        StoredBlockView::ToolCall { id, name, arguments } => Some(
            BlockView::ToolCall { id, name, arguments },
        ),
        StoredBlockView::ImageResult { data, media_type } => Some(
            BlockView::Image { data, mime_type: media_type },
        ),
        StoredBlockView::Refusal { .. } => None,
        StoredBlockView::ToolPlan { .. } => None,
    }
}

/// The blocks that a model sees again.
pub open spec fn replayed_blocks(blocks: Seq<StoredBlockView>) -> Seq<BlockView>
    decreases blocks.len(),
{
    if blocks.len() == 0 {
        Seq::empty()
    } else {
        let front = replayed_blocks(blocks.drop_last());
        match replayed_block(blocks.last()) {
            Some(block) => front.push(block),
            None => front,
        }
    }
}

/// The names of the tools by the identifiers of their calls, with the calls among the
/// blocks added.
pub open spec fn with_calls(
    names: Map<Seq<char>, Seq<char>>,
    blocks: Seq<StoredBlockView>,
) -> Map<Seq<char>, Seq<char>>
    decreases blocks.len(),
{
    if blocks.len() == 0 {
        names
    } else {
        let front = with_calls(names, blocks.drop_last());
        match blocks.last() {
            StoredBlockView::ToolCall { id, name, .. } => front.insert(id, name),
            _ => front,
        }
    }
}

/// The tool names that are known after an entry.
pub open spec fn names_after(names: Map<Seq<char>, Seq<char>>, entry: EntryView) -> Map<
    Seq<char>,
    Seq<char>,
> {
    match entry {
        EntryView::Assistant { content, .. } => with_calls(names, content),
        _ => names,
    }
}

/// A text, or a default where there is none.
pub open spec fn text_or(text: Option<Seq<char>>, default: Seq<char>) -> Seq<char> {
    match text {
        Some(s) => s,
        None => default,
    }
}

/// The name of a tool by the identifier of its call, or that of no tool in particular.
pub open spec fn name_of_call(names: Map<Seq<char>, Seq<char>>, id: Seq<char>) -> Seq<char> {
    if names.contains_key(id) {
        names[id]
    } else {
        "tool"@
    }
}

/// The message that an entry stands for, where it is part of the conversation. The
/// tool names are those known after the entry.
pub open spec fn replayed(
    entry: EntryView,
    names: Map<Seq<char>, Seq<char>>,
    apis: Seq<ProviderApi>,
) -> Option<MessageView> {
    match entry {
        EntryView::CompactionSummary { summary, .. } => if summary.len() == 0 {
            None
        } else {
            Some(user_text("[Summary of earlier conversation]\n"@ + summary))
        },
        EntryView::User { content } => Some(user_text(content)),
        EntryView::Assistant { content, provider, model_id, .. } => {
            let blocks = replayed_blocks(content);
            if blocks.len() == 0 {
                None
            } else {
                Some(
                    MessageView::Assistant(
                        AssistantView {
                            api: api_of(apis, provider),
                            provider: text_or(provider, "assistant"@),
                            model: text_or(model_id, "assistant"@),
                            content: blocks,
                            usage: Usage::zero(),
                            stop_reason: None,
                        },
                    ),
                )
            }
        },
        EntryView::ToolResult { content, tool_call_id } => Some(
            MessageView::ToolResult {
                tool_call_id,
                tool_name: name_of_call(names, tool_call_id),
                content: seq![BlockView::Text { text: content }],
            },
        ),
        _ => None,
    }
}

/// The tool names that are known after some entries.
pub open spec fn names_after_all(entries: Seq<EntryView>) -> Map<Seq<char>, Seq<char>>
    decreases entries.len(),
{
    if entries.len() == 0 {
        Map::empty()
    } else {
        names_after(names_after_all(entries.drop_last()), entries.last())
    }
}

/// The conversation that some entries stand for.
pub open spec fn replay(entries: Seq<EntryView>, apis: Seq<ProviderApi>) -> Seq<MessageView>
    decreases entries.len(),
{
    if entries.len() == 0 {
        Seq::empty()
    } else {
        let front = replay(entries.drop_last(), apis);
        match replayed(entries.last(), names_after_all(entries), apis) {
            Some(message) => front.push(message),
            None => front,
        }
    }
}

/// The place of the last summary of a compaction, or the start.
pub open spec fn last_compaction(entries: Seq<EntryView>) -> nat
    decreases entries.len(),
{
    if entries.len() == 0 || entries.last() is CompactionSummary {
        if entries.len() == 0 {
            0
        } else {
            (entries.len() - 1) as nat
        }
    } else {
        last_compaction(entries.drop_last())
    }
}

/// The conversation that a branch stands for: what comes before the last summary of a
/// compaction is left out, since the summary replaced it.
pub open spec fn resumed(entries: Seq<EntryView>, apis: Seq<ProviderApi>) -> Seq<MessageView> {
    replay(entries.skip(last_compaction(entries) as int), apis)
}

/// The name of the tool that a call went to.
struct NamedCall {
    id: String,
    name: String,
}

/// The names by identifier; a later call takes the place of an earlier one.
spec fn call_names(calls: Seq<NamedCall>) -> Map<Seq<char>, Seq<char>>
    decreases calls.len(),
{
    if calls.len() == 0 {
        Map::empty()
    } else {
        call_names(calls.drop_last()).insert(calls.last().id@, calls.last().name@)
    }
}

proof fn lemma_call_names(calls: Seq<NamedCall>, id: Seq<char>, i: int)
    requires
        -1 <= i < calls.len(),
        i >= 0 ==> calls[i].id@ == id,
        forall|j: int| i < j < calls.len() ==> (#[trigger] calls[j]).id@ != id,
    ensures
        call_names(calls).contains_key(id) == (i >= 0),
        i >= 0 ==> call_names(calls)[id] == calls[i].name@,
    decreases calls.len(),
{
    if calls.len() > 0 && i < calls.len() - 1 {
        let front = calls.drop_last();
        assert(calls[calls.len() - 1].id@ != id);
        assert forall|j: int| i < j < front.len() implies (#[trigger] front[j]).id@ != id by {
            assert(calls[j].id@ != id);
        }
        lemma_call_names(front, id, i);
    }
}

/// The name of the tool that a call went to.
fn find_call(calls: &Vec<NamedCall>, id: &str) -> (r: Option<String>)
    ensures
        match r {
            Some(name) => call_names(calls@).contains_key(id@) && call_names(calls@)[id@] == name@,
            None => !call_names(calls@).contains_key(id@),
        },
{
    let mut i: usize = calls.len();
    while i > 0
        invariant
            i <= calls@.len(),
            forall|j: int| i <= j < calls@.len() ==> (#[trigger] calls@[j]).id@ != id@,
        decreases i,
    {
        i -= 1;
        if str_eq(calls[i].id.as_str(), id) {
            proof {
                lemma_call_names(calls@, id@, i as int);
            }
            return Some(calls[i].name.clone());
        }
    }
    proof {
        lemma_call_names(calls@, id@, -1);
    }
    None
}

/// Adds the calls among the blocks.
fn add_calls(calls: &mut Vec<NamedCall>, blocks: &Vec<AssistantContentBlock>)
    ensures
        call_names(final(calls)@) == with_calls(call_names(old(calls)@), stored_views(blocks@)),
{
    let ghost start = call_names(calls@);
    let ghost all = stored_views(blocks@);
    let mut i: usize = 0;
    proof {
        assert(all.take(0) =~= Seq::empty());
    }
    while i < blocks.len()
        invariant
            all == stored_views(blocks@),
            i <= blocks@.len(),
            call_names(calls@) == with_calls(start, all.take(i as int)),
        decreases blocks@.len() - i,
    {
        proof {
            assert(all.take(i + 1).drop_last() =~= all.take(i as int));
            assert(all.take(i + 1).last() == blocks@[i as int]@);
        }
        match &blocks[i] {
            AssistantContentBlock::ToolCall { id, name, arguments: _ } => {
                let ghost before = calls@;
                calls.push(NamedCall { id: id.clone(), name: name.clone() });
                proof {
                    assert(calls@.drop_last() =~= before);
                }
            },
            _ => {},
        }
        i += 1;
    }
    proof {
        assert(all.take(i as int) =~= all);
    }
}

/// The blocks that a model sees again.
pub fn replay_blocks(blocks: &Vec<AssistantContentBlock>) -> (r: Vec<ContentBlock>)
    ensures
        block_views(r@) == replayed_blocks(stored_views(blocks@)),
{
    let mut out: Vec<ContentBlock> = Vec::new();
    let ghost all = stored_views(blocks@);
    let mut i: usize = 0;
    proof {
        assert(all.take(0) =~= Seq::empty());
        assert(block_views(out@) =~= Seq::empty());
    }
    while i < blocks.len()
        invariant
            all == stored_views(blocks@),
            i <= blocks@.len(),
            block_views(out@) == replayed_blocks(all.take(i as int)),
        decreases blocks@.len() - i,
    {
        let ghost before = block_views(out@);
        let block = match &blocks[i] {
            AssistantContentBlock::Text { text } => Some(ContentBlock::Text { text: text.clone() }),
            AssistantContentBlock::Thinking { thinking } => Some(
                ContentBlock::Thinking { thinking: thinking.clone() },
            ),
            AssistantContentBlock::ToolCall { id, name, arguments } => Some(
                ContentBlock::ToolCall {
                    id: id.clone(),
                    name: name.clone(),
                    arguments: arguments.clone(),
                },
            ),
            AssistantContentBlock::ImageResult { data, media_type } => Some(
                ContentBlock::Image { data: data.clone(), mime_type: media_type.clone() },
            ),
            _ => None,
        };
        proof {
            assert(all.take(i + 1).drop_last() =~= all.take(i as int));
            assert(all.take(i + 1).last() == blocks@[i as int]@);
        }
        match block {
            Some(b) => {
                out.push(b);
                proof {
                    assert(block_views(out@) =~= before.push(b@));
                }
            },
            None => {},
        }
        i += 1;
    }
    proof {
        assert(all.take(i as int) =~= all);
    }
    out
}

/// The API of a provider.
pub fn provider_api(apis: &Vec<ProviderApi>, provider: &Option<String>) -> (r: String)
    ensures
        r@ == api_of(apis@, opt_view(*provider)),
{
    match provider {
        None => "openai-completions".to_owned(),
        Some(p) => {
            let mut i: usize = 0;
            proof {
                assert(apis@.skip(0) =~= apis@);
            }
            while i < apis.len()
                invariant
                    i <= apis@.len(),
                    provider is Some,
                    provider->0@ == p@,
                    api_of(apis@.skip(i as int), Some(p@)) == api_of(apis@, Some(p@)),
                decreases apis@.len() - i,
            {
                if str_eq(apis[i].provider.as_str(), p.as_str()) {
                    return apis[i].api.clone();
                }
                proof {
                    assert(apis@.skip(i as int).drop_first() =~= apis@.skip(i + 1));
                }
                i += 1;
            }
            "openai-completions".to_owned()
        },
    }
}

/// A text, or a default where there is none.
fn copy_or(text: &Option<String>, default: &str) -> (r: String)
    ensures
        r@ == text_or(opt_view(*text), default@),
{
    match text {
        Some(s) => s.clone(),
        None => default.to_owned(),
    }
}

/// The conversation that a branch of a session stands for.
pub fn resume_messages_from_branch(entries: &Vec<AgentMessage>, apis: &Vec<ProviderApi>) -> (r: Vec<
    Message,
>)
    ensures
        message_views(r@) == resumed(entry_views(entries@), apis@),
{
    let ghost all = entry_views(entries@);
    let mut start: usize = entries.len();
    proof {
        assert(all.take(start as int) =~= all);
    }
    while start > 0 && !matches!(entries[start - 1], AgentMessage::CompactionSummary { .. })
        invariant
            all == entry_views(entries@),
            start <= entries@.len(),
            last_compaction(all.take(start as int)) == last_compaction(all),
        decreases start,
    {
        proof {
            assert(all.take(start as int).last() == entries@[start - 1]@);
            assert(all.take(start as int).drop_last() =~= all.take(start - 1));
        }
        start -= 1;
    }
    if start > 0 {
        proof {
            assert(all.take(start as int).last() == entries@[start - 1]@);
        }
        start -= 1;
    }
    let ghost rel = all.skip(start as int);
    proof {
        assert(start == last_compaction(all));
    }
    let mut calls: Vec<NamedCall> = Vec::new();
    let mut out: Vec<Message> = Vec::new();
    let mut i: usize = start;
    proof {
        assert(rel.take(0) =~= Seq::empty());
        assert(message_views(out@) =~= Seq::empty());
    }
    while i < entries.len()
        invariant
            all == entry_views(entries@),
            start <= i <= entries@.len(),
            rel == all.skip(start as int),
            call_names(calls@) == names_after_all(rel.take(i - start)),
            message_views(out@) == replay(rel.take(i - start), apis@),
        decreases entries@.len() - i,
    {
        let ghost before = message_views(out@);
        let ghost seen = rel.take(i - start + 1);
        proof {
            assert(seen.drop_last() =~= rel.take(i - start));
            assert(seen.last() == entries@[i as int]@);
        }
        let message: Option<Message> = match &entries[i] {
            AgentMessage::CompactionSummary { summary, .. } => {
                if summary.as_str().is_empty() {
                    None
                } else {
                    let mut text = "[Summary of earlier conversation]\n".to_owned();
                    text.append(summary.as_str());
                    Some(Message::user(text))
                }
            },
            AgentMessage::User { content } => Some(Message::user(content.clone())),
            AgentMessage::Assistant { content, provider, model_id, .. } => {
                add_calls(&mut calls, content);
                let blocks = replay_blocks(content);
                if blocks.len() == 0 {
                    None
                } else {
                    Some(
                        Message::Assistant(
                            AssistantMessage {
                                api: provider_api(apis, provider),
                                provider: copy_or(provider, "assistant"),
                                model: copy_or(model_id, "assistant"),
                                content: blocks,
                                usage: Usage::default(),
                                stop_reason: None,
                            },
                        ),
                    )
                }
            },
            AgentMessage::ToolResult { content, tool_call_id } => {
                let tool_name = match find_call(&calls, tool_call_id.as_str()) {
                    Some(name) => name,
                    None => "tool".to_owned(),
                };
                let mut blocks: Vec<ContentBlock> = Vec::new();
                blocks.push(ContentBlock::Text { text: content.clone() });
                proof {
                    assert(block_views(blocks@) =~= seq![BlockView::Text { text: content@ }]);
                }
                Some(
                    Message::ToolResult {
                        tool_call_id: tool_call_id.clone(),
                        tool_name,
                        content: blocks,
                    },
                )
            },
            _ => None,
        };
        match message {
            Some(m) => {
                out.push(m);
                proof {
                    assert(message_views(out@) =~= before.push(m@));
                }
            },
            None => {},
        }
        i += 1;
    }
    proof {
        assert(rel.take(i - start) =~= rel);
    }
    out
}

/// What a session has stored.
pub struct SessionLog {
    /// The entries of the conversation.
    pub entries: Vec<AgentMessage>,
    /// How many messages of the conversation count as stored.
    pub persisted_count: usize,
}

impl SessionLog {
    /// A log without entries.
    pub fn new() -> (r: Self)
        ensures
            r.entries@.len() == 0,
            r.persisted_count == 0,
    {
        SessionLog { entries: Vec::new(), persisted_count: 0 }
    }

    /// Adds an entry at the end.
    pub fn append_message(&mut self, entry: AgentMessage)
        ensures
            final(self).entries@ == old(self).entries@.push(entry),
            final(self).persisted_count == old(self).persisted_count,
    {
        self.entries.push(entry);
    }

    /// Stores what a user says before the conversation goes on.
    pub fn persist_user_message(&mut self, content: String)
        requires
            old(self).persisted_count < usize::MAX,
        ensures
            entry_views(final(self).entries@) == entry_views(old(self).entries@).push(
                EntryView::User { content: content@ },
            ),
            old(self).entries@.is_prefix_of(final(self).entries@),
            final(self).persisted_count == old(self).persisted_count + 1,
    {
        let ghost before = entry_views(self.entries@);
        let entry = AgentMessage::User { content };
        self.append_message(entry);
        proof {
            assert(entry_views(self.entries@) =~= before.push(entry@));
        }
        self.persisted_count = self.persisted_count + 1;
    }

    /// Stores a message that has ended.
    pub fn persist_event_message(&mut self, message: &Message)
        requires
            old(self).persisted_count < usize::MAX,
        ensures
            entry_views(final(self).entries@) == entry_views(old(self).entries@).push(
                stored(message@),
            ),
            old(self).entries@.is_prefix_of(final(self).entries@),
            final(self).persisted_count == old(self).persisted_count + 1,
    {
        let ghost before = entry_views(self.entries@);
        let entry = store_message(message);
        self.append_message(entry);
        proof {
            assert(entry_views(self.entries@) =~= before.push(entry@));
        }
        self.persisted_count = self.persisted_count + 1;
    }

    /// A log of its own with the first entries of this one, of which none counts as
    /// stored yet.
    pub fn first_entries(&self, count: usize) -> (r: SessionLog)
        requires
            count <= self.entries@.len(),
        ensures
            entry_views(r.entries@) == entry_views(self.entries@).take(count as int),
            r.persisted_count == 0,
    {
        let mut entries: Vec<AgentMessage> = Vec::new();
        let mut i: usize = 0;
        while i < count
            invariant
                i <= count <= self.entries@.len(),
                entries@.len() == i,
                forall|j: int| 0 <= j < i ==> (#[trigger] entries@[j])@ == self.entries@[j]@,
            decreases count - i,
        {
            entries.push(self.entries[i].copy());
            i += 1;
        }
        proof {
            assert(entry_views(entries@) =~= entry_views(self.entries@).take(count as int));
        }
        SessionLog { entries, persisted_count: 0 }
    }

    /// Stores the messages of a conversation that have no entry yet: those behind as
    /// many as there are entries. Where there are none, nothing changes.
    pub fn persist_session(&mut self, messages: &Vec<Message>)
        ensures
            entry_views(final(self).entries@) == caught_up(
                entry_views(old(self).entries@),
                message_views(messages@),
            ),
            old(self).entries@.is_prefix_of(final(self).entries@),
            final(self).persisted_count == if old(self).entries@.len() < messages@.len() {
                messages@.len() as usize
            } else {
                old(self).persisted_count
            },
    {
        let total: usize = messages.len();
        let already: usize = self.entries.len();
        if already >= total {
            return;
        }
        let ghost start = entry_views(self.entries@);
        let ghost all = message_views(messages@);
        let mut i: usize = already;
        proof {
            assert(start + stored_all(all.subrange(already as int, already as int)) =~= start);
        }
        while i < total
            invariant
                all == message_views(messages@),
                total == messages@.len(),
                already <= i <= total,
                old(self).entries@.is_prefix_of(self.entries@),
                entry_views(self.entries@) == start + stored_all(
                    all.subrange(already as int, i as int),
                ),
            decreases total - i,
        {
            let ghost before = entry_views(self.entries@);
            let entry = store_message(&messages[i]);
            self.append_message(entry);
            i += 1;
            proof {
                assert(entry_views(self.entries@) =~= before.push(entry@));
                assert(stored_all(all.subrange(already as int, i as int)) =~= stored_all(
                    all.subrange(already as int, i - 1),
                ).push(entry@));
                assert(entry_views(self.entries@) =~= start + stored_all(
                    all.subrange(already as int, i as int),
                ));
            }
        }
        proof {
            assert(all.subrange(already as int, total as int) =~= all.skip(already as int));
        }
        self.persisted_count = total;
    }
}

/// The entries with those of the messages added that they do not reach yet.
pub open spec fn caught_up(entries: Seq<EntryView>, messages: Seq<MessageView>) -> Seq<EntryView> {
    if entries.len() >= messages.len() {
        entries
    } else {
        entries + stored_all(messages.skip(entries.len() as int))
    }
}

/// Storing a conversation a second time stores nothing.
pub proof fn lemma_persist_idempotent(entries: Seq<EntryView>, messages: Seq<MessageView>)
    ensures
        caught_up(caught_up(entries, messages), messages) == caught_up(entries, messages),
{
}

/// Storing a conversation leaves what is stored as it is.
pub proof fn lemma_persist_keeps_entries(entries: Seq<EntryView>, messages: Seq<MessageView>)
    ensures
        entries.is_prefix_of(caught_up(entries, messages)),
{
    assert(entries =~= caught_up(entries, messages).subrange(0, entries.len() as int));
}

proof fn lemma_replay_not_longer(entries: Seq<EntryView>, apis: Seq<ProviderApi>)
    ensures
        replay(entries, apis).len() <= entries.len(),
    decreases entries.len(),
{
    if entries.len() > 0 {
        lemma_replay_not_longer(entries.drop_last(), apis);
    }
}

proof fn lemma_last_compaction_bounds(entries: Seq<EntryView>)
    ensures
        last_compaction(entries) <= entries.len(),
    decreases entries.len(),
{
    if entries.len() > 0 {
        lemma_last_compaction_bounds(entries.drop_last());
    }
}

/// A conversation that is restored from a log and stored again adds nothing to it.
pub proof fn lemma_resume_then_persist(entries: Seq<EntryView>, apis: Seq<ProviderApi>)
    ensures
        caught_up(entries, resumed(entries, apis)) == entries,
{
    lemma_last_compaction_bounds(entries);
    lemma_replay_not_longer(entries.skip(last_compaction(entries) as int), apis);
}

proof fn lemma_last_compaction_at(entries: Seq<EntryView>, at: int)
    requires
        0 <= at < entries.len(),
        entries[at] is CompactionSummary,
        forall|i: int| at < i < entries.len() ==> !(#[trigger] entries[i] is CompactionSummary),
    ensures
        last_compaction(entries) == at,
    decreases entries.len(),
{
    if at < entries.len() - 1 {
        assert(!(entries[entries.len() - 1] is CompactionSummary));
        let front = entries.drop_last();
        assert forall|i: int| at < i < front.len() implies !(
        #[trigger] front[i] is CompactionSummary) by {
            assert(!(entries[i] is CompactionSummary));
        }
        lemma_last_compaction_at(front, at);
    }
}

/// What stands before the last summary of a compaction does not matter to a
/// conversation that is restored.
pub proof fn lemma_resume_forgets_compacted(
    before: Seq<EntryView>,
    summary: EntryView,
    after: Seq<EntryView>,
    apis: Seq<ProviderApi>,
)
    requires
        summary is CompactionSummary,
        forall|i: int| 0 <= i < after.len() ==> !(#[trigger] after[i] is CompactionSummary),
    ensures
        resumed(before + seq![summary] + after, apis) == resumed(seq![summary] + after, apis),
{
    let one = seq![summary];
    let long = before + one + after;
    let short = one + after;
    assert forall|i: int| before.len() < i < long.len() implies !(
    #[trigger] long[i] is CompactionSummary) by {
        assert(!(after[i - before.len() - 1] is CompactionSummary));
    }
    assert forall|i: int| 0 < i < short.len() implies !(
    #[trigger] short[i] is CompactionSummary) by {
        assert(!(after[i - 1] is CompactionSummary));
    }
    lemma_last_compaction_at(long, before.len() as int);
    lemma_last_compaction_at(short, 0);
    assert(long.skip(before.len() as int) =~= short);
    assert(short.skip(0) =~= short);
}

/// What a restored conversation keeps of a block: one of a kind that is not known
/// comes back as its text.
pub open spec fn kept_block(block: BlockView) -> BlockView {
    match block {
        BlockView::Unknown { value } => BlockView::Text { text: value },
        _ => block,
    }
}

/// What a restored conversation keeps of a message, with the names of the tools that
/// were called. What a user says and what a tool gives back are a text, the tool under
/// the name it was called by. Of a response the tokens it took and why it stopped are
/// gone, its API is that of its provider, and one without blocks is left out.
pub open spec fn kept(
    message: MessageView,
    names: Map<Seq<char>, Seq<char>>,
    apis: Seq<ProviderApi>,
) -> Option<MessageView> {
    match message {
        MessageView::User { content } => Some(user_text(content_text(content))),
        MessageView::Assistant(a) => if a.content.len() == 0 {
            None
        } else {
            Some(
                MessageView::Assistant(
                    AssistantView {
                        api: api_of(apis, Some(a.provider)),
                        provider: a.provider,
                        model: a.model,
                        content: a.content.map_values(|b: BlockView| kept_block(b)),
                        usage: Usage::zero(),
                        stop_reason: None,
                    },
                ),
            )
        },
        MessageView::ToolResult { tool_call_id, tool_name: _, content } => Some(
            MessageView::ToolResult {
                tool_call_id,
                tool_name: name_of_call(names, tool_call_id),
                content: seq![BlockView::Text { text: blocks_text(content) }],
            },
        ),
    }
}

/// What a restored conversation keeps of a stored one.
pub open spec fn kept_all(messages: Seq<MessageView>, apis: Seq<ProviderApi>) -> Seq<MessageView>
    decreases messages.len(),
{
    if messages.len() == 0 {
        Seq::empty()
    } else {
        let front = kept_all(messages.drop_last(), apis);
        match kept(messages.last(), names_after_all(stored_all(messages)), apis) {
            Some(message) => front.push(message),
            None => front,
        }
    }
}

proof fn lemma_replay_stored_blocks(blocks: Seq<BlockView>)
    ensures
        replayed_blocks(stored_blocks(blocks)) == blocks.map_values(|b: BlockView| kept_block(b)),
    decreases blocks.len(),
{
    let keep = |b: BlockView| kept_block(b);
    if blocks.len() > 0 {
        let front = blocks.drop_last();
        lemma_replay_stored_blocks(front);
        assert(stored_blocks(blocks).drop_last() =~= stored_blocks(front));
        assert(blocks.map_values(keep) =~= front.map_values(keep).push(kept_block(blocks.last())));
    } else {
        assert(blocks.map_values(keep) =~= Seq::empty());
    }
}

proof fn lemma_replay_stored(messages: Seq<MessageView>, apis: Seq<ProviderApi>)
    ensures
        replay(stored_all(messages), apis) == kept_all(messages, apis),
        last_compaction(stored_all(messages)) == 0,
    decreases messages.len(),
{
    let entries = stored_all(messages);
    if messages.len() > 0 {
        let front = messages.drop_last();
        let last = messages.last();
        lemma_replay_stored(front, apis);
        assert(entries.drop_last() =~= stored_all(front));
        assert(entries.last() == stored(last));
        if let MessageView::Assistant(a) = last {
            lemma_replay_stored_blocks(a.content);
        }
    }
}

/// Restoring a conversation that was stored message by message gives what is kept of
/// its messages, in their order.
pub proof fn lemma_resume_after_persist(messages: Seq<MessageView>, apis: Seq<ProviderApi>)
    ensures
        resumed(stored_all(messages), apis) == kept_all(messages, apis),
{
    lemma_replay_stored(messages, apis);
    assert(stored_all(messages).skip(0) =~= stored_all(messages));
}

proof fn lemma_names_of_kept_blocks(
    names: Map<Seq<char>, Seq<char>>,
    blocks: Seq<BlockView>,
)
    ensures
        with_calls(names, stored_blocks(blocks.map_values(|b: BlockView| kept_block(b))))
            == with_calls(names, stored_blocks(blocks)),
    decreases blocks.len(),
{
    let keep = |b: BlockView| kept_block(b);
    let again = stored_blocks(blocks.map_values(keep));
    if blocks.len() > 0 {
        let front = blocks.drop_last();
        lemma_names_of_kept_blocks(names, front);
        assert(stored_blocks(blocks).drop_last() =~= stored_blocks(front));
        assert(again.drop_last() =~= stored_blocks(front.map_values(keep)));
    } else {
        assert(again =~= stored_blocks(blocks));
    }
}

proof fn lemma_text_of_one_block(text: Seq<char>)
    ensures
        blocks_text(seq![BlockView::Text { text }]) == text,
{
    let content = seq![BlockView::Text { text }];
    reveal_with_fuel(crate::messages::block_texts, 2);
    assert(content.drop_last() =~= Seq::empty());
    assert(crate::messages::block_texts(content) =~= seq![text]);
}

proof fn lemma_kept_again(messages: Seq<MessageView>, apis: Seq<ProviderApi>)
    ensures
        names_after_all(stored_all(kept_all(messages, apis))) == names_after_all(
            stored_all(messages),
        ),
        kept_all(kept_all(messages, apis), apis) == kept_all(messages, apis),
    decreases messages.len(),
{
    let all = kept_all(messages, apis);
    if messages.len() > 0 {
        let front = messages.drop_last();
        let last = messages.last();
        let names = names_after_all(stored_all(messages));
        lemma_kept_again(front, apis);
        assert(stored_all(messages).drop_last() =~= stored_all(front));
        match kept(last, names, apis) {
            Some(message) => {
                assert(all.drop_last() =~= kept_all(front, apis));
                assert(stored_all(all).drop_last() =~= stored_all(kept_all(front, apis)));
                match last {
                    MessageView::User { content } => {},
                    MessageView::Assistant(a) => {
                        lemma_names_of_kept_blocks(
                            names_after_all(stored_all(front)),
                            a.content,
                        );
                        let keep = |b: BlockView| kept_block(b);
                        assert(a.content.map_values(keep).map_values(keep) =~= a.content.map_values(
                            keep,
                        ));
                    },
                    MessageView::ToolResult { tool_call_id, tool_name, content } => {
                        lemma_text_of_one_block(blocks_text(content));
                    },
                }
                assert(names_after_all(stored_all(all)) == names);
                assert(kept(message, names, apis) == Some(message));
            },
            None => {
                assert(last->Assistant_0.content.len() == 0);
                assert(names == names_after_all(stored_all(front)));
            },
        }
    }
}

/// What is kept of a message is a message that is kept as it is: storing and restoring
/// a conversation a second time changes nothing.
pub proof fn lemma_resume_is_stable(messages: Seq<MessageView>, apis: Seq<ProviderApi>)
    ensures
        resumed(stored_all(resumed(stored_all(messages), apis)), apis) == resumed(
            stored_all(messages),
            apis,
        ),
{
    lemma_resume_after_persist(messages, apis);
    lemma_resume_after_persist(kept_all(messages, apis), apis);
    lemma_kept_again(messages, apis);
}

/// Whether a message stands in a log in full: a user says a text, a response has blocks
/// of known kinds, and a result is one text under the name of the tool that was called.
pub open spec fn storable(message: MessageView, names: Map<Seq<char>, Seq<char>>) -> bool {
    match message {
        MessageView::User { content } => content is Text,
        MessageView::Assistant(a) => a.content.len() > 0 && forall|i: int|
            0 <= i < a.content.len() ==> !(#[trigger] a.content[i] is Unknown),
        MessageView::ToolResult { tool_call_id, tool_name, content } => {
            &&& content.len() == 1
            &&& content[0] is Text
            &&& tool_name == name_of_call(names, tool_call_id)
        },
    }
}

/// Whether the block at `b` of the message at `a` calls a tool under an identifier.
pub open spec fn calls(messages: Seq<MessageView>, a: int, b: int, id: Seq<char>) -> bool {
    &&& 0 <= a < messages.len()
    &&& messages[a] is Assistant
    &&& 0 <= b < messages[a]->Assistant_0.content.len()
    &&& messages[a]->Assistant_0.content[b] is ToolCall
    &&& messages[a]->Assistant_0.content[b]->ToolCall_id == id
}

/// Whether every message of a conversation stands in a log in full: a user says a text, a
/// response has blocks of known kinds, and a result is one text under the name in the last
/// block before it that calls under its identifier, or that of no tool in particular where
/// none does.
pub open spec fn all_storable(messages: Seq<MessageView>) -> bool {
    forall|r: int|
        #![trigger messages[r]]
        0 <= r < messages.len() ==> match messages[r] {
            MessageView::User { content } => content is Text,
            MessageView::Assistant(a) => a.content.len() > 0 && forall|i: int|
                0 <= i < a.content.len() ==> !(#[trigger] a.content[i] is Unknown),
            MessageView::ToolResult { tool_call_id, tool_name, content } => {
                &&& content.len() == 1
                &&& content[0] is Text
                &&& forall|a: int, b: int|
                    a < r && #[trigger] calls(messages, a, b, tool_call_id) && (forall|
                        k: int,
                        j: int,
                    |
                        k < r && (a < k || (a == k && b < j)) ==> !(
                        #[trigger] calls(messages, k, j, tool_call_id))) ==> tool_name
                        == messages[a]->Assistant_0.content[b]->ToolCall_name
                &&& (forall|a: int, b: int|
                    a < r ==> !(#[trigger] calls(messages, a, b, tool_call_id))) ==> tool_name
                    == "tool"@
            },
        }
}

/// A response without the tokens it took and why it stopped, its API that of its
/// provider; another message as it is.
pub open spec fn plain_message(message: MessageView, apis: Seq<ProviderApi>) -> MessageView {
    match message {
        MessageView::Assistant(a) => MessageView::Assistant(
            AssistantView {
                api: api_of(apis, Some(a.provider)),
                usage: Usage::zero(),
                stop_reason: None,
                ..a
            },
        ),
        _ => message,
    }
}

/// The first messages of a conversation stand in a log in full where all do, and so does
/// the last one, by the names that a replay knows.
proof fn lemma_storable_by_names(messages: Seq<MessageView>)
    requires
        all_storable(messages),
        messages.len() > 0,
    ensures
        all_storable(messages.drop_last()),
        storable(messages.last(), names_after_all(stored_all(messages))),
{
    let n = messages.len() as int;
    let front = messages.drop_last();
    assert forall|a: int, b: int, id: Seq<char>| a < n - 1 implies #[trigger] calls(
        messages,
        a,
        b,
        id,
    ) == calls(front, a, b, id) by {
        if 0 <= a {
            assert(front[a] == messages[a]);
        }
    }
    assert forall|r: int|
        #![trigger front[r]]
        0 <= r < front.len() implies match front[r] {
        MessageView::User { content } => content is Text,
        MessageView::Assistant(a) => a.content.len() > 0 && forall|i: int|
            0 <= i < a.content.len() ==> !(#[trigger] a.content[i] is Unknown),
        MessageView::ToolResult { tool_call_id, tool_name, content } => {
            &&& content.len() == 1
            &&& content[0] is Text
            &&& forall|a: int, b: int|
                a < r && #[trigger] calls(front, a, b, tool_call_id) && (forall|k: int, j: int|
                    k < r && (a < k || (a == k && b < j)) ==> !(
                    #[trigger] calls(front, k, j, tool_call_id))) ==> tool_name
                    == front[a]->Assistant_0.content[b]->ToolCall_name
            &&& (forall|a: int, b: int|
                a < r ==> !(#[trigger] calls(front, a, b, tool_call_id))) ==> tool_name == "tool"@
        },
    } by {
        assert(front[r] == messages[r]);
        if let MessageView::ToolResult { tool_call_id, tool_name, content } = messages[r] {
            assert forall|a: int, b: int|
                a < r && #[trigger] calls(front, a, b, tool_call_id) && (forall|k: int, j: int|
                    k < r && (a < k || (a == k && b < j)) ==> !(
                    #[trigger] calls(front, k, j, tool_call_id))) implies tool_name
                == front[a]->Assistant_0.content[b]->ToolCall_name by {
                assert(calls(messages, a, b, tool_call_id));
                assert(front[a] == messages[a]);
                assert forall|k: int, j: int|
                    k < r && (a < k || (a == k && b < j)) implies !(
                #[trigger] calls(messages, k, j, tool_call_id)) by {
                    assert(!calls(front, k, j, tool_call_id));
                }
            }
            if forall|a: int, b: int| a < r ==> !(#[trigger] calls(front, a, b, tool_call_id)) {
                assert forall|a: int, b: int| a < r implies !(
                #[trigger] calls(messages, a, b, tool_call_id)) by {
                    assert(!calls(front, a, b, tool_call_id));
                }
            }
        }
    }
    assert(messages[n - 1] == messages.last());
    if let MessageView::ToolResult { tool_call_id, tool_name, content } = messages.last() {
        let id = tool_call_id;
        let entries = stored_all(messages);
        lemma_names_come_from_calls(entries, id);
        assert forall|a: int, b: int| #[trigger] is_call(entries, a, b, id) == calls(
            messages,
            a,
            b,
            id,
        ) by {
            if 0 <= a < n {
                assert(entries[a] == stored(messages[a]));
                if let MessageView::Assistant(m) = messages[a] {
                    if 0 <= b < m.content.len() {
                        assert(entries[a]->Assistant_content[b] == stored_block(m.content[b]));
                    }
                }
            }
        }
        if names_after_all(entries).contains_key(id) {
            let (a, b) = choose|a: int, b: int| #[trigger] is_last_call(entries, a, b, n, id);
            assert(is_last_call(entries, a, b, n, id));
            assert(is_call(entries, a, b, id));
            assert(entries[a] == stored(messages[a]));
            assert(entries[a]->Assistant_content[b] == stored_block(
                messages[a]->Assistant_0.content[b],
            ));
            assert(calls(messages, a, b, id));
            assert forall|k: int, j: int|
                k < n - 1 && (a < k || (a == k && b < j)) implies !(
            #[trigger] calls(messages, k, j, id)) by {
                assert(!is_call(entries, k, j, id));
            }
        } else {
            assert forall|a: int, b: int| a < n - 1 implies !(
            #[trigger] calls(messages, a, b, id)) by {
                assert(!is_call(entries, a, b, id));
            }
        }
    }
}

proof fn lemma_storable_is_kept(messages: Seq<MessageView>, apis: Seq<ProviderApi>)
    requires
        all_storable(messages),
    ensures
        kept_all(messages, apis) == messages.map_values(|m: MessageView| plain_message(m, apis)),
    decreases messages.len(),
{
    let plain = |m: MessageView| plain_message(m, apis);
    if messages.len() > 0 {
        let front = messages.drop_last();
        let last = messages.last();
        lemma_storable_by_names(messages);
        lemma_storable_is_kept(front, apis);
        match last {
            MessageView::User { content } => {},
            MessageView::Assistant(a) => {
                assert(a.content.map_values(|b: BlockView| kept_block(b)) =~= a.content);
            },
            MessageView::ToolResult { tool_call_id, tool_name, content } => {
                let text = content[0]->Text_text;
                lemma_text_of_one_block(text);
                assert(content =~= seq![BlockView::Text { text }]);
            },
        }
        assert(messages.map_values(plain) =~= front.map_values(plain).push(
            plain_message(last, apis),
        ));
    } else {
        assert(messages.map_values(plain) =~= Seq::empty());
    }
}

/// Restoring is the inverse of storing: a conversation whose messages stand in the log
/// in full comes back, but for the tokens that responses took and why they stopped.
pub proof fn lemma_resume_inverts_persist(messages: Seq<MessageView>, apis: Seq<ProviderApi>)
    requires
        all_storable(messages),
    ensures
        resumed(stored_all(messages), apis) == messages.map_values(
            |m: MessageView| plain_message(m, apis),
        ),
{
    lemma_resume_after_persist(messages, apis);
    lemma_storable_is_kept(messages, apis);
}

/// Whether the block at `b` of the entry at `a` calls a tool under an identifier.
pub open spec fn is_call(entries: Seq<EntryView>, a: int, b: int, id: Seq<char>) -> bool {
    &&& 0 <= a < entries.len()
    &&& entries[a] is Assistant
    &&& 0 <= b < entries[a]->Assistant_content.len()
    &&& entries[a]->Assistant_content[b] is ToolCall
    &&& entries[a]->Assistant_content[b]->ToolCall_id == id
}

/// Whether it is the last block to do so before the entry at `r`.
pub open spec fn is_last_call(
    entries: Seq<EntryView>,
    a: int,
    b: int,
    r: int,
    id: Seq<char>,
) -> bool {
    &&& a < r
    &&& is_call(entries, a, b, id)
    &&& forall|k: int, j: int|
        k < r && (a < k || (a == k && b < j)) ==> !(#[trigger] is_call(entries, k, j, id))
}

proof fn lemma_calls_of_blocks(
    names: Map<Seq<char>, Seq<char>>,
    blocks: Seq<StoredBlockView>,
    id: Seq<char>,
)
    ensures
        (forall|j: int|
            0 <= j < blocks.len() && #[trigger] blocks[j] is ToolCall ==> blocks[j]->ToolCall_id
                != id) ==> with_calls(names, blocks).contains_key(id) == names.contains_key(id)
            && with_calls(names, blocks)[id] == names[id],
        forall|b: int|
            0 <= b < blocks.len() && #[trigger] blocks[b] is ToolCall && blocks[b]->ToolCall_id
                == id && (forall|j: int|
                b < j < blocks.len() && #[trigger] blocks[j] is ToolCall ==> blocks[j]->ToolCall_id
                    != id) ==> with_calls(names, blocks).contains_key(id) && with_calls(
                names,
                blocks,
            )[id] == blocks[b]->ToolCall_name,
    decreases blocks.len(),
{
    if blocks.len() > 0 {
        let front = blocks.drop_last();
        lemma_calls_of_blocks(names, front, id);
        assert(forall|j: int| 0 <= j < front.len() ==> #[trigger] front[j] == blocks[j]);
        assert forall|b: int|
            0 <= b < blocks.len() && #[trigger] blocks[b] is ToolCall && blocks[b]->ToolCall_id
                == id && (forall|j: int|
                b < j < blocks.len() && #[trigger] blocks[j] is ToolCall ==> blocks[j]->ToolCall_id
                    != id) implies with_calls(names, blocks).contains_key(id) && with_calls(
            names,
            blocks,
        )[id] == blocks[b]->ToolCall_name by {
            if b < front.len() {
                assert(front[b] == blocks[b]);
                let last = blocks[blocks.len() - 1];
                assert(last is ToolCall ==> last->ToolCall_id != id);
            }
        }
    }
}

/// The last block before some place that calls under an identifier, where one does.
proof fn lemma_last_block(blocks: Seq<StoredBlockView>, id: Seq<char>) -> (b: int)
    requires
        exists|j: int|
            0 <= j < blocks.len() && #[trigger] blocks[j] is ToolCall && blocks[j]->ToolCall_id == id,
    ensures
        0 <= b < blocks.len(),
        blocks[b] is ToolCall,
        blocks[b]->ToolCall_id == id,
        forall|j: int|
            b < j < blocks.len() && #[trigger] blocks[j] is ToolCall ==> blocks[j]->ToolCall_id != id,
    decreases blocks.len(),
{
    let last = blocks.len() - 1;
    if blocks[last] is ToolCall && blocks[last]->ToolCall_id == id {
        last
    } else {
        let front = blocks.drop_last();
        let j = choose|j: int|
            0 <= j < blocks.len() && #[trigger] blocks[j] is ToolCall && blocks[j]->ToolCall_id == id;
        assert(front[j] == blocks[j]);
        let b = lemma_last_block(front, id);
        assert forall|j: int| b < j < blocks.len() && #[trigger] blocks[j] is ToolCall implies
            blocks[j]->ToolCall_id != id by {
            if j < last {
                assert(front[j] == blocks[j]);
            }
        }
        b
    }
}

/// The name that a replay knows a call by is that of the last block that made it; it knows
/// none where no block did.
proof fn lemma_names_come_from_calls(entries: Seq<EntryView>, id: Seq<char>)
    ensures
        names_after_all(entries).contains_key(id) ==> exists|a: int, b: int|
            #[trigger] is_last_call(entries, a, b, entries.len() as int, id),
        forall|a: int, b: int|
            #[trigger] is_last_call(entries, a, b, entries.len() as int, id) ==> names_after_all(
                entries,
            ).contains_key(id) && names_after_all(entries)[id]
                == entries[a]->Assistant_content[b]->ToolCall_name,
        names_after_all(entries).contains_key(id) <==> exists|a: int, b: int|
            #[trigger] is_call(entries, a, b, id),
    decreases entries.len(),
{
    if entries.len() > 0 {
        let n = entries.len() as int;
        let front = entries.drop_last();
        let last = entries.last();
        let before = names_after_all(front);
        let names = names_after_all(entries);
        lemma_names_come_from_calls(front, id);
        assert forall|a: int, b: int| a < n - 1 implies #[trigger] is_call(entries, a, b, id)
            == is_call(front, a, b, id) by {
            if 0 <= a {
                assert(front[a] == entries[a]);
            }
        }
        let calls_last = exists|b: int| #[trigger] is_call(entries, n - 1, b, id);
        if calls_last {
            let blocks = last->Assistant_content;
            let w = choose|b: int| #[trigger] is_call(entries, n - 1, b, id);
            assert(blocks[w] is ToolCall);
            let b = lemma_last_block(blocks, id);
            lemma_calls_of_blocks(before, blocks, id);
            assert forall|k: int, j: int|
                k < n && (n - 1 < k || (n - 1 == k && b < j)) implies !(
            #[trigger] is_call(entries, k, j, id)) by {
                if is_call(entries, k, j, id) {
                    assert(blocks[j] is ToolCall);
                }
            }
            assert(is_last_call(entries, n - 1, b, n, id));
            assert(names[id] == blocks[b]->ToolCall_name);
            assert forall|a2: int, b2: int| #[trigger] is_last_call(entries, a2, b2, n, id) implies a2
                == n - 1 && b2 == b by {
                assert(is_call(entries, n - 1, b, id));
                assert(is_call(entries, a2, b2, id));
            }
        } else {
            assert(names.contains_key(id) == before.contains_key(id) && names[id] == before[id])
                by {
                if let EntryView::Assistant { content, .. } = last {
                    assert forall|j: int|
                        0 <= j < content.len() && #[trigger] content[j] is ToolCall implies
                        content[j]->ToolCall_id != id by {
                        assert(!is_call(entries, n - 1, j, id));
                    }
                    lemma_calls_of_blocks(before, content, id);
                }
            }
            assert forall|a: int, b: int| #[trigger] is_last_call(entries, a, b, n, id)
                == is_last_call(front, a, b, n - 1, id) by {
                if is_last_call(front, a, b, n - 1, id) {
                    assert forall|k: int, j: int|
                        k < n && (a < k || (a == k && b < j)) implies !(
                    #[trigger] is_call(entries, k, j, id)) by {
                        if k < n - 1 {
                            assert(!is_call(front, k, j, id));
                        }
                    }
                }
                if is_last_call(entries, a, b, n, id) {
                    assert(is_call(entries, a, b, id));
                    assert(a < n - 1);
                    assert forall|k: int, j: int|
                        k < n - 1 && (a < k || (a == k && b < j)) implies !(
                    #[trigger] is_call(front, k, j, id)) by {
                        assert(!is_call(entries, k, j, id));
                    }
                }
            }
            if names.contains_key(id) {
                let (a, b) = choose|a: int, b: int|
                    #[trigger] is_last_call(front, a, b, n - 1, id);
                assert(is_last_call(entries, a, b, n, id));
                assert(is_call(entries, a, b, id));
            }
            if exists|a: int, b: int| #[trigger] is_call(entries, a, b, id) {
                let (a, b) = choose|a: int, b: int| #[trigger] is_call(entries, a, b, id);
                assert(is_call(front, a, b, id));
            }
        }
    }
}

/// Whether a branch replays an entry: no compaction was summed up after it.
pub open spec fn is_replayed(entries: Seq<EntryView>, k: int) -> bool {
    &&& 0 <= k < entries.len()
    &&& forall|j: int| k < j < entries.len() ==> !(#[trigger] entries[j] is CompactionSummary)
}

/// Whether an entry says something to a model: what a user or a tool said does, and so does
/// a response with a block that is neither a refusal nor a plan, and a summary that is not
/// empty. The other kinds of entries do not.
pub open spec fn says_something(entry: EntryView) -> bool {
    match entry {
        EntryView::User { .. } => true,
        EntryView::ToolResult { .. } => true,
        EntryView::CompactionSummary { summary, .. } => summary.len() > 0,
        EntryView::Assistant { content, .. } => exists|j: int|
            0 <= j < content.len() && !(#[trigger] content[j] is Refusal) && !(
            content[j] is ToolPlan),
        _ => false,
    }
}

/// Whether a message says what an entry holds. A response keeps its blocks but refusals and
/// plans, in their order, and has no tokens and no reason to stop.
pub open spec fn says_entry(
    message: MessageView,
    entry: EntryView,
    apis: Seq<ProviderApi>,
) -> bool {
    match entry {
        EntryView::User { content } => message == (MessageView::User {
            content: crate::messages::ContentView::Text(content),
        }),
        EntryView::CompactionSummary { summary, .. } => message == (MessageView::User {
            content: crate::messages::ContentView::Text(
                "[Summary of earlier conversation]\n"@ + summary,
            ),
        }),
        EntryView::ToolResult { content, tool_call_id } => {
            &&& message is ToolResult
            &&& message->ToolResult_tool_call_id == tool_call_id
            &&& message->ToolResult_content == seq![BlockView::Text { text: content }]
        },
        EntryView::Assistant { content, provider, model_id, .. } => {
            &&& message is Assistant
            &&& message->Assistant_0.content == Seq::new(
                content.len(),
                |j: int|
                    match content[j] {
                        StoredBlockView::Text { text } => seq![BlockView::Text { text }],
                        StoredBlockView::Thinking { thinking } => seq![
                            BlockView::Thinking { thinking },
                        ],
                        StoredBlockView::ToolCall { id, name, arguments } => seq![
                            BlockView::ToolCall { id, name, arguments },
                        ],
                        StoredBlockView::ImageResult { data, media_type } => seq![
                            BlockView::Image { data, mime_type: media_type },
                        ],
                        StoredBlockView::Refusal { .. } => Seq::<BlockView>::empty(),
                        StoredBlockView::ToolPlan { .. } => Seq::<BlockView>::empty(),
                    },
            ).flatten()
            &&& message->Assistant_0.provider == (if provider is Some {
                provider->0
            } else {
                "assistant"@
            })
            &&& message->Assistant_0.model == (if model_id is Some {
                model_id->0
            } else {
                "assistant"@
            })
            &&& message->Assistant_0.usage == (Usage {
                input: 0,
                output: 0,
                cache_read: 0,
                cache_write: 0,
                total_tokens: 0,
            })
            &&& message->Assistant_0.stop_reason is None
            &&& speaks(message->Assistant_0.api, apis, provider)
        },
        _ => false,
    }
}

/// Whether `api` is that of the first line that names the provider, or, where no line does
/// or no provider is known, that of a provider that is not known.
pub open spec fn speaks(
    api: Seq<char>,
    apis: Seq<ProviderApi>,
    provider: Option<Seq<char>>,
) -> bool {
    &&& forall|i: int|
        provider is Some && 0 <= i < apis.len() && #[trigger] apis[i].provider@ == provider->0 && (
        forall|j: int| 0 <= j < i ==> (#[trigger] apis[j]).provider@ != provider->0) ==> api
            == apis[i].api@
    &&& provider is None || (forall|i: int|
        0 <= i < apis.len() ==> (#[trigger] apis[i]).provider@ != provider->0) ==> api
        == "openai-completions"@
}

/// Whether a result at `r` has the name in the last block before it that calls under its
/// identifier, among the entries that are replayed, or the name of no tool in particular
/// where none does.
pub open spec fn has_called_name(
    entries: Seq<EntryView>,
    r: int,
    id: Seq<char>,
    name: Seq<char>,
) -> bool {
    &&& forall|a: int, b: int|
        is_replayed(entries, a) && #[trigger] is_last_call(entries, a, b, r, id) ==> name
            == entries[a]->Assistant_content[b]->ToolCall_name
    &&& (forall|a: int, b: int|
        is_replayed(entries, a) && a < r ==> !(#[trigger] is_call(entries, a, b, id))) ==> name
        == "tool"@
}

proof fn lemma_api_speaks(apis: Seq<ProviderApi>, provider: Option<Seq<char>>)
    ensures
        speaks(api_of(apis, provider), apis, provider),
    decreases apis.len(),
{
    if apis.len() > 0 && provider is Some && apis[0].provider@ != provider->0 {
        let rest = apis.drop_first();
        lemma_api_speaks(rest, provider);
        assert forall|i: int|
            0 <= i < apis.len() && #[trigger] apis[i].provider@ == provider->0 && (forall|j: int|
                0 <= j < i ==> (#[trigger] apis[j]).provider@ != provider->0) implies api_of(
            apis,
            provider,
        ) == apis[i].api@ by {
            assert(rest[i - 1] == apis[i]);
            assert forall|j: int| 0 <= j < i - 1 implies (#[trigger] rest[j]).provider@
                != provider->0 by {
                assert(rest[j] == apis[j + 1]);
            }
        }
        if forall|i: int| 0 <= i < apis.len() ==> (#[trigger] apis[i]).provider@ != provider->0 {
            assert forall|j: int| 0 <= j < rest.len() implies (#[trigger] rest[j]).provider@
                != provider->0 by {
                assert(rest[j] == apis[j + 1]);
            }
        }
    }
}

/// The blocks that a model sees again are those of each stored block in its turn.
proof fn lemma_blocks_in_turn(content: Seq<StoredBlockView>)
    ensures
        replayed_blocks(content) == Seq::new(
            content.len(),
            |j: int|
                match content[j] {
                    StoredBlockView::Text { text } => seq![BlockView::Text { text }],
                    StoredBlockView::Thinking { thinking } => seq![
                        BlockView::Thinking { thinking },
                    ],
                    StoredBlockView::ToolCall { id, name, arguments } => seq![
                        BlockView::ToolCall { id, name, arguments },
                    ],
                    StoredBlockView::ImageResult { data, media_type } => seq![
                        BlockView::Image { data, mime_type: media_type },
                    ],
                    StoredBlockView::Refusal { .. } => Seq::<BlockView>::empty(),
                    StoredBlockView::ToolPlan { .. } => Seq::<BlockView>::empty(),
                },
        ).flatten(),
        replayed_blocks(content).len() > 0 <==> exists|j: int|
            0 <= j < content.len() && !(#[trigger] content[j] is Refusal) && !(
            content[j] is ToolPlan),
    decreases content.len(),
{
    let parts = Seq::new(
        content.len(),
        |j: int|
            match content[j] {
                StoredBlockView::Text { text } => seq![BlockView::Text { text }],
                StoredBlockView::Thinking { thinking } => seq![BlockView::Thinking { thinking }],
                StoredBlockView::ToolCall { id, name, arguments } => seq![
                    BlockView::ToolCall { id, name, arguments },
                ],
                StoredBlockView::ImageResult { data, media_type } => seq![
                    BlockView::Image { data, mime_type: media_type },
                ],
                StoredBlockView::Refusal { .. } => Seq::<BlockView>::empty(),
                StoredBlockView::ToolPlan { .. } => Seq::<BlockView>::empty(),
            },
    );
    if content.len() > 0 {
        let front = content.drop_last();
        lemma_blocks_in_turn(front);
        assert(forall|j: int| 0 <= j < front.len() ==> #[trigger] front[j] == content[j]);
        let front_parts = Seq::new(
            front.len(),
            |j: int|
                match front[j] {
                    StoredBlockView::Text { text } => seq![BlockView::Text { text }],
                    StoredBlockView::Thinking { thinking } => seq![
                        BlockView::Thinking { thinking },
                    ],
                    StoredBlockView::ToolCall { id, name, arguments } => seq![
                        BlockView::ToolCall { id, name, arguments },
                    ],
                    StoredBlockView::ImageResult { data, media_type } => seq![
                        BlockView::Image { data, mime_type: media_type },
                    ],
                    StoredBlockView::Refusal { .. } => Seq::<BlockView>::empty(),
                    StoredBlockView::ToolPlan { .. } => Seq::<BlockView>::empty(),
                },
        );
        assert(parts.drop_last() =~= front_parts);
        assert(parts =~= front_parts.push(parts.last()));
        front_parts.lemma_flatten_push(parts.last());
        assert(replayed_blocks(content) =~= front_parts.flatten() + parts.last());
        if exists|j: int|
            0 <= j < content.len() && !(#[trigger] content[j] is Refusal) && !(
            content[j] is ToolPlan) {
            let j = choose|j: int|
                0 <= j < content.len() && !(#[trigger] content[j] is Refusal) && !(
                content[j] is ToolPlan);
            if j < front.len() {
                assert(front[j] == content[j]);
            }
        }
        if replayed_blocks(front).len() > 0 {
            let j = choose|j: int|
                0 <= j < front.len() && !(#[trigger] front[j] is Refusal) && !(
                front[j] is ToolPlan);
            assert(content[j] == front[j]);
        }
        let last = content[content.len() - 1];
        if !(last is Refusal) && !(last is ToolPlan) {
            assert(parts.last().len() == 1);
        }
    } else {
        assert(parts =~= Seq::empty());
    }
}

/// The entries that the messages of a replay come from.
proof fn lemma_replay_places(entries: Seq<EntryView>, apis: Seq<ProviderApi>) -> (places: Seq<int>)
    ensures
        places.len() == replay(entries, apis).len(),
        forall|i: int, j: int| 0 <= i < j < places.len() ==> places[i] < places[j],
        forall|i: int| 0 <= i < places.len() ==> 0 <= #[trigger] places[i] < entries.len(),
        forall|k: int|
            places.contains(k) <==> 0 <= k < entries.len() && says_something(
                #[trigger] entries[k],
            ),
        forall|i: int|
            0 <= i < places.len() ==> says_entry(
                #[trigger] replay(entries, apis)[i],
                entries[places[i]],
                apis,
            ),
        forall|i: int|
            #![trigger replay(entries, apis)[i]]
            0 <= i < places.len() && entries[places[i]] is ToolResult ==> {
                let id = entries[places[i]]->ToolResult_tool_call_id;
                let name = replay(entries, apis)[i]->ToolResult_tool_name;
                &&& forall|a: int, b: int|
                    #[trigger] is_last_call(entries, a, b, places[i], id) ==> name
                        == entries[a]->Assistant_content[b]->ToolCall_name
                &&& (forall|a: int, b: int|
                    a < places[i] ==> !(#[trigger] is_call(entries, a, b, id))) ==> name == "tool"@
            },
    decreases entries.len(),
{
    if entries.len() == 0 {
        Seq::empty()
    } else {
        let n = entries.len() as int;
        let front = entries.drop_last();
        let last = entries.last();
        let before = lemma_replay_places(front, apis);
        let all = replay(entries, apis);
        let names = names_after_all(entries);
        if let EntryView::Assistant { content, provider, .. } = last {
            lemma_blocks_in_turn(content);
            lemma_api_speaks(apis, provider);
        }
        assert(says_something(last) <==> replayed(last, names, apis) is Some);
        let places = if says_something(last) {
            before.push(n - 1)
        } else {
            before
        };
        assert forall|k: int|
            places.contains(k) <==> 0 <= k < entries.len() && says_something(
                #[trigger] entries[k],
            ) by {
            if 0 <= k < n - 1 {
                assert(front[k] == entries[k]);
            }
            if before.contains(k) {
                assert(0 <= k < front.len() && says_something(front[k]));
                assert(places[before.index_of(k)] == k);
            }
            if places.contains(k) {
                let i = places.index_of(k);
                if i < before.len() {
                    assert(before[i] == k);
                    assert(before.contains(k));
                }
            }
            if k == n - 1 && says_something(last) {
                assert(places[before.len() as int] == k);
            }
        }
        assert forall|a: int, b: int, id: Seq<char>| a < n - 1 implies #[trigger] is_call(
            entries,
            a,
            b,
            id,
        ) == is_call(front, a, b, id) by {
            if 0 <= a {
                assert(front[a] == entries[a]);
            }
        }
        assert forall|i: int| 0 <= i < places.len() implies says_entry(
            #[trigger] all[i],
            entries[places[i]],
            apis,
        ) by {
            if i < before.len() {
                assert(all[i] == replay(front, apis)[i]);
                assert(front[before[i]] == entries[places[i]]);
            }
        }
        assert forall|i: int|
            #![trigger all[i]]
            0 <= i < places.len() && entries[places[i]] is ToolResult implies {
            let id = entries[places[i]]->ToolResult_tool_call_id;
            let name = all[i]->ToolResult_tool_name;
            &&& forall|a: int, b: int|
                #[trigger] is_last_call(entries, a, b, places[i], id) ==> name
                    == entries[a]->Assistant_content[b]->ToolCall_name
            &&& (forall|a: int, b: int|
                a < places[i] ==> !(#[trigger] is_call(entries, a, b, id))) ==> name == "tool"@
        } by {
            let id = entries[places[i]]->ToolResult_tool_call_id;
            let name = all[i]->ToolResult_tool_name;
            if i < before.len() {
                assert(all[i] == replay(front, apis)[i]);
                assert(front[before[i]] == entries[places[i]]);
                assert forall|a: int, b: int|
                    #[trigger] is_last_call(entries, a, b, places[i], id) implies name
                    == entries[a]->Assistant_content[b]->ToolCall_name by {
                    assert forall|k: int, j: int|
                        k < places[i] && (a < k || (a == k && b < j)) implies !(
                    #[trigger] is_call(front, k, j, id)) by {
                        assert(!is_call(entries, k, j, id));
                    }
                    assert(is_last_call(front, a, b, places[i], id));
                    assert(front[a] == entries[a]);
                }
                if forall|a: int, b: int|
                    a < places[i] ==> !(#[trigger] is_call(entries, a, b, id)) {
                    assert forall|a: int, b: int| a < places[i] implies !(
                    #[trigger] is_call(front, a, b, id)) by {
                        assert(!is_call(entries, a, b, id));
                    }
                }
            } else {
                lemma_names_come_from_calls(entries, id);
                assert forall|a: int, b: int|
                    #[trigger] is_last_call(entries, a, b, n - 1, id) implies is_last_call(
                    entries,
                    a,
                    b,
                    n,
                    id,
                ) by {
                    assert forall|k: int, j: int|
                        k < n && (a < k || (a == k && b < j)) implies !(
                    #[trigger] is_call(entries, k, j, id)) by {}
                }
                if forall|a: int, b: int|
                    a < places[i] ==> !(#[trigger] is_call(entries, a, b, id)) {
                    if names.contains_key(id) {
                        let (a, b) = choose|a: int, b: int| #[trigger] is_call(entries, a, b, id);
                        assert(is_call(entries, a, b, id));
                    }
                }
            }
        }
        places
    }
}

/// A restored conversation is what its branch says. Each message comes from one entry, in
/// the order of the entries, and says what that entry holds; every entry that is replayed
/// and says something has its message. A result comes back under the name in the very block
/// that made the call, wherever that block stands in whichever response, as long as no later
/// call before the result has the same identifier.
pub proof fn lemma_resume_says_branch(entries: Seq<EntryView>, apis: Seq<ProviderApi>) -> (places:
    Seq<int>)
    ensures
        places.len() == resumed(entries, apis).len(),
        forall|i: int, j: int| 0 <= i < j < places.len() ==> places[i] < places[j],
        forall|k: int|
            #[trigger] places.contains(k) <==> is_replayed(entries, k) && says_something(
                entries[k],
            ),
        forall|i: int|
            0 <= i < places.len() ==> says_entry(
                #[trigger] resumed(entries, apis)[i],
                entries[places[i]],
                apis,
            ),
        forall|i: int|
            0 <= i < places.len() && entries[places[i]] is ToolResult ==> has_called_name(
                entries,
                places[i],
                entries[places[i]]->ToolResult_tool_call_id,
                (#[trigger] resumed(entries, apis)[i])->ToolResult_tool_name,
            ),
{
    let from = last_compaction(entries) as int;
    let tail = entries.skip(from);
    lemma_last_compaction_bounds(entries);
    lemma_last_compaction_is_last(entries);
    let inner = lemma_replay_places(tail, apis);
    let places = Seq::new(inner.len(), |i: int| inner[i] + from);
    assert forall|k: int| is_replayed(entries, k) <==> from <= k < entries.len() by {
        if 0 <= k < from {
            assert(entries[from] is CompactionSummary);
        }
    }
    assert forall|k: int|
        #[trigger] places.contains(k) <==> is_replayed(entries, k) && says_something(entries[k]) by {
        if places.contains(k) {
            let i = places.index_of(k);
            assert(inner[i] + from == k);
            assert(inner.contains(k - from));
            assert(0 <= k - from < tail.len() && says_something(tail[k - from]));
        }
        if from <= k < entries.len() && says_something(entries[k]) {
            assert(tail[k - from] == entries[k]);
            assert(inner.contains(k - from));
            assert(places[inner.index_of(k - from)] == k);
        }
    }
    assert forall|a: int, b: int, id: Seq<char>| 0 <= a implies #[trigger] is_call(tail, a, b, id)
        == is_call(entries, a + from, b, id) by {
        if a < tail.len() {
            assert(tail[a] == entries[a + from]);
        }
    }
    assert forall|i: int| 0 <= i < places.len() implies says_entry(
        #[trigger] resumed(entries, apis)[i],
        entries[places[i]],
        apis,
    ) by {
        assert(tail[inner[i]] == entries[places[i]]);
        assert(says_entry(replay(tail, apis)[i], tail[inner[i]], apis));
    }
    assert forall|i: int|
        0 <= i < places.len() && entries[places[i]] is ToolResult implies has_called_name(
        entries,
        places[i],
        entries[places[i]]->ToolResult_tool_call_id,
        (#[trigger] resumed(entries, apis)[i])->ToolResult_tool_name,
    ) by {
        let r = places[i];
        let id = entries[r]->ToolResult_tool_call_id;
        let name = resumed(entries, apis)[i]->ToolResult_tool_name;
        assert(tail[inner[i]] == entries[r]);
        assert(replay(tail, apis)[i] == resumed(entries, apis)[i]);
        assert forall|a: int, b: int|
            is_replayed(entries, a) && #[trigger] is_last_call(entries, a, b, r, id) implies name
            == entries[a]->Assistant_content[b]->ToolCall_name by {
            assert(is_call(tail, a - from, b, id));
            assert forall|k: int, j: int|
                k < inner[i] && (a - from < k || (a - from == k && b < j)) implies !(
            #[trigger] is_call(tail, k, j, id)) by {
                assert(!is_call(entries, k + from, j, id));
            }
            assert(is_last_call(tail, a - from, b, inner[i], id));
            assert(tail[a - from] == entries[a]);
        }
        if forall|a: int, b: int|
            is_replayed(entries, a) && a < r ==> !(#[trigger] is_call(entries, a, b, id)) {
            assert forall|a: int, b: int| a < inner[i] implies !(
            #[trigger] is_call(tail, a, b, id)) by {
                if 0 <= a {
                    assert(is_replayed(entries, a + from));
                    assert(!is_call(entries, a + from, b, id));
                }
            }
        }
    }
    places
}

proof fn lemma_last_compaction_is_last(entries: Seq<EntryView>)
    ensures
        forall|j: int|
            last_compaction(entries) < j < entries.len() ==> !(
            #[trigger] entries[j] is CompactionSummary),
        last_compaction(entries) > 0 ==> last_compaction(entries) < entries.len()
            && entries[last_compaction(entries) as int] is CompactionSummary,
    decreases entries.len(),
{
    if entries.len() > 0 && !(entries.last() is CompactionSummary) {
        let front = entries.drop_last();
        lemma_last_compaction_is_last(front);
        assert forall|j: int| last_compaction(entries) < j < entries.len() implies !(
        #[trigger] entries[j] is CompactionSummary) by {
            if j < front.len() {
                assert(front[j] == entries[j]);
            }
        }
    }
}

/// The result of a call comes back under the name that the call was made by: for every block
/// of every response that is replayed, a result behind it with the identifier of its call has
/// the name in that block, unless a call in between has the identifier too.
pub proof fn lemma_result_has_called_name(
    entries: Seq<EntryView>,
    apis: Seq<ProviderApi>,
    a: int,
    b: int,
    r: int,
)
    requires
        0 <= a < r < entries.len(),
        forall|j: int| a < j < entries.len() ==> !(#[trigger] entries[j] is CompactionSummary),
        entries[a] is Assistant,
        0 <= b < entries[a]->Assistant_content.len(),
        entries[a]->Assistant_content[b] is ToolCall,
        entries[r] is ToolResult,
        entries[r]->ToolResult_tool_call_id == entries[a]->Assistant_content[b]->ToolCall_id,
        forall|k: int, j: int|
            #![trigger entries[k]->Assistant_content[j]]
            a <= k < r && (a < k || b < j) && entries[k] is Assistant && 0 <= j
                < entries[k]->Assistant_content.len()
                && entries[k]->Assistant_content[j] is ToolCall
                ==> entries[k]->Assistant_content[j]->ToolCall_id
                != entries[a]->Assistant_content[b]->ToolCall_id,
    ensures
        resumed(entries, apis).contains(
            MessageView::ToolResult {
                tool_call_id: entries[r]->ToolResult_tool_call_id,
                tool_name: entries[a]->Assistant_content[b]->ToolCall_name,
                content: seq![BlockView::Text { text: entries[r]->ToolResult_content }],
            },
        ),
{
    let places = lemma_resume_says_branch(entries, apis);
    let id = entries[r]->ToolResult_tool_call_id;
    assert(is_replayed(entries, r) && says_something(entries[r]));
    assert(places.contains(r));
    let i = places.index_of(r);
    assert forall|k: int, j: int| k < r && (a < k || (a == k && b < j)) implies !(
    #[trigger] is_call(entries, k, j, id)) by {
        if is_call(entries, k, j, id) {
            assert(entries[k]->Assistant_content[j] is ToolCall);
        }
    }
    assert(is_last_call(entries, a, b, r, id));
    let message = resumed(entries, apis)[i];
    assert(says_entry(message, entries[r], apis));
    assert(message->ToolResult_tool_name == entries[a]->Assistant_content[b]->ToolCall_name);
    assert(message == (MessageView::ToolResult {
        tool_call_id: entries[r]->ToolResult_tool_call_id,
        tool_name: entries[a]->Assistant_content[b]->ToolCall_name,
        content: seq![BlockView::Text { text: entries[r]->ToolResult_content }],
    }));
}

/// Storing a conversation adds one entry for each message that the log does not reach yet, in
/// their order and behind what is stored. A user's message is stored by its text, a response
/// by all its blocks, its provider, model, tokens and why it stopped, and a result by its
/// text and the identifier of its call.
pub proof fn lemma_persist_stores_each(
    entries: Seq<EntryView>,
    messages: Seq<MessageView>,
    i: int,
)
    requires
        0 <= i < entries.len() || 0 <= i < messages.len(),
    ensures
        caught_up(entries, messages).len() == if entries.len() < messages.len() {
            messages.len()
        } else {
            entries.len()
        },
        i < entries.len() ==> caught_up(entries, messages)[i] == entries[i],
        i >= entries.len() ==> match messages[i] {
            MessageView::User { content } => caught_up(entries, messages)[i] == (EntryView::User {
                content: crate::messages::message_text(messages[i]),
            }),
            MessageView::Assistant(a) => {
                let e = caught_up(entries, messages)[i];
                &&& e is Assistant
                &&& e->Assistant_provider == Some(a.provider)
                &&& e->Assistant_model_id == Some(a.model)
                &&& e->Assistant_stop_reason == a.stop_reason
                &&& e->Assistant_usage is Some
                &&& {
                    let u = e->Assistant_usage->0;
                    &&& is_signed(u.input, a.usage.input)
                    &&& is_signed(u.output, a.usage.output)
                    &&& is_signed(u.cache_read, a.usage.cache_read)
                    &&& is_signed(u.cache_write, a.usage.cache_write)
                    &&& is_signed(u.total_tokens, a.usage.total_tokens)
                }
                &&& e->Assistant_content.len() == a.content.len()
                &&& forall|b: int|
                    #![trigger a.content[b]]
                    0 <= b < a.content.len() ==> e->Assistant_content[b] == match a.content[b] {
                        BlockView::Text { text } => StoredBlockView::Text { text },
                        BlockView::Thinking { thinking } => StoredBlockView::Thinking { thinking },
                        BlockView::ToolCall { id, name, arguments } => StoredBlockView::ToolCall {
                            id,
                            name,
                            arguments,
                        },
                        BlockView::Image { data, mime_type } => StoredBlockView::ImageResult {
                            data,
                            media_type: mime_type,
                        },
                        BlockView::Unknown { value } => StoredBlockView::Text { text: value },
                    }
            },
            MessageView::ToolResult { tool_call_id, .. } => caught_up(entries, messages)[i] == (
            EntryView::ToolResult {
                content: crate::messages::message_text(messages[i]),
                tool_call_id,
            }),
        },
{
    if i >= entries.len() {
        assert(caught_up(entries, messages)[i] == stored(messages[i]));
    }
}

/// Whether a stored count is that of a response: the same number, or, from two to the
/// power of sixty-three on, that number less two to the power of sixty-four.
pub open spec fn is_signed(stored: Option<i64>, n: u64) -> bool {
    stored is Some && (stored->0 == n || (n >= 0x8000_0000_0000_0000 && stored->0 == n
        - 0x1_0000_0000_0000_0000))
}

} // verus!
