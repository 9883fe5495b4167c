//! The messages of a conversation, as a model sees them and as a session stores them.

use crate::text::{join, join_texts, lemma_flatten_last, views};
use vstd::prelude::*;

verus! {

/// A part of a message. The arguments of a tool call and a value of an unknown kind are
/// held as JSON text.
#[derive(Debug)]
pub enum ContentBlock {
    Text { text: String },
    Thinking { thinking: String },
    ToolCall { id: String, name: String, arguments: String },
    Image { data: String, mime_type: String },
    Unknown { value: String },
}

/// The view of a [`ContentBlock`].
pub enum BlockView {
    Text { text: Seq<char> },
    Thinking { thinking: Seq<char> },
    ToolCall { id: Seq<char>, name: Seq<char>, arguments: Seq<char> },
    Image { data: Seq<char>, mime_type: Seq<char> },
    Unknown { value: Seq<char> },
}

impl View for ContentBlock {
    type V = BlockView;

    open spec fn view(&self) -> BlockView {
        match self {
            ContentBlock::Text { text } => BlockView::Text { text: text@ },
            ContentBlock::Thinking { thinking } => BlockView::Thinking { thinking: thinking@ },
            ContentBlock::ToolCall { id, name, arguments } => BlockView::ToolCall {
                id: id@,
                name: name@,
                arguments: arguments@,
            },
            ContentBlock::Image { data, mime_type } => BlockView::Image {
                data: data@,
                mime_type: mime_type@,
            },
            ContentBlock::Unknown { value } => BlockView::Unknown { value: value@ },
        }
    }
}

/// The views of a sequence of blocks.
pub open spec fn block_views(blocks: Seq<ContentBlock>) -> Seq<BlockView> {
    Seq::new(blocks.len(), |i: int| blocks[i]@)
}

impl ContentBlock {
    /// The same block again.
    pub fn copy(&self) -> (r: ContentBlock)
        ensures
            r@ == self@,
    {
        match self {
            ContentBlock::Text { text } => ContentBlock::Text { text: text.clone() },
            ContentBlock::Thinking { thinking } => ContentBlock::Thinking {
                thinking: thinking.clone(),
            },
            ContentBlock::ToolCall { id, name, arguments } => ContentBlock::ToolCall {
                id: id.clone(),
                name: name.clone(),
                arguments: arguments.clone(),
            },
            ContentBlock::Image { data, mime_type } => ContentBlock::Image {
                data: data.clone(),
                mime_type: mime_type.clone(),
            },
            ContentBlock::Unknown { value } => ContentBlock::Unknown { value: value.clone() },
        }
    }
}

/// The same blocks again.
pub fn copy_blocks(blocks: &Vec<ContentBlock>) -> (r: Vec<ContentBlock>)
    ensures
        block_views(r@) == block_views(blocks@),
{
    let mut out: Vec<ContentBlock> = Vec::new();
    let mut i: usize = 0;
    while i < blocks.len()
        invariant
            i <= blocks@.len(),
            out@.len() == i,
            forall|j: int| 0 <= j < i ==> (#[trigger] out@[j])@ == blocks@[j]@,
        decreases blocks@.len() - i,
    {
        out.push(blocks[i].copy());
        i += 1;
    }
    proof {
        assert(block_views(out@) =~= block_views(blocks@));
    }
    out
}

/// The texts of the text blocks, in their order.
pub open spec fn block_texts(blocks: Seq<BlockView>) -> Seq<Seq<char>>
    decreases blocks.len(),
{
    if blocks.len() == 0 {
        Seq::empty()
    } else {
        let front = block_texts(blocks.drop_last());
        match blocks.last() {
            BlockView::Text { text } => front.push(text),
            _ => front,
        }
    }
}

/// The texts of the text blocks one after the other.
pub open spec fn blocks_text(blocks: Seq<BlockView>) -> Seq<char> {
    join(block_texts(blocks), Seq::empty())
}

/// The texts of the text blocks one after the other.
pub fn text_of_blocks(blocks: &Vec<ContentBlock>) -> (r: String)
    ensures
        r@ == blocks_text(block_views(blocks@)),
{
    let mut texts: Vec<String> = Vec::new();
    let ghost all = block_views(blocks@);
    let mut i: usize = 0;
    proof {
        assert(all.take(0) =~= Seq::empty());
        assert(views(texts@) =~= Seq::empty());
    }
    while i < blocks.len()
        invariant
            all == block_views(blocks@),
            i <= blocks@.len(),
            views(texts@) == block_texts(all.take(i as int)),
        decreases blocks@.len() - i,
    {
        let ghost before = views(texts@);
        proof {
            assert(all.take(i + 1).drop_last() =~= all.take(i as int));
            assert(all.take(i + 1).last() == blocks@[i as int]@);
        }
        match &blocks[i] {
            ContentBlock::Text { text } => {
                texts.push(text.clone());
                proof {
                    assert(views(texts@) =~= before.push(text@));
                }
            },
            _ => {},
        }
        i += 1;
    }
    proof {
        assert(all.take(i as int) =~= all);
        reveal_strlit("");
        assert(""@ =~= Seq::<char>::empty());
    }
    join_texts(texts.as_slice(), "")
}

/// What a user says: a text, or blocks among which images can be.
#[derive(Debug)]
pub enum MessageContent {
    Text(String),
    Blocks(Vec<ContentBlock>),
}

/// The view of a [`MessageContent`].
#[verifier::ext_equal]
pub enum ContentView {
    Text(Seq<char>),
    Blocks(Seq<BlockView>),
}

impl View for MessageContent {
    type V = ContentView;

    open spec fn view(&self) -> ContentView {
        match self {
            MessageContent::Text(text) => ContentView::Text(text@),
            MessageContent::Blocks(blocks) => ContentView::Blocks(block_views(blocks@)),
        }
    }
}

/// The text of what a user says.
pub open spec fn content_text(content: ContentView) -> Seq<char> {
    match content {
        ContentView::Text(text) => text,
        ContentView::Blocks(blocks) => blocks_text(blocks),
    }
}

impl MessageContent {
    /// The same content again.
    pub fn copy(&self) -> (r: MessageContent)
        ensures
            r@ == self@,
    {
        match self {
            MessageContent::Text(text) => MessageContent::Text(text.clone()),
            MessageContent::Blocks(blocks) => MessageContent::Blocks(copy_blocks(blocks)),
        }
    }

    /// The text of the content.
    pub fn text(&self) -> (r: String)
        ensures
            r@ == content_text(self@),
    {
        match self {
            MessageContent::Text(text) => text.clone(),
            MessageContent::Blocks(blocks) => text_of_blocks(blocks),
        }
    }
}

/// The tokens that a response took.
#[derive(Debug, Clone, Copy, PartialEq, Eq, Structural)]
pub struct Usage {
    pub input: u64,
    pub output: u64,
    pub cache_read: u64,
    pub cache_write: u64,
    pub total_tokens: u64,
}

impl Usage {
    /// No tokens.
    pub open spec fn zero() -> Usage {
        Usage { input: 0, output: 0, cache_read: 0, cache_write: 0, total_tokens: 0 }
    }
}

impl Default for Usage {
    fn default() -> (r: Self)
        ensures
            r == Usage::zero(),
    {
        Usage { input: 0, output: 0, cache_read: 0, cache_write: 0, total_tokens: 0 }
    }
}

/// A response of a model.
#[derive(Debug)]
pub struct AssistantMessage {
    pub api: String,
    pub provider: String,
    pub model: String,
    pub content: Vec<ContentBlock>,
    pub usage: Usage,
    pub stop_reason: Option<String>,
}

/// The view of an [`AssistantMessage`].
#[verifier::ext_equal]
pub struct AssistantView {
    pub api: Seq<char>,
    pub provider: Seq<char>,
    pub model: Seq<char>,
    pub content: Seq<BlockView>,
    pub usage: Usage,
    pub stop_reason: Option<Seq<char>>,
}

/// The view of a text that may be there.
pub open spec fn opt_view(text: Option<String>) -> Option<Seq<char>> {
    match text {
        Some(s) => Some(s@),
        None => None,
    }
}

/// The same text again, where there is one.
pub fn copy_opt(text: &Option<String>) -> (r: Option<String>)
    ensures
        opt_view(r) == opt_view(*text),
{
    match text {
        Some(s) => Some(s.clone()),
        None => None,
    }
}

impl View for AssistantMessage {
    type V = AssistantView;

    open spec fn view(&self) -> AssistantView {
        AssistantView {
            api: self.api@,
            provider: self.provider@,
            model: self.model@,
            content: block_views(self.content@),
            usage: self.usage,
            stop_reason: opt_view(self.stop_reason),
        }
    }
}

/// A message of a conversation.
#[derive(Debug)]
pub enum Message {
    User { content: MessageContent },
    Assistant(AssistantMessage),
    ToolResult { tool_call_id: String, tool_name: String, content: Vec<ContentBlock> },
}

/// The view of a [`Message`].
#[verifier::ext_equal]
pub enum MessageView {
    User { content: ContentView },
    Assistant(AssistantView),
    ToolResult { tool_call_id: Seq<char>, tool_name: Seq<char>, content: Seq<BlockView> },
}

impl View for Message {
    type V = MessageView;

    open spec fn view(&self) -> MessageView {
        match self {
            Message::User { content } => MessageView::User { content: content@ },
            Message::Assistant(a) => MessageView::Assistant(a@),
            Message::ToolResult { tool_call_id, tool_name, content } => MessageView::ToolResult {
                tool_call_id: tool_call_id@,
                tool_name: tool_name@,
                content: block_views(content@),
            },
        }
    }
}

/// The views of a sequence of messages.
pub open spec fn message_views(messages: Seq<Message>) -> Seq<MessageView> {
    Seq::new(messages.len(), |i: int| messages[i]@)
}

/// The view of what a user says as a text.
pub open spec fn user_text(text: Seq<char>) -> MessageView {
    MessageView::User { content: ContentView::Text(text) }
}

impl Message {
    /// What a user says as a text.
    pub fn user(text: String) -> (r: Message)
        ensures
            r@ == user_text(text@),
    {
        Message::User { content: MessageContent::Text(text) }
    }

    /// The same message again.
    pub fn copy(&self) -> (r: Message)
        ensures
            r@ == self@,
    {
        match self {
            Message::User { content } => Message::User { content: content.copy() },
            Message::Assistant(a) => Message::Assistant(
                AssistantMessage {
                    api: a.api.clone(),
                    provider: a.provider.clone(),
                    model: a.model.clone(),
                    content: copy_blocks(&a.content),
                    usage: a.usage,
                    stop_reason: copy_opt(&a.stop_reason),
                },
            ),
            Message::ToolResult { tool_call_id, tool_name, content } => Message::ToolResult {
                tool_call_id: tool_call_id.clone(),
                tool_name: tool_name.clone(),
                content: copy_blocks(content),
            },
        }
    }
}

/// The text of a message: that of its text blocks.
pub open spec fn message_text(message: MessageView) -> Seq<char> {
    match message {
        MessageView::User { content } => content_text(content),
        MessageView::Assistant(a) => blocks_text(a.content),
        MessageView::ToolResult { content, .. } => blocks_text(content),
    }
}

impl Message {
    /// The text of the message.
    pub fn text_content(&self) -> (r: String)
        ensures
            r@ == message_text(self@),
    {
        match self {
            Message::User { content } => content.text(),
            Message::Assistant(a) => text_of_blocks(&a.content),
            Message::ToolResult { content, .. } => text_of_blocks(content),
        }
    }
}

/// A part of a response as a session stores it.
#[derive(Debug)]
pub enum AssistantContentBlock {
    Text { text: String },
    Thinking { thinking: String },
    ToolCall { id: String, name: String, arguments: String },
    ImageResult { data: String, media_type: String },
    Refusal { refusal: String },
    ToolPlan { plan: String },
}

/// The view of an [`AssistantContentBlock`].
pub enum StoredBlockView {
    Text { text: Seq<char> },
    Thinking { thinking: Seq<char> },
    ToolCall { id: Seq<char>, name: Seq<char>, arguments: Seq<char> },
    ImageResult { data: Seq<char>, media_type: Seq<char> },
    Refusal { refusal: Seq<char> },
    ToolPlan { plan: Seq<char> },
}

impl View for AssistantContentBlock {
    type V = StoredBlockView;

    open spec fn view(&self) -> StoredBlockView {
        match self {
            AssistantContentBlock::Text { text } => StoredBlockView::Text { text: text@ },
            AssistantContentBlock::Thinking { thinking } => StoredBlockView::Thinking {
                thinking: thinking@,
            },
            AssistantContentBlock::ToolCall { id, name, arguments } => StoredBlockView::ToolCall {
                id: id@,
                name: name@,
                arguments: arguments@,
            },
            AssistantContentBlock::ImageResult { data, media_type } => StoredBlockView::ImageResult {
                data: data@,
                media_type: media_type@,
            },
            AssistantContentBlock::Refusal { refusal } => StoredBlockView::Refusal {
                refusal: refusal@,
            },
            AssistantContentBlock::ToolPlan { plan } => StoredBlockView::ToolPlan { plan: plan@ },
        }
    }
}

/// The views of a sequence of stored blocks.
pub open spec fn stored_views(blocks: Seq<AssistantContentBlock>) -> Seq<StoredBlockView> {
    Seq::new(blocks.len(), |i: int| blocks[i]@)
}

/// The tokens that a response took, as a session stores them.
#[derive(Debug, Clone, Copy, PartialEq, Eq, Structural)]
pub struct StoredUsage {
    pub input: Option<i64>,
    pub output: Option<i64>,
    pub cache_read: Option<i64>,
    pub cache_write: Option<i64>,
    pub total_tokens: Option<i64>,
}

/// An entry of a session.
#[derive(Debug)]
pub enum AgentMessage {
    User { content: String },
    System { content: String },
    Assistant {
        content: Vec<AssistantContentBlock>,
        provider: Option<String>,
        model_id: Option<String>,
        usage: Option<StoredUsage>,
        stop_reason: Option<String>,
    },
    ToolResult { content: String, tool_call_id: String },
    CompactionSummary { summary: String, tokens_before: i64, timestamp: i64 },
    BranchSummary { summary: String },
    BashExecution { command: String, output: String, exit_code: Option<i32> },
    Custom { content: String },
}

/// The view of an [`AgentMessage`].
#[verifier::ext_equal]
pub enum EntryView {
    User { content: Seq<char> },
    System { content: Seq<char> },
    Assistant {
        content: Seq<StoredBlockView>,
        provider: Option<Seq<char>>,
        model_id: Option<Seq<char>>,
        usage: Option<StoredUsage>,
        stop_reason: Option<Seq<char>>,
    },
    ToolResult { content: Seq<char>, tool_call_id: Seq<char> },
    CompactionSummary { summary: Seq<char>, tokens_before: int, timestamp: int },
    BranchSummary { summary: Seq<char> },
    BashExecution { command: Seq<char>, output: Seq<char>, exit_code: Option<i32> },
    Custom { content: Seq<char> },
}

impl View for AgentMessage {
    type V = EntryView;

    open spec fn view(&self) -> EntryView {
        match self {
            AgentMessage::User { content } => EntryView::User { content: content@ },
            AgentMessage::System { content } => EntryView::System { content: content@ },
            AgentMessage::Assistant { content, provider, model_id, usage, stop_reason } =>
                EntryView::Assistant {
                content: stored_views(content@),
                provider: opt_view(*provider),
                model_id: opt_view(*model_id),
                usage: *usage,
                stop_reason: opt_view(*stop_reason),
            },
            AgentMessage::ToolResult { content, tool_call_id } => EntryView::ToolResult {
                content: content@,
                tool_call_id: tool_call_id@,
            },
            AgentMessage::CompactionSummary { summary, tokens_before, timestamp } =>
                EntryView::CompactionSummary {
                summary: summary@,
                tokens_before: *tokens_before as int,
                timestamp: *timestamp as int,
            },
            AgentMessage::BranchSummary { summary } => EntryView::BranchSummary {
                summary: summary@,
            },
            AgentMessage::BashExecution { command, output, exit_code } =>
                EntryView::BashExecution {
                command: command@,
                output: output@,
                exit_code: *exit_code,
            },
            AgentMessage::Custom { content } => EntryView::Custom { content: content@ },
        }
    }
}

/// The views of a sequence of entries.
pub open spec fn entry_views(entries: Seq<AgentMessage>) -> Seq<EntryView> {
    Seq::new(entries.len(), |i: int| entries[i]@)
}

impl AssistantContentBlock {
    /// The same block again.
    pub fn copy(&self) -> (r: AssistantContentBlock)
        ensures
            r@ == self@,
    {
        match self {
            AssistantContentBlock::Text { text } => AssistantContentBlock::Text {
                text: text.clone(),
            },
            AssistantContentBlock::Thinking { thinking } => AssistantContentBlock::Thinking {
                thinking: thinking.clone(),
            },
            AssistantContentBlock::ToolCall { id, name, arguments } =>
                AssistantContentBlock::ToolCall {
                id: id.clone(),
                name: name.clone(),
                arguments: arguments.clone(),
            },
            AssistantContentBlock::ImageResult { data, media_type } =>
                AssistantContentBlock::ImageResult {
                data: data.clone(),
                media_type: media_type.clone(),
            },
            AssistantContentBlock::Refusal { refusal } => AssistantContentBlock::Refusal {
                refusal: refusal.clone(),
            },
            AssistantContentBlock::ToolPlan { plan } => AssistantContentBlock::ToolPlan {
                plan: plan.clone(),
            },
        }
    }
}

/// The same stored blocks again.
fn copy_stored(blocks: &Vec<AssistantContentBlock>) -> (r: Vec<AssistantContentBlock>)
    ensures
        stored_views(r@) == stored_views(blocks@),
{
    let mut out: Vec<AssistantContentBlock> = Vec::new();
    let mut i: usize = 0;
    while i < blocks.len()
        invariant
            i <= blocks@.len(),
            out@.len() == i,
            forall|j: int| 0 <= j < i ==> (#[trigger] out@[j])@ == blocks@[j]@,
        decreases blocks@.len() - i,
    {
        out.push(blocks[i].copy());
        i += 1;
    }
    proof {
        assert(stored_views(out@) =~= stored_views(blocks@));
    }
    out
}

impl AgentMessage {
    /// The same entry again.
    pub fn copy(&self) -> (r: AgentMessage)
        ensures
            r@ == self@,
    {
        match self {
            AgentMessage::User { content } => AgentMessage::User { content: content.clone() },
            AgentMessage::System { content } => AgentMessage::System { content: content.clone() },
            AgentMessage::Assistant { content, provider, model_id, usage, stop_reason } =>
                AgentMessage::Assistant {
                content: copy_stored(content),
                provider: copy_opt(provider),
                model_id: copy_opt(model_id),
                usage: *usage,
                stop_reason: copy_opt(stop_reason),
            },
            AgentMessage::ToolResult { content, tool_call_id } => AgentMessage::ToolResult {
                content: content.clone(),
                tool_call_id: tool_call_id.clone(),
            },
            AgentMessage::CompactionSummary { summary, tokens_before, timestamp } =>
                AgentMessage::CompactionSummary {
                summary: summary.clone(),
                tokens_before: *tokens_before,
                timestamp: *timestamp,
            },
            AgentMessage::BranchSummary { summary } => AgentMessage::BranchSummary {
                summary: summary.clone(),
            },
            AgentMessage::BashExecution { command, output, exit_code } =>
                AgentMessage::BashExecution {
                command: command.clone(),
                output: output.clone(),
                exit_code: *exit_code,
            },
            AgentMessage::Custom { content } => AgentMessage::Custom { content: content.clone() },
        }
    }
}

/// Blocks one after the other, those of the last apart.
proof fn lemma_block_texts_join(blocks: Seq<BlockView>)
    requires
        blocks.len() > 0,
    ensures
        blocks_text(blocks) == blocks_text(blocks.drop_last()) + (match blocks.last() {
            BlockView::Text { text } => text,
            _ => Seq::empty(),
        }),
{
    let front = block_texts(blocks.drop_last());
    if let BlockView::Text { text } = blocks.last() {
        assert(front.push(text).drop_last() =~= front);
        if front.len() == 0 {
            assert(join(front.push(text), Seq::empty()) =~= text);
        }
    }
    assert(blocks_text(blocks) =~= blocks_text(blocks.drop_last()) + (match blocks.last() {
        BlockView::Text { text } => text,
        _ => Seq::empty(),
    }));
}

/// The text of blocks is the text of every text block in its turn, with nothing between
/// them; blocks of other kinds add nothing.
pub proof fn lemma_text_of_blocks(blocks: Seq<BlockView>)
    ensures
        blocks_text(blocks) == Seq::new(
            blocks.len(),
            |k: int|
                match blocks[k] {
                    BlockView::Text { text } => text,
                    _ => Seq::empty(),
                },
        ).flatten(),
    decreases blocks.len(),
{
    let texts = Seq::new(
        blocks.len(),
        |k: int|
            match blocks[k] {
                BlockView::Text { text } => text,
                _ => Seq::empty(),
            },
    );
    if blocks.len() > 0 {
        let front = blocks.drop_last();
        lemma_text_of_blocks(front);
        assert(texts.drop_last() =~= Seq::new(
            front.len(),
            |k: int|
                match front[k] {
                    BlockView::Text { text } => text,
                    _ => Seq::empty(),
                },
        ));
        lemma_flatten_last(texts);
        lemma_block_texts_join(blocks);
    } else {
        assert(texts =~= Seq::empty());
    }
}

/// The text of a message is what a user wrote, or that of every text block of it in its
/// turn.
pub proof fn lemma_text_of_message(message: MessageView)
    ensures
        message matches MessageView::User { content: ContentView::Text(text) } ==> message_text(
            message,
        ) == text,
        message matches MessageView::User { content: ContentView::Blocks(blocks) }
            ==> message_text(message) == Seq::new(
            blocks.len(),
            |k: int|
                match blocks[k] {
                    BlockView::Text { text } => text,
                    _ => Seq::empty(),
                },
        ).flatten(),
        message matches MessageView::Assistant(a) ==> message_text(message) == Seq::new(
            a.content.len(),
            |k: int|
                match a.content[k] {
                    BlockView::Text { text } => text,
                    _ => Seq::empty(),
                },
        ).flatten(),
        message matches MessageView::ToolResult { tool_call_id, tool_name, content }
            ==> message_text(message) == Seq::new(
            content.len(),
            |k: int|
                match content[k] {
                    BlockView::Text { text } => text,
                    _ => Seq::empty(),
                },
        ).flatten(),
{
    match message {
        MessageView::User { content: ContentView::Text(_) } => {},
        MessageView::User { content: ContentView::Blocks(blocks) } => {
            lemma_text_of_blocks(blocks);
        },
        MessageView::Assistant(a) => {
            lemma_text_of_blocks(a.content);
        },
        MessageView::ToolResult { content, .. } => {
            lemma_text_of_blocks(content);
        },
    }
}

/// Two blocks look the same exactly where they are of one kind and their texts are the same.
pub proof fn lemma_block_views_tell_apart(a: ContentBlock, b: ContentBlock)
    ensures
        a@ == b@ <==> match (a, b) {
            (ContentBlock::Text { text: s }, ContentBlock::Text { text: t }) => s@ == t@,
            (ContentBlock::Thinking { thinking: s }, ContentBlock::Thinking { thinking: t }) => s@
                == t@,
            (
                ContentBlock::ToolCall { id: i, name: n, arguments: s },
                ContentBlock::ToolCall { id: j, name: m, arguments: t },
            ) => i@ == j@ && n@ == m@ && s@ == t@,
            (
                ContentBlock::Image { data: s, mime_type: m },
                ContentBlock::Image { data: t, mime_type: n },
            ) => s@ == t@ && m@ == n@,
            (ContentBlock::Unknown { value: s }, ContentBlock::Unknown { value: t }) => s@ == t@,
            _ => false,
        },
{
}

/// Two stored blocks look the same exactly where they are of one kind and their texts are the
/// same.
pub proof fn lemma_stored_views_tell_apart(a: AssistantContentBlock, b: AssistantContentBlock)
    ensures
        a@ == b@ <==> match (a, b) {
            (
                AssistantContentBlock::Text { text: s },
                AssistantContentBlock::Text { text: t },
            ) => s@ == t@,
            (
                AssistantContentBlock::Thinking { thinking: s },
                AssistantContentBlock::Thinking { thinking: t },
            ) => s@ == t@,
            (
                AssistantContentBlock::ToolCall { id: i, name: n, arguments: s },
                AssistantContentBlock::ToolCall { id: j, name: m, arguments: t },
            ) => i@ == j@ && n@ == m@ && s@ == t@,
            (
                AssistantContentBlock::ImageResult { data: s, media_type: m },
                AssistantContentBlock::ImageResult { data: t, media_type: n },
            ) => s@ == t@ && m@ == n@,
            (
                AssistantContentBlock::Refusal { refusal: s },
                AssistantContentBlock::Refusal { refusal: t },
            ) => s@ == t@,
            (
                AssistantContentBlock::ToolPlan { plan: s },
                AssistantContentBlock::ToolPlan { plan: t },
            ) => s@ == t@,
            _ => false,
        },
{
}

/// Two messages look the same exactly where they are of one kind, every field is the same,
/// and their blocks look the same one by one.
pub proof fn lemma_message_views_tell_apart(a: Message, b: Message)
    ensures
        a@ == b@ <==> match (a, b) {
            (
                Message::User { content: MessageContent::Text(s) },
                Message::User { content: MessageContent::Text(t) },
            ) => s@ == t@,
            (
                Message::User { content: MessageContent::Blocks(s) },
                Message::User { content: MessageContent::Blocks(t) },
            ) => same_blocks(s@, t@),
            (Message::Assistant(s), Message::Assistant(t)) => {
                &&& s.api@ == t.api@
                &&& s.provider@ == t.provider@
                &&& s.model@ == t.model@
                &&& same_blocks(s.content@, t.content@)
                &&& s.usage == t.usage
                &&& s.stop_reason is Some <==> t.stop_reason is Some
                &&& s.stop_reason is Some ==> s.stop_reason->0@ == t.stop_reason->0@
            },
            (
                Message::ToolResult { tool_call_id: i, tool_name: n, content: s },
                Message::ToolResult { tool_call_id: j, tool_name: m, content: t },
            ) => i@ == j@ && n@ == m@ && same_blocks(s@, t@),
            _ => false,
        },
{
    match (a, b) {
        (
            Message::User { content: MessageContent::Blocks(s) },
            Message::User { content: MessageContent::Blocks(t) },
        ) => {
            lemma_same_blocks(s@, t@);
        },
        (Message::Assistant(s), Message::Assistant(t)) => {
            lemma_same_blocks(s.content@, t.content@);
        },
        (
            Message::ToolResult { tool_call_id: i, tool_name: n, content: s },
            Message::ToolResult { tool_call_id: j, tool_name: m, content: t },
        ) => {
            lemma_same_blocks(s@, t@);
        },
        _ => {},
    }
}

/// Whether two sequences of blocks look the same one by one.
pub open spec fn same_blocks(a: Seq<ContentBlock>, b: Seq<ContentBlock>) -> bool {
    a.len() == b.len() && forall|i: int| 0 <= i < a.len() ==> (#[trigger] a[i])@ == b[i]@
}

proof fn lemma_same_blocks(a: Seq<ContentBlock>, b: Seq<ContentBlock>)
    ensures
        block_views(a) == block_views(b) <==> same_blocks(a, b),
{
    let va = block_views(a);
    let vb = block_views(b);
    if va == vb {
        assert(va.len() == a.len() && vb.len() == b.len());
        assert forall|i: int| 0 <= i < a.len() implies (#[trigger] a[i])@ == b[i]@ by {
            assert(va[i] == vb[i]);
        }
    }
    if same_blocks(a, b) {
        assert(va =~= vb);
    }
}

/// Conversations and branches are seen message by message and entry by entry.
pub proof fn lemma_views_one_by_one(
    messages: Seq<Message>,
    entries: Seq<AgentMessage>,
    i: int,
)
    ensures
        message_views(messages).len() == messages.len(),
        entry_views(entries).len() == entries.len(),
        0 <= i < messages.len() ==> message_views(messages)[i] == messages[i]@,
        0 <= i < entries.len() ==> entry_views(entries)[i] == entries[i]@,
{
}

/// An entry is seen by its kind, with every field of it.
pub proof fn lemma_entry_view_tells(entry: AgentMessage)
    ensures
        entry matches AgentMessage::User { content } ==> entry@ == (EntryView::User {
            content: content@,
        }),
        entry matches AgentMessage::System { content } ==> entry@ == (EntryView::System {
            content: content@,
        }),
        entry matches AgentMessage::Assistant {
            content,
            provider,
            model_id,
            usage,
            stop_reason,
        } ==> {
            &&& entry@ is Assistant
            &&& entry@->Assistant_content.len() == content@.len()
            &&& forall|i: int|
                0 <= i < content@.len() ==> #[trigger] entry@->Assistant_content[i] == content@[i]@
            &&& entry@->Assistant_provider is Some <==> provider is Some
            &&& provider is Some ==> entry@->Assistant_provider->0 == provider->0@
            &&& entry@->Assistant_model_id is Some <==> model_id is Some
            &&& model_id is Some ==> entry@->Assistant_model_id->0 == model_id->0@
            &&& entry@->Assistant_usage == usage
            &&& entry@->Assistant_stop_reason is Some <==> stop_reason is Some
            &&& stop_reason is Some ==> entry@->Assistant_stop_reason->0 == stop_reason->0@
        },
        entry matches AgentMessage::ToolResult { content, tool_call_id } ==> entry@ == (
        EntryView::ToolResult { content: content@, tool_call_id: tool_call_id@ }),
        entry matches AgentMessage::CompactionSummary { summary, tokens_before, timestamp }
            ==> entry@ == (EntryView::CompactionSummary {
            summary: summary@,
            tokens_before: tokens_before as int,
            timestamp: timestamp as int,
        }),
        entry matches AgentMessage::BranchSummary { summary } ==> entry@ is BranchSummary,
        entry matches AgentMessage::BashExecution { command, output, exit_code }
            ==> entry@ is BashExecution,
        entry matches AgentMessage::Custom { content } ==> entry@ is Custom,
{
}

} // verus!
