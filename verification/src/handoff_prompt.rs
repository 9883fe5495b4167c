//! The prompt from which a handoff document is written, and the chain of the documents.

use crate::messages::{message_text, message_views, Message, MessageView};
use crate::text::{
    chars_of, decimal, decimal_text, first_word, first_word_text, lemma_flatten_at,
    lemma_flatten_last, lines, lines_of, parse_number, parse_usize, starts_with, text_of, trim,
    trim_text, views,
};
use vstd::prelude::*;

verus! {

/// What is known of a repository.
#[derive(Debug, Clone)]
pub struct GitState {
    pub branch: Option<String>,
    pub recent_commits: Vec<String>,
    pub modified_files: Vec<String>,
}

/// The place of a document in the chain of documents.
#[derive(Debug, Clone)]
pub struct HandoffChain {
    /// The number of the document, from one.
    pub seq: usize,
    /// The path of the document before it.
    pub prev_path: Option<String>,
}

/// Characters that the prompt takes from one message.
pub const MAX_MSG_CHARS: usize = 3000;

/// What is asked for.
pub const INSTRUCTIONS: &'static str = "\
You are writing a **session handoff document** — a structured markdown file that \
captures everything a fresh AI agent needs to continue the current work without \
re-exploring or re-discovering what was already done.

Read the conversation below carefully and produce the handoff document following \
the output template at the end of this message.

**Critical guidelines:**

1. **\"What Was Tried\" is the most valuable section.** Capture every approach \
attempted — especially failures and abandoned approaches. These are the most \
expensive things to rediscover. Include what was tried, what happened, and why \
it was kept or abandoned.

2. **\"Remaining Work\" must be concrete and actionable.** Not vague goals like \
\"improve performance\" — specific tasks like \"Add retry logic to the HTTP client \
in `src/client.rs:45`\". Order them by priority.

3. **\"Key Decisions\" should record what was chosen AND what was rejected, with \
reasoning.** Future sessions need to understand why, not just what.

4. **Include specific file paths and line numbers** wherever relevant.

5. **Be selective.** Exclude conversational filler, repetitions, and digressions. \
Include only what matters for continuing the work.

6. **Write the document as if the reader has zero context** — because they do.";

/// How the document is laid out.
pub const OUTPUT_TEMPLATE: &'static str = "\
## Output Template

Produce the handoff document in this exact structure (fill in all sections; \
omit a section only if truly nothing applies):

```markdown
# Session Handoff — {brief title}

## Goal

{What we're working on and why — 1-2 paragraphs}

## Current State

{Bullet list of concrete accomplishments and current state of work}

## What Was Tried

{Every approach attempted, including failures. This is the most valuable section.}

### {Approach title}
- **What:** what was attempted
- **Result:** what happened
- **Outcome:** kept | abandoned (and why)

## Key Decisions

{Architectural choices with rationale. What was chosen AND what was rejected.}

## Remaining Work

1. {First next step — concrete, with file paths if relevant}
2. {Second next step}
3. ...

## Critical Files

| Path | Role |
|------|------|
| `path/to/file` | what it does and why it matters |

## Gotchas & Risks

- {Known issues, pitfalls, things to watch out for}
```

Write the complete handoff document now. Output ONLY the markdown document — \
no preamble, no explanation, no closing remarks.";

/// The instructions for the model that writes the document.
pub open spec fn system_text() -> Seq<char> {
    "You are a session-handoff document generator for an AI coding agent. Your job is to mine a conversation and produce a structured markdown document that lets a fresh agent continue the work with zero ambiguity."@
}

/// The instructions for the model that writes the document.
pub fn handoff_system_prompt() -> (r: &'static str)
    ensures
        r@ == system_text(),
{
    "You are a session-handoff document generator for an AI coding agent. Your job is to mine a conversation and produce a structured markdown document that lets a fresh agent continue the work with zero ambiguity."
}

/// The lines that are not empty once the white space around them is gone.
pub open spec fn trimmed_lines(pieces: Seq<Seq<char>>) -> Seq<Seq<char>>
    decreases pieces.len(),
{
    if pieces.len() == 0 {
        Seq::empty()
    } else {
        let front = trimmed_lines(pieces.drop_last());
        if trim(pieces.last()).len() == 0 {
            front
        } else {
            front.push(trim(pieces.last()))
        }
    }
}

/// The lines of a command's output, where it gave one.
pub open spec fn output_lines(output: Option<Seq<char>>) -> Seq<Seq<char>> {
    match output {
        Some(text) => trimmed_lines(lines(text)),
        None => Seq::empty(),
    }
}

/// The view of a text that may be there.
pub open spec fn opt_str_view(text: Option<&str>) -> Option<Seq<char>> {
    match text {
        Some(s) => Some(s@),
        None => None,
    }
}

/// The lines of a command's output, where it gave one.
fn read_output_lines(output: Option<&str>) -> (r: Vec<String>)
    ensures
        views(r@) == output_lines(opt_str_view(output)),
{
    let mut out: Vec<String> = Vec::new();
    match output {
        None => {
            proof {
                assert(views(out@) =~= Seq::empty());
            }
            out
        },
        Some(text) => {
            let pieces = lines_of(text);
            let ghost all = views(pieces@);
            let mut i: usize = 0;
            proof {
                assert(all.take(0) =~= Seq::empty());
                assert(views(out@) =~= Seq::empty());
            }
            while i < pieces.len()
                invariant
                    all == views(pieces@),
                    i <= pieces@.len(),
                    views(out@) == trimmed_lines(all.take(i as int)),
                decreases pieces@.len() - i,
            {
                let ghost before = views(out@);
                let line = trim_text(pieces[i].as_str());
                proof {
                    assert(all.take(i + 1).drop_last() =~= all.take(i as int));
                    assert(all.take(i + 1).last() == pieces@[i as int]@);
                }
                if !line.as_str().is_empty() {
                    out.push(line);
                    proof {
                        assert(views(out@) =~= before.push(line@));
                    }
                }
                i += 1;
            }
            proof {
                assert(all.take(i as int) =~= all);
            }
            out
        },
    }
}

/// What is known of a repository from the output of three commands: the name of the
/// branch, the last commits and the changed files. A command that failed gave none.
pub fn gather_git_state(
    branch: Option<&str>,
    recent_commits: Option<&str>,
    modified_files: Option<&str>,
) -> (r: GitState)
    ensures
        match branch {
            Some(b) => r.branch is Some && r.branch->0@ == trim(b@),
            None => r.branch is None,
        },
        views(r.recent_commits@) == output_lines(opt_str_view(recent_commits)),
        views(r.modified_files@) == output_lines(opt_str_view(modified_files)),
{
    GitState {
        branch: match branch {
            Some(b) => Some(trim_text(b)),
            None => None,
        },
        recent_commits: read_output_lines(recent_commits),
        modified_files: read_output_lines(modified_files),
    }
}

/// A document of the chain as a directory lists it.
#[derive(Debug, Clone)]
pub struct HandoffFile {
    /// The path, where it is text.
    pub path: Option<String>,
    /// The extension of its name.
    pub extension: Option<String>,
    /// When it was last changed, in milliseconds since the epoch.
    pub mtime_ms: i64,
}

/// Whether a file is a document of the chain.
pub open spec fn is_document(file: HandoffFile) -> bool {
    file.extension is Some && file.extension->0@ == "md"@
}

/// Whether the document at `i` is the latest: the first among those changed last.
pub open spec fn is_latest(files: Seq<HandoffFile>, i: int) -> bool {
    &&& 0 <= i < files.len()
    &&& is_document(files[i])
    &&& forall|j: int|
        0 <= j < files.len() && is_document(#[trigger] files[j]) ==> files[j].mtime_ms
            < files[i].mtime_ms || (files[j].mtime_ms == files[i].mtime_ms && i <= j)
}

/// The latest document, where there is one.
pub fn latest_handoff(files: &Vec<HandoffFile>) -> (r: Option<usize>)
    ensures
        match r {
            Some(i) => is_latest(files@, i as int),
            None => forall|j: int| 0 <= j < files@.len() ==> !is_document(#[trigger] files@[j]),
        },
{
    let mut best: Option<usize> = None;
    let mut i: usize = 0;
    while i < files.len()
        invariant
            i <= files@.len(),
            match best {
                Some(b) => b < i && is_document(files@[b as int]) && forall|j: int|
                    0 <= j < i && is_document(#[trigger] files@[j]) ==> files@[j].mtime_ms
                        < files@[b as int].mtime_ms || (files@[j].mtime_ms
                        == files@[b as int].mtime_ms && b <= j),
                None => forall|j: int| 0 <= j < i ==> !is_document(#[trigger] files@[j]),
            },
        decreases files@.len() - i,
    {
        let is_doc = match &files[i].extension {
            Some(e) => crate::text::str_eq(e.as_str(), "md"),
            None => false,
        };
        if is_doc {
            let later = match best {
                Some(b) => files[b].mtime_ms < files[i].mtime_ms,
                None => true,
            };
            if later {
                best = Some(i);
            }
        }
        i += 1;
    }
    best
}

/// What a line begins with that numbers a document.
pub open spec fn chain_mark() -> Seq<char> {
    "> **Chain:** #"@
}

/// The rest of the first line that numbers the document.
pub open spec fn chain_rest(pieces: Seq<Seq<char>>) -> Option<Seq<char>>
    decreases pieces.len(),
{
    if pieces.len() == 0 {
        None
    } else if chain_mark().is_prefix_of(pieces[0]) {
        Some(pieces[0].skip(chain_mark().len() as int))
    } else {
        chain_rest(pieces.drop_first())
    }
}

/// The number that a document gives itself: the first word behind the mark.
pub open spec fn chain_number(content: Seq<char>) -> Option<nat> {
    match chain_rest(lines(content)) {
        Some(rest) => match first_word(rest) {
            Some(word) => parse_number(word, usize::MAX as nat),
            None => None,
        },
        None => None,
    }
}

/// The number that a document gives itself.
pub fn read_chain_number(content: &str) -> (r: Option<usize>)
    ensures
        match r {
            Some(n) => chain_number(content@) == Some(n as nat),
            None => chain_number(content@) is None,
        },
{
    let pieces = lines_of(content);
    let ghost all = views(pieces@);
    let mut i: usize = 0;
    proof {
        reveal_strlit("> **Chain:** #");
        assert(all.skip(0) =~= all);
    }
    while i < pieces.len()
        invariant
            all == views(pieces@),
            all == lines(content@),
            i <= pieces@.len(),
            chain_mark().len() == 14,
            chain_rest(all.skip(i as int)) == chain_rest(all),
        decreases pieces@.len() - i,
    {
        let line = pieces[i].as_str();
        proof {
            assert(all.skip(i as int)[0] == line@);
            assert(all.skip(i as int).drop_first() =~= all.skip(i + 1));
        }
        if starts_with(line, "> **Chain:** #") {
            let chars = chars_of(line);
            let rest = text_of(&chars, 14, chars.len());
            proof {
                assert(rest@ =~= line@.skip(14));
            }
            return match first_word_text(rest.as_str()) {
                Some(word) => parse_usize(word.as_str()),
                None => None,
            };
        }
        i += 1;
    }
    None
}

/// The number of the latest document, or zero where it gives none.
pub open spec fn previous_number(content: Option<Seq<char>>) -> nat {
    match content {
        Some(text) => match chain_number(text) {
            Some(n) => n,
            None => 0,
        },
        None => 0,
    }
}

/// The place of the next document in the chain: behind the latest one, whose content is
/// given where it could be read.
pub fn detect_handoff_chain(files: &Vec<HandoffFile>, latest_content: Option<&str>) -> (r:
    HandoffChain)
    requires
        previous_number(opt_str_view(latest_content)) < usize::MAX,
    ensures
        (forall|j: int| 0 <= j < files@.len() ==> !is_document(#[trigger] files@[j])) ==> r.seq == 1
            && r.prev_path is None,
        forall|i: int| #[trigger]
            is_latest(files@, i) ==> r.seq == previous_number(opt_str_view(latest_content)) + 1
                && crate::messages::opt_view(r.prev_path) == crate::messages::opt_view(
                files@[i].path,
            ),
{
    match latest_handoff(files) {
        None => HandoffChain { seq: 1, prev_path: None },
        Some(i) => {
            let previous: usize = match latest_content {
                Some(text) => match read_chain_number(text) {
                    Some(n) => n,
                    None => 0,
                },
                None => 0,
            };
            proof {
                assert forall|k: int| #[trigger] is_latest(files@, k) implies k == i by {
                    assert(is_document(files@[k]) && is_document(files@[i as int]));
                }
            }
            HandoffChain {
                seq: previous + 1,
                prev_path: crate::messages::copy_opt(&files[i].path),
            }
        },
    }
}

/// What the prompt takes from a message: all of it, or its first characters and a mark.
pub open spec fn cut_message(s: Seq<char>, max: nat) -> Seq<char> {
    if s.len() <= max {
        s
    } else {
        s.take(max as int) + "... [truncated]"@
    }
}

/// The text cut to its first characters.
pub fn truncate_msg(s: &str, max: usize) -> (r: String)
    ensures
        r@ == cut_message(s@, max as nat),
{
    let chars = chars_of(s);
    if chars.len() <= max {
        return s.to_owned();
    }
    let mut out = text_of(&chars, 0, max);
    proof {
        assert(out@ =~= s@.take(max as int));
    }
    out.append("... [truncated]");
    out
}

/// The texts, each on a line of its own.
pub open spec fn line_block(texts: Seq<Seq<char>>) -> Seq<char>
    decreases texts.len(),
{
    if texts.len() == 0 {
        Seq::empty()
    } else {
        line_block(texts.drop_last()) + texts.last() + "\n"@
    }
}

/// A list of lines under a heading, where there are any.
pub open spec fn listing(heading: Seq<char>, texts: Seq<Seq<char>>) -> Seq<char> {
    if texts.len() == 0 {
        Seq::empty()
    } else {
        heading + "```\n"@ + line_block(texts) + "```\n\n"@
    }
}

/// Who a message is from.
pub open spec fn role_name(message: MessageView) -> Seq<char> {
    match message {
        MessageView::User { .. } => "User"@,
        MessageView::Assistant(_) => "Assistant"@,
        MessageView::ToolResult { .. } => "Tool"@,
    }
}

/// A message as the prompt shows it.
pub open spec fn turn_text(message: MessageView) -> Seq<char> {
    "["@ + role_name(message) + "]: "@ + cut_message(message_text(message), MAX_MSG_CHARS as nat)
        + "\n\n"@
}

/// The messages as the prompt shows them.
pub open spec fn turns_text(messages: Seq<MessageView>) -> Seq<char>
    decreases messages.len(),
{
    if messages.len() == 0 {
        Seq::empty()
    } else {
        turns_text(messages.drop_last()) + turn_text(messages.last())
    }
}

/// What the prompt says of the chain.
pub open spec fn chain_text(seq: nat, prev_path: Option<Seq<char>>) -> Seq<char> {
    match prev_path {
        None => Seq::empty(),
        Some(prev) => "\n**Chain context:** This is handoff #"@ + decimal(seq)
            + " in a chain. The previous handoff is at `"@ + prev
            + "`. Reference it if the current conversation builds on earlier work.\n"@,
    }
}

/// What the prompt says of the branch.
pub open spec fn branch_text(branch: Option<Seq<char>>) -> Seq<char> {
    match branch {
        Some(b) => "**Branch:** `"@ + b + "`\n\n"@,
        None => "(not a git repository)\n\n"@,
    }
}

/// The whole prompt.
pub open spec fn prompt_text(
    messages: Seq<MessageView>,
    git: GitState,
    chain: HandoffChain,
) -> Seq<char> {
    INSTRUCTIONS@ + chain_text(chain.seq as nat, crate::messages::opt_view(chain.prev_path))
        + "\n## Git State\n\n"@ + branch_text(crate::messages::opt_view(git.branch)) + listing(
        "**Recent commits:**\n"@,
        views(git.recent_commits@),
    ) + listing("**Modified files (uncommitted):**\n"@, views(git.modified_files@))
        + "## Conversation\n\n"@ + "Below is the full conversation to mine for the handoff:\n\n"@
        + turns_text(messages) + "---\n\n"@ + OUTPUT_TEMPLATE@
}

/// A list of lines under a heading, where there are any.
fn render_listing(heading: &str, texts: &Vec<String>) -> (r: String)
    ensures
        r@ == listing(heading@, views(texts@)),
{
    if texts.len() == 0 {
        return String::new();
    }
    let ghost all = views(texts@);
    let mut out = heading.to_owned();
    out.append("```\n");
    let ghost head = out@;
    let mut i: usize = 0;
    proof {
        assert(all.take(0) =~= Seq::empty());
        assert(head + line_block(all.take(0)) =~= head);
    }
    while i < texts.len()
        invariant
            all == views(texts@),
            i <= texts@.len(),
            out@ == head + line_block(all.take(i as int)),
        decreases texts@.len() - i,
    {
        out.append(texts[i].as_str());
        out.append("\n");
        i += 1;
        proof {
            assert(all.take(i as int).drop_last() =~= all.take(i - 1));
            assert(all.take(i as int).last() == texts@[i - 1]@);
            assert(out@ =~= head + line_block(all.take(i as int)));
        }
    }
    proof {
        assert(all.take(i as int) =~= all);
    }
    out.append("```\n\n");
    out
}

/// A message as the prompt shows it.
fn render_turn(message: &Message) -> (r: String)
    ensures
        r@ == turn_text(message@),
{
    let mut out = "[".to_owned();
    match message {
        Message::User { .. } => out.append("User"),
        Message::Assistant(_) => out.append("Assistant"),
        Message::ToolResult { .. } => out.append("Tool"),
    }
    out.append("]: ");
    out.append(truncate_msg(message.text_content().as_str(), MAX_MSG_CHARS).as_str());
    out.append("\n\n");
    out
}

/// The messages as the prompt shows them.
fn render_turns(messages: &Vec<Message>) -> (r: String)
    ensures
        r@ == turns_text(message_views(messages@)),
{
    let ghost all = message_views(messages@);
    let mut out = String::new();
    let mut i: usize = 0;
    proof {
        assert(all.take(0) =~= Seq::empty());
    }
    while i < messages.len()
        invariant
            all == message_views(messages@),
            i <= messages@.len(),
            out@ == turns_text(all.take(i as int)),
        decreases messages@.len() - i,
    {
        out.append(render_turn(&messages[i]).as_str());
        i += 1;
        proof {
            assert(all.take(i as int).drop_last() =~= all.take(i - 1));
            assert(all.take(i as int).last() == messages@[i - 1]@);
        }
    }
    proof {
        assert(all.take(i as int) =~= all);
    }
    out
}

/// The prompt from which a model writes the document.
pub fn build_handoff_prompt(messages: &Vec<Message>, git_state: &GitState, chain: &HandoffChain) -> (r:
    String)
    ensures
        r@ == prompt_text(message_views(messages@), *git_state, *chain),
{
    let mut context = String::new();
    match &chain.prev_path {
        Some(prev) => {
            context = "\n**Chain context:** This is handoff #".to_owned();
            context.append(decimal_text(chain.seq as u64).as_str());
            context.append(" in a chain. The previous handoff is at `");
            context.append(prev.as_str());
            context.append("`. Reference it if the current conversation builds on earlier work.\n");
        },
        None => {},
    }
    let mut branch = "(not a git repository)\n\n".to_owned();
    match &git_state.branch {
        Some(b) => {
            branch = "**Branch:** `".to_owned();
            branch.append(b.as_str());
            branch.append("`\n\n");
        },
        None => {},
    }
    let mut prompt = INSTRUCTIONS.to_owned();
    prompt.append(context.as_str());
    prompt.append("\n## Git State\n\n");
    prompt.append(branch.as_str());
    prompt.append(
        render_listing("**Recent commits:**\n", &git_state.recent_commits).as_str(),
    );
    prompt.append(
        render_listing("**Modified files (uncommitted):**\n", &git_state.modified_files).as_str(),
    );
    prompt.append("## Conversation\n\n");
    prompt.append("Below is the full conversation to mine for the handoff:\n\n");
    prompt.append(render_turns(messages).as_str());
    prompt.append("---\n\n");
    prompt.append(OUTPUT_TEMPLATE);
    prompt
}

/// The messages as the prompt shows them are those of each in its turn.
proof fn lemma_turns_in_turn(messages: Seq<MessageView>)
    ensures
        turns_text(messages) == Seq::new(
            messages.len(),
            |k: int| turn_text(messages[k]),
        ).flatten(),
    decreases messages.len(),
{
    let shown = Seq::new(messages.len(), |k: int| turn_text(messages[k]));
    if messages.len() > 0 {
        let front = messages.drop_last();
        lemma_turns_in_turn(front);
        assert(shown.drop_last() =~= Seq::new(front.len(), |k: int| turn_text(front[k])));
        lemma_flatten_last(shown);
    }
}

/// The lines of a list are its texts in their turn.
proof fn lemma_lines_in_turn(texts: Seq<Seq<char>>)
    ensures
        line_block(texts) == Seq::new(texts.len(), |k: int| texts[k] + "\n"@).flatten(),
    decreases texts.len(),
{
    let shown = Seq::new(texts.len(), |k: int| texts[k] + "\n"@);
    if texts.len() > 0 {
        let front = texts.drop_last();
        lemma_lines_in_turn(front);
        assert(shown.drop_last() =~= Seq::new(front.len(), |k: int| front[k] + "\n"@));
        lemma_flatten_last(shown);
        assert(line_block(texts) =~= line_block(front) + (texts.last() + "\n"@));
    }
}

/// The prompt ends with the conversation and the template: between the heading of the
/// conversation and the template stand the messages in their order, each with who it is
/// from and its text, cut only behind the three thousandth character. The message at `i`
/// stands right behind those before it and right before those after it.
pub proof fn lemma_every_message_is_shown(
    messages: Seq<MessageView>,
    git: GitState,
    chain: HandoffChain,
    i: int,
)
    requires
        0 <= i < messages.len(),
    ensures
        ({
            let shown = Seq::new(
                messages.len(),
                |k: int|
                    "["@ + (match messages[k] {
                        MessageView::User { .. } => "User"@,
                        MessageView::Assistant(_) => "Assistant"@,
                        MessageView::ToolResult { .. } => "Tool"@,
                    }) + "]: "@ + (if message_text(messages[k]).len() <= 3000 {
                        message_text(messages[k])
                    } else {
                        message_text(messages[k]).take(3000) + "... [truncated]"@
                    }) + "\n\n"@,
            );
            let none = prompt_text(Seq::empty(), git, chain);
            let tail = "---\n\n"@ + OUTPUT_TEMPLATE@;
            let head = none.take(none.len() - tail.len());
            &&& none == head + tail
            &&& prompt_text(messages, git, chain) == head + shown.flatten() + tail
            &&& prompt_text(messages, git, chain) == head + shown.take(i).flatten() + shown[i]
                + shown.skip(i + 1).flatten() + tail
        }),
{
    let shown = Seq::new(messages.len(), |k: int| turn_text(messages[k]));
    let plain = Seq::new(
        messages.len(),
        |k: int|
            "["@ + (match messages[k] {
                MessageView::User { .. } => "User"@,
                MessageView::Assistant(_) => "Assistant"@,
                MessageView::ToolResult { .. } => "Tool"@,
            }) + "]: "@ + (if message_text(messages[k]).len() <= 3000 {
                message_text(messages[k])
            } else {
                message_text(messages[k]).take(3000) + "... [truncated]"@
            }) + "\n\n"@,
    );
    assert(plain =~= shown);
    lemma_turns_in_turn(messages);
    lemma_flatten_at(shown, i);
    let none = prompt_text(Seq::empty(), git, chain);
    let tail = "---\n\n"@ + OUTPUT_TEMPLATE@;
    let head = none.take(none.len() - tail.len());
    let before = INSTRUCTIONS@ + chain_text(
        chain.seq as nat,
        crate::messages::opt_view(chain.prev_path),
    ) + "\n## Git State\n\n"@ + branch_text(crate::messages::opt_view(git.branch)) + listing(
        "**Recent commits:**\n"@,
        views(git.recent_commits@),
    ) + listing("**Modified files (uncommitted):**\n"@, views(git.modified_files@))
        + "## Conversation\n\n"@ + "Below is the full conversation to mine for the handoff:\n\n"@;
    assert(none =~= before + tail);
    assert(head =~= before);
    assert(prompt_text(messages, git, chain) =~= before + shown.flatten() + tail);
    assert(head + shown.flatten() + tail =~= head + shown.take(i).flatten() + shown[i]
        + shown.skip(i + 1).flatten() + tail);
}

/// What the prompt says before the conversation: the instructions, the document that it
/// continues from where there is one, the branch, and under their headings every recent
/// commit and every file that was changed, each on a line of its own.
pub proof fn lemma_prompt_tells_state(git: GitState, chain: HandoffChain)
    ensures
        prompt_text(Seq::empty(), git, chain) == INSTRUCTIONS@ + (if chain.prev_path is Some {
            "\n**Chain context:** This is handoff #"@ + decimal(chain.seq as nat)
                + " in a chain. The previous handoff is at `"@ + chain.prev_path->0@
                + "`. Reference it if the current conversation builds on earlier work.\n"@
        } else {
            Seq::empty()
        }) + "\n## Git State\n\n"@ + (if git.branch is Some {
            "**Branch:** `"@ + git.branch->0@ + "`\n\n"@
        } else {
            "(not a git repository)\n\n"@
        }) + (if git.recent_commits@.len() == 0 {
            Seq::empty()
        } else {
            "**Recent commits:**\n"@ + "```\n"@ + Seq::new(
                git.recent_commits@.len(),
                |k: int| git.recent_commits@[k]@ + "\n"@,
            ).flatten() + "```\n\n"@
        }) + (if git.modified_files@.len() == 0 {
            Seq::empty()
        } else {
            "**Modified files (uncommitted):**\n"@ + "```\n"@ + Seq::new(
                git.modified_files@.len(),
                |k: int| git.modified_files@[k]@ + "\n"@,
            ).flatten() + "```\n\n"@
        }) + "## Conversation\n\n"@ + "Below is the full conversation to mine for the handoff:\n\n"@
            + "---\n\n"@ + OUTPUT_TEMPLATE@,
{
    lemma_lines_in_turn(views(git.recent_commits@));
    lemma_lines_in_turn(views(git.modified_files@));
    let commits = views(git.recent_commits@);
    let files = views(git.modified_files@);
    assert(Seq::new(commits.len(), |k: int| commits[k] + "\n"@) =~= Seq::new(
        git.recent_commits@.len(),
        |k: int| git.recent_commits@[k]@ + "\n"@,
    ));
    assert(Seq::new(files.len(), |k: int| files[k] + "\n"@) =~= Seq::new(
        git.modified_files@.len(),
        |k: int| git.modified_files@[k]@ + "\n"@,
    ));
}

/// The lines of a command's output are those of its text in their order, without the white
/// space around each, but for those that are nothing else.
pub proof fn lemma_output_lines_in_turn(text: Seq<char>)
    ensures
        output_lines(None).len() == 0,
        output_lines(Some(text)) == Seq::new(
            lines(text).len(),
            |k: int|
                if trim(lines(text)[k]).len() == 0 {
                    Seq::<Seq<char>>::empty()
                } else {
                    seq![trim(lines(text)[k])]
                },
        ).flatten(),
{
    lemma_trimmed_in_turn(lines(text));
}

proof fn lemma_trimmed_in_turn(pieces: Seq<Seq<char>>)
    ensures
        trimmed_lines(pieces) == Seq::new(
            pieces.len(),
            |k: int|
                if trim(pieces[k]).len() == 0 {
                    Seq::<Seq<char>>::empty()
                } else {
                    seq![trim(pieces[k])]
                },
        ).flatten(),
    decreases pieces.len(),
{
    let parts = Seq::new(
        pieces.len(),
        |k: int|
            if trim(pieces[k]).len() == 0 {
                Seq::<Seq<char>>::empty()
            } else {
                seq![trim(pieces[k])]
            },
    );
    if pieces.len() > 0 {
        let front = pieces.drop_last();
        lemma_trimmed_in_turn(front);
        let before = Seq::new(
            front.len(),
            |k: int|
                if trim(front[k]).len() == 0 {
                    Seq::<Seq<char>>::empty()
                } else {
                    seq![trim(front[k])]
                },
        );
        assert(parts =~= before.push(parts.last()));
        before.lemma_flatten_push(parts.last());
        assert(trimmed_lines(pieces) =~= trimmed_lines(front) + parts.last());
    }
}

/// The number that a document gives itself stands in the first of its lines that begins with
/// the mark, at `i`: it is the first word behind the mark, where that is a number. A document
/// in which no line begins with the mark gives itself none.
pub proof fn lemma_chain_number_is_first(content: Seq<char>, i: int)
    requires
        0 <= i <= lines(content).len(),
        forall|j: int| 0 <= j < i ==> !("> **Chain:** #"@).is_prefix_of(#[trigger] lines(content)[j]),
        i < lines(content).len() ==> ("> **Chain:** #"@).is_prefix_of(lines(content)[i]),
    ensures
        i == lines(content).len() ==> chain_number(content) is None,
        i < lines(content).len() ==> {
            let word = first_word(lines(content)[i].skip(14));
            chain_number(content) == if word is Some {
                parse_number(word->0, usize::MAX as nat)
            } else {
                None
            }
        },
{
    reveal_strlit("> **Chain:** #");
    lemma_chain_rest_at(lines(content), i);
}

proof fn lemma_chain_rest_at(pieces: Seq<Seq<char>>, i: int)
    requires
        0 <= i <= pieces.len(),
        forall|j: int| 0 <= j < i ==> !chain_mark().is_prefix_of(#[trigger] pieces[j]),
        i < pieces.len() ==> chain_mark().is_prefix_of(pieces[i]),
    ensures
        chain_rest(pieces) == if i < pieces.len() {
            Some(pieces[i].skip(chain_mark().len() as int))
        } else {
            None
        },
    decreases pieces.len(),
{
    if i > 0 {
        let rest = pieces.drop_first();
        assert forall|j: int| 0 <= j < i - 1 implies !chain_mark().is_prefix_of(
            #[trigger] rest[j],
        ) by {
            assert(rest[j] == pieces[j + 1]);
        }
        assert(!chain_mark().is_prefix_of(pieces[0]));
        lemma_chain_rest_at(rest, i - 1);
    }
}

/// The next document of a chain counts from the number of the one before it, and from zero
/// where there is none or it has no number.
pub proof fn lemma_previous_number_when(content: Seq<char>)
    ensures
        previous_number(None) == 0,
        chain_number(content) is None ==> previous_number(Some(content)) == 0,
        chain_number(content) is Some ==> previous_number(Some(content)) == chain_number(
            content,
        )->0,
{
}

} // verus!
