//! Handing a session over: the document that is written, its name, and its place in the
//! chain of documents.

use crate::handoff_prompt::{
    build_handoff_prompt, chain_mark, chain_number, chain_rest, handoff_system_prompt, prompt_text,
    system_text, GitState, HandoffChain,
};
use crate::messages::{message_text, message_views, opt_view, Message, MessageView};
use crate::text::{
    chars_of, decimal, decimal_text, first_word, join, join_path, join_texts, lemma_decimal_value,
    lemma_parse_decimal, lemma_position_at, lemma_position_bounds, lemma_word_len_at, lines,
    lines_of, lowercase, path_join, position, split, split_text, strip_cr, text_of, to_lowercase,
    trim_start, views, white_space,
};
use vstd::prelude::*;

verus! {

/// The directory of the documents, below the working directory.
pub const HANDOFFS_DIR: &'static str = ".oxicode/handoffs";

/// How a session is handed over.
#[derive(Debug, Clone)]
pub struct HandoffOptions {
    /// The name of the document; without one it is made from the first message.
    pub slug: Option<String>,
    /// Whether the new session goes on by itself.
    pub auto_continue: bool,
    /// Whether only the document is written.
    pub dry_run: bool,
}

impl Default for HandoffOptions {
    fn default() -> (r: Self)
        ensures
            r == (HandoffOptions { slug: None, auto_continue: true, dry_run: false }),
    {
        HandoffOptions { slug: None, auto_continue: true, dry_run: false }
    }
}

/// Whether a character is a letter or a number.
pub uninterp spec fn alphanumeric(c: char) -> bool;

/// `char::is_alphanumeric`: whether the character is alphabetic or numeric, as Unicode
/// has it. Of the ASCII characters these are the letters and the digits.
#[verifier::external_body]
fn is_alphanumeric(c: char) -> (r: bool)
    ensures
        r == alphanumeric(c),
        c <= '\u{7f}' ==> r == ('0' <= c <= '9' || 'A' <= c <= 'Z' || 'a' <= c <= 'z'),
{
    c.is_alphanumeric()
}

/// The characters with a hyphen in place of each that is no letter or number.
pub open spec fn hyphenated(s: Seq<char>) -> Seq<char> {
    Seq::new(
        s.len(),
        |i: int|
            if alphanumeric(s[i]) {
                s[i]
            } else {
                '-'
            },
    )
}

/// The pieces that are not empty.
pub open spec fn non_empty(pieces: Seq<Seq<char>>) -> Seq<Seq<char>>
    decreases pieces.len(),
{
    if pieces.len() == 0 {
        Seq::empty()
    } else if pieces.last().len() == 0 {
        non_empty(pieces.drop_last())
    } else {
        non_empty(pieces.drop_last()).push(pieces.last())
    }
}

/// The words of a text with single hyphens between them.
pub open spec fn kebab(s: Seq<char>) -> Seq<char> {
    join(non_empty(split(hyphenated(s), '-')), "-"@)
}

/// The name of a document made from a line in lower case: at most forty characters.
pub open spec fn slug_of(lowered: Seq<char>) -> Seq<char> {
    let name = kebab(lowered);
    if name.len() == 0 {
        "session"@
    } else if name.len() <= 40 {
        name
    } else {
        name.take(40)
    }
}

/// The name of a document made from a line in lower case.
pub fn slug_from_line(lowered: &str) -> (r: String)
    ensures
        r@ == slug_of(lowered@),
{
    let chars = chars_of(lowered);
    let mut mapped = String::new();
    let mut i: usize = 0;
    proof {
        assert(hyphenated(lowered@).take(0) =~= Seq::empty());
    }
    while i < chars.len()
        invariant
            chars@ == lowered@,
            i <= chars@.len(),
            mapped@ == hyphenated(lowered@).take(i as int),
        decreases chars@.len() - i,
    {
        let c = chars[i];
        if is_alphanumeric(c) {
            mapped.push(c);
        } else {
            mapped.push('-');
        }
        i += 1;
        proof {
            let h = hyphenated(lowered@);
            assert(h.take(i as int) =~= h.take(i - 1).push(h[i - 1]));
        }
    }
    proof {
        assert(hyphenated(lowered@).take(i as int) =~= hyphenated(lowered@));
    }
    let pieces = split_text(mapped.as_str(), '-');
    let ghost all = views(pieces@);
    let mut words: Vec<String> = Vec::new();
    let mut j: usize = 0;
    proof {
        assert(all.take(0) =~= Seq::empty());
        assert(views(words@) =~= Seq::empty());
    }
    while j < pieces.len()
        invariant
            all == views(pieces@),
            j <= pieces@.len(),
            views(words@) == non_empty(all.take(j as int)),
        decreases pieces@.len() - j,
    {
        let ghost before = views(words@);
        proof {
            assert(all.take(j + 1).drop_last() =~= all.take(j as int));
            assert(all.take(j + 1).last() == pieces@[j as int]@);
        }
        if !pieces[j].as_str().is_empty() {
            words.push(pieces[j].clone());
            proof {
                assert(views(words@) =~= before.push(pieces@[j as int]@));
            }
        }
        j += 1;
    }
    proof {
        assert(all.take(j as int) =~= all);
    }
    let name = join_texts(words.as_slice(), "-");
    let name_chars = chars_of(name.as_str());
    if name_chars.len() == 0 {
        "session".to_owned()
    } else if name_chars.len() <= 40 {
        name
    } else {
        let short = text_of(&name_chars, 0, 40);
        proof {
            assert(short@ =~= name@.take(40));
        }
        short
    }
}

/// The text of the first message of a user, or `session` where there is none.
pub open spec fn first_user_text(messages: Seq<MessageView>) -> Seq<char>
    decreases messages.len(),
{
    if messages.len() == 0 {
        "session"@
    } else if messages[0] is User {
        message_text(messages[0])
    } else {
        first_user_text(messages.drop_first())
    }
}

/// The first line of a text, or `session` where it has none.
pub open spec fn first_line(text: Seq<char>) -> Seq<char> {
    if lines(text).len() == 0 {
        "session"@
    } else {
        lines(text)[0]
    }
}

/// The name of a document made from the first message of a user.
pub fn derive_slug(messages: &Vec<Message>) -> (r: String)
    ensures
        r@ == slug_of(lowercase(first_line(first_user_text(message_views(messages@))))),
{
    let ghost all = message_views(messages@);
    let mut i: usize = 0;
    proof {
        assert(all.skip(0) =~= all);
    }
    while i < messages.len() && !matches!(messages[i], Message::User { .. })
        invariant
            all == message_views(messages@),
            i <= messages@.len(),
            first_user_text(all.skip(i as int)) == first_user_text(all),
        decreases messages@.len() - i,
    {
        proof {
            assert(all.skip(i as int)[0] == messages@[i as int]@);
            assert(all.skip(i as int).drop_first() =~= all.skip(i + 1));
        }
        i += 1;
    }
    let text = if i < messages.len() {
        proof {
            assert(all.skip(i as int)[0] == messages@[i as int]@);
        }
        messages[i].text_content()
    } else {
        "session".to_owned()
    };
    let pieces = lines_of(text.as_str());
    proof {
        assert(views(pieces@).len() == pieces@.len());
    }
    let line = if pieces.len() == 0 {
        "session".to_owned()
    } else {
        pieces[0].clone()
    };
    slug_from_line(to_lowercase(line.as_str()).as_str())
}

/// What a document says of the one before it.
pub open spec fn prev_link(prev_path: Option<Seq<char>>) -> Seq<char> {
    match prev_path {
        Some(p) => " (continues from "@ + p + ")"@,
        None => Seq::empty(),
    }
}

/// A document: its number in the chain, the one before it, and what the model wrote.
pub open spec fn document_text(
    seq: nat,
    prev_path: Option<Seq<char>>,
    content: Seq<char>,
) -> Seq<char> {
    chain_mark() + decimal(seq) + prev_link(prev_path) + "\n\n"@ + content
}

/// A document that is to be written.
#[derive(Debug)]
pub struct HandoffDoc {
    pub path: String,
    pub content: String,
}

/// The document that is written, and where: under the time and its name.
pub fn write_handoff_doc(
    cwd: &str,
    timestamp: &str,
    content: &str,
    slug: &str,
    chain: &HandoffChain,
) -> (r: HandoffDoc)
    ensures
        r.path@ == path_join(
            path_join(cwd@, HANDOFFS_DIR@),
            timestamp@ + "-"@ + slug@ + ".md"@,
        ),
        r.content@ == document_text(chain.seq as nat, opt_view(chain.prev_path), content@),
{
    let dir = join_path(cwd, HANDOFFS_DIR);
    let mut filename = timestamp.to_owned();
    filename.append("-");
    filename.append(slug);
    filename.append(".md");
    let path = join_path(dir.as_str(), filename.as_str());
    let mut link = String::new();
    match &chain.prev_path {
        Some(p) => {
            link = " (continues from ".to_owned();
            link.append(p.as_str());
            link.append(")");
        },
        None => {},
    }
    let mut text = "> **Chain:** #".to_owned();
    text.append(decimal_text(chain.seq as u64).as_str());
    text.append(link.as_str());
    text.append("\n\n");
    text.append(content);
    HandoffDoc { path, content: text }
}

/// The slug of the options, or one made from the conversation.
pub fn choose_slug(opts: &HandoffOptions, messages: &Vec<Message>) -> (r: String)
    ensures
        r@ == match opts.slug {
            Some(s) => s@,
            None => slug_of(lowercase(first_line(first_user_text(message_views(messages@))))),
        },
{
    match &opts.slug {
        Some(s) => s.clone(),
        None => derive_slug(messages),
    }
}

/// What a model is asked for a document.
#[derive(Debug)]
pub struct HandoffRequest {
    pub model_id: String,
    pub system_prompt: String,
    /// What the user says.
    pub prompt: String,
    /// The temperature in hundredths.
    pub temperature_percent: u32,
    pub max_tokens: usize,
}

/// What a model is asked for the document of a conversation.
pub fn handoff_request(
    model_id: &str,
    messages: &Vec<Message>,
    git_state: &GitState,
    chain: &HandoffChain,
) -> (r: HandoffRequest)
    ensures
        r.model_id@ == model_id@,
        r.system_prompt@ == system_text(),
        r.prompt@ == prompt_text(message_views(messages@), *git_state, *chain),
        r.temperature_percent == 30,
        r.max_tokens == 4096,
{
    HandoffRequest {
        model_id: model_id.to_owned(),
        system_prompt: handoff_system_prompt().to_owned(),
        prompt: build_handoff_prompt(messages, git_state, chain),
        temperature_percent: 30,
        max_tokens: 4096,
    }
}

/// Why a model wrote no document.
#[derive(Debug, Clone, Copy, PartialEq, Eq, Structural)]
pub enum HandoffFailure {
    /// There is no such model.
    Resolve,
    /// The model did not answer.
    Call,
}

/// The message for a model that wrote no document.
pub open spec fn failure_text(model_id: Seq<char>, failure: HandoffFailure) -> Seq<char> {
    match failure {
        HandoffFailure::Resolve => "Failed to resolve model '"@ + model_id
            + "' for handoff generation"@,
        HandoffFailure::Call => "Handoff LLM call failed"@,
    }
}

/// The document for what the model answered, or the message where it did not.
pub fn handoff_document(
    cwd: &str,
    model_id: &str,
    messages: &Vec<Message>,
    opts: &HandoffOptions,
    chain: &HandoffChain,
    timestamp: &str,
    answer: Result<String, HandoffFailure>,
) -> (r: Result<HandoffDoc, String>)
    ensures
        match answer {
            Ok(content) => {
                let slug = match opts.slug {
                    Some(s) => s@,
                    None => slug_of(
                        lowercase(first_line(first_user_text(message_views(messages@)))),
                    ),
                };
                &&& r is Ok
                &&& r->Ok_0.path@ == path_join(
                    path_join(cwd@, HANDOFFS_DIR@),
                    timestamp@ + "-"@ + slug + ".md"@,
                )
                &&& r->Ok_0.content@ == document_text(
                    chain.seq as nat,
                    opt_view(chain.prev_path),
                    content@,
                )
            },
            Err(failure) => r is Err && r->Err_0@ == failure_text(model_id@, failure),
        },
{
    match answer {
        Ok(content) => {
            let slug = choose_slug(opts, messages);
            Ok(write_handoff_doc(cwd, timestamp, content.as_str(), slug.as_str(), chain))
        },
        Err(HandoffFailure::Resolve) => {
            let mut message = "Failed to resolve model '".to_owned();
            message.append(model_id);
            message.append("' for handoff generation");
            Err(message)
        },
        Err(HandoffFailure::Call) => Err("Handoff LLM call failed".to_owned()),
    }
}

/// A document that is written is read back with its own number, whatever it continues
/// from and whatever the model wrote.
pub proof fn lemma_written_number_is_read(
    seq: nat,
    prev_path: Option<Seq<char>>,
    content: Seq<char>,
)
    requires
        seq <= usize::MAX,
    ensures
        chain_number(document_text(seq, prev_path, content)) == Some(seq),
{
    reveal_strlit("> **Chain:** #");
    reveal_strlit(" (continues from ");
    reveal_strlit("\n\n");
    let mark = chain_mark();
    let digits = decimal(seq);
    let doc = document_text(seq, prev_path, content);
    let head = mark + digits;
    lemma_decimal_value(seq);
    lemma_parse_decimal(seq, usize::MAX as nat);
    let after = prev_link(prev_path) + "\n\n"@ + content;
    assert(doc =~= head + after);
    let p = position(doc, '\n');
    lemma_position_bounds(doc, '\n');
    assert forall|j: int| 0 <= j < head.len() implies doc[j] != '\n' by {
        if j >= mark.len() {
            assert(doc[j] == digits[j - mark.len()]);
            assert(crate::text::is_digit(digits[j - mark.len()]));
        } else {
            assert(doc[j] == mark[j]);
        }
    }
    assert(doc[head.len() as int + prev_link(prev_path).len()] == '\n') by {
        assert(doc[head.len() as int + prev_link(prev_path).len()] == "\n\n"@[0]);
    }
    assert(p < doc.len());
    assert(p >= head.len());
    let raw = doc.take(p as int);
    let line = strip_cr(raw);
    // What a line loses at its end is a carriage return, never a digit.
    assert(line.len() >= head.len()) by {
        if p == head.len() {
            assert(raw.last() == digits.last());
            assert(crate::text::is_digit(digits[digits.len() - 1]));
        }
    }
    assert forall|j: int| 0 <= j < head.len() implies line[j] == head[j] by {
        assert(doc[j] == head[j]);
    }
    assert(lines(doc)[0] == line);
    assert(mark =~= line.subrange(0, mark.len() as int));
    assert(mark.is_prefix_of(line));
    let rest = line.skip(mark.len() as int);
    assert(chain_rest(lines(doc)) == Some(rest));
    let n = digits.len() as int;
    assert forall|j: int| 0 <= j < n implies rest[j] == digits[j] by {
        assert(line[mark.len() + j] == head[mark.len() + j]);
    }
    assert(rest.len() > 0);
    assert(crate::text::is_digit(digits[0]));
    assert(trim_start(rest) == rest);
    assert forall|j: int| 0 <= j < n implies !white_space(rest[j]) by {
        assert(crate::text::is_digit(digits[j]));
    }
    if n < rest.len() {
        assert(line[head.len() as int] == doc[head.len() as int]);
        match prev_path {
            Some(prev) => {
                assert(doc[head.len() as int] == " (continues from "@[0]);
            },
            None => {
                assert(doc[head.len() as int] == "\n\n"@[0]);
            },
        }
        assert(white_space(rest[n]));
    }
    lemma_word_len_at(rest, n);
    assert(rest.take(n) =~= digits);
    assert(first_word(rest) == Some(digits));
}

/// Whether a name has no hyphen at its ends and no two hyphens side by side.
pub open spec fn is_kebab(s: Seq<char>) -> bool {
    &&& s.len() > 0 ==> s[0] != '-' && s.last() != '-'
    &&& forall|i: int| 0 <= i < s.len() - 1 ==> !(#[trigger] s[i] == '-' && s[i + 1] == '-')
}

proof fn lemma_split_pieces(s: Seq<char>, c: char, k: int)
    requires
        0 <= k < split(s, c).len(),
    ensures
        forall|i: int| 0 <= i < split(s, c)[k].len() ==> #[trigger] split(s, c)[k][i] != c,
    decreases s.len(),
{
    lemma_position_bounds(s, c);
    let p = position(s, c);
    if p < s.len() {
        let rest = s.skip(p as int + 1);
        if k > 0 {
            lemma_split_pieces(rest, c, k - 1);
            assert(split(s, c)[k] == split(rest, c)[k - 1]);
        } else {
            assert(split(s, c)[0] == s.take(p as int));
        }
    } else {
        assert(split(s, c)[k] == s);
    }
}

proof fn lemma_non_empty(pieces: Seq<Seq<char>>, c: char)
    requires
        forall|k: int, i: int|
            0 <= k < pieces.len() && 0 <= i < pieces[k].len() ==> #[trigger] pieces[k][i] != c,
    ensures
        forall|k: int| 0 <= k < non_empty(pieces).len() ==> (#[trigger] non_empty(pieces)[k]).len()
            > 0,
        forall|k: int, i: int|
            0 <= k < non_empty(pieces).len() && 0 <= i < non_empty(pieces)[k].len()
                ==> #[trigger] non_empty(pieces)[k][i] != c,
    decreases pieces.len(),
{
    if pieces.len() > 0 {
        let front = pieces.drop_last();
        assert forall|k: int, i: int| 0 <= k < front.len() && 0 <= i < front[k].len() implies (
        #[trigger] front[k][i]) != c by {
            assert(pieces[k][i] != c);
        }
        lemma_non_empty(front, c);
        let last = pieces.last();
        assert forall|i: int| 0 <= i < last.len() implies #[trigger] last[i] != c by {
            assert(pieces[pieces.len() - 1][i] != c);
        }
        let kept = non_empty(front);
        let all = non_empty(pieces);
        assert forall|k: int| 0 <= k < all.len() implies (#[trigger] all[k]).len() > 0 by {
            if k < kept.len() {
                assert(all[k] == kept[k]);
            }
        }
        assert forall|k: int, i: int| 0 <= k < all.len() && 0 <= i < all[k].len() implies (
        #[trigger] all[k][i]) != c by {
            if k < kept.len() {
                assert(all[k][i] == kept[k][i]);
            } else {
                assert(all[k] == last);
            }
        }
    }
}

proof fn lemma_join_is_kebab(words: Seq<Seq<char>>)
    requires
        forall|k: int| 0 <= k < words.len() ==> (#[trigger] words[k]).len() > 0,
        forall|k: int, i: int|
            0 <= k < words.len() && 0 <= i < words[k].len() ==> #[trigger] words[k][i] != '-',
    ensures
        is_kebab(join(words, "-"@)),
        words.len() > 0 ==> join(words, "-"@).len() > 0,
    decreases words.len(),
{
    reveal_strlit("-");
    if words.len() == 1 {
        assert(words[0][0] != '-');
        assert(words[0][words[0].len() - 1] != '-');
        assert forall|i: int| 0 <= i < words[0].len() implies #[trigger] words[0][i] != '-' by {}
    } else if words.len() > 1 {
        let front = words.drop_last();
        assert forall|k: int| 0 <= k < front.len() implies (#[trigger] front[k]).len() > 0 by {
            assert(words[k].len() > 0);
        }
        assert forall|k: int, i: int| 0 <= k < front.len() && 0 <= i < front[k].len() implies (
        #[trigger] front[k][i]) != '-' by {
            assert(words[k][i] != '-');
        }
        lemma_join_is_kebab(front);
        let a = join(front, "-"@);
        let last = words.last();
        let s = join(words, "-"@);
        assert(last.len() > 0 && last == words[words.len() - 1]);
        assert forall|i: int| 0 <= i < last.len() implies #[trigger] last[i] != '-' by {
            assert(words[words.len() - 1][i] != '-');
        }
        assert(s == a + "-"@ + last);
        assert(s.last() == last[last.len() - 1]);
        assert(s[0] == a[0]);
        assert forall|i: int| 0 <= i < s.len() - 1 implies !(#[trigger] s[i] == '-' && s[i + 1]
            == '-') by {
            if i < a.len() - 1 {
                assert(s[i] == a[i] && s[i + 1] == a[i + 1]);
            } else if i == a.len() - 1 {
                assert(s[i] == a[i]);
            } else if i == a.len() {
                assert(s[i + 1] == last[0]);
            } else {
                assert(s[i] == last[i - a.len() - 1]);
            }
        }
    }
}

/// Whether every character is a letter, a number or a hyphen.
pub open spec fn is_plain_name(s: Seq<char>) -> bool {
    forall|i: int| 0 <= i < s.len() ==> (#[trigger] s[i] == '-' || alphanumeric(s[i]))
}

proof fn lemma_pieces_are_plain(s: Seq<char>, k: int)
    requires
        is_plain_name(s),
        0 <= k < split(s, '-').len(),
    ensures
        is_plain_name(split(s, '-')[k]),
    decreases s.len(),
{
    lemma_position_bounds(s, '-');
    let p = position(s, '-') as int;
    if p < s.len() {
        let rest = s.skip(p + 1);
        assert forall|i: int| 0 <= i < rest.len() implies (#[trigger] rest[i] == '-'
            || alphanumeric(rest[i])) by {
            assert(rest[i] == s[i + p + 1]);
        }
        if k > 0 {
            lemma_pieces_are_plain(rest, k - 1);
            assert(split(s, '-')[k] == split(rest, '-')[k - 1]);
        } else {
            let piece = s.take(p);
            assert forall|i: int| 0 <= i < piece.len() implies (#[trigger] piece[i] == '-'
                || alphanumeric(piece[i])) by {
                assert(piece[i] == s[i]);
            }
        }
    } else {
        assert(split(s, '-')[k] == s);
    }
}

proof fn lemma_kept_are_plain(pieces: Seq<Seq<char>>)
    requires
        forall|k: int| 0 <= k < pieces.len() ==> is_plain_name(#[trigger] pieces[k]),
    ensures
        forall|k: int|
            0 <= k < non_empty(pieces).len() ==> is_plain_name(#[trigger] non_empty(pieces)[k]),
    decreases pieces.len(),
{
    if pieces.len() > 0 {
        let front = pieces.drop_last();
        assert forall|k: int| 0 <= k < front.len() implies is_plain_name(#[trigger] front[k]) by {
            assert(front[k] == pieces[k]);
        }
        lemma_kept_are_plain(front);
        assert(is_plain_name(pieces[pieces.len() - 1]));
        let all = non_empty(pieces);
        assert forall|k: int| 0 <= k < all.len() implies is_plain_name(#[trigger] all[k]) by {
            if k < non_empty(front).len() {
                assert(all[k] == non_empty(front)[k]);
            }
        }
    }
}

proof fn lemma_join_is_plain(words: Seq<Seq<char>>)
    requires
        forall|k: int| 0 <= k < words.len() ==> is_plain_name(#[trigger] words[k]),
    ensures
        is_plain_name(join(words, "-"@)),
    decreases words.len(),
{
    reveal_strlit("-");
    if words.len() == 1 {
        assert(is_plain_name(words[0]));
    } else if words.len() > 1 {
        let front = words.drop_last();
        assert forall|k: int| 0 <= k < front.len() implies is_plain_name(#[trigger] front[k]) by {
            assert(front[k] == words[k]);
        }
        lemma_join_is_plain(front);
        assert(is_plain_name(words[words.len() - 1]));
        let a = join(front, "-"@);
        let s = join(words, "-"@);
        assert(s == a + "-"@ + words.last());
        assert forall|i: int| 0 <= i < s.len() implies (#[trigger] s[i] == '-' || alphanumeric(
            s[i],
        )) by {
            if i < a.len() {
                assert(s[i] == a[i]);
            } else if i > a.len() {
                assert(s[i] == words.last()[i - a.len() - 1]);
            }
        }
    }
}

/// The name of a document is not empty, holds at most forty characters, does not begin
/// with a hyphen, holds no two hyphens side by side, and has nothing but letters, numbers and
/// hyphens, where it is not the name of a session that says nothing.
pub proof fn lemma_slug_shape(lowered: Seq<char>)
    ensures
        0 < slug_of(lowered).len() <= 40,
        slug_of(lowered)[0] != '-',
        forall|i: int|
            0 <= i < slug_of(lowered).len() - 1 ==> !(#[trigger] slug_of(lowered)[i] == '-'
                && slug_of(lowered)[i + 1] == '-'),
        is_plain_name(slug_of(lowered)) || slug_of(lowered) == "session"@,
{
    reveal_strlit("session");
    let pieces = split(hyphenated(lowered), '-');
    assert forall|k: int, i: int| 0 <= k < pieces.len() && 0 <= i < pieces[k].len() implies (
    #[trigger] pieces[k][i]) != '-' by {
        lemma_split_pieces(hyphenated(lowered), '-', k);
    }
    lemma_non_empty(pieces, '-');
    lemma_join_is_kebab(non_empty(pieces));
    assert forall|k: int| 0 <= k < pieces.len() implies is_plain_name(#[trigger] pieces[k]) by {
        lemma_pieces_are_plain(hyphenated(lowered), k);
    }
    lemma_kept_are_plain(pieces);
    lemma_join_is_plain(non_empty(pieces));
    let name = kebab(lowered);
    if name.len() > 40 {
        assert forall|i: int| 0 <= i < 39 implies !(#[trigger] name.take(40)[i] == '-' && name.take(
            40,
        )[i + 1] == '-') by {
            assert(!(name[i] == '-' && name[i + 1] == '-'));
        }
    }
}

/// A document begins with its number in the chain and, where it continues from another, the
/// path of that one; then, behind an empty line, stands what the model wrote, unchanged.
pub proof fn lemma_document_holds_content(
    seq: nat,
    prev_path: Option<Seq<char>>,
    content: Seq<char>,
)
    ensures
        document_text(seq, prev_path, content) == "> **Chain:** #"@ + decimal(seq) + (
        if prev_path is Some {
            " (continues from "@ + prev_path->0 + ")"@
        } else {
            Seq::empty()
        }) + "\n\n"@ + content,
{
}

/// The text that names a document is that of the first message of a user, at `i`, or
/// `session` where no user said anything.
pub proof fn lemma_first_user_names(messages: Seq<MessageView>, i: int)
    requires
        0 <= i <= messages.len(),
        forall|j: int| 0 <= j < i ==> !(#[trigger] messages[j] is User),
        i < messages.len() ==> messages[i] is User,
    ensures
        first_user_text(messages) == if i < messages.len() {
            message_text(messages[i])
        } else {
            "session"@
        },
    decreases messages.len(),
{
    if i > 0 {
        let rest = messages.drop_first();
        assert forall|j: int| 0 <= j < i - 1 implies !(#[trigger] rest[j] is User) by {
            assert(rest[j] == messages[j + 1]);
        }
        assert(!(messages[0] is User));
        lemma_first_user_names(rest, i - 1);
    }
}

/// Whether a character belongs to a word of a name.
pub open spec fn in_word(c: char) -> bool {
    alphanumeric(c) && c != '-'
}

proof fn lemma_split_push(s: Seq<char>, c: char)
    ensures
        c == '-' ==> split(s.push(c), '-') == split(s, '-').push(Seq::empty()),
        c != '-' ==> split(s.push(c), '-') == split(s, '-').drop_last().push(
            split(s, '-').last().push(c),
        ),
        split(s, '-').len() > 0,
        split(s, '-').last().len() == 0 <==> s.len() == 0 || s.last() == '-',
    decreases s.len(),
{
    let t = s.push(c);
    let p = position(s, '-') as int;
    lemma_position_bounds(s, '-');
    if p < s.len() {
        assert forall|j: int| 0 <= j < p implies t[j] != '-' by {
            assert(t[j] == s[j]);
        }
        lemma_position_at(t, '-', p);
        let rest = s.skip(p + 1);
        assert(t.skip(p + 1) =~= rest.push(c));
        assert(t.take(p) =~= s.take(p));
        lemma_split_push(rest, c);
        let head = seq![s.take(p)];
        assert(split(s, '-') == head + split(rest, '-'));
        assert(split(t, '-') == head + split(rest.push(c), '-'));
        assert(split(s, '-').last() == split(rest, '-').last());
        if c == '-' {
            assert(split(t, '-') =~= split(s, '-').push(Seq::empty()));
        } else {
            assert(split(t, '-') =~= split(s, '-').drop_last().push(split(s, '-').last().push(c)));
        }
        if rest.len() > 0 {
            assert(rest.last() == s.last());
        } else {
            assert(p == s.len() - 1);
        }
    } else {
        assert forall|j: int| 0 <= j < s.len() implies t[j] != '-' by {
            assert(t[j] == s[j]);
        }
        assert(split(s, '-') == seq![s]);
        if c == '-' {
            lemma_position_at(t, '-', s.len() as int);
            assert(t.take(s.len() as int) =~= s);
            assert(t.skip(s.len() as int + 1) =~= Seq::<char>::empty());
            lemma_position_bounds(Seq::<char>::empty(), '-');
            assert(split(Seq::<char>::empty(), '-') == seq![Seq::<char>::empty()]);
            assert(split(t, '-') =~= split(s, '-').push(Seq::empty()));
        } else {
            lemma_position_at(t, '-', t.len() as int);
            assert(split(t, '-') =~= split(s, '-').drop_last().push(s.push(c)));
        }
        if s.len() > 0 {
            assert(s[s.len() - 1] != '-');
        }
    }
}

proof fn lemma_kebab_push(s: Seq<char>, c: char)
    ensures
        !in_word(c) ==> kebab(s.push(c)) == kebab(s),
        in_word(c) && s.len() > 0 && in_word(s.last()) ==> kebab(s.push(c)) == kebab(s).push(c),
        in_word(c) && !(s.len() > 0 && in_word(s.last())) ==> kebab(s.push(c)) == if kebab(s).len()
            == 0 {
            seq![c]
        } else {
            kebab(s) + "-"@ + seq![c]
        },
        kebab(s).len() == 0 <==> non_empty(split(hyphenated(s), '-')).len() == 0,
{
    let h = hyphenated(s);
    let d = if alphanumeric(c) {
        c
    } else {
        '-'
    };
    assert(hyphenated(s.push(c)) =~= h.push(d));
    if s.len() > 0 {
        assert(h.last() == '-' <==> !in_word(s.last()));
    }
    lemma_split_push(h, d);
    let pieces = split(h, '-');
    let words = non_empty(pieces);
    let longer = split(h.push(d), '-');
    if !in_word(c) {
        assert(longer.drop_last() =~= pieces);
        assert(non_empty(longer) == words);
    } else {
        let piece = pieces.last().push(c);
        assert(longer.drop_last() =~= pieces.drop_last());
        assert(longer.last() == piece);
        let front = non_empty(pieces.drop_last());
        assert(non_empty(longer) == front.push(piece));
        assert(front.push(piece).drop_last() =~= front);
        if pieces.last().len() > 0 {
            assert(words == front.push(pieces.last()));
            assert(words.drop_last() =~= front);
            if front.len() == 0 {
                assert(kebab(s.push(c)) =~= kebab(s).push(c));
            } else {
                assert(kebab(s) == join(front, "-"@) + "-"@ + pieces.last());
                assert(kebab(s.push(c)) == join(front, "-"@) + "-"@ + piece);
                assert(kebab(s.push(c)) =~= kebab(s).push(c));
            }
        } else {
            assert(words == front);
            assert(piece =~= seq![c]);
        }
    }
    lemma_words_fill_name(pieces);
}

proof fn lemma_words_fill_name(pieces: Seq<Seq<char>>)
    ensures
        forall|k: int|
            0 <= k < non_empty(pieces).len() ==> (#[trigger] non_empty(pieces)[k]).len() > 0,
        join(non_empty(pieces), "-"@).len() == 0 <==> non_empty(pieces).len() == 0,
    decreases pieces.len(),
{
    reveal_strlit("-");
    if pieces.len() > 0 {
        let front = pieces.drop_last();
        lemma_words_fill_name(front);
        let words = non_empty(pieces);
        if pieces.last().len() > 0 {
            assert(words.drop_last() =~= non_empty(front));
            assert(words.last().len() > 0);
            if words.len() == 1 {
                assert(join(words, "-"@) == words[0]);
            }
        }
    }
}

/// The words of a text, run together by single hyphens, hold every letter and number of it in
/// their order: each stands for itself, behind a hyphen where it begins a word that is not
/// the first. Nothing else stands in them.
pub proof fn lemma_kebab_in_turn(s: Seq<char>)
    ensures
        kebab(s) == Seq::new(
            s.len(),
            |k: int|
                if !in_word(s[k]) {
                    Seq::empty()
                } else if k > 0 && !in_word(s[k - 1]) && (exists|j: int|
                    0 <= j < k && in_word(#[trigger] s[j])) {
                    seq!['-', s[k]]
                } else {
                    seq![s[k]]
                },
        ).flatten(),
        kebab(s).len() == 0 <==> forall|j: int| 0 <= j < s.len() ==> !in_word(#[trigger] s[j]),
    decreases s.len(),
{
    reveal_strlit("-");
    let parts = Seq::new(
        s.len(),
        |k: int|
            if !in_word(s[k]) {
                Seq::empty()
            } else if k > 0 && !in_word(s[k - 1]) && (exists|j: int|
                0 <= j < k && in_word(#[trigger] s[j])) {
                seq!['-', s[k]]
            } else {
                seq![s[k]]
            },
    );
    if s.len() > 0 {
        let front = s.drop_last();
        let c = s.last();
        lemma_kebab_in_turn(front);
        lemma_kebab_push(front, c);
        assert(front.push(c) =~= s);
        let before = Seq::new(
            front.len(),
            |k: int|
                if !in_word(front[k]) {
                    Seq::empty()
                } else if k > 0 && !in_word(front[k - 1]) && (exists|j: int|
                    0 <= j < k && in_word(#[trigger] front[j])) {
                    seq!['-', front[k]]
                } else {
                    seq![front[k]]
                },
        );
        assert(forall|j: int| 0 <= j < front.len() ==> #[trigger] front[j] == s[j]);
        assert forall|k: int| 0 <= k < front.len() implies before[k] == parts[k] by {
            if exists|j: int| 0 <= j < k && in_word(#[trigger] s[j]) {
                let j = choose|j: int| 0 <= j < k && in_word(#[trigger] s[j]);
                assert(in_word(front[j]));
            }
        }
        assert(parts.drop_last() =~= before);
        crate::text::lemma_flatten_last(parts);
        let last = s.len() - 1;
        let earlier = exists|j: int| 0 <= j < last && in_word(#[trigger] s[j]);
        assert(earlier <==> kebab(front).len() > 0) by {
            if earlier {
                let j = choose|j: int| 0 <= j < last && in_word(#[trigger] s[j]);
                assert(in_word(front[j]));
            }
            if kebab(front).len() > 0 {
                let j = choose|j: int| 0 <= j < front.len() && in_word(#[trigger] front[j]);
                assert(in_word(s[j]));
            }
        }
        assert(kebab(s) =~= kebab(front) + parts.last());
        if kebab(s).len() == 0 {
            assert forall|j: int| 0 <= j < s.len() implies !in_word(#[trigger] s[j]) by {
                if j < front.len() {
                    assert(!in_word(front[j]));
                }
            }
        }
        if forall|j: int| 0 <= j < s.len() ==> !in_word(#[trigger] s[j]) {
            assert(!in_word(s[last]));
            assert forall|j: int| 0 <= j < front.len() implies !in_word(#[trigger] front[j]) by {
                assert(!in_word(s[j]));
            }
        }
    } else {
        assert(hyphenated(s) =~= s);
        lemma_position_bounds(s, '-');
        assert(split(s, '-') == seq![s]);
        reveal_with_fuel(non_empty, 2);
        assert(non_empty(seq![s]) =~= Seq::empty());
        assert(kebab(s) =~= Seq::empty());
        assert(parts =~= Seq::empty());
    }
}

/// The name of a document is the words of its line, run together by hyphens, up to the
/// fortieth character, or `session` where the line has no words.
pub proof fn lemma_slug_is_words(lowered: Seq<char>)
    ensures
        (forall|j: int| 0 <= j < lowered.len() ==> !in_word(#[trigger] lowered[j])) ==> slug_of(
            lowered,
        ) == "session"@,
        (exists|j: int| 0 <= j < lowered.len() && in_word(#[trigger] lowered[j])) ==> slug_of(
            lowered,
        ) == if kebab(lowered).len() <= 40 {
            kebab(lowered)
        } else {
            kebab(lowered).take(40)
        },
{
    lemma_kebab_in_turn(lowered);
}

} // verus!
