//! The `workspace_search` tool: discovery over an index of the workspace. The index is
//! a backend's; the tool bounds what is asked of it and shows what it finds.

use crate::json::{json_wf, str_member, u64_member, Json, JsonView};
use crate::text::{
    chars_of, decimal, decimal_text, lemma_flatten_at, lemma_flatten_last, text_of,
};
use crate::tools::grep::{is_found, one_text, property, property_json};
use crate::tools::{AgentTool, AgentToolResult, ToolError};
use std::sync::Arc;
use vstd::prelude::*;

verus! {

/// Passages that are returned where no limit is given.
pub const DEFAULT_LIMIT: usize = 8;

/// The highest limit; a larger one is brought down to it.
pub const MAX_LIMIT: usize = 20;

/// Characters that are shown of one passage.
pub const MAX_SNIPPET_CHARS: usize = 500;

/// A passage of a file that an index ranks.
#[derive(Debug, Clone)]
pub struct SearchPassage {
    /// The path of the file below the root of the workspace.
    pub locator: String,
    /// The place of the passage in the file.
    pub ordinal: u32,
    /// The revision of the index that the passage comes from.
    pub revision: String,
    /// The relevance, as a decimal number with three places.
    pub score: String,
    /// The text of the passage.
    pub snippet: String,
    /// When the file was last changed, in milliseconds since the epoch.
    pub modified_at_ms: i64,
}

/// What a search finds.
#[derive(Debug, Clone)]
pub struct WorkspaceSearchPage {
    /// The passages, the most relevant first.
    pub passages: Vec<SearchPassage>,
    /// How fresh the index is, where the backend says.
    pub freshness: Option<String>,
}

/// An index of the workspace.
pub trait WorkspaceSearchBackend {
    /// Whether the index may answer so for a query and a limit. What it does answer is left
    /// to it, and may differ from one call to the next.
    open spec fn may_answer(
        &self,
        query: Seq<char>,
        limit: usize,
        answer: Result<WorkspaceSearchPage, ToolError>,
    ) -> bool {
        true
    }

    /// The passages that a query finds, at most `limit` of them.
    fn search(&self, query: &str, limit: usize) -> (r: Result<WorkspaceSearchPage, ToolError>)
        ensures
            self.may_answer(query@, limit, r),
    ;
}

/// The `workspace_search` tool.
pub struct WorkspaceSearchTool<B> {
    pub backend: Arc<B>,
}

/// What is shown of a passage: all of it, or its first characters and a mark.
pub open spec fn cut_snippet(text: Seq<char>) -> Seq<char> {
    if text.len() <= MAX_SNIPPET_CHARS {
        text
    } else {
        text.take(MAX_SNIPPET_CHARS as int) + "..."@
    }
}

/// The passage cut to its first characters.
pub fn truncate_snippet(text: &str) -> (r: String)
    ensures
        r@ == cut_snippet(text@),
{
    let chars = chars_of(text);
    if chars.len() <= MAX_SNIPPET_CHARS {
        return text.to_owned();
    }
    let mut out = text_of(&chars, 0, MAX_SNIPPET_CHARS);
    proof {
        assert(out@ =~= text@.take(MAX_SNIPPET_CHARS as int));
    }
    out.append("...");
    out
}

/// The lines of one passage under its rank.
pub open spec fn passage_text(rank: nat, p: SearchPassage) -> Seq<char> {
    "\n"@ + decimal(rank) + ". "@ + p.locator@ + "#"@ + decimal(p.ordinal as nat) + " (score "@
        + p.score@ + ", rev "@ + p.revision@ + ")\n   "@ + cut_snippet(p.snippet@) + "\n"@
}

/// The lines of the passages in their order.
pub open spec fn passages_text(passages: Seq<SearchPassage>) -> Seq<char>
    decreases passages.len(),
{
    if passages.len() == 0 {
        Seq::empty()
    } else {
        passages_text(passages.drop_last()) + passage_text(passages.len(), passages.last())
    }
}

/// What is shown of a page.
pub open spec fn page_text(page: WorkspaceSearchPage) -> Seq<char> {
    if page.passages@.len() == 0 {
        "No relevant passages found. Use grep for exact search or read to inspect files directly."@
    } else {
        "Found "@ + decimal(page.passages@.len()) + " ranked passages:\n"@ + passages_text(
            page.passages@,
        ) + match page.freshness {
            Some(f) => "\nfreshness: "@ + f@ + "\n"@,
            None => Seq::empty(),
        } + "\nVerify each passage with read or grep before relying on it."@
    }
}

/// The lines of one passage under its rank.
fn render_passage(rank: usize, p: &SearchPassage) -> (r: String)
    ensures
        r@ == passage_text(rank as nat, *p),
{
    let mut out = "\n".to_owned();
    out.append(decimal_text(rank as u64).as_str());
    out.append(". ");
    out.append(p.locator.as_str());
    out.append("#");
    out.append(decimal_text(p.ordinal as u64).as_str());
    out.append(" (score ");
    out.append(p.score.as_str());
    out.append(", rev ");
    out.append(p.revision.as_str());
    out.append(")\n   ");
    out.append(truncate_snippet(p.snippet.as_str()).as_str());
    out.append("\n");
    out
}

/// What is shown of a page.
pub fn render(page: &WorkspaceSearchPage) -> (r: String)
    ensures
        r@ == page_text(*page),
{
    if page.passages.len() == 0 {
        return "No relevant passages found. Use grep for exact search or read to inspect files directly.".to_owned();
    }
    let mut out = "Found ".to_owned();
    out.append(decimal_text(page.passages.len() as u64).as_str());
    out.append(" ranked passages:\n");
    let ghost head = out@;
    let ghost all = page.passages@;
    let mut i: usize = 0;
    proof {
        assert(all.take(0) =~= Seq::empty());
        assert(head + passages_text(all.take(0)) =~= head);
    }
    while i < page.passages.len()
        invariant
            all == page.passages@,
            i <= all.len(),
            out@ == head + passages_text(all.take(i as int)),
        decreases all.len() - i,
    {
        out.append(render_passage(i + 1, &page.passages[i]).as_str());
        i += 1;
        proof {
            assert(all.take(i as int).drop_last() =~= all.take(i - 1));
            assert(out@ =~= head + passages_text(all.take(i as int)));
        }
    }
    proof {
        assert(all.take(i as int) =~= all);
    }
    let ghost body = out@;
    match &page.freshness {
        Some(f) => {
            out.append("\nfreshness: ");
            out.append(f.as_str());
            out.append("\n");
            proof {
                assert(out@ =~= body + ("\nfreshness: "@ + f@ + "\n"@));
            }
        },
        None => {
            proof {
                assert(out@ =~= body + Seq::<char>::empty());
            }
        },
    }
    out.append("\nVerify each passage with read or grep before relying on it.");
    out
}

/// The limit that a search is made with.
pub open spec fn effective_limit(limit: Option<u64>) -> usize {
    match limit {
        Some(n) => if n <= MAX_LIMIT {
            n as usize
        } else {
            MAX_LIMIT
        },
        None => DEFAULT_LIMIT,
    }
}

/// The query and the limit that a JSON value gives. Only the query must be there.
pub fn read_query(params: &Json) -> (r: Result<(String, usize), ToolError>)
    requires
        json_wf(*params),
    ensures
        match r {
            Ok(q) => str_member(params@, "query"@) == Some(q.0@) && q.1 == effective_limit(
                u64_member(params@, "limit"@),
            ),
            Err(e) => str_member(params@, "query"@) is None && e@
                == "Missing required parameter: query"@,
        },
{
    let query = match params.get_str("query") {
        Some(s) => s.clone(),
        None => {
            return Err("Missing required parameter: query".to_owned());
        },
    };
    let limit: usize = match params.get_u64("limit") {
        Some(n) => {
            if n <= MAX_LIMIT as u64 {
                n as usize
            } else {
                MAX_LIMIT
            }
        },
        None => DEFAULT_LIMIT,
    };
    Ok((query, limit))
}

/// Whether this is the result for what a backend answered: its error, or the page as it is
/// shown.
pub open spec fn is_page_result(
    r: Result<AgentToolResult, ToolError>,
    answer: Result<WorkspaceSearchPage, ToolError>,
) -> bool {
    match answer {
        Ok(page) => r is Ok && is_found(r->Ok_0, page_text(page), false),
        Err(e) => r is Err && r->Err_0 == e,
    }
}

/// The result for what a backend answered: its error, or the page as it is shown.
pub fn page_result(answer: Result<WorkspaceSearchPage, ToolError>) -> (r: Result<
    AgentToolResult,
    ToolError,
>)
    ensures
        is_page_result(r, answer),
{
    match answer {
        Ok(page) => Ok(AgentToolResult::success(render(&page))),
        Err(e) => Err(e),
    }
}

impl<B: WorkspaceSearchBackend> WorkspaceSearchTool<B> {
    /// The tool over a backend.
    pub fn new(backend: Arc<B>) -> (r: Self)
        ensures
            r.backend == backend,
    {
        WorkspaceSearchTool { backend }
    }

    /// Searches the index. What the backend answers is its own, and is shown as it is.
    pub fn execute(&self, params: &Json) -> (r: Result<AgentToolResult, ToolError>)
        requires
            json_wf(*params),
        ensures
            str_member(params@, "query"@) is None ==> r is Err && r->Err_0@
                == "Missing required parameter: query"@,
            str_member(params@, "query"@) is Some ==> exists|
                answer: Result<WorkspaceSearchPage, ToolError>,
            |
                self.backend.may_answer(
                    str_member(params@, "query"@)->0,
                    effective_limit(u64_member(params@, "limit"@)),
                    answer,
                ) && #[trigger] is_page_result(r, answer),
    {
        let (query, limit) = match read_query(params) {
            Ok(q) => q,
            Err(e) => {
                return Err(e);
            },
        };
        let answer = self.backend.search(query.as_str(), limit);
        let ghost given = answer;
        let r = page_result(answer);
        proof {
            assert(is_page_result(r, given));
        }
        r
    }
}

/// What is shown of a page that has passages is a heading with their number, then each
/// passage in its turn under its rank, with where it stands, its score, its revision and
/// its text up to the five hundredth character, then how fresh they are where that is known,
/// and what to do with them. The passage at `i` stands right behind those before it and
/// right before those after it.
pub proof fn lemma_every_passage_is_shown(page: WorkspaceSearchPage, i: int)
    requires
        0 <= i < page.passages@.len(),
    ensures
        ({
            let shown = Seq::new(
                page.passages@.len(),
                |k: int|
                    {
                        let p = page.passages@[k];
                        "\n"@ + decimal((k + 1) as nat) + ". "@ + p.locator@ + "#"@ + decimal(
                            p.ordinal as nat,
                        ) + " (score "@ + p.score@ + ", rev "@ + p.revision@ + ")\n   "@ + (
                        if p.snippet@.len() <= 500 {
                            p.snippet@
                        } else {
                            p.snippet@.take(500) + "..."@
                        }) + "\n"@
                    },
            );
            let head = "Found "@ + decimal(page.passages@.len()) + " ranked passages:\n"@;
            let tail = (if page.freshness is Some {
                "\nfreshness: "@ + page.freshness->0@ + "\n"@
            } else {
                Seq::empty()
            }) + "\nVerify each passage with read or grep before relying on it."@;
            &&& page_text(page) == head + shown.flatten() + tail
            &&& page_text(page) == head + shown.take(i).flatten() + shown[i] + shown.skip(
                i + 1,
            ).flatten() + tail
        }),
{
    let shown = Seq::new(
        page.passages@.len(),
        |k: int| passage_text((k + 1) as nat, page.passages@[k]),
    );
    lemma_passages_in_turn(page.passages@);
    lemma_flatten_at(shown, i);
    let plain = Seq::new(
        page.passages@.len(),
        |k: int|
            {
                let p = page.passages@[k];
                "\n"@ + decimal((k + 1) as nat) + ". "@ + p.locator@ + "#"@ + decimal(
                    p.ordinal as nat,
                ) + " (score "@ + p.score@ + ", rev "@ + p.revision@ + ")\n   "@ + (
                if p.snippet@.len() <= 500 {
                    p.snippet@
                } else {
                    p.snippet@.take(500) + "..."@
                }) + "\n"@
            },
    );
    assert(plain =~= shown);
}

/// The lines of the passages are those of each in its turn.
proof fn lemma_passages_in_turn(passages: Seq<SearchPassage>)
    ensures
        passages_text(passages) == Seq::new(
            passages.len(),
            |k: int| passage_text((k + 1) as nat, passages[k]),
        ).flatten(),
    decreases passages.len(),
{
    let shown = Seq::new(passages.len(), |k: int| passage_text((k + 1) as nat, passages[k]));
    if passages.len() > 0 {
        let front = passages.drop_last();
        lemma_passages_in_turn(front);
        assert(shown.drop_last() =~= Seq::new(
            front.len(),
            |k: int| passage_text((k + 1) as nat, front[k]),
        ));
        lemma_flatten_last(shown);
    }
}

/// A search never asks for more passages than the highest limit.
pub proof fn lemma_limit_is_capped(limit: Option<u64>)
    ensures
        effective_limit(limit) <= MAX_LIMIT,
{
}

/// The parameters of the tool by their names.
pub open spec fn workspace_search_properties() -> Map<Seq<char>, JsonView> {
    map![
        "query"@ => JsonView::Object(
            property("string"@, "Natural-language query describing what to find"@),
        ),
        "limit"@ => JsonView::Object(
            property("integer"@, "Maximum passages to return (default 8, max 20)"@),
        ),
    ]
}

/// What the parameters of the tool look like.
pub open spec fn workspace_search_schema() -> JsonView {
    JsonView::Object(
        map![
            "type"@ => JsonView::Str("object"@),
            "properties"@ => JsonView::Object(workspace_search_properties()),
            "required"@ => JsonView::Array(seq![JsonView::Str("query"@)]),
        ],
    )
}

impl<B: WorkspaceSearchBackend> AgentTool for WorkspaceSearchTool<B> {
    open spec fn name_view(&self) -> Seq<char> {
        "workspace_search"@
    }

    open spec fn description_view(&self) -> Seq<char> {
        "Semantic discovery over the workspace index: find relevant source passages when the wording or location is unknown. Results are ranked chunk-level evidence (file + excerpt), not exact matches. Use grep for exact identifiers, paths, or regular expressions."@
    }

    open spec fn schema_view(&self) -> JsonView {
        workspace_search_schema()
    }

    open spec fn essential_view(&self) -> bool {
        false
    }

    fn name(&self) -> (r: &str) {
        "workspace_search"
    }

    fn label(&self) -> (r: &str)
        ensures
            r@ == "Workspace Search"@,
    {
        "Workspace Search"
    }

    fn description(&self) -> (r: &str) {
        "Semantic discovery over the workspace index: find relevant source passages when the wording or location is unknown. Results are ranked chunk-level evidence (file + excerpt), not exact matches. Use grep for exact identifiers, paths, or regular expressions."
    }

    fn parameters_schema(&self) -> (r: Json) {
        let query = property_json("string", "Natural-language query describing what to find");
        let limit = property_json("integer", "Maximum passages to return (default 8, max 20)");
        let properties = Json::object().with("query", query).with("limit", limit);
        let r = Json::object().with("type", Json::Str("object".to_owned())).with(
            "properties",
            properties,
        ).with("required", one_text("query"));
        proof {
            assert(properties@->Object_0 =~= workspace_search_properties());
            assert(r@->Object_0 =~= workspace_search_schema()->Object_0);
        }
        r
    }

    fn essential(&self) -> (r: bool) {
        false
    }
}

/// A search is made with the limit that is given, but no more than the highest, or with the
/// usual one where none is given.
pub proof fn lemma_limit_when(limit: Option<u64>)
    ensures
        limit is None ==> effective_limit(limit) == 8,
        limit is Some && limit->0 <= 20 ==> effective_limit(limit) == limit->0,
        limit is Some && limit->0 > 20 ==> effective_limit(limit) == 20,
{
}

} // verus!
