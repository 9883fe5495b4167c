//! The `grep` tool: its parameters, the search in resolved content, the search of the
//! earlier engine, and what it gives back.

use crate::json::{bool_member, json_wf, str_member, u64_member, Json, JsonView, Num};
use crate::text::{
    chars_of, contains_char, decimal, ends_with, join, join_path, lemma_position_at,
    lemma_position_bounds, lines, lines_of, path_join, position, split, split_text, starts_with,
    str_eq, text_of, unix_newlines, unix_newlines_text, views,
};
use crate::tools::exact_search::{
    any_cut, effective_pattern, first_rows, is_search_of, match_texts, matches_of, outcome_text,
    pattern_message, pattern_message_text, plain_paths, render_line, render_rows, report,
    report_text, row_views, search, take_rows, text_rows, Found, RowView, SearchOutcome,
    SearchRequest, MAX_LINE_LENGTH,
};
use crate::tools::patterns::{escape, regex_error, regex_escape, regex_found};
use crate::tools::{AgentTool, AgentToolResult, ResolvedContent, ToolContext, ToolError};
use vstd::prelude::*;

verus! {

/// The engine that walks the files.
#[derive(Clone, Copy, PartialEq, Eq, Structural, Debug)]
pub enum Engine {
    Native,
    Legacy,
}

/// The `grep` tool.
pub struct GrepTool {
    pub root_dir: Option<String>,
    pub engine: Engine,
}

impl GrepTool {
    /// A tool that searches where its context says.
    pub fn new() -> (r: Self)
        ensures
            r == (GrepTool { root_dir: None, engine: Engine::Native }),
    {
        GrepTool { root_dir: None, engine: Engine::Native }
    }

    /// A tool that searches a directory.
    pub fn with_cwd(cwd: String) -> (r: Self)
        ensures
            r == (GrepTool { root_dir: Some(cwd), engine: Engine::Native }),
    {
        GrepTool { root_dir: Some(cwd), engine: Engine::Native }
    }

    /// A tool that searches a directory with the earlier engine.
    pub fn legacy_with_cwd(cwd: String) -> (r: Self)
        ensures
            r == (GrepTool { root_dir: Some(cwd), engine: Engine::Legacy }),
    {
        GrepTool { root_dir: Some(cwd), engine: Engine::Legacy }
    }
}

impl Default for GrepTool {
    fn default() -> (r: Self)
        ensures
            r == (GrepTool { root_dir: None, engine: Engine::Native }),
    {
        GrepTool::new()
    }
}

/// Whether a file name matches a simple glob: `*.` and an ending, one star between a
/// beginning and an ending, or else the name itself.
pub open spec fn glob_matches(file_name: Seq<char>, pattern: Seq<char>) -> bool {
    if "*."@.is_prefix_of(pattern) {
        pattern.skip(2).is_suffix_of(file_name)
    } else if pattern.contains('*') && split(pattern, '*').len() == 2 {
        split(pattern, '*')[0].is_prefix_of(file_name) && split(pattern, '*')[1].is_suffix_of(
            file_name,
        )
    } else {
        file_name == pattern
    }
}

/// The lines of a file whose line endings may be of any kind.
pub fn read_file_lines(content: &str) -> (r: Vec<String>)
    ensures
        views(r@) == lines(unix_newlines(content@)),
{
    let normalized = unix_newlines_text(content);
    lines_of(normalized.as_str())
}

/// The first line of the window around line `m`.
pub open spec fn window_start(m: nat, context: nat) -> nat {
    if m < context {
        0
    } else {
        (m - context) as nat
    }
}

/// The line after the window around line `m` of `len` lines.
pub open spec fn window_end(m: nat, context: nat, len: nat) -> nat {
    if m + context + 1 < len {
        m + context + 1
    } else {
        len
    }
}

/// The rows for the lines from `start` to `end`, where line `m` is the match.
pub open spec fn window_rows(texts: Seq<Seq<char>>, m: nat, start: nat, end: nat) -> Seq<RowView> {
    Seq::new(
        (end - start) as nat,
        |k: int|
            RowView {
                line_no: (start + k + 1) as nat,
                is_context: start + k != m,
                text: texts[start + k],
            },
    )
}

/// The rows that the matched lines of one file get from line `i` on, where `have` lines
/// are there already. A match whose window does not fit ends the search.
pub open spec fn fitting_rows(
    texts: Seq<Seq<char>>,
    matched: Seq<bool>,
    before: nat,
    after: nat,
    max_results: nat,
    have: nat,
    i: nat,
) -> Seq<RowView>
    decreases texts.len() - i,
{
    if i >= texts.len() {
        Seq::empty()
    } else if !matched[i as int] {
        fitting_rows(texts, matched, before, after, max_results, have, i + 1)
    } else {
        let start = window_start(i, before);
        let end = window_end(i, after, texts.len());
        if have + (end - start) > max_results {
            Seq::empty()
        } else {
            window_rows(texts, i, start, end) + fitting_rows(
                texts,
                matched,
                before,
                after,
                max_results,
                (have + (end - start)) as nat,
                i + 1,
            )
        }
    }
}

/// The rows, each under the same path.
pub open spec fn under_path(rel: Seq<char>, rows: Seq<RowView>) -> Seq<(Seq<char>, RowView)> {
    Seq::new(rows.len(), |i: int| (rel, rows[i]))
}

/// Shows the lines from `start` to `end`, where line `m` is the match.
fn push_window(
    out: &mut Vec<String>,
    rel: &str,
    texts: &Vec<String>,
    m: usize,
    start: usize,
    end: usize,
) -> (cut: bool)
    requires
        start <= m < end <= texts@.len(),
    ensures
        ({
            let rows = under_path(
                rel@,
                window_rows(views(texts@), m as nat, start as nat, end as nat),
            );
            &&& views(final(out)@) == views(old(out)@) + render_rows(rows)
            &&& cut == any_cut(rows)
        }),
{
    let ghost all = views(texts@);
    let ghost before = views(out@);
    let ghost rows = under_path(rel@, window_rows(all, m as nat, start as nat, end as nat));
    let mut cut = false;
    let mut j: usize = start;
    proof {
        assert(before + render_rows(rows.take(0)) =~= before);
    }
    while j < end
        invariant
            all == views(texts@),
            start <= m < end <= texts@.len(),
            start <= j <= end,
            rows == under_path(rel@, window_rows(all, m as nat, start as nat, end as nat)),
            views(out@) == before + render_rows(rows.take(j - start)),
            cut == any_cut(rows.take(j - start)),
        decreases end - j,
    {
        let ghost prev = views(out@);
        let ghost shown = rows.take(j - start);
        let ghost next = rows.take(j - start + 1);
        let (line, was_cut) = render_line(rel, j + 1, j != m, texts[j].as_str());
        out.push(line);
        proof {
            assert(views(out@) =~= prev.push(line@));
            assert(next =~= shown.push(rows[j - start]));
            assert(rows[j - start].1.text == texts@[j as int]@);
            assert(render_rows(next) =~= render_rows(shown).push(line@));
            assert(views(out@) =~= before + render_rows(next));
            if any_cut(shown) {
                let w = choose|w: int|
                    0 <= w < shown.len() && (#[trigger] shown[w]).1.text.len() > MAX_LINE_LENGTH;
                assert(next[w] == shown[w]);
            }
            if was_cut {
                assert(next[j - start].1.text.len() > MAX_LINE_LENGTH);
            }
            if any_cut(next) && !was_cut {
                let w = choose|w: int|
                    0 <= w < next.len() && (#[trigger] next[w]).1.text.len() > MAX_LINE_LENGTH;
                assert(next[w] == shown[w]);
            }
        }
        if was_cut {
            cut = true;
        }
        j += 1;
    }
    proof {
        assert(rows.take(end - start) =~= rows);
    }
    cut
}

proof fn lemma_any_cut_concat(a: Seq<(Seq<char>, RowView)>, b: Seq<(Seq<char>, RowView)>)
    ensures
        any_cut(a + b) == (any_cut(a) || any_cut(b)),
{
    let c = a + b;
    if any_cut(a) {
        let w = choose|w: int|
            0 <= w < a.len() && (#[trigger] a[w]).1.text.len() > MAX_LINE_LENGTH;
        assert(c[w] == a[w]);
    }
    if any_cut(b) {
        let w = choose|w: int|
            0 <= w < b.len() && (#[trigger] b[w]).1.text.len() > MAX_LINE_LENGTH;
        assert(c[a.len() + w] == b[w]);
    }
    if any_cut(c) {
        let w = choose|w: int|
            0 <= w < c.len() && (#[trigger] c[w]).1.text.len() > MAX_LINE_LENGTH;
        if w < a.len() {
            assert(c[w] == a[w]);
        } else {
            assert(c[w] == b[w - a.len()]);
        }
    }
}

proof fn lemma_rows_concat(rel: Seq<char>, a: Seq<RowView>, b: Seq<RowView>)
    ensures
        render_rows(under_path(rel, a + b)) == render_rows(under_path(rel, a)) + render_rows(
            under_path(rel, b),
        ),
        any_cut(under_path(rel, a + b)) == (any_cut(under_path(rel, a)) || any_cut(
            under_path(rel, b),
        )),
{
    assert(under_path(rel, a + b) =~= under_path(rel, a) + under_path(rel, b));
    assert(render_rows(under_path(rel, a + b)) =~= render_rows(under_path(rel, a)) + render_rows(
        under_path(rel, b),
    ));
    lemma_any_cut_concat(under_path(rel, a), under_path(rel, b));
}

/// The lines of one file that the earlier engine shows.
#[verifier::rlimit(40)]
pub fn grep_file(
    rel: &str,
    texts: &Vec<String>,
    matched: &Vec<bool>,
    context_before: usize,
    context_after: usize,
    max_results: usize,
    matches: &mut Vec<String>,
    lines_truncated: &mut bool,
)
    requires
        matched@.len() == texts@.len(),
    ensures
        ({
            let rows = under_path(
                rel@,
                fitting_rows(
                    views(texts@),
                    matched@,
                    context_before as nat,
                    context_after as nat,
                    max_results as nat,
                    old(matches)@.len(),
                    0,
                ),
            );
            &&& views(final(matches)@) == views(old(matches)@) + render_rows(rows)
            &&& *final(lines_truncated) == (*old(lines_truncated) || any_cut(rows))
        }),
{
    let ghost all = views(texts@);
    let ghost start_views = views(matches@);
    let ghost start_cut = *lines_truncated;
    let ghost goal = fitting_rows(
        all,
        matched@,
        context_before as nat,
        context_after as nat,
        max_results as nat,
        matches@.len(),
        0,
    );
    let ghost mut done: Seq<RowView> = Seq::empty();
    let mut i: usize = 0;
    proof {
        assert(done + goal =~= goal);
        assert(start_views + render_rows(under_path(rel@, done)) =~= start_views);
    }
    while i < texts.len()
        invariant
            all == views(texts@),
            i <= texts@.len() == matched@.len(),
            done + fitting_rows(
                all,
                matched@,
                context_before as nat,
                context_after as nat,
                max_results as nat,
                matches@.len(),
                i as nat,
            ) == goal,
            views(matches@) == start_views + render_rows(under_path(rel@, done)),
            *lines_truncated == (start_cut || any_cut(under_path(rel@, done))),
        ensures
            views(matches@) == start_views + render_rows(under_path(rel@, goal)),
            *lines_truncated == (start_cut || any_cut(under_path(rel@, goal))),
        decreases texts@.len() - i,
    {
        if matched[i] {
            let start: usize = if i < context_before {
                0
            } else {
                i - context_before
            };
            let reach: usize = i.saturating_add(context_after).saturating_add(1);
            let end: usize = if reach < texts.len() {
                reach
            } else {
                texts.len()
            };
            let count: usize = end - start;
            if matches.len() > max_results || count > max_results - matches.len() {
                proof {
                    assert(done + Seq::<RowView>::empty() =~= done);
                }
                break;
            }
            let cut = push_window(matches, rel, texts, i, start, end);
            if cut {
                *lines_truncated = true;
            }
            proof {
                let w = window_rows(all, i as nat, start as nat, end as nat);
                let rest = fitting_rows(
                    all,
                    matched@,
                    context_before as nat,
                    context_after as nat,
                    max_results as nat,
                    matches@.len(),
                    (i + 1) as nat,
                );
                assert(views(matches@).len() == matches@.len());
                assert(done + (w + rest) =~= (done + w) + rest);
                lemma_rows_concat(rel@, done, w);
                assert(views(matches@) =~= start_views + render_rows(under_path(rel@, done + w)));
                done = done + w;
            }
        }
        i += 1;
        proof {
            if i >= texts@.len() {
                assert(done + Seq::<RowView>::empty() =~= done);
            }
        }
    }
}

impl GrepTool {
    /// Whether a file name matches a simple glob such as `*.rs`.
    pub fn matches_glob(file_name: &str, pattern: &str) -> (r: bool)
        ensures
            r == glob_matches(file_name@, pattern@),
    {
        if starts_with(pattern, "*.") {
            let chars = chars_of(pattern);
            proof {
                reveal_strlit("*.");
            }
            let ext = text_of(&chars, 2, chars.len());
            proof {
                assert(ext@ =~= pattern@.skip(2));
            }
            ends_with(file_name, ext.as_str())
        } else if contains_char(pattern, '*') {
            let parts = split_text(pattern, '*');
            proof {
                assert(views(parts@).len() == parts@.len());
            }
            if parts.len() == 2 {
                starts_with(file_name, parts[0].as_str()) && ends_with(
                    file_name,
                    parts[1].as_str(),
                )
            } else {
                str_eq(file_name, pattern)
            }
        } else {
            str_eq(file_name, pattern)
        }
    }
}

/// The lines of a text that a search shows: each line that matches or stands within the
/// context of one that does, once and at most `max_results` of them. Also whether one of
/// them is cut.
pub fn grep_content(
    path: &str,
    texts: &Vec<String>,
    matched: &Vec<bool>,
    context: usize,
    max_results: usize,
) -> (r: (Vec<String>, bool))
    requires
        matched@.len() == texts@.len(),
    ensures
        ({
            let rows = under_path(
                path@,
                first_rows(
                    text_rows(views(texts@), matched@, context as nat),
                    max_results as nat,
                ),
            );
            &&& views(r.0@) == render_rows(rows)
            &&& r.1 == any_cut(rows)
        }),
{
    let (shown, _) = take_rows(texts, matched, context, max_results);
    let ghost rows = under_path(path@, row_views(shown@));
    let mut out: Vec<String> = Vec::new();
    let mut cut = false;
    let mut i: usize = 0;
    proof {
        assert(views(out@) =~= render_rows(rows.take(0)));
    }
    while i < shown.len()
        invariant
            i <= shown@.len(),
            rows == under_path(path@, row_views(shown@)),
            views(out@) == render_rows(rows.take(i as int)),
            cut == any_cut(rows.take(i as int)),
        decreases shown@.len() - i,
    {
        let ghost before = views(out@);
        let ghost done = rows.take(i as int);
        let ghost next = rows.take(i + 1);
        let row = &shown[i];
        let (line, was_cut) = render_line(path, row.line_no, row.is_context, row.text.as_str());
        out.push(line);
        proof {
            assert(views(out@) =~= before.push(line@));
            assert(rows[i as int].1 == row@);
            assert(next =~= done + seq![rows[i as int]]);
            assert(views(out@) =~= render_rows(next));
            lemma_any_cut_concat(done, seq![rows[i as int]]);
            if was_cut {
                assert(seq![rows[i as int]][0].1.text.len() > MAX_LINE_LENGTH);
            }
        }
        if was_cut {
            cut = true;
        }
        i += 1;
    }
    proof {
        assert(rows.take(i as int) =~= rows);
    }
    (out, cut)
}

/// The metadata of a result in which lines are cut.
pub open spec fn cut_metadata() -> JsonView {
    JsonView::Object(
        map![
            "lines_truncated"@ => JsonView::Bool(true),
            "message"@ => JsonView::Str("Some lines truncated to 500 chars. Use read tool to see full lines."@),
        ],
    )
}

/// The view of metadata that may be there.
pub open spec fn metadata_view(metadata: Option<Json>) -> Option<JsonView> {
    match metadata {
        Some(m) => Some(m@),
        None => None,
    }
}

/// A result that did its work, with metadata where lines are cut.
pub open spec fn is_found(result: AgentToolResult, output: Seq<char>, cut: bool) -> bool {
    &&& result.success
    &&& result.output@ == output
    &&& metadata_view(result.metadata) == if cut {
        Some(cut_metadata())
    } else {
        None
    }
    &&& result.content_blocks is None
    &&& !result.terminate
    &&& result.intent is None
}

/// A result that failed.
pub open spec fn is_failed(result: AgentToolResult, output: Seq<char>) -> bool {
    &&& !result.success
    &&& result.output@ == output
    &&& result.metadata is None
    &&& result.content_blocks is None
    &&& !result.terminate
    &&& result.intent is None
}

/// The result for lines that were found.
pub fn found_result(output: String, cut: bool) -> (r: AgentToolResult)
    ensures
        is_found(r, output@, cut),
{
    let result = AgentToolResult::success(output);
    if cut {
        let meta = Json::object().with("lines_truncated", Json::Bool(true)).with(
            "message",
            Json::Str(
                "Some lines truncated to 500 chars. Use read tool to see full lines.".to_owned(),
            ),
        );
        proof {
            assert(meta@->Object_0 =~= cut_metadata()->Object_0);
        }
        result.with_metadata(meta)
    } else {
        result
    }
}

/// What a search asks for.
pub struct GrepParams {
    pub pattern: String,
    pub path: String,
    pub case_insensitive: bool,
    pub literal: bool,
    pub context: usize,
    pub include_glob: Option<String>,
    pub max_results: usize,
}

/// A value that may be there, or a default.
pub open spec fn or_default<T>(value: Option<T>, default: T) -> T {
    match value {
        Some(v) => v,
        None => default,
    }
}

/// Whether the parameters are those that the JSON value gives.
pub open spec fn params_from(p: GrepParams, json: JsonView) -> bool {
    &&& str_member(json, "pattern"@) == Some(p.pattern@)
    &&& p.path@ == or_default(str_member(json, "path"@), "."@)
    &&& p.case_insensitive == or_default(bool_member(json, "case_insensitive"@), false)
    &&& p.literal == or_default(bool_member(json, "literal"@), false)
    &&& p.context == or_default(u64_member(json, "context"@), 0) as usize
    &&& crate::messages::opt_view(p.include_glob) == str_member(json, "include"@)
    &&& p.max_results == or_default(u64_member(json, "max_results"@), 100) as usize
}

/// The parameters that a JSON value gives. Only the pattern must be there.
pub fn read_params(params: &Json) -> (r: Result<GrepParams, ToolError>)
    requires
        json_wf(*params),
    ensures
        match r {
            Ok(p) => params_from(p, params@),
            Err(e) => str_member(params@, "pattern"@) is None && e@
                == "Missing required parameter: pattern"@,
        },
{
    let pattern = match params.get_str("pattern") {
        Some(s) => s.clone(),
        None => {
            return Err("Missing required parameter: pattern".to_owned());
        },
    };
    let path = match params.get_str("path") {
        Some(s) => s.clone(),
        None => ".".to_owned(),
    };
    let include_glob = match params.get_str("include") {
        Some(s) => Some(s.clone()),
        None => None,
    };
    let context: u64 = match params.get_u64("context") {
        Some(n) => n,
        None => 0,
    };
    let max_results: u64 = match params.get_u64("max_results") {
        Some(n) => n,
        None => 100,
    };
    Ok(
        GrepParams {
            pattern,
            path,
            case_insensitive: match params.get_bool("case_insensitive") {
                Some(b) => b,
                None => false,
            },
            literal: match params.get_bool("literal") {
                Some(b) => b,
                None => false,
            },
            context: #[verifier::truncate]
            (context as usize),
            include_glob,
            max_results: #[verifier::truncate]
            (max_results as usize),
        },
    )
}

/// Whether a result is that of a search in a text.
pub open spec fn is_content_result(
    result: AgentToolResult,
    p: GrepParams,
    content: Seq<char>,
) -> bool {
    let texts = lines(content);
    let matched = matches_of(
        effective_pattern(p.pattern@, p.literal),
        p.case_insensitive,
        texts,
    );
    let rows = under_path(
        p.path@,
        first_rows(text_rows(texts, matched, p.context as nat), p.max_results as nat),
    );
    is_found(result, report(render_rows(rows)), any_cut(rows))
}

/// The result of a search in a text.
pub fn search_content(p: &GrepParams, content: &str) -> (r: Result<AgentToolResult, ToolError>)
    ensures
        ({
            let pattern = effective_pattern(p.pattern@, p.literal);
            let failure = regex_error(pattern, p.case_insensitive);
            match r {
                Ok(result) => failure is None && is_content_result(result, *p, content@),
                Err(e) => failure is Some && e@ == pattern_message(p.pattern@, failure->0),
            }
        }),
{
    let texts = lines_of(content);
    match match_texts(p.pattern.as_str(), p.literal, p.case_insensitive, &texts) {
        Err(e) => Err(pattern_message_text(p.pattern.as_str(), e.as_str())),
        Ok(matched) => {
            proof {
                let pattern = effective_pattern(p.pattern@, p.literal);
                assert forall|i: int| 0 <= i < matched@.len() implies matched@[i] == matches_of(
                    pattern,
                    p.case_insensitive,
                    lines(content@),
                )[i] by {
                    assert(views(texts@)[i] == texts@[i]@);
                }
                assert(views(texts@).len() == texts@.len());
                assert(matched@ =~= matches_of(pattern, p.case_insensitive, lines(content@)));
            }
            let (found, cut) = grep_content(
                p.path.as_str(),
                &texts,
                &matched,
                p.context,
                p.max_results,
            );
            Ok(found_result(report_text(&found), cut))
        },
    }
}

/// Whether a path is an address that the context resolves.
pub open spec fn is_address(ctx: &ToolContext, path: Seq<char>) -> bool {
    match ctx.url_resolver {
        Some(resolver) => resolver.handles(path),
        None => false,
    }
}

/// Whether this is what the context may say of a path: an answer of its resolver where it is
/// an address, and nothing otherwise.
pub open spec fn is_answer(
    ctx: &ToolContext,
    path: Seq<char>,
    answer: Option<Result<ResolvedContent, ToolError>>,
) -> bool {
    match answer {
        Some(given) => is_address(ctx, path) && ctx.url_resolver->0.may_answer(path, given),
        None => !is_address(ctx, path),
    }
}

/// What is left to do for a call of the tool.
pub enum GrepStep {
    /// The search is over.
    Done(AgentToolResult),
    /// Walk the files below `root` with the earlier engine.
    Legacy { root: String, params: GrepParams },
    /// Walk the files below `target`, which must be in `root`, with the engine of today.
    Native { root: String, target: String, params: GrepParams },
}

impl GrepTool {
    /// The directory that is searched.
    pub open spec fn search_root(&self, ctx: &ToolContext) -> Seq<char> {
        match self.root_dir {
            Some(root) => root@,
            None => ctx.root_spec(),
        }
    }

    /// The walk that a search begins with: by the tool's engine, below its own directory
    /// or else that of the context.
    pub fn begin_walk(&self, params: GrepParams, ctx: &ToolContext) -> (r: GrepStep)
        ensures
            match r {
                GrepStep::Done(_) => false,
                GrepStep::Legacy { root, params: q } => self.engine == Engine::Legacy && root@
                    == self.search_root(ctx) && q == params,
                GrepStep::Native { root, target, params: q } => self.engine == Engine::Native
                    && root@ == self.search_root(ctx) && target@ == path_join(root@, params.path@)
                    && q == params,
            },
    {
        let root = match &self.root_dir {
            Some(root) => root.clone(),
            None => ctx.root().to_owned(),
        };
        if self.engine == Engine::Legacy {
            GrepStep::Legacy { root, params }
        } else {
            let target = join_path(root.as_str(), params.path.as_str());
            GrepStep::Native { root, target, params }
        }
    }

    /// Whether this is what comes next once it is known what the resolver says of the path:
    /// content is searched at once, a failure is passed on, and where the path is no address
    /// of the resolver its files are left to walk.
    pub open spec fn is_next(
        &self,
        r: Result<GrepStep, ToolError>,
        p: GrepParams,
        ctx: &ToolContext,
        answer: Option<Result<ResolvedContent, ToolError>>,
    ) -> bool {
        match answer {
            None => match r {
                Ok(GrepStep::Legacy { root, params: q }) => self.engine == Engine::Legacy && root@
                    == self.search_root(ctx) && q == p,
                Ok(GrepStep::Native { root, target, params: q }) => self.engine == Engine::Native
                    && root@ == self.search_root(ctx) && target@ == path_join(root@, p.path@) && q
                    == p,
                _ => false,
            },
            Some(Err(e)) => r == Err::<GrepStep, ToolError>(e),
            Some(Ok(resolved)) => {
                let pattern = effective_pattern(p.pattern@, p.literal);
                match regex_error(pattern, p.case_insensitive) {
                    None => r is Ok && r->Ok_0 is Done && is_content_result(
                        r->Ok_0->Done_0,
                        p,
                        resolved.content@,
                    ),
                    Some(e) => r is Err && r->Err_0@ == pattern_message(p.pattern@, e),
                }
            },
        }
    }

    /// Goes on with a call of the tool once it is known what the resolver says of the path.
    pub fn proceed(
        &self,
        p: GrepParams,
        ctx: &ToolContext,
        answer: Option<Result<ResolvedContent, ToolError>>,
    ) -> (r: Result<GrepStep, ToolError>)
        ensures
            self.is_next(r, p, ctx, answer),
    {
        match answer {
            None => Ok(self.begin_walk(p, ctx)),
            Some(Err(e)) => Err(e),
            Some(Ok(resolved)) => match search_content(&p, resolved.content.as_str()) {
                Ok(result) => Ok(GrepStep::Done(result)),
                Err(e) => Err(e),
            },
        }
    }

    /// Begins a call of the tool. An address that the context resolves is searched at
    /// once; anything else is a path, and its files are left to walk. What a resolver
    /// answers is its own; the call goes on with it as it is.
    pub fn execute(&self, params: &Json, ctx: &ToolContext) -> (r: Result<GrepStep, ToolError>)
        requires
            json_wf(*params),
        ensures
            str_member(params@, "pattern"@) is None ==> r is Err && r->Err_0@
                == "Missing required parameter: pattern"@,
            str_member(params@, "pattern"@) is Some ==> exists|
                p: GrepParams,
                answer: Option<Result<ResolvedContent, ToolError>>,
            |
                params_from(p, params@) && is_answer(ctx, p.path@, answer)
                    && #[trigger] self.is_next(r, p, ctx, answer),
            str_member(params@, "pattern"@) is Some && !is_address(
                ctx,
                or_default(str_member(params@, "path"@), "."@),
            ) ==> r is Ok && !(r->Ok_0 is Done),
    {
        let p = match read_params(params) {
            Ok(p) => p,
            Err(e) => {
                return Err(e);
            },
        };
        let answer = match &ctx.url_resolver {
            Some(resolver) => {
                if resolver.can_resolve(p.path.as_str()) {
                    Some(resolver.resolve(p.path.as_str()))
                } else {
                    None
                }
            },
            None => None,
        };
        let ghost asked = p;
        let ghost given = answer;
        let r = self.proceed(p, ctx, answer);
        proof {
            assert(is_answer(ctx, asked.path@, given));
            assert(self.is_next(r, asked, ctx, given));
        }
        r
    }
}

/// The request of a search with the engine of today.
pub open spec fn request_of(p: GrepParams) -> SearchRequest {
    SearchRequest {
        pattern: p.pattern,
        case_insensitive: p.case_insensitive,
        literal: p.literal,
        context: p.context,
        include_glob: p.include_glob,
        max_results: p.max_results,
    }
}

/// The request of a search with the engine of today.
pub fn search_request(p: GrepParams) -> (r: SearchRequest)
    ensures
        r == request_of(p),
{
    SearchRequest {
        pattern: p.pattern,
        case_insensitive: p.case_insensitive,
        literal: p.literal,
        context: p.context,
        include_glob: p.include_glob,
        max_results: p.max_results,
    }
}

/// The result for a path that does not exist.
pub fn path_not_found(path: &str) -> (r: AgentToolResult)
    ensures
        is_failed(r, "Path not found: "@ + path@),
{
    let mut message = "Path not found: ".to_owned();
    message.append(path);
    AgentToolResult::error(message)
}

/// Whether a result tells what a search with the engine of today came to.
pub open spec fn is_told(r: AgentToolResult, outcome: Result<SearchOutcome, String>) -> bool {
    match outcome {
        Err(e) => is_failed(r, e@),
        Ok(o) => {
            &&& r.success
            &&& r.output@ == o.output@
            &&& metadata_view(r.metadata) == if o.lines_truncated || o.cancelled {
                Some(
                    JsonView::Object(
                        map![
                            "lines_truncated"@ => JsonView::Bool(o.lines_truncated),
                            "cancelled"@ => JsonView::Bool(o.cancelled),
                        ],
                    ),
                )
            } else {
                None
            }
            &&& r.content_blocks is None
            &&& !r.terminate
            &&& r.intent is None
        },
    }
}

/// The result of a walk with the engine of today.
pub fn native_result(outcome: Result<SearchOutcome, String>) -> (r: AgentToolResult)
    ensures
        is_told(r, outcome),
{
    match outcome {
        Err(e) => AgentToolResult::error(e),
        Ok(o) => {
            let result = AgentToolResult::success(o.output);
            if o.lines_truncated || o.cancelled {
                let meta = Json::object().with(
                    "lines_truncated",
                    Json::Bool(o.lines_truncated),
                ).with("cancelled", Json::Bool(o.cancelled));
                proof {
                    assert(meta@->Object_0 =~= map![
                        "lines_truncated"@ => JsonView::Bool(o.lines_truncated),
                        "cancelled"@ => JsonView::Bool(o.cancelled),
                    ]);
                }
                result.with_metadata(meta)
            } else {
                result
            }
        },
    }
}

/// The result of a search with the engine of today below a path: of what was found there,
/// of nothing where the path does not exist, or why the path may not be searched.
pub open spec fn is_native_result(
    r: AgentToolResult,
    read: Result<Option<Vec<Found>>, String>,
    p: GrepParams,
    outcome: Result<SearchOutcome, String>,
    backslash_separates: bool,
) -> bool {
    match read {
        Err(e) => is_failed(r, e@),
        Ok(None) => is_failed(r, "Path not found: "@ + p.path@),
        Ok(Some(found)) => is_search_of(
            outcome,
            request_of(p),
            found@,
            backslash_separates,
        ) && is_told(r, outcome),
    }
}

/// Whether a result is that of a search with the engine of today, whatever a backslash
/// means.
pub open spec fn is_native_under_both(
    r: AgentToolResult,
    read: Result<Option<Vec<Found>>, String>,
    p: GrepParams,
    outcome: Result<SearchOutcome, String>,
) -> bool {
    is_native_result(r, read, p, outcome, true) && is_native_result(r, read, p, outcome, false)
}

impl GrepTool {
    /// The search with the engine of today below a path. A failure is told in the result.
    pub fn search_impl(read: Result<Option<Vec<Found>>, String>, p: GrepParams) -> (r:
        AgentToolResult)
        ensures
            exists|outcome: Result<SearchOutcome, String>, w: bool| #[trigger]
                is_native_result(r, read, p, outcome, w),
            (read matches Ok(Some(found)) ==> plain_paths(found@, request_of(p))) ==> exists|
                outcome: Result<SearchOutcome, String>,
            | #[trigger] is_native_under_both(r, read, p, outcome),
    {
        let ghost asked: Result<SearchOutcome, String> = Err(p.path);
        match read {
            Err(e) => {
                let r = AgentToolResult::error(e);
                proof {
                    assert(is_native_result(r, read, p, asked, true));
                    assert(is_native_under_both(r, read, p, asked));
                }
                r
            },
            Ok(None) => {
                let r = path_not_found(p.path.as_str());
                proof {
                    assert(is_native_result(r, read, p, asked, true));
                    assert(is_native_under_both(r, read, p, asked));
                }
                r
            },
            Ok(Some(found)) => {
                let request = search_request(p);
                let outcome = search(&request, &found);
                let ghost given = outcome;
                let r = native_result(outcome);
                proof {
                    let w = choose|w: bool| #[trigger] is_search_of(given, request, found@, w);
                    assert(is_native_result(r, read, p, given, w));
                    if plain_paths(found@, request) {
                        assert(is_search_of(given, request, found@, true));
                        assert(is_search_of(given, request, found@, false));
                        assert(is_native_under_both(r, read, p, given));
                    }
                }
                r
            },
        }
    }
}

/// The result of a walk with the earlier engine. A failure is told in the result.
pub fn legacy_result(outcome: Result<(String, bool), String>) -> (r: AgentToolResult)
    ensures
        match outcome {
            Err(e) => is_failed(r, e@),
            Ok(found) => is_found(r, found.0@, found.1),
        },
{
    match outcome {
        Err(e) => AgentToolResult::error(e),
        Ok((output, cut)) => found_result(output, cut),
    }
}

/// A walk of the earlier engine.
pub struct LegacyWalk {
    pub matches: Vec<String>,
    pub lines_truncated: bool,
}

/// What the earlier engine does at a path.
#[derive(Clone, Copy, PartialEq, Eq, Structural, Debug)]
pub enum LegacyStep {
    /// Nothing.
    Return,
    /// Read and search the file.
    ReadFile,
    /// Read the directory and walk its entries.
    ReadDirectory,
}

/// Directories that the earlier engine does not walk.
pub open spec fn legacy_skips_dir(name: Seq<char>) -> bool {
    ||| name == ".git"@
    ||| crate::tools::exact_search::artifact_dir(name)
}

/// Whether the earlier engine walks an entry of a directory. One without a name has the
/// empty name.
pub open spec fn legacy_walks(name: Seq<char>, is_dir: bool) -> bool {
    &&& !(name.len() > 0 && name[0] == '.')
    &&& !(is_dir && legacy_skips_dir(name))
}

/// Whether the earlier engine walks an entry of a directory: no hidden one, and no
/// directory of build products or dependencies.
pub fn walks_entry(name: &str, is_dir: bool) -> (r: bool)
    ensures
        r == legacy_walks(name@, is_dir),
{
    let chars = chars_of(name);
    if chars.len() > 0 && chars[0] == '.' {
        return false;
    }
    !(is_dir && (str_eq(name, ".git") || crate::tools::exact_search::is_artifact_dir(name)))
}

impl LegacyWalk {
    /// A walk before its first file. The pattern is compiled first, escaped where it is a
    /// literal, and an error names the pattern that was compiled.
    pub fn begin(pattern: &str, literal: bool, case_insensitive: bool) -> (r: Result<Self, ToolError>)
        ensures
            ({
                let p = effective_pattern(pattern@, literal);
                match r {
                    Ok(walk) => regex_error(p, case_insensitive) is None && walk.matches@.len()
                        == 0 && !walk.lines_truncated,
                    Err(e) => regex_error(p, case_insensitive) is Some && e@ == pattern_message(
                        p,
                        regex_error(p, case_insensitive)->0,
                    ),
                }
            }),
    {
        let none: Vec<String> = Vec::new();
        match match_texts(pattern, literal, case_insensitive, &none) {
            Ok(_) => Ok(LegacyWalk { matches: Vec::new(), lines_truncated: false }),
            Err(e) => {
                if literal {
                    Err(pattern_message_text(escape(pattern).as_str(), e.as_str()))
                } else {
                    Err(pattern_message_text(pattern, e.as_str()))
                }
            },
        }
    }

    /// What is done at a path: nothing once enough was found or where a link leads
    /// nowhere, a file is read where its name passes the glob, and the rest are
    /// directories.
    pub fn enter(
        &self,
        max_results: usize,
        broken_link: bool,
        is_file: bool,
        file_name: &str,
        include_glob: &Option<String>,
    ) -> (r: LegacyStep)
        ensures
            r == (if self.matches@.len() >= max_results || broken_link {
                LegacyStep::Return
            } else if !is_file {
                LegacyStep::ReadDirectory
            } else if include_glob is None || glob_matches(file_name@, include_glob->0@) {
                LegacyStep::ReadFile
            } else {
                LegacyStep::Return
            }),
    {
        if self.matches.len() >= max_results || broken_link {
            return LegacyStep::Return;
        }
        if !is_file {
            return LegacyStep::ReadDirectory;
        }
        match include_glob {
            None => LegacyStep::ReadFile,
            Some(glob) => {
                if GrepTool::matches_glob(file_name, glob.as_str()) {
                    LegacyStep::ReadFile
                } else {
                    LegacyStep::Return
                }
            },
        }
    }

    /// Searches a file that was read.
    pub fn search_file(&mut self, rel: &str, content: &str, p: &GrepParams) -> (r: Result<
        (),
        ToolError,
    >)
        ensures
            ({
                let pattern = effective_pattern(p.pattern@, p.literal);
                let failure = regex_error(pattern, p.case_insensitive);
                match r {
                    Ok(_) => {
                        let texts = lines(unix_newlines(content@));
                        let rows = under_path(
                            rel@,
                            fitting_rows(
                                texts,
                                matches_of(pattern, p.case_insensitive, texts),
                                p.context as nat,
                                p.context as nat,
                                p.max_results as nat,
                                old(self).matches@.len(),
                                0,
                            ),
                        );
                        &&& failure is None
                        &&& views(final(self).matches@) == views(old(self).matches@) + render_rows(
                            rows,
                        )
                        &&& final(self).lines_truncated == (old(self).lines_truncated || any_cut(
                            rows,
                        ))
                    },
                    Err(e) => failure == Some(e@) && *final(self) == *old(self),
                }
            }),
    {
        let texts = read_file_lines(content);
        match match_texts(p.pattern.as_str(), p.literal, p.case_insensitive, &texts) {
            Err(e) => Err(e),
            Ok(matched) => {
                proof {
                    let pattern = effective_pattern(p.pattern@, p.literal);
                    let all = lines(unix_newlines(content@));
                    assert forall|i: int| 0 <= i < matched@.len() implies matched@[i]
                        == matches_of(pattern, p.case_insensitive, all)[i] by {
                        assert(views(texts@)[i] == texts@[i]@);
                    }
                    assert(views(texts@).len() == texts@.len());
                    assert(matched@ =~= matches_of(pattern, p.case_insensitive, all));
                }
                let mut matches: Vec<String> = Vec::new();
                std::mem::swap(&mut matches, &mut self.matches);
                let mut cut = self.lines_truncated;
                grep_file(
                    rel,
                    &texts,
                    &matched,
                    p.context,
                    p.context,
                    p.max_results,
                    &mut matches,
                    &mut cut,
                );
                self.matches = matches;
                self.lines_truncated = cut;
                Ok(())
            },
        }
    }

    /// What the walk found, as a text, and whether a line is cut.
    pub fn finish(&self) -> (r: (String, bool))
        ensures
            r.0@ == report(views(self.matches@)),
            r.1 == (self.matches@.len() > 0 && self.lines_truncated),
    {
        (report_text(&self.matches), self.matches.len() > 0 && self.lines_truncated)
    }
}

/// Why a directory could not be read to its end.
pub enum ReadFailure {
    /// It could not be opened.
    Open { path: String, error: String },
    /// One of its entries could not be read.
    Entry { error: String },
}

/// What a file system holds at a path.
pub enum WalkNode {
    /// A symbolic link that leads nowhere.
    BrokenLink,
    /// A file, with its text where it could be read as one.
    File { content: Option<String> },
    /// Anything else: its entries up to the failure that ended their reading.
    Directory { entries: Vec<NamedNode>, failure: Option<ReadFailure> },
}

/// What a file system holds under a name, and whether that is a directory.
pub struct NamedNode {
    pub name: String,
    pub is_dir: bool,
    pub node: WalkNode,
}

/// The view of a [`LegacyWalk`].
#[verifier::ext_equal]
pub struct LegacyView {
    pub lines: Seq<Seq<char>>,
    pub cut: bool,
}

impl View for LegacyWalk {
    type V = LegacyView;

    open spec fn view(&self) -> LegacyView {
        LegacyView { lines: views(self.matches@), cut: self.lines_truncated }
    }
}

/// The message for a directory that could not be read to its end.
pub open spec fn read_failure(failure: ReadFailure) -> Seq<char> {
    match failure {
        ReadFailure::Open { path, error } => "Cannot read directory "@ + path@ + ": "@ + error@,
        ReadFailure::Entry { error } => "Error reading entry: "@ + error@,
    }
}

/// The message for a directory that could not be read to its end.
fn read_failure_text(failure: &ReadFailure) -> (r: String)
    ensures
        r@ == read_failure(*failure),
{
    match failure {
        ReadFailure::Open { path, error } => {
            let mut out = "Cannot read directory ".to_owned();
            out.append(path.as_str());
            out.append(": ");
            out.append(error.as_str());
            out
        },
        ReadFailure::Entry { error } => {
            let mut out = "Error reading entry: ".to_owned();
            out.append(error.as_str());
            out
        },
    }
}

/// Where a walk stands: what it found so far, and the failure that ended it, where one did.
#[verifier::ext_equal]
pub struct Walked {
    pub found: LegacyView,
    pub failure: Option<Seq<char>>,
}

/// The walk after a file that was read. A pattern that does not compile ends it.
pub open spec fn walked_file(
    rel: Seq<char>,
    content: Seq<char>,
    p: GrepParams,
    w: LegacyView,
) -> Walked {
    let pattern = effective_pattern(p.pattern@, p.literal);
    let texts = lines(unix_newlines(content));
    let rows = under_path(
        rel,
        fitting_rows(
            texts,
            matches_of(pattern, p.case_insensitive, texts),
            p.context as nat,
            p.context as nat,
            p.max_results as nat,
            w.lines.len(),
            0,
        ),
    );
    match regex_error(pattern, p.case_insensitive) {
        Some(e) => Walked { found: w, failure: Some(e) },
        None => Walked {
            found: LegacyView { lines: w.lines + render_rows(rows), cut: w.cut || any_cut(rows) },
            failure: None,
        },
    }
}

/// The walk after what stands under a name, at a path below the root. Once enough was found
/// nothing more is read, and so nothing fails.
pub open spec fn walked(rel: Seq<char>, at: NamedNode, p: GrepParams, w: LegacyView) -> Walked
    decreases at, 0nat,
{
    if w.lines.len() >= p.max_results {
        Walked { found: w, failure: None }
    } else {
        match at.node {
            WalkNode::BrokenLink => Walked { found: w, failure: None },
            WalkNode::File { content } => if content is Some && (p.include_glob is None
                || glob_matches(at.name@, p.include_glob->0@)) {
                walked_file(rel, content->0@, p, w)
            } else {
                Walked { found: w, failure: None }
            },
            WalkNode::Directory { entries, failure } => {
                let all = walked_entries(rel, entries, p, w, entries.len() as nat);
                if all.failure is None && failure is Some {
                    Walked { found: all.found, failure: Some(read_failure(failure->0)) }
                } else {
                    all
                }
            },
        }
    }
}

/// The walk after the first `n` entries of a directory. A failure leaves the rest unread.
pub open spec fn walked_entries(
    rel: Seq<char>,
    entries: Vec<NamedNode>,
    p: GrepParams,
    w: LegacyView,
    n: nat,
) -> Walked
    decreases entries, n,
{
    if n == 0 || n > entries.len() {
        Walked { found: w, failure: None }
    } else {
        let at = entries[n - 1];
        let before = walked_entries(rel, entries, p, w, (n - 1) as nat);
        if before.failure is None && legacy_walks(at.name@, at.is_dir) {
            walked(path_join(rel, at.name@), at, p, before.found)
        } else {
            before
        }
    }
}

/// A failure among the first entries is the failure of all of them.
proof fn lemma_entries_failed(
    rel: Seq<char>,
    entries: Vec<NamedNode>,
    p: GrepParams,
    w: LegacyView,
    n: nat,
    m: nat,
)
    requires
        n <= m <= entries.len(),
        walked_entries(rel, entries, p, w, n).failure is Some,
    ensures
        walked_entries(rel, entries, p, w, m) == walked_entries(rel, entries, p, w, n),
    decreases m - n,
{
    if n < m {
        lemma_entries_failed(rel, entries, p, w, n, (m - 1) as nat);
    }
}

/// Whether a walk that went on kept what it had found, and stayed within the limit.
pub open spec fn keeps_found(before: LegacyView, after: LegacyView, max_results: nat) -> bool {
    &&& before.lines.is_prefix_of(after.lines)
    &&& before.cut ==> after.cut
    &&& before.lines.len() <= max_results ==> after.lines.len() <= max_results
}

/// A walk keeps what it has found, also where it fails, and however many files there are it
/// shows no more lines than the request allows.
pub proof fn lemma_walk_keeps_found(rel: Seq<char>, at: NamedNode, p: GrepParams, w: LegacyView)
    ensures
        keeps_found(w, walked(rel, at, p, w).found, p.max_results as nat),
    decreases at, 0nat,
{
    assert(w.lines =~= w.lines.subrange(0, w.lines.len() as int));
    if w.lines.len() < p.max_results {
        match at.node {
            WalkNode::BrokenLink => {},
            WalkNode::File { content } => {
                if content is Some {
                    let pattern = effective_pattern(p.pattern@, p.literal);
                    let texts = lines(unix_newlines(content->0@));
                    lemma_fitting_rows_within_limit(
                        texts,
                        matches_of(pattern, p.case_insensitive, texts),
                        p.context as nat,
                        p.context as nat,
                        p.max_results as nat,
                        w.lines.len(),
                        0,
                    );
                    let found = walked(rel, at, p, w).found;
                    assert(w.lines =~= found.lines.subrange(0, w.lines.len() as int));
                }
            },
            WalkNode::Directory { entries, failure } => {
                lemma_entries_keep_found(rel, entries, p, w, entries.len() as nat);
            },
        }
    }
}

proof fn lemma_entries_keep_found(
    rel: Seq<char>,
    entries: Vec<NamedNode>,
    p: GrepParams,
    w: LegacyView,
    n: nat,
)
    requires
        n <= entries.len(),
    ensures
        keeps_found(w, walked_entries(rel, entries, p, w, n).found, p.max_results as nat),
    decreases entries, n,
{
    if n == 0 {
        assert(w.lines =~= w.lines.subrange(0, w.lines.len() as int));
    } else {
        let at = entries[n - 1];
        lemma_entries_keep_found(rel, entries, p, w, (n - 1) as nat);
        let before = walked_entries(rel, entries, p, w, (n - 1) as nat);
        if before.failure is None && legacy_walks(at.name@, at.is_dir) {
            let below = path_join(rel, at.name@);
            lemma_walk_keeps_found(below, at, p, before.found);
            let after = walked(below, at, p, before.found).found;
            assert(w.lines =~= after.lines.subrange(0, w.lines.len() as int)) by {
                assert forall|i: int| 0 <= i < w.lines.len() implies w.lines[i]
                    == after.lines[i] by {
                    assert(before.found.lines.subrange(0, w.lines.len() as int)[i] == w.lines[i]);
                    assert(after.lines.subrange(0, before.found.lines.len() as int)[i]
                        == before.found.lines[i]);
                }
            }
        }
    }
}

impl LegacyWalk {
    /// Walks what stands under a name, at a path below the root: a file is searched where
    /// its name passes the glob, and a directory entry by entry. What was found before
    /// stays, also where the walk fails.
    pub fn grep_walk(&mut self, rel: &str, at: &NamedNode, p: &GrepParams) -> (r: Result<
        (),
        ToolError,
    >)
        ensures
            ({
                let w = walked(rel@, *at, *p, old(self)@);
                &&& final(self)@ == w.found
                &&& match w.failure {
                    None => r is Ok,
                    Some(e) => r is Err && r->Err_0@ == e,
                }
            }),
            keeps_found(old(self)@, final(self)@, p.max_results as nat),
        decreases *at,
    {
        let ghost start = self@;
        proof {
            assert(start.lines.len() == self.matches@.len());
            lemma_walk_keeps_found(rel@, *at, *p, start);
        }
        let broken = match &at.node {
            WalkNode::BrokenLink => true,
            _ => false,
        };
        let is_file = match &at.node {
            WalkNode::File { content: _ } => true,
            _ => false,
        };
        let step = self.enter(p.max_results, broken, is_file, at.name.as_str(), &p.include_glob);
        match &at.node {
            WalkNode::BrokenLink => Ok(()),
            WalkNode::File { content } => {
                if step == LegacyStep::ReadFile {
                    match content {
                        Some(text) => self.search_file(rel, text.as_str(), p),
                        None => Ok(()),
                    }
                } else {
                    Ok(())
                }
            },
            WalkNode::Directory { entries, failure } => {
                if step == LegacyStep::Return {
                    return Ok(());
                }
                let mut i: usize = 0;
                while i < entries.len()
                    invariant
                        start == old(self)@,
                        at.node == (WalkNode::Directory { entries: *entries, failure: *failure }),
                        start.lines.len() < p.max_results,
                        i <= entries@.len(),
                        walked_entries(rel@, *entries, *p, start, i as nat) == (Walked {
                            found: self@,
                            failure: None,
                        }),
                        keeps_found(
                            start,
                            walked(rel@, *at, *p, start).found,
                            p.max_results as nat,
                        ),
                    decreases entries@.len() - i,
                {
                    let entry = &entries[i];
                    if walks_entry(entry.name.as_str(), entry.is_dir) {
                        let below = join_path(rel, entry.name.as_str());
                        proof {
                            assert(decreases_to!(*entries => entries[i as int]));
                            assert(decreases_to!(*at => *entries));
                        }
                        match self.grep_walk(below.as_str(), entry, p) {
                            Ok(_) => {},
                            Err(e) => {
                                proof {
                                    lemma_entries_failed(
                                        rel@,
                                        *entries,
                                        *p,
                                        start,
                                        (i + 1) as nat,
                                        entries.len() as nat,
                                    );
                                }
                                return Err(e);
                            },
                        }
                    }
                    i += 1;
                }
                match failure {
                    Some(f) => Err(read_failure_text(f)),
                    None => Ok(()),
                }
            },
        }
    }
}

/// What the earlier engine finds below a path: what was read there, nothing where the
/// path does not exist, or why the path may not be searched.
pub open spec fn legacy_outcome(
    read: Result<Option<NamedNode>, String>,
    p: GrepParams,
) -> Result<(Seq<char>, bool), Seq<char>> {
    let pattern = effective_pattern(p.pattern@, p.literal);
    match read {
        Err(e) => Err(e@),
        Ok(None) => Err("Path not found: "@ + p.path@),
        Ok(Some(root)) => match regex_error(pattern, p.case_insensitive) {
            Some(e) => Err(pattern_message(pattern, e)),
            None => {
                let w = walked(""@, root, p, LegacyView { lines: Seq::empty(), cut: false });
                match w.failure {
                    None => Ok((report(w.found.lines), w.found.lines.len() > 0 && w.found.cut)),
                    Some(e) => Err(e),
                }
            },
        },
    }
}

impl GrepTool {
    /// The search of the earlier engine below a path.
    pub fn grep_impl(read: &Result<Option<NamedNode>, String>, p: &GrepParams) -> (r: Result<
        (String, bool),
        ToolError,
    >)
        ensures
            match legacy_outcome(*read, *p) {
                Ok(found) => r is Ok && r->Ok_0.0@ == found.0 && r->Ok_0.1 == found.1,
                Err(e) => r is Err && r->Err_0@ == e,
            },
    {
        let root = match read {
            Err(e) => {
                return Err(e.clone());
            },
            Ok(None) => {
                let mut message = "Path not found: ".to_owned();
                message.append(p.path.as_str());
                return Err(message);
            },
            Ok(Some(root)) => root,
        };
        let mut walk = match LegacyWalk::begin(p.pattern.as_str(), p.literal, p.case_insensitive) {
            Ok(walk) => walk,
            Err(e) => {
                return Err(e);
            },
        };
        proof {
            assert(walk@ =~= (LegacyView { lines: Seq::empty(), cut: false }));
        }
        match walk.grep_walk("", root, p) {
            Ok(_) => {
                proof {
                    assert(walk@.lines.len() == walk.matches@.len());
                }
                Ok(walk.finish())
            },
            Err(e) => Err(e),
        }
    }
}

/// The earlier engine never shows more lines than the request allows.
pub proof fn lemma_fitting_rows_within_limit(
    texts: Seq<Seq<char>>,
    matched: Seq<bool>,
    before: nat,
    after: nat,
    max_results: nat,
    have: nat,
    i: nat,
)
    requires
        have <= max_results,
        matched.len() == texts.len(),
    ensures
        have + fitting_rows(texts, matched, before, after, max_results, have, i).len()
            <= max_results,
    decreases texts.len() - i,
{
    if i < texts.len() {
        if !matched[i as int] {
            lemma_fitting_rows_within_limit(
                texts,
                matched,
                before,
                after,
                max_results,
                have,
                i + 1,
            );
        } else {
            let start = window_start(i, before);
            let end = window_end(i, after, texts.len());
            if have + (end - start) <= max_results {
                lemma_fitting_rows_within_limit(
                    texts,
                    matched,
                    before,
                    after,
                    max_results,
                    (have + (end - start)) as nat,
                    i + 1,
                );
            }
        }
    }
}

/// A property of the parameters: its type and what it means.
pub open spec fn property(kind: Seq<char>, description: Seq<char>) -> Map<Seq<char>, JsonView> {
    map!["type"@ => JsonView::Str(kind), "description"@ => JsonView::Str(description)]
}

/// A property of the parameters: its type and what it means.
pub fn property_json(kind: &str, description: &str) -> (r: Json)
    ensures
        r is Object,
        r@ == JsonView::Object(property(kind@, description@)),
        json_wf(r),
{
    let r = Json::object().with("type", Json::Str(kind.to_owned())).with(
        "description",
        Json::Str(description.to_owned()),
    );
    proof {
        assert(r@->Object_0 =~= property(kind@, description@));
    }
    r
}

/// The parameters of the tool by their names.
pub open spec fn grep_properties() -> Map<Seq<char>, JsonView> {
    let pattern = property(
        "string"@,
        "The pattern to search for (regex by default, or literal string if literal=true)"@,
    );
    let path = property("string"@, "The directory or file to search in"@);
    let case_insensitive = property("boolean"@, "If true, perform case-insensitive search"@);
    let literal = property(
        "boolean"@,
        "If true, treat pattern as a literal string instead of regex"@,
    );
    let context = property("integer"@, "Number of lines to show before and after each match"@);
    let include_glob = property(
        "string"@,
        "Glob pattern to filter files (e.g., '*.rs', '*.ts')"@,
    );
    let max_results = property("integer"@, "Maximum number of results to return"@);
    let number = |n: u64| JsonView::Number(Num::Unsigned(n));
    map![
        "pattern"@ => JsonView::Object(pattern),
        "path"@ => JsonView::Object(path.insert("default"@, JsonView::Str("."@))),
        "case_insensitive"@ => JsonView::Object(
            case_insensitive.insert("default"@, JsonView::Bool(false)),
        ),
        "literal"@ => JsonView::Object(literal.insert("default"@, JsonView::Bool(false))),
        "context"@ => JsonView::Object(context.insert("default"@, number(0))),
        "include"@ => JsonView::Object(include_glob),
        "max_results"@ => JsonView::Object(max_results.insert("default"@, number(100))),
    ]
}

/// What the parameters of the tool look like.
pub open spec fn grep_schema() -> JsonView {
    JsonView::Object(
        map![
            "type"@ => JsonView::Str("object"@),
            "properties"@ => JsonView::Object(grep_properties()),
            "required"@ => JsonView::Array(seq![JsonView::Str("pattern"@)]),
        ],
    )
}

/// An array of one text.
pub fn one_text(text: &str) -> (r: Json)
    ensures
        r@ == JsonView::Array(seq![JsonView::Str(text@)]),
        json_wf(r),
{
    let mut items: Vec<Json> = Vec::new();
    items.push(Json::Str(text.to_owned()));
    let r = Json::Array(items);
    proof {
        reveal_with_fuel(crate::json::items_view, 3);
        assert(crate::json::json_view(items[0]) == JsonView::Str(text@));
        assert(json_wf(items[0]));
        assert(crate::json::items_wf(items, 0));
        assert(crate::json::items_wf(items, 1));
        assert(crate::json::items_view(items, 1) =~= seq![JsonView::Str(text@)]);
    }
    r
}

impl AgentTool for GrepTool {
    open spec fn name_view(&self) -> Seq<char> {
        "grep"@
    }

    open spec fn description_view(&self) -> Seq<char> {
        "Search files for a pattern. Returns matching lines with file paths and line numbers. Use literal=true to treat pattern as a literal string. Use context=n to show n lines before and after matches. Long lines are truncated to 500 chars."@
    }

    open spec fn schema_view(&self) -> JsonView {
        grep_schema()
    }

    open spec fn essential_view(&self) -> bool {
        true
    }

    fn name(&self) -> (r: &str) {
        "grep"
    }

    fn label(&self) -> (r: &str)
        ensures
            r@ == "Grep"@,
    {
        "Grep"
    }

    fn description(&self) -> (r: &str) {
        "Search files for a pattern. Returns matching lines with file paths and line numbers. Use literal=true to treat pattern as a literal string. Use context=n to show n lines before and after matches. Long lines are truncated to 500 chars."
    }

    fn parameters_schema(&self) -> (r: Json) {
        let pattern = property_json(
            "string",
            "The pattern to search for (regex by default, or literal string if literal=true)",
        );
        let path = property_json("string", "The directory or file to search in").with(
            "default",
            Json::Str(".".to_owned()),
        );
        let case_insensitive = property_json(
            "boolean",
            "If true, perform case-insensitive search",
        ).with("default", Json::Bool(false));
        let literal = property_json(
            "boolean",
            "If true, treat pattern as a literal string instead of regex",
        ).with("default", Json::Bool(false));
        let context = property_json(
            "integer",
            "Number of lines to show before and after each match",
        ).with("default", Json::Number(Num::Unsigned(0)));
        let include_glob = property_json(
            "string",
            "Glob pattern to filter files (e.g., '*.rs', '*.ts')",
        );
        let max_results = property_json("integer", "Maximum number of results to return").with(
            "default",
            Json::Number(Num::Unsigned(100)),
        );
        let properties = Json::object().with("pattern", pattern).with("path", path).with(
            "case_insensitive",
            case_insensitive,
        ).with("literal", literal).with("context", context).with("include", include_glob).with(
            "max_results",
            max_results,
        );
        let r = Json::object().with("type", Json::Str("object".to_owned())).with(
            "properties",
            properties,
        ).with("required", one_text("pattern"));
        proof {
            assert(properties@->Object_0 =~= grep_properties());
            assert(r@->Object_0 =~= grep_schema()->Object_0);
        }
        r
    }

    fn essential(&self) -> (r: bool) {
        true
    }
}

/// What a search in a text tells: the rows that are given back, each under the path of the
/// request, which are the first of those of its lines that match or stand around a match.
pub proof fn lemma_content_result_tells_rows(
    result: AgentToolResult,
    p: GrepParams,
    content: Seq<char>,
) -> (rows: Seq<RowView>)
    requires
        is_content_result(result, p, content),
    ensures
        result.success,
        result.output@ == outcome_text(
            render_rows(Seq::new(rows.len(), |i: int| (p.path@, rows[i]))),
            false,
        ),
        result.metadata is Some <==> exists|i: int|
            0 <= i < rows.len() && (#[trigger] rows[i]).text.len() > 500,
        rows == first_rows(
            text_rows(
                lines(content),
                matches_of(
                    if p.literal {
                        regex_escape(p.pattern@)
                    } else {
                        p.pattern@
                    },
                    p.case_insensitive,
                    lines(content),
                ),
                p.context as nat,
            ),
            p.max_results as nat,
        ),
{
    let texts = lines(content);
    let pattern = effective_pattern(p.pattern@, p.literal);
    let rows = first_rows(
        text_rows(texts, matches_of(pattern, p.case_insensitive, texts), p.context as nat),
        p.max_results as nat,
    );
    let told = under_path(p.path@, rows);
    assert(told =~= Seq::new(rows.len(), |i: int| (p.path@, rows[i])));
    if any_cut(told) {
        let i = choose|i: int| 0 <= i < told.len() && (#[trigger] told[i]).1.text.len() > 500;
        assert(rows[i].text.len() > 500);
    }
    if exists|i: int| 0 <= i < rows.len() && (#[trigger] rows[i]).text.len() > 500 {
        let i = choose|i: int| 0 <= i < rows.len() && (#[trigger] rows[i]).text.len() > 500;
        assert(told[i].1.text.len() > 500);
    }
    rows
}

/// The windows of the lines of a text: around each line that matches, from as many lines
/// before it as asked for to as many behind it, as far as the text goes; around another line
/// there is none.
pub open spec fn windows(
    texts: Seq<Seq<char>>,
    matched: Seq<bool>,
    before: nat,
    after: nat,
) -> Seq<Seq<RowView>> {
    Seq::new(
        texts.len(),
        |i: int|
            if matched[i] {
                let start: int = if i < before {
                    0
                } else {
                    i - before
                };
                let end: int = if i + after + 1 < texts.len() {
                    i + after + 1
                } else {
                    texts.len() as int
                };
                Seq::new(
                    (end - start) as nat,
                    |k: int|
                        RowView {
                            line_no: (start + k + 1) as nat,
                            is_context: start + k != i,
                            text: texts[start + k],
                        },
                )
            } else {
                Seq::empty()
            },
    )
}

proof fn lemma_windows_from(
    texts: Seq<Seq<char>>,
    matched: Seq<bool>,
    before: nat,
    after: nat,
    max_results: nat,
    have: nat,
    i: nat,
) -> (k: int)
    requires
        i <= texts.len(),
        matched.len() == texts.len(),
        have <= max_results,
    ensures
        ({
            let all = windows(texts, matched, before, after);
            let shown = all.subrange(i as int, k).flatten();
            &&& i <= k <= texts.len()
            &&& fitting_rows(texts, matched, before, after, max_results, have, i) == shown
            &&& have + shown.len() <= max_results
            &&& k < texts.len() ==> have + shown.len() + all[k].len() > max_results
        }),
    decreases texts.len() - i,
{
    let all = windows(texts, matched, before, after);
    if i >= texts.len() {
        assert(all.subrange(i as int, i as int).flatten() =~= Seq::empty());
        i as int
    } else {
        let start = window_start(i, before);
        let end = window_end(i, after, texts.len());
        if matched[i as int] {
            assert(all[i as int] =~= window_rows(texts, i, start, end));
        }
        if have + all[i as int].len() > max_results {
            assert(all.subrange(i as int, i as int).flatten() =~= Seq::empty());
            i as int
        } else {
            let now = (have + all[i as int].len()) as nat;
            let k = lemma_windows_from(texts, matched, before, after, max_results, now, i + 1);
            let part = all.subrange(i as int, k);
            assert(part.drop_first() =~= all.subrange(i as int + 1, k));
            assert(part.first() == all[i as int]);
            assert(fitting_rows(texts, matched, before, after, max_results, have, i)
                =~= part.flatten());
            k
        }
    }
}

/// What the earlier engine shows of a text: the windows of its lines in their turn, up to the
/// first that would bring the lines over the limit.
pub proof fn lemma_fitting_rows_are_windows(
    texts: Seq<Seq<char>>,
    matched: Seq<bool>,
    before: nat,
    after: nat,
    max_results: nat,
    have: nat,
) -> (k: int)
    requires
        matched.len() == texts.len(),
        have <= max_results,
    ensures
        ({
            let all = windows(texts, matched, before, after);
            let shown = all.take(k).flatten();
            &&& 0 <= k <= texts.len()
            &&& fitting_rows(texts, matched, before, after, max_results, have, 0) == shown
            &&& have + shown.len() <= max_results
            &&& k < texts.len() ==> have + shown.len() + all[k].len() > max_results
        }),
{
    let k = lemma_windows_from(texts, matched, before, after, max_results, have, 0);
    let all = windows(texts, matched, before, after);
    assert(all.take(k) =~= all.subrange(0, k));
    k
}

/// A walk goes through a directory entry by entry. What it has found before each entry is
/// given back, with what it has found in the end: it begins with what was found before the
/// directory, and each entry is walked at its path below the directory from what was found
/// before it, but for hidden ones and directories of build products and dependencies, which
/// leave it as it is.
pub proof fn lemma_walk_goes_through_entries(
    rel: Seq<char>,
    at: NamedNode,
    p: GrepParams,
    w: LegacyView,
) -> (states: Seq<LegacyView>)
    requires
        at.node is Directory,
        w.lines.len() < p.max_results,
        walked(rel, at, p, w).failure is None,
    ensures
        ({
            let entries = at.node->entries@;
            &&& at.node->failure is None
            &&& states.len() == entries.len() + 1
            &&& states[0] == w
            &&& states.last() == walked(rel, at, p, w).found
            &&& forall|i: int|
                #![trigger states[i]]
                0 <= i < entries.len() ==> {
                    let name = entries[i].name@;
                    let hidden = name.len() > 0 && name[0] == '.';
                    let products = entries[i].is_dir && (name == "node_modules"@ || name
                        == "target"@ || name == "dist"@ || name == "build"@ || name
                        == "__pycache__"@ || name == "venv"@);
                    if hidden || products {
                        states[i + 1] == states[i]
                    } else {
                        &&& states[i + 1] == walked(
                            path_join(rel, name),
                            entries[i],
                            p,
                            states[i],
                        ).found
                        &&& walked(path_join(rel, name), entries[i], p, states[i]).failure is None
                    }
                }
        }),
{
    let entries = at.node->entries;
    let states = Seq::new(
        entries@.len() + 1,
        |i: int| walked_entries(rel, entries, p, w, i as nat).found,
    );
    lemma_earlier_entries_succeed(rel, entries, p, w, entries@.len());
    reveal_strlit(".git");
    reveal_strlit(".venv");
    assert forall|i: int|
        #![trigger states[i]]
        0 <= i < entries@.len() implies {
        let name = entries@[i].name@;
        let hidden = name.len() > 0 && name[0] == '.';
        let products = entries@[i].is_dir && (name == "node_modules"@ || name == "target"@ || name
            == "dist"@ || name == "build"@ || name == "__pycache__"@ || name == "venv"@);
        if hidden || products {
            states[i + 1] == states[i]
        } else {
            &&& states[i + 1] == walked(path_join(rel, name), entries@[i], p, states[i]).found
            &&& walked(path_join(rel, name), entries@[i], p, states[i]).failure is None
        }
    } by {
        let name = entries@[i].name@;
        assert(".git"@[0] == '.' && ".venv"@[0] == '.');
        assert(walked_entries(rel, entries, p, w, (i + 1) as nat).failure is None);
        assert(walked_entries(rel, entries, p, w, i as nat).failure is None);
    }
    states
}

proof fn lemma_earlier_entries_succeed(
    rel: Seq<char>,
    entries: Vec<NamedNode>,
    p: GrepParams,
    w: LegacyView,
    n: nat,
)
    requires
        n <= entries@.len(),
        walked_entries(rel, entries, p, w, n).failure is None,
    ensures
        forall|m: nat| m <= n ==> (#[trigger] walked_entries(rel, entries, p, w, m)).failure is None,
    decreases n,
{
    if n > 0 {
        lemma_earlier_entries_succeed(rel, entries, p, w, (n - 1) as nat);
    }
}

/// A walk adds, for a file that could be read and whose name passes the glob, if there is
/// one, the lines of its windows that fit, told under its path; which of its lines match is
/// given back. It adds nothing for another file, for a link that leads nowhere, or once
/// enough was found.
pub proof fn lemma_walk_shows_file(
    rel: Seq<char>,
    at: NamedNode,
    p: GrepParams,
    w: LegacyView,
) -> (matched: Seq<bool>)
    requires
        !(at.node is Directory),
        regex_error(
            if p.literal {
                regex_escape(p.pattern@)
            } else {
                p.pattern@
            },
            p.case_insensitive,
        ) is None,
    ensures
        walked(rel, at, p, w).failure is None,
        w.lines.len() >= p.max_results || at.node is BrokenLink || at.node->content is None || (
        p.include_glob is Some && !glob_matches(at.name@, p.include_glob->0@)) ==> walked(
            rel,
            at,
            p,
            w,
        ).found == w,
        w.lines.len() < p.max_results && at.node is File && at.node->content is Some && (
        p.include_glob is None || glob_matches(at.name@, p.include_glob->0@)) ==> {
            let texts = lines(unix_newlines(at.node->content->0@));
            let rows = fitting_rows(
                texts,
                matched,
                p.context as nat,
                p.context as nat,
                p.max_results as nat,
                w.lines.len(),
                0,
            );
            &&& matched.len() == texts.len()
            &&& forall|i: int|
                0 <= i < texts.len() ==> #[trigger] matched[i] == regex_found(
                    if p.literal {
                        regex_escape(p.pattern@)
                    } else {
                        p.pattern@
                    },
                    p.case_insensitive,
                    texts[i],
                )
            &&& walked(rel, at, p, w).found.lines == w.lines + render_rows(
                Seq::new(rows.len(), |i: int| (rel, rows[i])),
            )
            &&& walked(rel, at, p, w).found.cut == (w.cut || exists|i: int|
                0 <= i < rows.len() && (#[trigger] rows[i]).text.len() > 500)
        },
{
    let pattern = effective_pattern(p.pattern@, p.literal);
    let texts = lines(unix_newlines(at.node->content->0@));
    let matched = matches_of(pattern, p.case_insensitive, texts);
    if w.lines.len() < p.max_results && at.node is File && at.node->content is Some && (
    p.include_glob is None || glob_matches(at.name@, p.include_glob->0@)) {
        let rows = fitting_rows(
            texts,
            matched,
            p.context as nat,
            p.context as nat,
            p.max_results as nat,
            w.lines.len(),
            0,
        );
        let told = under_path(rel, rows);
        assert(walked(rel, at, p, w) == walked_file(rel, at.node->content->0@, p, w));
        assert(told =~= Seq::new(rows.len(), |i: int| (rel, rows[i])));
        if any_cut(told) {
            let i = choose|i: int| 0 <= i < told.len() && (#[trigger] told[i]).1.text.len() > 500;
            assert(rows[i].text.len() > 500);
        }
        if exists|i: int| 0 <= i < rows.len() && (#[trigger] rows[i]).text.len() > 500 {
            let i = choose|i: int| 0 <= i < rows.len() && (#[trigger] rows[i]).text.len() > 500;
            assert(told[i].1.text.len() > 500);
        }
    }
    matched
}

/// A glob of the earlier engine with one star passes the names that begin with what stands
/// before it and end with what stands behind it; one that begins with a star and a dot passes
/// those that end with what follows the dot; one without a star passes itself alone.
pub proof fn lemma_glob_passes(front: Seq<char>, back: Seq<char>, name: Seq<char>)
    requires
        !front.contains('*'),
        !back.contains('*'),
    ensures
        glob_matches(name, "*."@ + back) <==> back.len() <= name.len() && name.skip(
            name.len() - back.len(),
        ) == back,
        front.len() > 0 || back.len() == 0 || back[0] != '.' ==> (glob_matches(
            name,
            front + "*"@ + back,
        ) <==> {
            &&& front.len() <= name.len()
            &&& name.take(front.len() as int) == front
            &&& back.len() <= name.len()
            &&& name.skip(name.len() - back.len()) == back
        }),
        glob_matches(name, front) <==> name == front,
{
    reveal_strlit("*.");
    reveal_strlit("*");
    let simple = "*."@ + back;
    assert("*."@ =~= simple.subrange(0, 2));
    assert(simple.skip(2) =~= back);
    assert(back.len() <= name.len() ==> name.skip(name.len() - back.len()) =~= name.subrange(
        name.len() - back.len(),
        name.len() as int,
    ));
    let star = front + "*"@ + back;
    assert(star[front.len() as int] == '*');
    lemma_position_at(star, '*', front.len() as int);
    assert(star.take(front.len() as int) =~= front);
    assert(star.skip(front.len() as int + 1) =~= back);
    lemma_position_bounds(back, '*');
    assert(position(back, '*') >= back.len());
    assert(split(back, '*') == seq![back]);
    assert(split(star, '*') =~= seq![front, back]);
    if front.len() > 0 || back.len() == 0 || back[0] != '.' {
        if "*."@.is_prefix_of(star) {
            assert(star.subrange(0, 2)[0] == '*' && star.subrange(0, 2)[1] == '.');
            assert(star[0] == '*' && star[1] == '.');
            if front.len() > 0 {
                assert(front[0] == '*');
                assert(front.contains(front[0]));
            }
        }
        assert(front.len() <= name.len() ==> name.take(front.len() as int) =~= name.subrange(
            0,
            front.len() as int,
        ));
    }
    if "*."@.is_prefix_of(front) {
        assert(front.subrange(0, 2)[0] == front[0]);
        assert(front.contains(front[0]));
    }
}

/// The parameters of a search are those that are given, and where one is not given or is of
/// another kind, its default: the whole directory, a regular expression in its own case, no
/// lines around a match, no glob and at most a hundred lines.
pub proof fn lemma_params_have_defaults(p: GrepParams, json: JsonView)
    requires
        params_from(p, json),
    ensures
        str_member(json, "pattern"@) == Some(p.pattern@),
        str_member(json, "path"@) is Some ==> p.path@ == str_member(json, "path"@)->0,
        str_member(json, "path"@) is None ==> p.path@ == "."@,
        bool_member(json, "case_insensitive"@) is Some ==> p.case_insensitive == bool_member(
            json,
            "case_insensitive"@,
        )->0,
        bool_member(json, "case_insensitive"@) is None ==> !p.case_insensitive,
        bool_member(json, "literal"@) is Some ==> p.literal == bool_member(json, "literal"@)->0,
        bool_member(json, "literal"@) is None ==> !p.literal,
        u64_member(json, "context"@) is Some ==> p.context == u64_member(
            json,
            "context"@,
        )->0 as usize,
        u64_member(json, "context"@) is None ==> p.context == 0,
        str_member(json, "include"@) is Some ==> p.include_glob is Some && p.include_glob->0@
            == str_member(json, "include"@)->0,
        str_member(json, "include"@) is None ==> p.include_glob is None,
        u64_member(json, "max_results"@) is Some ==> p.max_results == u64_member(
            json,
            "max_results"@,
        )->0 as usize,
        u64_member(json, "max_results"@) is None ==> p.max_results == 100,
{
}

/// A request has what the parameters ask for.
pub proof fn lemma_request_has_params(p: GrepParams)
    ensures
        request_of(p).pattern == p.pattern,
        request_of(p).case_insensitive == p.case_insensitive,
        request_of(p).literal == p.literal,
        request_of(p).context == p.context,
        request_of(p).include_glob == p.include_glob,
        request_of(p).max_results == p.max_results,
{
}

/// What the tool answers with the engine of today: why the path may not be searched, that it
/// is not there, why the search failed, or the text of the search, with a note where lines
/// were cut or the search was cut short.
pub proof fn lemma_native_result_tells(
    r: AgentToolResult,
    read: Result<Option<Vec<Found>>, String>,
    p: GrepParams,
    outcome: Result<SearchOutcome, String>,
    backslash_separates: bool,
)
    requires
        is_native_result(r, read, p, outcome, backslash_separates),
    ensures
        read is Err ==> !r.success && r.output@ == read->Err_0@ && r.metadata is None,
        read is Ok && read->Ok_0 is None ==> !r.success && r.output@ == "Path not found: "@
            + p.path@ && r.metadata is None,
        read is Ok && read->Ok_0 is Some ==> {
            &&& outcome is Err ==> !r.success && r.output@ == outcome->Err_0@ && r.metadata is None
            &&& outcome is Ok ==> {
                &&& r.success
                &&& r.output@ == outcome->Ok_0.output@
                &&& r.metadata is Some <==> outcome->Ok_0.lines_truncated
                    || outcome->Ok_0.cancelled
                &&& r.metadata is Some ==> {
                    &&& bool_member(r.metadata->0@, "lines_truncated"@) == Some(
                        outcome->Ok_0.lines_truncated,
                    )
                    &&& bool_member(r.metadata->0@, "cancelled"@) == Some(outcome->Ok_0.cancelled)
                }
            }
            &&& is_search_of(outcome, request_of(p), read->Ok_0->0@, backslash_separates)
        },
        !r.terminate && r.content_blocks is None && r.intent is None,
{
    reveal_strlit("lines_truncated");
    reveal_strlit("cancelled");
    assert("lines_truncated"@.len() != "cancelled"@.len());
}

/// What the earlier engine answers: why the path may not be searched, that it is not there,
/// that the pattern does not compile, why the walk failed, or what the walk found.
pub proof fn lemma_legacy_outcome_when(read: Result<Option<NamedNode>, String>, p: GrepParams)
    ensures
        ({
            let pattern = if p.literal {
                regex_escape(p.pattern@)
            } else {
                p.pattern@
            };
            let bad = regex_error(pattern, p.case_insensitive);
            &&& read is Err ==> legacy_outcome(read, p) == Err::<(Seq<char>, bool), Seq<char>>(
                read->Err_0@,
            )
            &&& read is Ok && read->Ok_0 is None ==> legacy_outcome(read, p) == Err::<
                (Seq<char>, bool),
                Seq<char>,
            >("Path not found: "@ + p.path@)
            &&& read is Ok && read->Ok_0 is Some && bad is Some ==> legacy_outcome(read, p)
                == Err::<(Seq<char>, bool), Seq<char>>(
                "Invalid pattern '"@ + pattern + "': "@ + bad->0,
            )
            &&& read is Ok && read->Ok_0 is Some && bad is None ==> {
                let none = LegacyView { lines: Seq::empty(), cut: false };
                let w = walked(""@, read->Ok_0->0, p, none);
                &&& w.failure is Some ==> legacy_outcome(read, p) == Err::<
                    (Seq<char>, bool),
                    Seq<char>,
                >(w.failure->0)
                &&& w.failure is None ==> legacy_outcome(read, p) is Ok
                &&& w.failure is None && w.found.lines.len() == 0 ==> legacy_outcome(read, p)->Ok_0
                    == ("No matches found"@, false)
                &&& w.failure is None && w.found.lines.len() > 0 ==> legacy_outcome(read, p)->Ok_0
                    == (
                    "Found "@ + decimal(w.found.lines.len()) + " matches:\n"@ + join(
                        w.found.lines,
                        "\n"@,
                    ),
                    w.found.cut,
                )
            }
        }),
{
}

proof fn lemma_failure_ends_entries(
    rel: Seq<char>,
    entries: Vec<NamedNode>,
    p: GrepParams,
    w: LegacyView,
    n: nat,
    m: nat,
)
    requires
        n <= m <= entries@.len(),
        walked_entries(rel, entries, p, w, n).failure is Some,
    ensures
        walked_entries(rel, entries, p, w, m) == walked_entries(rel, entries, p, w, n),
    decreases m,
{
    if n < m {
        lemma_failure_ends_entries(rel, entries, p, w, n, (m - 1) as nat);
    }
}

/// The first failure ends a walk: where the entry at `i` fails, from what the entries before
/// it had found without failing, the directory fails in the same way, and nothing behind
/// that entry is read. A directory that could not be read to its end fails once its entries
/// are walked, with what they found.
pub proof fn lemma_walk_ends_at_failure(
    rel: Seq<char>,
    at: NamedNode,
    p: GrepParams,
    w: LegacyView,
    i: int,
)
    requires
        at.node is Directory,
        w.lines.len() < p.max_results,
        0 <= i < at.node->entries@.len(),
        walked_entries(rel, at.node->entries, p, w, i as nat).failure is None,
        !(at.node->entries@[i].name@.len() > 0 && at.node->entries@[i].name@[0] == '.'),
        !at.node->entries@[i].is_dir,
    ensures
        ({
            let before = walked_entries(rel, at.node->entries, p, w, i as nat).found;
            let entry = at.node->entries@[i];
            let here = walked(path_join(rel, entry.name@), entry, p, before);
            here.failure is Some ==> walked(rel, at, p, w) == here
        }),
        ({
            let all = walked_entries(rel, at.node->entries, p, w, at.node->entries@.len());
            all.failure is None && at.node->failure is Some ==> {
                &&& walked(rel, at, p, w).found == all.found
                &&& walked(rel, at, p, w).failure == Some(
                    match at.node->failure->0 {
                        ReadFailure::Open { path, error } => "Cannot read directory "@ + path@
                            + ": "@ + error@,
                        ReadFailure::Entry { error } => "Error reading entry: "@ + error@,
                    },
                )
            }
        }),
{
    let entries = at.node->entries;
    let next = walked_entries(rel, entries, p, w, (i + 1) as nat);
    if next.failure is Some {
        lemma_failure_ends_entries(rel, entries, p, w, (i + 1) as nat, entries@.len());
    }
}

} // verus!
