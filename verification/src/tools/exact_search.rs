//! Exact search over files: which entries are read, which lines are shown, and how
//! the result reads. The traversal itself and the reading of files are the caller's.

use crate::text::{
    chars_of, decimal, decimal_text, is_text_less, join, join_texts, lemma_join_in_turn,
    lemma_text_less_asym, lemma_text_less_total, lemma_text_less_trans, str_eq, strip_cr, text_less,
    text_of, views,
};
use crate::tools::patterns::{
    escape, glob_error, glob_found, match_lines, match_paths, regex_error, regex_escape,
    regex_found,
};
use vstd::prelude::*;
use vstd::utf8::{decode_utf8, valid_utf8};

verus! {

/// Characters that are shown of one line.
pub const MAX_LINE_LENGTH: usize = 500;

/// Bytes at the start of a file that are looked at for a NUL.
pub const SNIFF_LEN: usize = 8192;

/// What is searched for, and how much of it is shown.
pub struct SearchRequest {
    pub pattern: String,
    pub case_insensitive: bool,
    pub literal: bool,
    pub context: usize,
    pub include_glob: Option<String>,
    pub max_results: usize,
}

/// What a search shows.
pub struct SearchOutcome {
    pub output: String,
    pub lines_truncated: bool,
    pub cancelled: bool,
}

/// One line that is shown: its number from one, whether it only surrounds a match,
/// and its text.
pub struct Row {
    pub line_no: usize,
    pub is_context: bool,
    pub text: String,
}

/// The view of a [`Row`].
pub struct RowView {
    pub line_no: nat,
    pub is_context: bool,
    pub text: Seq<char>,
}

impl View for Row {
    type V = RowView;

    open spec fn view(&self) -> RowView {
        RowView { line_no: self.line_no as nat, is_context: self.is_context, text: self.text@ }
    }
}

/// The views of a sequence of rows.
pub open spec fn row_views(rows: Seq<Row>) -> Seq<RowView> {
    Seq::new(rows.len(), |i: int| rows[i]@)
}

/// The rows of one file, under its path relative to the root.
pub struct FileBlock {
    pub rel: String,
    pub lines: Vec<Row>,
}

/// The view of a [`FileBlock`].
pub struct FileBlockView {
    pub rel: Seq<char>,
    pub lines: Seq<RowView>,
}

impl View for FileBlock {
    type V = FileBlockView;

    open spec fn view(&self) -> FileBlockView {
        FileBlockView { rel: self.rel@, lines: row_views(self.lines@) }
    }
}

/// The views of a sequence of blocks.
pub open spec fn block_views(blocks: Seq<FileBlock>) -> Seq<FileBlockView> {
    Seq::new(blocks.len(), |i: int| blocks[i]@)
}

/// The pattern that is compiled for a request.
pub open spec fn effective_pattern(pattern: Seq<char>, literal: bool) -> Seq<char> {
    if literal {
        regex_escape(pattern)
    } else {
        pattern
    }
}

/// The text that a byte sequence stands for, with a replacement character wherever it
/// is no UTF-8.
pub uninterp spec fn utf8_lossy(bytes: Seq<u8>) -> Seq<char>;

/// `String::from_utf8_lossy`: on UTF-8 the text that the bytes encode; elsewhere the
/// ill-formed parts are replaced, by a rule that depends on the bytes alone.
#[verifier::external_body]
fn from_utf8_lossy(bytes: &[u8]) -> (r: String)
    ensures
        r@ == utf8_lossy(bytes@),
        valid_utf8(bytes@) ==> r@ == decode_utf8(bytes@),
{
    String::from_utf8_lossy(bytes).into_owned()
}

/// The position of the first line feed, or the length.
pub open spec fn line_end(bytes: Seq<u8>) -> nat
    decreases bytes.len(),
{
    if bytes.len() == 0 || bytes[0] == 10 {
        0
    } else {
        1 + line_end(bytes.drop_first())
    }
}

/// The lines of a file: the text up to each line feed, without a carriage return
/// before it; what follows the last line feed is a line where it is not empty.
pub open spec fn file_lines(bytes: Seq<u8>) -> Seq<Seq<char>>
    decreases bytes.len(),
{
    let p = line_end(bytes);
    if bytes.len() == 0 {
        Seq::empty()
    } else if p >= bytes.len() {
        seq![strip_cr(utf8_lossy(bytes))]
    } else {
        seq![strip_cr(utf8_lossy(bytes.take(p as int)))] + file_lines(bytes.skip(p as int + 1))
    }
}

/// The bytes of the lines of a file.
pub open spec fn raw_lines(bytes: Seq<u8>) -> Seq<Seq<u8>>
    decreases bytes.len(),
{
    let p = line_end(bytes);
    if bytes.len() == 0 {
        Seq::empty()
    } else if p >= bytes.len() {
        seq![bytes]
    } else {
        seq![bytes.take(p as int)] + raw_lines(bytes.skip(p as int + 1))
    }
}

/// Whether each line of a file that is UTF-8 stands for the text that its bytes encode.
pub open spec fn lines_decode(bytes: Seq<u8>) -> bool {
    forall|i: int|
        0 <= i < raw_lines(bytes).len() && valid_utf8(#[trigger] raw_lines(bytes)[i]) ==> utf8_lossy(
            raw_lines(bytes)[i],
        ) == decode_utf8(raw_lines(bytes)[i])
}

/// The lines of a file are the texts of their bytes, each without a carriage return at its
/// end.
pub proof fn lemma_lines_of_bytes(bytes: Seq<u8>)
    ensures
        file_lines(bytes).len() == raw_lines(bytes).len(),
        forall|i: int|
            0 <= i < raw_lines(bytes).len() ==> file_lines(bytes)[i] == strip_cr(
                utf8_lossy(#[trigger] raw_lines(bytes)[i]),
            ),
        lines_decode(bytes) ==> forall|i: int|
            0 <= i < raw_lines(bytes).len() && valid_utf8(#[trigger] raw_lines(bytes)[i])
                ==> file_lines(bytes)[i] == strip_cr(decode_utf8(raw_lines(bytes)[i])),
    decreases bytes.len(),
{
    let p = line_end(bytes);
    if bytes.len() > 0 && p < bytes.len() {
        let rest = bytes.skip(p as int + 1);
        lemma_lines_of_bytes(rest);
        assert forall|i: int| 0 <= i < raw_lines(bytes).len() implies file_lines(bytes)[i]
            == strip_cr(utf8_lossy(#[trigger] raw_lines(bytes)[i])) by {
            if i > 0 {
                assert(raw_lines(bytes)[i] == raw_lines(rest)[i - 1]);
                assert(file_lines(bytes)[i] == file_lines(rest)[i - 1]);
            }
        }
    }
}

proof fn lemma_line_end_at(bytes: Seq<u8>, i: int)
    requires
        0 <= i <= bytes.len(),
        i < bytes.len() ==> bytes[i] == 10,
        forall|j: int| 0 <= j < i ==> bytes[j] != 10,
    ensures
        line_end(bytes) == i,
    decreases bytes.len(),
{
    if i > 0 {
        let t = bytes.drop_first();
        assert forall|j: int| 0 <= j < i - 1 implies t[j] != 10 by {
            assert(t[j] == bytes[j + 1]);
        }
        lemma_line_end_at(t, i - 1);
    }
}

/// The lines of a file's bytes.
pub fn split_file_lines(bytes: &[u8]) -> (r: Vec<String>)
    ensures
        views(r@) == file_lines(bytes@),
        lines_decode(bytes@),
{
    let mut out: Vec<String> = Vec::new();
    let mut k: usize = 0;
    let ghost mut raws: Seq<Seq<u8>> = Seq::empty();
    proof {
        assert(bytes@.skip(0) =~= bytes@);
        assert(raws + raw_lines(bytes@) =~= raw_lines(bytes@));
        assert(views(out@) + file_lines(bytes@) =~= file_lines(bytes@));
    }
    while k < bytes.len()
        invariant
            k <= bytes@.len(),
            views(out@) + file_lines(bytes@.skip(k as int)) == file_lines(bytes@),
            raws + raw_lines(bytes@.skip(k as int)) == raw_lines(bytes@),
            forall|j: int|
                0 <= j < raws.len() && valid_utf8(#[trigger] raws[j]) ==> utf8_lossy(raws[j])
                    == decode_utf8(raws[j]),
        decreases bytes@.len() - k,
    {
        let ghost rest = bytes@.skip(k as int);
        let ghost before = views(out@);
        let mut p: usize = k;
        while p < bytes.len() && bytes[p] != 10
            invariant
                k <= p <= bytes@.len(),
                forall|j: int| k <= j < p ==> bytes@[j] != 10,
            decreases bytes@.len() - p,
        {
            p += 1;
        }
        proof {
            lemma_line_end_at(rest, p - k);
        }
        let raw = vstd::slice::slice_subrange(bytes, k, p);
        let chars = chars_of(from_utf8_lossy(raw).as_str());
        let n: usize = if chars.len() > 0 && chars[chars.len() - 1] == '\r' {
            chars.len() - 1
        } else {
            chars.len()
        };
        let line = text_of(&chars, 0, n);
        proof {
            assert(raw@ =~= rest.take(p - k));
            assert(rest.take(rest.len() as int) =~= rest);
            assert(line@ =~= strip_cr(utf8_lossy(raw@)));
            raws = raws.push(raw@);
        }
        out.push(line);
        proof {
            assert(views(out@) =~= before.push(line@));
        }
        if p < bytes.len() {
            proof {
                assert(rest.skip(p - k + 1) =~= bytes@.skip(p + 1));
                assert(views(out@) + file_lines(bytes@.skip(p + 1)) =~= before + (seq![line@]
                    + file_lines(bytes@.skip(p + 1))));
                assert(raws + raw_lines(bytes@.skip(p + 1)) =~= raws.drop_last() + (seq![raw@]
                    + raw_lines(bytes@.skip(p + 1))));
            }
            k = p + 1;
        } else {
            proof {
                assert(file_lines(bytes@.skip(p as int)) =~= Seq::empty());
                assert(views(out@) + file_lines(bytes@.skip(p as int)) =~= before + seq![line@]);
                assert(raws + raw_lines(bytes@.skip(p as int)) =~= raws.drop_last() + seq![raw@]);
            }
            k = p;
        }
    }
    proof {
        assert(views(out@) + file_lines(bytes@.skip(k as int)) =~= views(out@));
        assert(raws + raw_lines(bytes@.skip(k as int)) =~= raws);
    }
    out
}

/// Whether a NUL stands among the first bytes of a file.
pub open spec fn sniffed_binary(bytes: Seq<u8>) -> bool {
    exists|i: int| 0 <= i < bytes.len() && i < SNIFF_LEN && #[trigger] bytes[i] == 0
}

/// Whether a file looks binary by its first bytes. A file that cannot be read counts
/// as one.
pub fn looks_binary(head: Option<&[u8]>) -> (r: bool)
    ensures
        r == match head {
            Some(bytes) => sniffed_binary(bytes@),
            None => true,
        },
{
    match head {
        None => true,
        Some(bytes) => {
            let mut i: usize = 0;
            while i < bytes.len() && i < SNIFF_LEN
                invariant
                    i <= bytes@.len(),
                    i <= SNIFF_LEN,
                    head == Some(bytes),
                    forall|j: int| 0 <= j < i ==> bytes@[j] != 0,
                decreases bytes@.len() - i,
            {
                if bytes[i] == 0 {
                    return true;
                }
                i += 1;
            }
            false
        },
    }
}

/// What is shown of a line: all of it, or its first characters and a mark.
pub open spec fn cut_line(line: Seq<char>) -> Seq<char> {
    if line.len() <= MAX_LINE_LENGTH {
        line
    } else {
        line.take(MAX_LINE_LENGTH as int) + "... [truncated]"@
    }
}

/// The line cut to its first characters, and whether any were left out.
pub fn truncate_line(line: &str) -> (r: (String, bool))
    ensures
        r.0@ == cut_line(line@),
        r.1 == (line@.len() > MAX_LINE_LENGTH),
{
    let chars = chars_of(line);
    if chars.len() <= MAX_LINE_LENGTH {
        return (line.to_owned(), false);
    }
    let mut out = text_of(&chars, 0, MAX_LINE_LENGTH);
    proof {
        assert(out@ =~= line@.take(MAX_LINE_LENGTH as int));
    }
    out.append("... [truncated]");
    (out, true)
}

/// Whether a line stands within the context of a line that matches.
pub open spec fn near(matched: Seq<bool>, context: nat, line: int) -> bool {
    exists|m: int|
        0 <= m < matched.len() && #[trigger] matched[m] && m - context <= line <= m + context
}

/// The rows of the first `n` lines: each line that matches or stands within the context of
/// one that does, once and in order.
pub open spec fn rows_up_to(
    texts: Seq<Seq<char>>,
    matched: Seq<bool>,
    context: nat,
    n: nat,
) -> Seq<RowView>
    decreases n,
{
    if n == 0 || n > texts.len() {
        Seq::empty()
    } else {
        let rest = rows_up_to(texts, matched, context, (n - 1) as nat);
        if near(matched, context, n - 1) {
            rest.push(RowView { line_no: n, is_context: !matched[n - 1], text: texts[n - 1] })
        } else {
            rest
        }
    }
}

/// The rows of a text: each line that matches or stands within the context of one that
/// does, once and in order.
pub open spec fn text_rows(texts: Seq<Seq<char>>, matched: Seq<bool>, context: nat) -> Seq<RowView> {
    rows_up_to(texts, matched, context, texts.len())
}

/// At most so many rows from the front.
pub open spec fn first_rows(rows: Seq<RowView>, room: nat) -> Seq<RowView> {
    if rows.len() <= room {
        rows
    } else {
        rows.take(room as int)
    }
}

/// Which lines match or stand within the context of one that does.
fn near_lines(matched: &Vec<bool>, context: usize) -> (r: Vec<bool>)
    ensures
        r@.len() == matched@.len(),
        forall|j: int|
            0 <= j < matched@.len() ==> #[trigger] r@[j] == near(matched@, context as nat, j),
{
    let n: usize = matched.len();
    let mut above: Vec<bool> = Vec::new();
    let mut last: Option<usize> = None;
    let mut i: usize = 0;
    while i < n
        invariant
            n == matched@.len(),
            i <= n,
            above@.len() == i,
            match last {
                Some(m) => m < i && matched@[m as int] && forall|k: int|
                    m < k < i ==> !#[trigger] matched@[k],
                None => forall|k: int| 0 <= k < i ==> !#[trigger] matched@[k],
            },
            forall|j: int|
                0 <= j < i ==> #[trigger] above@[j] == (exists|m: int|
                    0 <= m <= j && #[trigger] matched@[m] && j <= m + context),
        decreases n - i,
    {
        if matched[i] {
            last = Some(i);
        }
        let found = match last {
            Some(m) => i - m <= context,
            None => false,
        };
        proof {
            if found {
                assert(matched@[last->0 as int]);
            }
        }
        above.push(found);
        i += 1;
    }
    let mut out = above;
    let mut next: Option<usize> = None;
    let ghost first = above@;
    while i > 0
        invariant
            n == matched@.len(),
            i <= n,
            out@.len() == n,
            first.len() == n,
            match next {
                Some(m) => i <= m < n && matched@[m as int] && forall|k: int|
                    i <= k < m ==> !#[trigger] matched@[k],
                None => forall|k: int| i <= k < n ==> !#[trigger] matched@[k],
            },
            forall|j: int|
                0 <= j < n ==> #[trigger] first[j] == (exists|m: int|
                    0 <= m <= j && #[trigger] matched@[m] && j <= m + context),
            forall|j: int| 0 <= j < i ==> #[trigger] out@[j] == first[j],
            forall|j: int|
                i <= j < n ==> #[trigger] out@[j] == near(matched@, context as nat, j),
        decreases i,
    {
        i -= 1;
        if matched[i] {
            next = Some(i);
        }
        let found = match next {
            Some(m) => m - i <= context,
            None => false,
        };
        proof {
            assert(first[i as int] == out@[i as int]);
            if found {
                assert(matched@[next->0 as int]);
                assert(near(matched@, context as nat, i as int));
            }
            if near(matched@, context as nat, i as int) && !first[i as int] {
                let m = choose|m: int|
                    0 <= m < matched@.len() && #[trigger] matched@[m] && m - context <= i <= m
                        + context;
                assert(m > i);
            }
        }
        if found {
            out.set(i, true);
        }
    }
    out
}

/// The rows of a text, at most so many, and whether any is left out.
pub fn take_rows(texts: &Vec<String>, matched: &Vec<bool>, context: usize, room: usize) -> (r: (
    Vec<Row>,
    bool,
))
    requires
        matched@.len() == texts@.len(),
    ensures
        ({
            let all = text_rows(views(texts@), matched@, context as nat);
            &&& row_views(r.0@) == first_rows(all, room as nat)
            &&& r.1 == (all.len() > room)
        }),
{
    let shown = near_lines(matched, context);
    let ghost all = views(texts@);
    let mut out: Vec<Row> = Vec::new();
    let mut left_out = false;
    let mut i: usize = 0;
    proof {
        assert(row_views(out@) =~= Seq::empty());
    }
    while i < texts.len()
        invariant
            all == views(texts@),
            i <= texts@.len() == matched@.len(),
            shown@.len() == matched@.len(),
            forall|j: int|
                0 <= j < matched@.len() ==> #[trigger] shown@[j] == near(
                    matched@,
                    context as nat,
                    j,
                ),
            ({
                let rows = rows_up_to(all, matched@, context as nat, i as nat);
                &&& row_views(out@) == first_rows(rows, room as nat)
                &&& left_out == (rows.len() > room)
            }),
        decreases texts@.len() - i,
    {
        let ghost before = rows_up_to(all, matched@, context as nat, i as nat);
        let ghost out_before = row_views(out@);
        if shown[i] {
            if out.len() < room {
                let row = Row { line_no: i + 1, is_context: !matched[i], text: texts[i].clone() };
                out.push(row);
                proof {
                    assert(out_before.len() == before.len());
                    assert(row_views(out@) =~= out_before.push(row@));
                }
            } else {
                left_out = true;
                proof {
                    let rows = rows_up_to(all, matched@, context as nat, (i + 1) as nat);
                    assert(out_before.len() == out@.len());
                    assert(rows =~= before.push(rows.last()));
                    assert(first_rows(rows, room as nat) =~= first_rows(before, room as nat));
                }
            }
        }
        i += 1;
    }
    (out, left_out)
}

/// What a file adds to a search.
pub struct Claim {
    pub rows: Seq<RowView>,
    pub budget: usize,
    pub done: bool,
}

/// The rows of a file claim their lines from the budget. The first that finds it used up
/// ends the search; a search that has ended takes nothing.
pub open spec fn claim(
    texts: Seq<Seq<char>>,
    matched: Seq<bool>,
    context: nat,
    max_results: nat,
    budget: usize,
    done: bool,
) -> Claim {
    let all = text_rows(texts, matched, context);
    let room = if budget < max_results {
        (max_results - budget) as nat
    } else {
        0
    };
    if done {
        Claim { rows: Seq::empty(), budget, done }
    } else {
        Claim {
            rows: first_rows(all, room),
            budget: (budget + first_rows(all, room).len()) as usize,
            done: all.len() > room,
        }
    }
}

/// The state that the files of one search share.
pub struct SearchRun {
    pub budget: usize,
    pub done: bool,
    pub cancelled: bool,
    pub blocks: Vec<FileBlock>,
}

impl SearchRun {
    /// The rows that one file gets, and the budget they use.
    pub fn claim_rows(
        &mut self,
        texts: &Vec<String>,
        matched: &Vec<bool>,
        context: usize,
        max_results: usize,
    ) -> (r: Vec<Row>)
        requires
            matched@.len() == texts@.len(),
        ensures
            ({
                let c = claim(
                    views(texts@),
                    matched@,
                    context as nat,
                    max_results as nat,
                    old(self).budget,
                    old(self).done,
                );
                &&& row_views(r@) == c.rows
                &&& final(self).budget == c.budget
                &&& final(self).done == c.done
            }),
            final(self).cancelled == old(self).cancelled,
            final(self).blocks == old(self).blocks,
    {
        if self.done {
            let none: Vec<Row> = Vec::new();
            proof {
                assert(row_views(none@) =~= Seq::empty());
            }
            return none;
        }
        let room: usize = if self.budget < max_results {
            max_results - self.budget
        } else {
            0
        };
        let (rows, left_out) = take_rows(texts, matched, context, room);
        proof {
            assert(row_views(rows@).len() == rows@.len());
        }
        self.budget = self.budget + rows.len();
        self.done = left_out;
        rows
    }
}

/// `sorted` with `b` behind every block that does not stand after it.
pub open spec fn insert_block(sorted: Seq<FileBlockView>, b: FileBlockView) -> Seq<FileBlockView>
    decreases sorted.len(),
{
    if sorted.len() == 0 || !text_less(b.rel, sorted.last().rel) {
        sorted.push(b)
    } else {
        insert_block(sorted.drop_last(), b).push(sorted.last())
    }
}

/// The blocks in the order of their paths; blocks of one path keep their order.
pub open spec fn sort_blocks(blocks: Seq<FileBlockView>) -> Seq<FileBlockView>
    decreases blocks.len(),
{
    if blocks.len() == 0 {
        Seq::empty()
    } else {
        insert_block(sort_blocks(blocks.drop_last()), blocks.last())
    }
}

/// Whether no block stands before one that its path puts behind it.
pub open spec fn blocks_in_order(blocks: Seq<FileBlockView>) -> bool {
    forall|i: int, j: int|
        0 <= i < j < blocks.len() ==> !text_less(
            (#[trigger] blocks[j]).rel,
            (#[trigger] blocks[i]).rel,
        )
}

proof fn lemma_insert_block(sorted: Seq<FileBlockView>, b: FileBlockView)
    requires
        blocks_in_order(sorted),
    ensures
        blocks_in_order(insert_block(sorted, b)),
        insert_block(sorted, b).len() == sorted.len() + 1,
        insert_block(sorted, b).to_multiset() == sorted.to_multiset().insert(b),
        forall|i: int|
            0 <= i < insert_block(sorted, b).len() ==> (insert_block(sorted, b)[i] == b
                || sorted.contains(#[trigger] insert_block(sorted, b)[i])),
    decreases sorted.len(),
{
    broadcast use vstd::seq_lib::group_to_multiset_ensures;

    let out = insert_block(sorted, b);
    if sorted.len() == 0 || !text_less(b.rel, sorted.last().rel) {
        assert forall|i: int, j: int| 0 <= i < j < out.len() implies !text_less(
            (#[trigger] out[j]).rel,
            (#[trigger] out[i]).rel,
        ) by {
            if j == sorted.len() {
                lemma_text_less_trans(out[i].rel, sorted.last().rel, b.rel);
                lemma_text_less_asym(sorted.last().rel, sorted.last().rel);
                if i < sorted.len() - 1 {
                    assert(!text_less(sorted[sorted.len() - 1].rel, sorted[i].rel));
                }
            } else {
                assert(out[i] == sorted[i] && out[j] == sorted[j]);
            }
        }
        assert forall|i: int| 0 <= i < out.len() implies (out[i] == b || sorted.contains(
            #[trigger] out[i],
        )) by {
            if i < sorted.len() {
                assert(out[i] == sorted[i]);
            }
        }
    } else {
        let front = sorted.drop_last();
        let last = sorted.last();
        assert forall|i: int, j: int| 0 <= i < j < front.len() implies !text_less(
            (#[trigger] front[j]).rel,
            (#[trigger] front[i]).rel,
        ) by {
            assert(front[i] == sorted[i] && front[j] == sorted[j]);
        }
        lemma_insert_block(front, b);
        let inner = insert_block(front, b);
        assert forall|i: int, j: int| 0 <= i < j < out.len() implies !text_less(
            (#[trigger] out[j]).rel,
            (#[trigger] out[i]).rel,
        ) by {
            if j == inner.len() {
                assert(out[i] == inner[i]);
                if inner[i] == b {
                    lemma_text_less_asym(b.rel, last.rel);
                } else {
                    let k = front.index_of(inner[i]);
                    assert(front[k] == sorted[k]);
                    assert(!text_less(sorted[sorted.len() - 1].rel, sorted[k].rel));
                }
            } else {
                assert(out[i] == inner[i] && out[j] == inner[j]);
            }
        }
        assert(sorted =~= front.push(last));
        assert(out.to_multiset() =~= sorted.to_multiset().insert(b));
        assert forall|i: int| 0 <= i < out.len() implies (out[i] == b || sorted.contains(
            #[trigger] out[i],
        )) by {
            if i < inner.len() {
                assert(out[i] == inner[i]);
                if inner[i] != b {
                    let k = front.index_of(inner[i]);
                    assert(sorted[k] == inner[i]);
                }
            } else {
                assert(sorted[sorted.len() - 1] == out[i]);
            }
        }
    }
}

/// Sorting loses and adds no block, and leaves them in the order of their paths.
pub proof fn lemma_sort_blocks(blocks: Seq<FileBlockView>)
    ensures
        blocks_in_order(sort_blocks(blocks)),
        sort_blocks(blocks).len() == blocks.len(),
        sort_blocks(blocks).to_multiset() == blocks.to_multiset(),
    decreases blocks.len(),
{
    broadcast use vstd::seq_lib::group_to_multiset_ensures;

    if blocks.len() > 0 {
        lemma_sort_blocks(blocks.drop_last());
        lemma_insert_block(sort_blocks(blocks.drop_last()), blocks.last());
        assert(blocks =~= blocks.drop_last().push(blocks.last()));
    } else {
        assert(blocks =~= Seq::empty());
    }
}

/// The views of the blocks at the given indices.
pub open spec fn pick_blocks(blocks: Seq<FileBlock>, order: Seq<usize>) -> Seq<FileBlockView> {
    Seq::new(order.len(), |i: int| blocks[order[i] as int]@)
}

proof fn lemma_insert_block_at(sorted: Seq<FileBlockView>, b: FileBlockView, pos: int)
    requires
        0 <= pos <= sorted.len(),
        forall|j: int| pos <= j < sorted.len() ==> text_less(b.rel, (#[trigger] sorted[j]).rel),
        pos > 0 ==> !text_less(b.rel, sorted[pos - 1].rel),
    ensures
        insert_block(sorted, b) == sorted.insert(pos, b),
    decreases sorted.len(),
{
    if pos == sorted.len() {
        assert(sorted.push(b) =~= sorted.insert(pos, b));
    } else {
        lemma_insert_block_at(sorted.drop_last(), b, pos);
        assert(sorted.drop_last().insert(pos, b).push(sorted.last()) =~= sorted.insert(pos, b));
    }
}

/// The indices of the blocks in the order of their paths.
pub fn block_order(blocks: &Vec<FileBlock>) -> (order: Vec<usize>)
    ensures
        order@.len() == blocks@.len(),
        forall|i: int| 0 <= i < order@.len() ==> (#[trigger] order@[i]) < blocks@.len(),
        pick_blocks(blocks@, order@) == sort_blocks(block_views(blocks@)),
{
    let mut order: Vec<usize> = Vec::new();
    let ghost all = block_views(blocks@);
    let mut k: usize = 0;
    proof {
        assert(all.take(0) =~= Seq::empty());
        assert(pick_blocks(blocks@, order@) =~= Seq::empty());
    }
    while k < blocks.len()
        invariant
            all == block_views(blocks@),
            k <= blocks@.len(),
            order@.len() == k,
            forall|i: int| 0 <= i < order@.len() ==> (#[trigger] order@[i]) < blocks@.len(),
            pick_blocks(blocks@, order@) == sort_blocks(all.take(k as int)),
        decreases blocks@.len() - k,
    {
        let ghost picked = pick_blocks(blocks@, order@);
        let mut pos: usize = order.len();
        while pos > 0 && is_text_less(blocks[k].rel.as_str(), blocks[order[pos - 1]].rel.as_str())
            invariant
                k < blocks@.len(),
                pos <= order@.len(),
                forall|i: int| 0 <= i < order@.len() ==> (#[trigger] order@[i]) < blocks@.len(),
                picked == pick_blocks(blocks@, order@),
                forall|j: int|
                    pos <= j < order@.len() ==> text_less(
                        blocks@[k as int]@.rel,
                        (#[trigger] picked[j]).rel,
                    ),
            decreases pos,
        {
            pos -= 1;
        }
        let ghost old_order = order@;
        order.insert(pos, k);
        proof {
            let b = blocks@[k as int]@;
            if pos > 0 {
                assert(picked[pos - 1].rel == blocks@[old_order[pos - 1] as int].rel@);
            }
            lemma_insert_block_at(picked, b, pos as int);
            assert(pick_blocks(blocks@, order@) =~= picked.insert(pos as int, b));
            assert(all.take(k + 1).drop_last() =~= all.take(k as int));
            assert(all.take(k + 1).last() == b);
        }
        k += 1;
    }
    proof {
        assert(all.take(k as int) =~= all);
    }
    order
}

/// A line as it is shown: its path, its number and its text.
pub open spec fn render_row(rel: Seq<char>, row: RowView) -> Seq<char> {
    if row.is_context {
        rel + "-"@ + decimal(row.line_no) + "- "@ + cut_line(row.text)
    } else {
        rel + ":"@ + decimal(row.line_no) + ": "@ + cut_line(row.text)
    }
}

/// The rows of all blocks, each with the path of its file.
pub open spec fn all_rows(blocks: Seq<FileBlockView>) -> Seq<(Seq<char>, RowView)>
    decreases blocks.len(),
{
    if blocks.len() == 0 {
        Seq::empty()
    } else {
        all_rows(blocks.drop_last()) + block_rows(blocks.last())
    }
}

/// The rows of one block, each with the path of the file.
pub open spec fn block_rows(block: FileBlockView) -> Seq<(Seq<char>, RowView)> {
    Seq::new(block.lines.len(), |i: int| (block.rel, block.lines[i]))
}

/// At most `max` rows from the front.
pub open spec fn capped(rows: Seq<(Seq<char>, RowView)>, max: nat) -> Seq<(Seq<char>, RowView)> {
    if rows.len() <= max {
        rows
    } else {
        rows.take(max as int)
    }
}

/// The lines that are shown for the rows.
pub open spec fn render_rows(rows: Seq<(Seq<char>, RowView)>) -> Seq<Seq<char>> {
    Seq::new(rows.len(), |i: int| render_row(rows[i].0, rows[i].1))
}

/// Whether a line among the rows is cut.
pub open spec fn any_cut(rows: Seq<(Seq<char>, RowView)>) -> bool {
    exists|i: int| 0 <= i < rows.len() && (#[trigger] rows[i]).1.text.len() > MAX_LINE_LENGTH
}

/// One line as it is shown.
pub fn render_line(rel: &str, line_no: usize, is_context: bool, text: &str) -> (r: (String, bool))
    ensures
        r.0@ == render_row(rel@, RowView { line_no: line_no as nat, is_context, text: text@ }),
        r.1 == (text@.len() > MAX_LINE_LENGTH),
{
    let (cut, was_cut) = truncate_line(text);
    let mut out = rel.to_owned();
    let number = decimal_text(line_no as u64);
    if is_context {
        out.append("-");
        out.append(number.as_str());
        out.append("- ");
    } else {
        out.append(":");
        out.append(number.as_str());
        out.append(": ");
    }
    out.append(cut.as_str());
    (out, was_cut)
}

/// The lines that are shown for the blocks, in the order of their paths and at most
/// `max_results` of them, and whether one of them is cut.
pub fn render_blocks(blocks: &Vec<FileBlock>, max_results: usize) -> (r: (Vec<String>, bool))
    ensures
        ({
            let rows = capped(all_rows(sort_blocks(block_views(blocks@))), max_results as nat);
            &&& views(r.0@) == render_rows(rows)
            &&& r.1 == any_cut(rows)
        }),
{
    let order = block_order(blocks);
    let ghost sorted = sort_blocks(block_views(blocks@));
    let mut rendered: Vec<String> = Vec::new();
    let mut cut = false;
    let ghost mut rows: Seq<(Seq<char>, RowView)> = Seq::empty();
    let mut i: usize = 0;
    proof {
        assert(sorted.take(0) =~= Seq::empty());
        assert(views(rendered@) =~= render_rows(capped(rows, max_results as nat)));
    }
    while i < order.len()
        invariant
            i <= order@.len() == blocks@.len(),
            forall|k: int| 0 <= k < order@.len() ==> (#[trigger] order@[k]) < blocks@.len(),
            sorted == pick_blocks(blocks@, order@),
            rows == all_rows(sorted.take(i as int)),
            views(rendered@) == render_rows(capped(rows, max_results as nat)),
            cut == any_cut(capped(rows, max_results as nat)),
        decreases order@.len() - i,
    {
        let block = &blocks[order[i]];
        let ghost start = rows;
        let ghost mine = block_rows(block@);
        let mut j: usize = 0;
        proof {
            assert(start + mine.take(0) =~= start);
        }
        while j < block.lines.len()
            invariant
                j <= block.lines@.len(),
                mine == block_rows(block@),
                rows == start + mine.take(j as int),
                views(rendered@) == render_rows(capped(rows, max_results as nat)),
                cut == any_cut(capped(rows, max_results as nat)),
            decreases block.lines@.len() - j,
        {
            let row = &block.lines[j];
            let ghost old_rows = rows;
            let ghost old_shown = capped(rows, max_results as nat);
            proof {
                rows = rows.push(mine[j as int]);
                assert(rows =~= start + mine.take(j + 1));
            }
            if rendered.len() < max_results {
                let ghost before = views(rendered@);
                let (line, was_cut) = render_line(
                    block.rel.as_str(),
                    row.line_no,
                    row.is_context,
                    row.text.as_str(),
                );
                rendered.push(line);
                proof {
                    let shown = capped(rows, max_results as nat);
                    assert(before.len() == old_shown.len());
                    assert(shown =~= old_rows.push(mine[j as int]));
                    assert(views(rendered@) =~= before.push(line@));
                    assert(views(rendered@) =~= render_rows(shown));
                    assert(shown[shown.len() - 1].1.text.len() == row.text@.len());
                    if cut {
                        let w = choose|w: int|
                            0 <= w < old_shown.len() && (#[trigger] old_shown[w]).1.text.len()
                                > MAX_LINE_LENGTH;
                        assert(shown[w] == old_shown[w]);
                    }
                    if any_cut(shown) && !was_cut {
                        let w = choose|w: int|
                            0 <= w < shown.len() && (#[trigger] shown[w]).1.text.len()
                                > MAX_LINE_LENGTH;
                        assert(shown[w] == old_shown[w]);
                    }
                }
                if was_cut {
                    cut = true;
                }
            } else {
                proof {
                    assert(views(rendered@).len() == old_shown.len());
                    assert(capped(rows, max_results as nat) =~= old_shown);
                }
            }
            j += 1;
        }
        proof {
            assert(mine.take(j as int) =~= mine);
            assert(sorted.take(i + 1).drop_last() =~= sorted.take(i as int));
            assert(sorted.take(i + 1).last() == block@);
        }
        i += 1;
    }
    proof {
        assert(sorted.take(i as int) =~= sorted);
    }
    (rendered, cut)
}

/// The text of a search's result: how many lines there are, and the lines.
pub open spec fn report(lines: Seq<Seq<char>>) -> Seq<char> {
    if lines.len() == 0 {
        "No matches found"@
    } else {
        "Found "@ + decimal(lines.len()) + " matches:\n"@ + join(lines, "\n"@)
    }
}

/// The text of a search's result.
pub fn report_text(lines: &Vec<String>) -> (r: String)
    ensures
        r@ == report(views(lines@)),
{
    if lines.len() == 0 {
        "No matches found".to_owned()
    } else {
        let mut out = "Found ".to_owned();
        out.append(decimal_text(lines.len() as u64).as_str());
        out.append(" matches:\n");
        out.append(join_texts(lines.as_slice(), "\n").as_str());
        out
    }
}

/// The text of a search's result, with a last line where the search was cut short
/// after something was found.
pub open spec fn outcome_text(lines: Seq<Seq<char>>, cancelled: bool) -> Seq<char> {
    if cancelled && lines.len() > 0 {
        report(lines) + "\nSearch cancelled: results are partial ("@ + decimal(lines.len())
            + " shown)."@
    } else {
        report(lines)
    }
}

impl SearchRun {
    /// What the search shows of the rows that were claimed.
    pub fn finish(&self, max_results: usize) -> (r: SearchOutcome)
        ensures
            ({
                let rows = capped(
                    all_rows(sort_blocks(block_views(self.blocks@))),
                    max_results as nat,
                );
                &&& r.output@ == outcome_text(render_rows(rows), self.cancelled)
                &&& r.lines_truncated == any_cut(rows)
                &&& r.cancelled == self.cancelled
            }),
    {
        let (rendered, cut) = render_blocks(&self.blocks, max_results);
        let mut output = report_text(&rendered);
        if self.cancelled && rendered.len() > 0 {
            output.append("\nSearch cancelled: results are partial (");
            output.append(decimal_text(rendered.len() as u64).as_str());
            output.append(" shown).");
        }
        SearchOutcome { output, lines_truncated: cut, cancelled: self.cancelled }
    }
}

/// A result never shows more lines than the request allows.
pub proof fn lemma_rows_within_limit(blocks: Seq<FileBlockView>, max_results: nat)
    ensures
        render_rows(capped(all_rows(sort_blocks(blocks)), max_results)).len() <= max_results,
{
}

/// Whether a component of a path is the name of a file or a directory.
pub open spec fn is_name(component: Seq<char>) -> bool {
    component != "/"@ && component != ".."@
}

/// The components of `path` below `root`: those behind the root's where it begins with
/// them, else all of them. Where nothing is left, the path's file name.
pub open spec fn below_root(path: Seq<Seq<char>>, root: Seq<Seq<char>>) -> Seq<Seq<char>> {
    if !root.is_prefix_of(path) {
        path
    } else if root.len() < path.len() || path.len() == 0 || !is_name(path.last()) {
        path.skip(root.len() as int)
    } else {
        seq![path.last()]
    }
}

/// The components of a path relative to the root of a search. The root of the file
/// system is the component `/`.
pub fn rel_to_root(path: &Vec<String>, root: &Vec<String>) -> (r: Vec<String>)
    ensures
        views(r@) == below_root(views(path@), views(root@)),
{
    let ghost p = views(path@);
    let ghost q = views(root@);
    let mut n: usize = 0;
    while n < root.len() && n < path.len() && str_eq(path[n].as_str(), root[n].as_str())
        invariant
            p == views(path@),
            q == views(root@),
            n <= root@.len(),
            n <= path@.len(),
            forall|j: int| 0 <= j < n ==> p[j] == q[j],
        decreases root@.len() - n,
    {
        n += 1;
    }
    let mut from: usize = n;
    if n < root.len() {
        from = 0;
        proof {
            if q.is_prefix_of(p) {
                assert(p.subrange(0, q.len() as int)[n as int] == p[n as int]);
            }
            assert(p.skip(0) =~= p);
        }
    } else {
        proof {
            assert(q =~= p.subrange(0, q.len() as int));
        }
        if path.len() > 0 && n == path.len() && !str_eq(path[n - 1].as_str(), "/") && !str_eq(
            path[n - 1].as_str(),
            "..",
        ) {
            from = n - 1;
            proof {
                assert(p.skip(n - 1) =~= seq![p.last()]);
            }
        }
    }
    let mut out: Vec<String> = Vec::new();
    let mut i: usize = from;
    while i < path.len()
        invariant
            p == views(path@),
            from <= i <= path@.len(),
            views(out@) == p.subrange(from as int, i as int),
        decreases path@.len() - i,
    {
        let ghost before = views(out@);
        out.push(path[i].clone());
        i += 1;
        proof {
            assert(views(out@) =~= before.push(p[i - 1]));
            assert(p.subrange(from as int, i as int) =~= before.push(p[i - 1]));
        }
    }
    proof {
        assert(p.subrange(from as int, p.len() as int) =~= p.skip(from as int));
    }
    out
}

/// Directories of build products and dependencies.
pub open spec fn artifact_dir(name: Seq<char>) -> bool {
    ||| name == "node_modules"@
    ||| name == "target"@
    ||| name == "dist"@
    ||| name == "build"@
    ||| name == "__pycache__"@
    ||| name == ".venv"@
    ||| name == "venv"@
}

/// Whether a directory holds build products or dependencies.
pub fn is_artifact_dir(name: &str) -> (r: bool)
    ensures
        r == artifact_dir(name@),
{
    str_eq(name, "node_modules") || str_eq(name, "target") || str_eq(name, "dist") || str_eq(
        name,
        "build",
    ) || str_eq(name, "__pycache__") || str_eq(name, ".venv") || str_eq(name, "venv")
}

/// What a traversal finds.
pub enum WalkEntry {
    /// The traversal failed here.
    Failed,
    /// It is not known what stands here.
    Untyped,
    /// A directory, by its name where that is text.
    Directory { name: Option<String> },
    /// A file, by its path below the root and whether it looks binary.
    File { rel: String, binary: bool },
    /// A symbolic link or another special file.
    Other,
}

/// What a traversal does next.
#[derive(Clone, Copy, PartialEq, Eq, Structural, Debug)]
pub enum WalkAction {
    /// End the traversal.
    Quit,
    /// Do not descend into the directory.
    Skip,
    /// Go on.
    Continue,
    /// Search the file, then go on.
    Search,
}

/// What is done at an entry of a traversal that goes on.
pub open spec fn entry_action(entry: WalkEntry, included: bool) -> WalkAction {
    match entry {
        WalkEntry::Directory { name: Some(name) } => if artifact_dir(name@) {
            WalkAction::Skip
        } else {
            WalkAction::Continue
        },
        WalkEntry::File { rel: _, binary } => if !binary && included {
            WalkAction::Search
        } else {
            WalkAction::Continue
        },
        _ => WalkAction::Continue,
    }
}

/// What is done at an entry: an ended search ends the traversal, and so does a request
/// to cancel it, which the search remembers.
pub open spec fn walk_action(
    done: bool,
    cancel: bool,
    entry: WalkEntry,
    included: bool,
) -> WalkAction {
    if done || cancel {
        WalkAction::Quit
    } else {
        entry_action(entry, included)
    }
}

/// The error message for a pattern that does not compile.
pub open spec fn pattern_message(pattern: Seq<char>, error: Seq<char>) -> Seq<char> {
    "Invalid pattern '"@ + pattern + "': "@ + error
}

/// The error message for a pattern that does not compile.
pub fn pattern_message_text(pattern: &str, error: &str) -> (r: String)
    ensures
        r@ == pattern_message(pattern@, error@),
{
    let mut out = "Invalid pattern '".to_owned();
    out.append(pattern);
    out.append("': ");
    out.append(error);
    out
}

/// The error message for a glob that does not compile.
pub open spec fn glob_message(glob: Seq<char>, error: Seq<char>) -> Seq<char> {
    "Invalid include glob '"@ + glob + "': "@ + error
}

/// The error message for a glob that does not compile.
pub fn glob_message_text(glob: &str, error: &str) -> (r: String)
    ensures
        r@ == glob_message(glob@, error@),
{
    let mut out = "Invalid include glob '".to_owned();
    out.append(glob);
    out.append("': ");
    out.append(error);
    out
}

/// Whether the lines match, or why the pattern does not compile.
pub fn match_texts(pattern: &str, literal: bool, case_insensitive: bool, texts: &Vec<String>) -> (r:
    Result<Vec<bool>, String>)
    ensures
        match r {
            Ok(v) => {
                &&& regex_error(effective_pattern(pattern@, literal), case_insensitive) is None
                &&& v@.len() == texts@.len()
                &&& forall|i: int|
                    0 <= i < v@.len() ==> #[trigger] v@[i] == regex_found(
                        effective_pattern(pattern@, literal),
                        case_insensitive,
                        texts@[i]@,
                    )
            },
            Err(e) => regex_error(effective_pattern(pattern@, literal), case_insensitive) == Some(
                e@,
            ),
        },
{
    if literal {
        let escaped = escape(pattern);
        match_lines(escaped.as_str(), case_insensitive, texts)
    } else {
        match_lines(pattern, case_insensitive, texts)
    }
}

/// Whether a path passes the glob of a request, or the message where that is no glob; every
/// path passes where there is none.
pub open spec fn inclusion(
    include_glob: Option<String>,
    rel: Seq<char>,
    backslash_separates: bool,
) -> Result<bool, Seq<char>> {
    match include_glob {
        None => Ok(true),
        Some(glob) => match glob_error(glob@, backslash_separates) {
            None => Ok(glob_found(glob@, rel, backslash_separates)),
            Some(e) => Err(glob_message(glob@, e)),
        },
    }
}

/// Whether the glob of a request holds no backslash, or there is none.
pub open spec fn plain_glob(include_glob: Option<String>) -> bool {
    include_glob is Some ==> !include_glob->0@.contains('\\')
}

/// Whether a path is answered as the glob of a request has it.
pub open spec fn is_inclusion(
    r: Result<bool, String>,
    include_glob: Option<String>,
    rel: Seq<char>,
    backslash_separates: bool,
) -> bool {
    match inclusion(include_glob, rel, backslash_separates) {
        Ok(b) => r == Ok::<bool, String>(b),
        Err(e) => r is Err && r->Err_0@ == e,
    }
}

/// Whether a path passes the glob of a request. A backslash means what it does on this
/// machine, and so the answer for a path or a glob that holds one depends on it.
pub fn is_included(include_glob: &Option<String>, rel: &str) -> (r: Result<bool, String>)
    ensures
        exists|w: bool| #[trigger] is_inclusion(r, *include_glob, rel@, w),
        plain_glob(*include_glob) && !rel@.contains('\\') ==> forall|w: bool| #[trigger]
            is_inclusion(r, *include_glob, rel@, w),
{
    let mut paths: Vec<String> = Vec::new();
    paths.push(rel.to_owned());
    match include_glob {
        None => {
            let r: Result<bool, String> = Ok(true);
            proof {
                assert(is_inclusion(r, *include_glob, rel@, true));
            }
            r
        },
        Some(glob) => {
            let (separates, answer) = match_paths(glob.as_str(), &paths);
            let r = match answer {
                Ok(v) => Ok(v[0]),
                Err(e) => Err(glob_message_text(glob.as_str(), e.as_str())),
            };
            proof {
                assert(is_inclusion(r, *include_glob, rel@, separates));
                if plain_glob(*include_glob) && !rel@.contains('\\') {
                    assert(is_inclusion(r, *include_glob, rel@, !separates));
                    assert forall|w: bool| #[trigger] is_inclusion(r, *include_glob, rel@, w) by {
                        assert(w == separates || w == !separates);
                    }
                }
            }
            r
        },
    }
}

/// Whether a search begins as its request has it: the pattern is tried first, then the
/// glob; the first that does not compile gives the error.
pub open spec fn begins(
    r: Result<SearchRun, String>,
    req: SearchRequest,
    backslash_separates: bool,
) -> bool {
    match regex_error(effective_pattern(req.pattern@, req.literal), req.case_insensitive) {
        Some(e) => r is Err && r->Err_0@ == pattern_message(req.pattern@, e),
        None => match inclusion(req.include_glob, Seq::empty(), backslash_separates) {
            Ok(_) => r is Ok && r->Ok_0.is_fresh(),
            Err(e) => r is Err && r->Err_0@ == e,
        },
    }
}

impl SearchRun {
    /// A search before its first file.
    pub open spec fn is_fresh(&self) -> bool {
        self.budget == 0 && !self.done && !self.cancelled && self.blocks@.len() == 0
    }

    /// A search before its first file. A backslash in the glob means what it does on this
    /// machine.
    pub fn begin(req: &SearchRequest) -> (r: Result<SearchRun, String>)
        ensures
            exists|w: bool| #[trigger] begins(r, *req, w),
            plain_glob(req.include_glob) ==> forall|w: bool| #[trigger] begins(r, *req, w),
    {
        let none: Vec<String> = Vec::new();
        match match_texts(req.pattern.as_str(), req.literal, req.case_insensitive, &none) {
            Err(e) => {
                let r: Result<SearchRun, String> = Err(
                    pattern_message_text(req.pattern.as_str(), e.as_str()),
                );
                proof {
                    assert(begins(r, *req, true));
                }
                return r;
            },
            Ok(_) => {},
        }
        let included = is_included(&req.include_glob, "");
        let r = match &included {
            Err(e) => Err(e.clone()),
            Ok(_) => Ok(
                SearchRun { budget: 0, done: false, cancelled: false, blocks: Vec::new() },
            ),
        };
        proof {
            reveal_strlit("");
            assert(""@ =~= Seq::<char>::empty());
            let w = choose|w: bool| #[trigger] is_inclusion(included, req.include_glob, ""@, w);
            assert(begins(r, *req, w));
            if plain_glob(req.include_glob) {
                assert forall|w: bool| #[trigger] begins(r, *req, w) by {
                    assert(is_inclusion(included, req.include_glob, ""@, w));
                }
            }
        }
        r
    }

    /// What is done at an entry, where it is known whether the request takes its path.
    pub fn visit(&mut self, cancel: bool, entry: &WalkEntry, included: bool) -> (r: WalkAction)
        ensures
            r == walk_action(old(self).done, cancel, *entry, included),
            final(self).done == (old(self).done || cancel),
            final(self).cancelled == (old(self).cancelled || (cancel && !old(self).done)),
            final(self).budget == old(self).budget,
            final(self).blocks == old(self).blocks,
    {
        if self.done {
            return WalkAction::Quit;
        }
        if cancel {
            self.cancelled = true;
            self.done = true;
            return WalkAction::Quit;
        }
        match entry {
            WalkEntry::Directory { name: Some(name) } => {
                if is_artifact_dir(name.as_str()) {
                    WalkAction::Skip
                } else {
                    WalkAction::Continue
                }
            },
            WalkEntry::File { rel: _, binary } => {
                if !*binary && included {
                    WalkAction::Search
                } else {
                    WalkAction::Continue
                }
            },
            _ => WalkAction::Continue,
        }
    }

    /// What is done at an entry under a request. A backslash means what it does on this
    /// machine.
    pub fn visit_entry(&mut self, cancel: bool, entry: &WalkEntry, req: &SearchRequest) -> (r:
        Result<WalkAction, String>)
        ensures
            exists|w: bool| #[trigger]
                visits(r, old(self)@, final(self)@, cancel, *entry, *req, w),
            plain_glob(req.include_glob) && (entry is File ==> !entry->File_rel@.contains('\\'))
                ==> forall|w: bool| #[trigger]
                visits(r, old(self)@, final(self)@, cancel, *entry, *req, w),
            final(self).blocks == old(self).blocks,
    {
        let ghost start = self@;
        let answer = match entry {
            WalkEntry::File { rel, binary: _ } => is_included(&req.include_glob, rel.as_str()),
            _ => Ok(true),
        };
        let r = match &answer {
            Ok(included) => Ok(self.visit(cancel, entry, *included)),
            Err(e) => Err(e.clone()),
        };
        proof {
            let w = if entry is File {
                choose|w: bool| #[trigger]
                    is_inclusion(answer, req.include_glob, entry->File_rel@, w)
            } else {
                true
            };
            assert(visits(r, start, self@, cancel, *entry, *req, w));
            if plain_glob(req.include_glob) && (entry is File ==> !entry->File_rel@.contains(
                '\\',
            )) {
                assert forall|w: bool| #[trigger]
                    visits(r, start, self@, cancel, *entry, *req, w) by {
                    if entry is File {
                        assert(is_inclusion(answer, req.include_glob, entry->File_rel@, w));
                    }
                }
            }
        }
        r
    }

    /// Adds what a file's matched lines get.
    pub fn add_file(
        &mut self,
        rel: &str,
        texts: &Vec<String>,
        matched: &Vec<bool>,
        context: usize,
        max_results: usize,
    )
        requires
            matched@.len() == texts@.len(),
        ensures
            ({
                let c = claim(
                    views(texts@),
                    matched@,
                    context as nat,
                    max_results as nat,
                    old(self).budget,
                    old(self).done,
                );
                &&& final(self).budget == c.budget
                &&& final(self).done == c.done
                &&& block_views(final(self).blocks@) == with_block(
                    block_views(old(self).blocks@),
                    FileBlockView { rel: rel@, lines: c.rows },
                )
            }),
            final(self).cancelled == old(self).cancelled,
    {
        let rows = self.claim_rows(texts, matched, context, max_results);
        if rows.len() > 0 {
            let block = FileBlock { rel: rel.to_owned(), lines: rows };
            let ghost before = block_views(self.blocks@);
            self.blocks.push(block);
            proof {
                assert(block_views(self.blocks@) =~= before.push(block@));
            }
        }
    }

    /// Searches a file that the traversal chose. One that could not be read, or that
    /// holds a NUL, adds nothing.
    pub fn search_file(&mut self, rel: &str, content: Option<&[u8]>, req: &SearchRequest) -> (r:
        Result<(), String>)
        ensures
            ({
                let pattern = effective_pattern(req.pattern@, req.literal);
                let p = regex_error(pattern, req.case_insensitive);
                if content is None || content->0@.contains(0) {
                    &&& r is Ok
                    &&& *final(self) == *old(self)
                } else if p is Some {
                    &&& r is Err
                    &&& r->Err_0@ == pattern_message(req.pattern@, p->0)
                    &&& *final(self) == *old(self)
                } else {
                    let texts = file_lines(content->0@);
                    let c = claim(
                        texts,
                        matches_of(pattern, req.case_insensitive, texts),
                        req.context as nat,
                        req.max_results as nat,
                        old(self).budget,
                        old(self).done,
                    );
                    &&& r is Ok
                    &&& final(self).budget == c.budget
                    &&& final(self).done == c.done
                    &&& final(self).cancelled == old(self).cancelled
                    &&& block_views(final(self).blocks@) == with_block(
                        block_views(old(self).blocks@),
                        FileBlockView { rel: rel@, lines: c.rows },
                    )
                }
            }),
            content is Some && !content->0@.contains(0) ==> lines_decode(content->0@),
    {
        match content {
            None => Ok(()),
            Some(bytes) => {
                if holds_nul(bytes) {
                    return Ok(());
                }
                let texts = split_file_lines(bytes);
                match match_texts(
                    req.pattern.as_str(),
                    req.literal,
                    req.case_insensitive,
                    &texts,
                ) {
                    Err(e) => Err(pattern_message_text(req.pattern.as_str(), e.as_str())),
                    Ok(matched) => {
                        proof {
                            assert(matched@ =~= matches_of(
                                effective_pattern(req.pattern@, req.literal),
                                req.case_insensitive,
                                file_lines(bytes@),
                            )) by {
                                assert forall|i: int| 0 <= i < matched@.len() implies matched@[i]
                                    == regex_found(
                                    effective_pattern(req.pattern@, req.literal),
                                    req.case_insensitive,
                                    file_lines(bytes@)[i],
                                ) by {
                                    assert(views(texts@)[i] == texts@[i]@);
                                }
                            }
                        }
                        self.add_file(rel, &texts, &matched, req.context, req.max_results);
                        Ok(())
                    },
                }
            },
        }
    }
}

/// The blocks with one more, where that one has rows.
pub open spec fn with_block(blocks: Seq<FileBlockView>, block: FileBlockView) -> Seq<
    FileBlockView,
> {
    if block.lines.len() == 0 {
        blocks
    } else {
        blocks.push(block)
    }
}

/// Which of the texts the pattern matches.
pub open spec fn matches_of(
    pattern: Seq<char>,
    case_insensitive: bool,
    texts: Seq<Seq<char>>,
) -> Seq<bool> {
    Seq::new(texts.len(), |i: int| regex_found(pattern, case_insensitive, texts[i]))
}

/// Whether a NUL stands among the bytes.
pub fn holds_nul(bytes: &[u8]) -> (r: bool)
    ensures
        r == bytes@.contains(0),
{
    let mut i: usize = 0;
    while i < bytes.len()
        invariant
            i <= bytes@.len(),
            forall|j: int| 0 <= j < i ==> bytes@[j] != 0,
        decreases bytes@.len() - i,
    {
        if bytes[i] == 0 {
            return true;
        }
        i += 1;
    }
    false
}

/// One step of a traversal: whether a request to cancel was there, what was found, and
/// the bytes of a file that could be read.
pub struct Found {
    pub cancel: bool,
    pub entry: WalkEntry,
    pub content: Option<Vec<u8>>,
}

/// The view of a [`SearchRun`].
#[verifier::ext_equal]
pub struct RunView {
    pub budget: usize,
    pub done: bool,
    pub cancelled: bool,
    pub blocks: Seq<FileBlockView>,
}

impl View for SearchRun {
    type V = RunView;

    open spec fn view(&self) -> RunView {
        RunView {
            budget: self.budget,
            done: self.done,
            cancelled: self.cancelled,
            blocks: block_views(self.blocks@),
        }
    }
}

/// Whether the request takes an entry, or the message where its glob is none: a file by its
/// path, anything else always.
pub open spec fn takes(req: SearchRequest, entry: WalkEntry, backslash_separates: bool) -> Result<
    bool,
    Seq<char>,
> {
    if entry is File {
        inclusion(req.include_glob, entry->File_rel@, backslash_separates)
    } else {
        Ok(true)
    }
}

/// Whether an entry is visited as the request has it. Where its glob is none the search
/// stays as it is.
pub open spec fn visits(
    r: Result<WalkAction, String>,
    before: RunView,
    after: RunView,
    cancel: bool,
    entry: WalkEntry,
    req: SearchRequest,
    backslash_separates: bool,
) -> bool {
    match takes(req, entry, backslash_separates) {
        Ok(included) => {
            &&& r == Ok::<WalkAction, String>(walk_action(before.done, cancel, entry, included))
            &&& after == (RunView {
                done: before.done || cancel,
                cancelled: before.cancelled || (cancel && !before.done),
                ..before
            })
        },
        Err(e) => r is Err && r->Err_0@ == e && after == before,
    }
}

/// What a file that is read adds to a search.
pub open spec fn with_file(
    run: RunView,
    rel: Seq<char>,
    content: Option<Vec<u8>>,
    req: SearchRequest,
) -> RunView {
    if content is None || content->0@.contains(0) {
        run
    } else {
        let texts = file_lines(content->0@);
        let matched = matches_of(
            effective_pattern(req.pattern@, req.literal),
            req.case_insensitive,
            texts,
        );
        let c = claim(
            texts,
            matched,
            req.context as nat,
            req.max_results as nat,
            run.budget,
            run.done,
        );
        RunView {
            budget: c.budget,
            done: c.done,
            cancelled: run.cancelled,
            blocks: with_block(run.blocks, FileBlockView { rel, lines: c.rows }),
        }
    }
}

/// A search after one more step. One that has ended takes none.
pub open spec fn after_step(
    run: RunView,
    found: Found,
    req: SearchRequest,
    backslash_separates: bool,
) -> RunView {
    if run.done {
        run
    } else if found.cancel {
        RunView { done: true, cancelled: true, ..run }
    } else if is_searched(found, req, backslash_separates) {
        with_file(run, found.entry->File_rel@, found.content, req)
    } else {
        run
    }
}

/// Whether a search that goes on searches what was found.
pub open spec fn is_searched(found: Found, req: SearchRequest, backslash_separates: bool) -> bool {
    entry_action(
        found.entry,
        takes(req, found.entry, backslash_separates) == Ok::<bool, Seq<char>>(true),
    ) == WalkAction::Search
}

/// A search after the first `n` steps.
pub open spec fn after_steps(
    found: Seq<Found>,
    req: SearchRequest,
    backslash_separates: bool,
    n: nat,
) -> RunView
    decreases n,
{
    if n == 0 || n > found.len() {
        RunView { budget: 0, done: false, cancelled: false, blocks: Seq::empty() }
    } else {
        after_step(
            after_steps(found, req, backslash_separates, (n - 1) as nat),
            found[n - 1],
            req,
            backslash_separates,
        )
    }
}

/// Whether neither the glob nor a path that it decides on holds a backslash.
pub open spec fn plain_paths(found: Seq<Found>, req: SearchRequest) -> bool {
    &&& plain_glob(req.include_glob)
    &&& forall|i: int|
        0 <= i < found.len() && (#[trigger] found[i]).entry is File
            ==> !found[i].entry->File_rel@.contains('\\')
}

/// Whether the outcome is that of a search.
pub open spec fn is_outcome_of(outcome: SearchOutcome, run: RunView, max_results: nat) -> bool {
    let rows = capped(all_rows(sort_blocks(run.blocks)), max_results);
    &&& outcome.output@ == outcome_text(render_rows(rows), run.cancelled)
    &&& outcome.lines_truncated == any_cut(rows)
    &&& outcome.cancelled == run.cancelled
}

/// Whether a search reads the file at a place of what was found: it has not ended before,
/// and takes the file.
pub open spec fn is_read(
    found: Seq<Found>,
    req: SearchRequest,
    backslash_separates: bool,
    at: int,
) -> bool {
    &&& !after_steps(found, req, backslash_separates, at as nat).done
    &&& !found[at].cancel
    &&& is_searched(found[at], req, backslash_separates)
    &&& found[at].content is Some
    &&& !found[at].content->0@.contains(0)
}

/// Whether the lines of the files that a search reads among the first `n` stand for what
/// their bytes encode.
pub open spec fn reads_decode(
    found: Seq<Found>,
    req: SearchRequest,
    backslash_separates: bool,
    n: nat,
) -> bool {
    forall|at: int|
        0 <= at < n && #[trigger] is_read(found, req, backslash_separates, at) ==> lines_decode(
            found[at].content->0@,
        )
}

/// Whether a result is that of a whole search: the message for a pattern or else a glob that
/// does not compile, or what all the steps come to, over the decoded lines of what was read.
pub open spec fn is_search_of(
    r: Result<SearchOutcome, String>,
    req: SearchRequest,
    found: Seq<Found>,
    backslash_separates: bool,
) -> bool {
    match regex_error(effective_pattern(req.pattern@, req.literal), req.case_insensitive) {
        Some(e) => r is Err && r->Err_0@ == pattern_message(req.pattern@, e),
        None => match inclusion(req.include_glob, Seq::empty(), backslash_separates) {
            Err(e) => r is Err && r->Err_0@ == e,
            Ok(_) => r is Ok && is_outcome_of(
                r->Ok_0,
                after_steps(found, req, backslash_separates, found.len()),
                req.max_results as nat,
            ) && reads_decode(found, req, backslash_separates, found.len()),
        },
    }
}

/// The paths of the files that were found; anything else has the empty path.
fn found_paths(found: &Vec<Found>) -> (r: Vec<String>)
    ensures
        r@.len() == found@.len(),
        forall|i: int|
            0 <= i < r@.len() && found@[i].entry is File ==> (#[trigger] r@[i])@
                == found@[i].entry->File_rel@,
        forall|i: int|
            0 <= i < r@.len() && !(found@[i].entry is File) ==> (#[trigger] r@[i])@.len() == 0,
{
    let mut out: Vec<String> = Vec::new();
    let mut i: usize = 0;
    while i < found.len()
        invariant
            i <= found@.len(),
            out@.len() == i,
            forall|j: int|
                0 <= j < i && found@[j].entry is File ==> (#[trigger] out@[j])@
                    == found@[j].entry->File_rel@,
            forall|j: int|
                0 <= j < i && !(found@[j].entry is File) ==> (#[trigger] out@[j])@.len() == 0,
        decreases found@.len() - i,
    {
        match &found[i].entry {
            WalkEntry::File { rel, binary: _ } => out.push(rel.clone()),
            _ => out.push(String::new()),
        }
        i += 1;
    }
    out
}

/// What a request takes of what was found, or the message where its glob is none.
pub open spec fn is_choice(
    r: Result<Vec<bool>, String>,
    req: SearchRequest,
    found: Seq<Found>,
    backslash_separates: bool,
) -> bool {
    match inclusion(req.include_glob, Seq::empty(), backslash_separates) {
        Err(e) => r is Err && r->Err_0@ == e,
        Ok(_) => r is Ok && r->Ok_0@.len() == found.len() && forall|i: int|
            0 <= i < found.len() && (#[trigger] found[i]).entry is File ==> takes(
                req,
                found[i].entry,
                backslash_separates,
            ) == Ok::<bool, Seq<char>>(r->Ok_0@[i]),
    }
}

/// What a request takes of what was found, and whether a backslash separated names. The
/// glob is compiled once; without one a backslash has no meaning.
fn choose_found(req: &SearchRequest, found: &Vec<Found>) -> (r: (bool, Result<Vec<bool>, String>))
    ensures
        is_choice(r.1, *req, found@, r.0),
        plain_paths(found@, *req) ==> forall|w: bool| #[trigger] is_choice(r.1, *req, found@, w),
{
    let paths = found_paths(found);
    match &req.include_glob {
        None => {
            let mut all: Vec<bool> = Vec::new();
            let mut i: usize = 0;
            while i < found.len()
                invariant
                    i <= found@.len(),
                    all@.len() == i,
                    forall|j: int| 0 <= j < i ==> #[trigger] all@[j],
                decreases found@.len() - i,
            {
                all.push(true);
                i += 1;
            }
            let r: Result<Vec<bool>, String> = Ok(all);
            proof {
                assert forall|w: bool| #[trigger] is_choice(r, *req, found@, w) by {
                    assert forall|i: int|
                        0 <= i < found@.len() && (
                        #[trigger] found@[i]).entry is File implies takes(
                        *req,
                        found@[i].entry,
                        w,
                    ) == Ok::<bool, Seq<char>>(all@[i]) by {
                        assert(all@[i]);
                    }
                }
                assert(is_choice(r, *req, found@, false));
            }
            (false, r)
        },
        Some(glob) => {
            let (separates, answer) = match_paths(glob.as_str(), &paths);
            let ghost asked = answer;
            let r: Result<Vec<bool>, String> = match answer {
                Ok(v) => Ok(v),
                Err(e) => Err(glob_message_text(glob.as_str(), e.as_str())),
            };
            proof {
                assert(is_choice(r, *req, found@, separates)) by {
                    if asked is Ok {
                        let v = asked->Ok_0;
                        assert forall|i: int|
                            0 <= i < found@.len() && (
                            #[trigger] found@[i]).entry is File implies takes(
                            *req,
                            found@[i].entry,
                            separates,
                        ) == Ok::<bool, Seq<char>>(v@[i]) by {
                            assert(paths@[i]@ == found@[i].entry->File_rel@);
                            assert(v@[i] == glob_found(glob@, paths@[i]@, separates));
                        }
                    }
                }
                if plain_paths(found@, *req) {
                    assert(is_choice(r, *req, found@, !separates)) by {
                        if asked is Ok {
                            let v = asked->Ok_0;
                            assert forall|i: int|
                                0 <= i < found@.len() && (
                                #[trigger] found@[i]).entry is File implies takes(
                                *req,
                                found@[i].entry,
                                !separates,
                            ) == Ok::<bool, Seq<char>>(v@[i]) by {
                                assert(paths@[i]@ == found@[i].entry->File_rel@);
                                assert(v@[i] == glob_found(glob@, paths@[i]@, !separates));
                            }
                        }
                    }
                    assert forall|w: bool| #[trigger] is_choice(r, *req, found@, w) by {
                        assert(w == separates || w == !separates);
                    }
                }
            }
            (separates, r)
        },
    }
}

/// A search of what was chosen among what was found. The pattern has been tried.
fn search_chosen(req: &SearchRequest, found: &Vec<Found>, chosen: &Vec<bool>) -> (r: Result<
    SearchOutcome,
    String,
>)
    requires
        chosen@.len() == found@.len(),
        regex_error(effective_pattern(req.pattern@, req.literal), req.case_insensitive) is None,
    ensures
        r is Ok,
        forall|w: bool| #[trigger]
            is_choice(Ok::<Vec<bool>, String>(*chosen), *req, found@, w) ==> is_outcome_of(
                r->Ok_0,
                after_steps(found@, *req, w, found@.len()),
                req.max_results as nat,
            ) && reads_decode(found@, *req, w, found@.len()),
{
    let mut run = SearchRun { budget: 0, done: false, cancelled: false, blocks: Vec::new() };
    let mut i: usize = 0;
    proof {
        assert(run@.blocks =~= Seq::empty());
    }
    while i < found.len()
        invariant
            i <= found@.len() == chosen@.len(),
            regex_error(effective_pattern(req.pattern@, req.literal), req.case_insensitive) is None,
            forall|w: bool| #[trigger]
                is_choice(Ok::<Vec<bool>, String>(*chosen), *req, found@, w) ==> run@
                    == after_steps(found@, *req, w, i as nat) && reads_decode(
                    found@,
                    *req,
                    w,
                    i as nat,
                ),
        decreases found@.len() - i,
    {
        let step = &found[i];
        let ghost before = run@;
        let action = run.visit(step.cancel, &step.entry, chosen[i]);
        if action == WalkAction::Search {
            match &step.entry {
                WalkEntry::File { rel, binary: _ } => {
                    let searched = match &step.content {
                        Some(bytes) => run.search_file(rel.as_str(), Some(bytes.as_slice()), req),
                        None => run.search_file(rel.as_str(), None, req),
                    };
                    match searched {
                        Ok(_) => {},
                        Err(e) => {
                            return Err(e);
                        },
                    }
                },
                _ => {},
            }
        }
        i += 1;
        proof {
            assert forall|w: bool| #[trigger]
                is_choice(Ok::<Vec<bool>, String>(*chosen), *req, found@, w) implies run@
                == after_steps(found@, *req, w, i as nat) && reads_decode(
                found@,
                *req,
                w,
                i as nat,
            ) by {
                assert(found@[i - 1].entry is File ==> takes(*req, found@[i - 1].entry, w) == Ok::<
                    bool,
                    Seq<char>,
                >(chosen@[i - 1]));
                assert(run@ =~= after_step(before, found@[i - 1], *req, w));
                assert(is_read(found@, *req, w, i - 1) ==> lines_decode(
                    found@[i - 1].content->0@,
                ));
            }
        }
    }
    Ok(run.finish(req.max_results))
}

/// A whole search of what a traversal found, in the order in which it was found, and whether
/// a backslash in the glob or a path separated names, the same for all of them.
pub fn search_by_meaning(req: &SearchRequest, found: &Vec<Found>) -> (r: (
    bool,
    Result<SearchOutcome, String>,
))
    ensures
        is_search_of(r.1, *req, found@, r.0),
        plain_paths(found@, *req) ==> forall|w: bool| #[trigger] is_search_of(r.1, *req, found@, w),
{
    let none: Vec<String> = Vec::new();
    match match_texts(req.pattern.as_str(), req.literal, req.case_insensitive, &none) {
        Err(e) => {
            let r: Result<SearchOutcome, String> = Err(
                pattern_message_text(req.pattern.as_str(), e.as_str()),
            );
            return (false, r);
        },
        Ok(_) => {},
    }
    let (separates, chosen) = choose_found(req, found);
    let r = match &chosen {
        Err(e) => Err(e.clone()),
        Ok(v) => search_chosen(req, found, v),
    };
    proof {
        assert(is_choice(chosen, *req, found@, separates));
        assert(is_search_of(r, *req, found@, separates));
        if plain_paths(found@, *req) {
            assert forall|w: bool| #[trigger] is_search_of(r, *req, found@, w) by {
                assert(is_choice(chosen, *req, found@, w));
            }
        }
    }
    (separates, r)
}

/// A whole search of what a traversal found, in the order in which it was found. A backslash
/// in the glob or a path means what it does on this machine, the same for all of them.
pub fn search(req: &SearchRequest, found: &Vec<Found>) -> (r: Result<SearchOutcome, String>)
    ensures
        exists|w: bool| #[trigger] is_search_of(r, *req, found@, w),
        plain_paths(found@, *req) ==> forall|w: bool| #[trigger] is_search_of(r, *req, found@, w),
{
    let (separates, r) = search_by_meaning(req, found);
    proof {
        assert(is_search_of(r, *req, found@, separates));
    }
    r
}

/// A search that has ended shows what it shows, whatever is found after that.
pub proof fn lemma_ended_search_is_final(
    found: Seq<Found>,
    req: SearchRequest,
    backslash_separates: bool,
    n: nat,
    m: nat,
)
    requires
        n <= m <= found.len(),
        after_steps(found, req, backslash_separates, n).done,
    ensures
        after_steps(found, req, backslash_separates, m) == after_steps(
            found,
            req,
            backslash_separates,
            n,
        ),
    decreases m - n,
{
    if n < m {
        lemma_ended_search_is_final(found, req, backslash_separates, n, (m - 1) as nat);
    }
}

/// A search that is cancelled has ended, and keeps the lines that it had found.
pub proof fn lemma_cancel_keeps_lines(
    run: RunView,
    found: Found,
    req: SearchRequest,
    backslash_separates: bool,
)
    requires
        found.cancel,
    ensures
        after_step(run, found, req, backslash_separates).done,
        after_step(run, found, req, backslash_separates).blocks == run.blocks,
        !run.done ==> after_step(run, found, req, backslash_separates).cancelled,
{
}

/// The rows of a text have the numbers of its lines in ascending order, so no line is shown
/// twice, and each is the line of its number.
pub proof fn lemma_rows_ascend(texts: Seq<Seq<char>>, matched: Seq<bool>, context: nat, n: nat)
    requires
        n <= texts.len(),
    ensures
        ({
            let rows = rows_up_to(texts, matched, context, n);
            &&& forall|i: int, j: int|
                0 <= i < j < rows.len() ==> (#[trigger] rows[i]).line_no < (
                #[trigger] rows[j]).line_no
            &&& forall|i: int|
                0 <= i < rows.len() ==> {
                    let at = (#[trigger] rows[i]).line_no - 1;
                    &&& 0 <= at < n
                    &&& near(matched, context, at)
                    &&& rows[i].is_context == !matched[at]
                    &&& rows[i].text == texts[at]
                }
        }),
    decreases n,
{
    if n > 0 {
        lemma_rows_ascend(texts, matched, context, (n - 1) as nat);
        let rest = rows_up_to(texts, matched, context, (n - 1) as nat);
        let rows = rows_up_to(texts, matched, context, n);
        assert forall|i: int, j: int| 0 <= i < j < rows.len() implies (
        #[trigger] rows[i]).line_no < (#[trigger] rows[j]).line_no by {
            assert(rows[i] == rest[i]);
            if j < rest.len() {
                assert(rows[j] == rest[j]);
            }
        }
        assert forall|i: int| 0 <= i < rows.len() implies {
            let at = (#[trigger] rows[i]).line_no - 1;
            &&& 0 <= at < n
            &&& near(matched, context, at)
            &&& rows[i].is_context == !matched[at]
            &&& rows[i].text == texts[at]
        } by {
            if i < rest.len() {
                assert(rows[i] == rest[i]);
            }
        }
    }
}

/// Every line that matches is shown as a match, and so is every line within the context of
/// one as what surrounds it.
pub proof fn lemma_near_lines_are_shown(
    texts: Seq<Seq<char>>,
    matched: Seq<bool>,
    context: nat,
    n: nat,
    line: int,
)
    requires
        0 <= line < n <= texts.len(),
        near(matched, context, line),
    ensures
        rows_up_to(texts, matched, context, n).contains(
            RowView {
                line_no: (line + 1) as nat,
                is_context: !matched[line],
                text: texts[line],
            },
        ),
    decreases n,
{
    let rows = rows_up_to(texts, matched, context, n);
    let row = RowView {
        line_no: (line + 1) as nat,
        is_context: !matched[line],
        text: texts[line],
    };
    if line == n - 1 {
        assert(rows.last() == row);
    } else {
        lemma_near_lines_are_shown(texts, matched, context, (n - 1) as nat, line);
        let rest = rows_up_to(texts, matched, context, (n - 1) as nat);
        let k = rest.index_of(row);
        assert(rows[k] == rest[k]);
    }
}

/// The lines of all blocks.
pub open spec fn count_lines(blocks: Seq<FileBlockView>) -> nat
    decreases blocks.len(),
{
    if blocks.len() == 0 {
        0
    } else {
        count_lines(blocks.drop_last()) + blocks.last().lines.len()
    }
}

/// The files of a search never get more lines together than its request allows, and the
/// budget counts them.
pub proof fn lemma_search_within_budget(
    found: Seq<Found>,
    req: SearchRequest,
    backslash_separates: bool,
    n: nat,
)
    requires
        n <= found.len(),
    ensures
        ({
            let run = after_steps(found, req, backslash_separates, n);
            &&& count_lines(run.blocks) == run.budget
            &&& run.budget <= req.max_results
        }),
    decreases n,
{
    if n > 0 {
        lemma_search_within_budget(found, req, backslash_separates, (n - 1) as nat);
        let before = after_steps(found, req, backslash_separates, (n - 1) as nat);
        let run = after_steps(found, req, backslash_separates, n);
        if run.blocks.len() > before.blocks.len() {
            assert(run.blocks.drop_last() =~= before.blocks);
        }
    }
}

proof fn lemma_count_inserted(sorted: Seq<FileBlockView>, b: FileBlockView)
    ensures
        count_lines(insert_block(sorted, b)) == count_lines(sorted) + b.lines.len(),
        insert_block(sorted, b).len() == sorted.len() + 1,
    decreases sorted.len(),
{
    if sorted.len() == 0 || !text_less(b.rel, sorted.last().rel) {
        assert(sorted.push(b).drop_last() =~= sorted);
    } else {
        lemma_count_inserted(sorted.drop_last(), b);
        assert(insert_block(sorted, b).drop_last() =~= insert_block(sorted.drop_last(), b));
    }
}

proof fn lemma_count_sorted(blocks: Seq<FileBlockView>)
    ensures
        count_lines(sort_blocks(blocks)) == count_lines(blocks),
    decreases blocks.len(),
{
    if blocks.len() > 0 {
        lemma_count_sorted(blocks.drop_last());
        lemma_count_inserted(sort_blocks(blocks.drop_last()), blocks.last());
    }
}

proof fn lemma_all_rows_count(blocks: Seq<FileBlockView>)
    ensures
        all_rows(blocks).len() == count_lines(blocks),
    decreases blocks.len(),
{
    if blocks.len() > 0 {
        lemma_all_rows_count(blocks.drop_last());
    }
}

/// Every line that a file got is shown: the limit leaves none of them out.
pub proof fn lemma_claimed_lines_are_shown(
    found: Seq<Found>,
    req: SearchRequest,
    backslash_separates: bool,
)
    ensures
        ({
            let run = after_steps(found, req, backslash_separates, found.len());
            let rows = all_rows(sort_blocks(run.blocks));
            capped(rows, req.max_results as nat) == rows
        }),
{
    let run = after_steps(found, req, backslash_separates, found.len());
    lemma_search_within_budget(found, req, backslash_separates, found.len());
    lemma_count_sorted(run.blocks);
    lemma_all_rows_count(sort_blocks(run.blocks));
}

/// The block of what was found, where it is a file that is searched and a line matches.
pub open spec fn block_of(found: Found, req: SearchRequest, backslash_separates: bool) -> Option<
    FileBlockView,
> {
    if !is_searched(found, req, backslash_separates) || found.content is None
        || found.content->0@.contains(0) {
        None
    } else {
        let texts = file_lines(found.content->0@);
        let matched = matches_of(
            effective_pattern(req.pattern@, req.literal),
            req.case_insensitive,
            texts,
        );
        let rows = text_rows(texts, matched, req.context as nat);
        if rows.len() == 0 {
            None
        } else {
            Some(FileBlockView { rel: found.entry->File_rel@, lines: rows })
        }
    }
}

/// The blocks of the first `n` that were found, in order.
pub open spec fn blocks_of(
    found: Seq<Found>,
    req: SearchRequest,
    backslash_separates: bool,
    n: nat,
) -> Seq<FileBlockView>
    decreases n,
{
    if n == 0 || n > found.len() {
        Seq::empty()
    } else {
        let rest = blocks_of(found, req, backslash_separates, (n - 1) as nat);
        match block_of(found[n - 1], req, backslash_separates) {
            Some(b) => rest.push(b),
            None => rest,
        }
    }
}

/// Whether a search runs to its end: nothing cancels it, and the limit is not reached.
pub open spec fn runs_to_end(
    found: Seq<Found>,
    req: SearchRequest,
    backslash_separates: bool,
) -> bool {
    &&& forall|i: int| 0 <= i < found.len() ==> !(#[trigger] found[i]).cancel
    &&& count_lines(blocks_of(found, req, backslash_separates, found.len())) <= req.max_results
}

proof fn lemma_blocks_grow(
    found: Seq<Found>,
    req: SearchRequest,
    backslash_separates: bool,
    n: nat,
    m: nat,
)
    requires
        n <= m <= found.len(),
    ensures
        count_lines(blocks_of(found, req, backslash_separates, n)) <= count_lines(
            blocks_of(found, req, backslash_separates, m),
        ),
    decreases m - n,
{
    if n < m {
        lemma_blocks_grow(found, req, backslash_separates, n, (m - 1) as nat);
        let rest = blocks_of(found, req, backslash_separates, (m - 1) as nat);
        match block_of(found[m - 1], req, backslash_separates) {
            Some(b) => {
                assert(rest.push(b).drop_last() =~= rest);
            },
            None => {},
        }
    }
}

/// A search that runs to its end gives every file that is searched all the lines that match
/// in it or surround a match.
pub proof fn lemma_complete_search(
    found: Seq<Found>,
    req: SearchRequest,
    backslash_separates: bool,
    n: nat,
)
    requires
        n <= found.len(),
        runs_to_end(found, req, backslash_separates),
    ensures
        ({
            let run = after_steps(found, req, backslash_separates, n);
            &&& run.blocks == blocks_of(found, req, backslash_separates, n)
            &&& !run.done
            &&& !run.cancelled
        }),
    decreases n,
{
    if n > 0 {
        lemma_complete_search(found, req, backslash_separates, (n - 1) as nat);
        lemma_search_within_budget(found, req, backslash_separates, (n - 1) as nat);
        lemma_blocks_grow(found, req, backslash_separates, n, found.len());
        let rest = blocks_of(found, req, backslash_separates, (n - 1) as nat);
        assert(!found[n - 1].cancel);
        match block_of(found[n - 1], req, backslash_separates) {
            Some(b) => {
                assert(rest.push(b).drop_last() =~= rest);
            },
            None => {},
        }
    }
}

/// Whether the files that were found have different paths.
pub open spec fn paths_differ(found: Seq<Found>) -> bool {
    forall|i: int, j: int|
        0 <= i < j < found.len() && (#[trigger] found[i]).entry is File && (
        #[trigger] found[j]).entry is File ==> found[i].entry->File_rel@
            != found[j].entry->File_rel@
}

/// Whether every block stands before those behind it.
spec fn strictly_ordered(blocks: Seq<FileBlockView>) -> bool {
    forall|i: int, j: int|
        0 <= i < j < blocks.len() ==> text_less(
            (#[trigger] blocks[i]).rel,
            (#[trigger] blocks[j]).rel,
        )
}

proof fn lemma_block_has_source(
    found: Seq<Found>,
    req: SearchRequest,
    backslash_separates: bool,
    n: nat,
)
    requires
        n <= found.len(),
        paths_differ(found),
    ensures
        ({
            let blocks = blocks_of(found, req, backslash_separates, n);
            &&& forall|b: FileBlockView| #[trigger]
                blocks.contains(b) <==> exists|k: int|
                    0 <= k < n && block_of(#[trigger] found[k], req, backslash_separates) == Some(b)
            &&& forall|i: int, j: int|
                0 <= i < j < blocks.len() ==> (#[trigger] blocks[i]).rel != (
                #[trigger] blocks[j]).rel
        }),
    decreases n,
{
    let blocks = blocks_of(found, req, backslash_separates, n);
    if n > 0 {
        lemma_block_has_source(found, req, backslash_separates, (n - 1) as nat);
        let rest = blocks_of(found, req, backslash_separates, (n - 1) as nat);
        let last = block_of(found[n - 1], req, backslash_separates);
        assert forall|b: FileBlockView| #[trigger] blocks.contains(b) implies exists|k: int|
            0 <= k < n && block_of(#[trigger] found[k], req, backslash_separates) == Some(b) by {
            let i = blocks.index_of(b);
            if last is Some && i == rest.len() {
                assert(block_of(found[n - 1], req, backslash_separates) == Some(b));
            } else {
                assert(rest[i] == b);
                assert(rest.contains(b));
            }
        }
        assert forall|b: FileBlockView|
            (exists|k: int|
                0 <= k < n && block_of(#[trigger] found[k], req, backslash_separates) == Some(
                    b,
                )) implies #[trigger] blocks.contains(b) by {
            let k = choose|k: int|
                0 <= k < n && block_of(#[trigger] found[k], req, backslash_separates) == Some(b);
            if k == n - 1 {
                assert(blocks.last() == b);
            } else {
                assert(rest.contains(b));
                let i = rest.index_of(b);
                assert(blocks[i] == b);
            }
        }
        assert forall|i: int, j: int| 0 <= i < j < blocks.len() implies (
        #[trigger] blocks[i]).rel != (#[trigger] blocks[j]).rel by {
            assert(blocks[i] == rest[i]);
            if j < rest.len() {
                assert(blocks[j] == rest[j]);
            } else {
                assert(rest.contains(rest[i]));
                let k = choose|k: int|
                    0 <= k < n - 1 && block_of(#[trigger] found[k], req, backslash_separates)
                        == Some(rest[i]);
                assert(found[k].entry is File && found[n - 1].entry is File);
            }
        }
    }
}

proof fn lemma_sorted_strictly(blocks: Seq<FileBlockView>)
    requires
        forall|i: int, j: int|
            0 <= i < j < blocks.len() ==> (#[trigger] blocks[i]).rel != (#[trigger] blocks[j]).rel,
    ensures
        strictly_ordered(sort_blocks(blocks)),
        forall|b: FileBlockView| #[trigger] sort_blocks(blocks).contains(b) <==> blocks.contains(b),
{
    broadcast use vstd::seq_lib::group_to_multiset_ensures;

    let sorted = sort_blocks(blocks);
    lemma_sort_blocks(blocks);
    assert(blocks.no_duplicates());
    blocks.lemma_multiset_has_no_duplicates();
    sorted.lemma_multiset_has_no_duplicates_conv();
    assert forall|b: FileBlockView| #[trigger] sorted.contains(b) <==> blocks.contains(b) by {
        assert(sorted.to_multiset().count(b) == blocks.to_multiset().count(b));
    }
    assert forall|i: int, j: int| 0 <= i < j < sorted.len() implies text_less(
        (#[trigger] sorted[i]).rel,
        (#[trigger] sorted[j]).rel,
    ) by {
        assert(!text_less(sorted[j].rel, sorted[i].rel));
        if !text_less(sorted[i].rel, sorted[j].rel) {
            lemma_text_less_total(sorted[i].rel, sorted[j].rel);
            assert(sorted.contains(sorted[i]) && sorted.contains(sorted[j]));
            let x = blocks.index_of(sorted[i]);
            let y = blocks.index_of(sorted[j]);
            assert(sorted[i] != sorted[j]);
            if x < y {
                assert(blocks[x].rel != blocks[y].rel);
            } else {
                assert(blocks[y].rel != blocks[x].rel);
            }
        }
    }
}

proof fn lemma_same_order(a: Seq<FileBlockView>, b: Seq<FileBlockView>)
    requires
        strictly_ordered(a),
        strictly_ordered(b),
        forall|x: FileBlockView| #[trigger] a.contains(x) <==> b.contains(x),
    ensures
        a == b,
    decreases a.len(),
{
    if a.len() == 0 {
        if b.len() > 0 {
            assert(b.contains(b[0]));
            assert(a.contains(b[0]));
        }
        assert(a =~= b);
    } else {
        assert(a.contains(a.last()));
        assert(b.contains(a.last()));
        let k = b.index_of(a.last());
        assert(b.contains(b.last()));
        assert(a.contains(b.last()));
        let j = a.index_of(b.last());
        if k < b.len() - 1 {
            lemma_text_less_asym(b[k].rel, b[b.len() - 1].rel);
            lemma_text_less_asym(a[a.len() - 1].rel, a[a.len() - 1].rel);
            if j < a.len() - 1 {
                assert(text_less(a[j].rel, a[a.len() - 1].rel));
            }
        }
        assert(a.last() == b.last());
        let x = a.drop_last();
        let y = b.drop_last();
        assert forall|e: FileBlockView| #[trigger] x.contains(e) <==> y.contains(e) by {
            lemma_text_less_asym(a.last().rel, a.last().rel);
            if x.contains(e) {
                let i = x.index_of(e);
                assert(a[i] == e);
                assert(a.contains(e));
                assert(text_less(a[i].rel, a[a.len() - 1].rel));
                let o = b.index_of(e);
                assert(y[o] == e);
            }
            if y.contains(e) {
                let i = y.index_of(e);
                assert(b[i] == e);
                assert(b.contains(e));
                assert(a.contains(e));
                assert(text_less(b[i].rel, b[b.len() - 1].rel));
                let o = a.index_of(e);
                assert(x[o] == e);
            }
        }
        assert forall|i: int, j: int| 0 <= i < j < x.len() implies text_less(
            (#[trigger] x[i]).rel,
            (#[trigger] x[j]).rel,
        ) by {
            assert(x[i] == a[i] && x[j] == a[j]);
        }
        assert forall|i: int, j: int| 0 <= i < j < y.len() implies text_less(
            (#[trigger] y[i]).rel,
            (#[trigger] y[j]).rel,
        ) by {
            assert(y[i] == b[i] && y[j] == b[j]);
        }
        lemma_same_order(x, y);
        assert(a =~= x.push(a.last()));
        assert(b =~= y.push(b.last()));
    }
}

/// What a search that runs to its end shows does not depend on the order in which the files
/// were found.
pub proof fn lemma_order_of_finding(
    found: Seq<Found>,
    other: Seq<Found>,
    req: SearchRequest,
    backslash_separates: bool,
)
    requires
        found.to_multiset() == other.to_multiset(),
        paths_differ(found),
        paths_differ(other),
        runs_to_end(found, req, backslash_separates),
        runs_to_end(other, req, backslash_separates),
    ensures
        ({
            let a = after_steps(found, req, backslash_separates, found.len());
            let b = after_steps(other, req, backslash_separates, other.len());
            &&& sort_blocks(a.blocks) == sort_blocks(b.blocks)
            &&& a.cancelled == b.cancelled
        }),
{
    broadcast use vstd::seq_lib::group_to_multiset_ensures;

    let x = blocks_of(found, req, backslash_separates, found.len());
    let y = blocks_of(other, req, backslash_separates, other.len());
    lemma_complete_search(found, req, backslash_separates, found.len());
    lemma_complete_search(other, req, backslash_separates, other.len());
    lemma_block_has_source(found, req, backslash_separates, found.len());
    lemma_block_has_source(other, req, backslash_separates, other.len());
    assert forall|b: FileBlockView| #[trigger] x.contains(b) <==> y.contains(b) by {
        if x.contains(b) {
            let k = choose|k: int|
                0 <= k < found.len() && block_of(#[trigger] found[k], req, backslash_separates)
                    == Some(b);
            assert(found.contains(found[k]));
            assert(other.to_multiset().count(found[k]) > 0);
            let o = other.index_of(found[k]);
            assert(block_of(other[o], req, backslash_separates) == Some(b));
        }
        if y.contains(b) {
            let k = choose|k: int|
                0 <= k < other.len() && block_of(#[trigger] other[k], req, backslash_separates)
                    == Some(b);
            assert(other.contains(other[k]));
            assert(found.to_multiset().count(other[k]) > 0);
            let o = found.index_of(other[k]);
            assert(block_of(found[o], req, backslash_separates) == Some(b));
        }
    }
    lemma_sorted_strictly(x);
    lemma_sorted_strictly(y);
    assert forall|b: FileBlockView| #[trigger]
        sort_blocks(x).contains(b) <==> sort_blocks(y).contains(b) by {
        assert(x.contains(b) <==> y.contains(b));
    }
    lemma_same_order(sort_blocks(x), sort_blocks(y));
}

/// Two searches for the same that run to their ends show the same, in whichever order each
/// found the files, where a backslash means the same to both.
pub proof fn lemma_searches_agree(
    first: Result<SearchOutcome, String>,
    second: Result<SearchOutcome, String>,
    found: Seq<Found>,
    other: Seq<Found>,
    req: SearchRequest,
    backslash_separates: bool,
)
    requires
        found.to_multiset() == other.to_multiset(),
        paths_differ(found),
        paths_differ(other),
        runs_to_end(found, req, backslash_separates),
        runs_to_end(other, req, backslash_separates),
        is_search_of(first, req, found, backslash_separates),
        is_search_of(second, req, other, backslash_separates),
    ensures
        match (first, second) {
            (Ok(a), Ok(b)) => a.output@ == b.output@ && a.lines_truncated == b.lines_truncated
                && a.cancelled == b.cancelled,
            (Err(a), Err(b)) => a@ == b@,
            _ => false,
        },
{
    lemma_order_of_finding(found, other, req, backslash_separates);
}

/// Whether a line of what was found is one that a search is to show as a match, by its
/// number from one on.
pub open spec fn is_match(
    found: Found,
    req: SearchRequest,
    backslash_separates: bool,
    line_no: nat,
) -> bool {
    &&& is_searched(found, req, backslash_separates)
    &&& found.content is Some
    &&& !found.content->0@.contains(0)
    &&& 1 <= line_no <= file_lines(found.content->0@).len()
    &&& regex_found(
        effective_pattern(req.pattern@, req.literal),
        req.case_insensitive,
        file_lines(found.content->0@)[line_no - 1],
    )
}

/// The row of a line of what was found that matches.
pub open spec fn match_row(found: Found, line_no: nat) -> (Seq<char>, RowView) {
    (
        found.entry->File_rel@,
        RowView {
            line_no,
            is_context: false,
            text: file_lines(found.content->0@)[line_no - 1],
        },
    )
}

/// Whether each row stands before those behind it: by its path, and in one file by the number
/// of its line. No row then stands there twice.
pub open spec fn rows_in_order(rows: Seq<(Seq<char>, RowView)>) -> bool {
    forall|i: int, j: int|
        0 <= i < j < rows.len() ==> (text_less((#[trigger] rows[i]).0, (#[trigger] rows[j]).0) || (
        rows[i].0 == rows[j].0 && rows[i].1.line_no < rows[j].1.line_no))
}

/// Whether the lines of a block have ascending numbers.
spec fn lines_ascend(block: FileBlockView) -> bool {
    forall|i: int, j: int|
        0 <= i < j < block.lines.len() ==> (#[trigger] block.lines[i]).line_no < (
        #[trigger] block.lines[j]).line_no
}

/// Whether a row is one of a block.
spec fn has_row(block: FileBlockView, row: (Seq<char>, RowView)) -> bool {
    row.0 == block.rel && block.lines.contains(row.1)
}

proof fn lemma_rows_of_blocks(blocks: Seq<FileBlockView>)
    requires
        strictly_ordered(blocks),
        forall|i: int| 0 <= i < blocks.len() ==> lines_ascend(#[trigger] blocks[i]),
    ensures
        rows_in_order(all_rows(blocks)),
        forall|row: (Seq<char>, RowView)| #[trigger]
            all_rows(blocks).contains(row) <==> exists|i: int|
                0 <= i < blocks.len() && has_row(#[trigger] blocks[i], row),
    decreases blocks.len(),
{
    let rows = all_rows(blocks);
    if blocks.len() > 0 {
        let front = blocks.drop_last();
        let last = blocks.last();
        let start = all_rows(front);
        let mine = block_rows(last);
        assert forall|i: int, j: int| 0 <= i < j < front.len() implies text_less(
            (#[trigger] front[i]).rel,
            (#[trigger] front[j]).rel,
        ) by {
            assert(front[i] == blocks[i] && front[j] == blocks[j]);
        }
        assert forall|i: int| 0 <= i < front.len() implies lines_ascend(#[trigger] front[i]) by {
            assert(front[i] == blocks[i]);
        }
        lemma_rows_of_blocks(front);
        assert(blocks[blocks.len() - 1] == last);
        assert forall|row: (Seq<char>, RowView)| #[trigger] rows.contains(row) implies exists|
            i: int,
        | 0 <= i < blocks.len() && has_row(#[trigger] blocks[i], row) by {
            let k = rows.index_of(row);
            if k < start.len() {
                assert(start[k] == row);
                assert(start.contains(row));
                let i = choose|i: int| 0 <= i < front.len() && has_row(#[trigger] front[i], row);
                assert(has_row(blocks[i], row));
            } else {
                assert(mine[k - start.len()] == row);
                assert(last.lines[k - start.len()] == row.1);
                assert(has_row(blocks[blocks.len() - 1], row));
            }
        }
        assert forall|row: (Seq<char>, RowView)|
            (exists|i: int| 0 <= i < blocks.len() && has_row(#[trigger] blocks[i], row)) implies
            #[trigger] rows.contains(row) by {
            let i = choose|i: int| 0 <= i < blocks.len() && has_row(#[trigger] blocks[i], row);
            if i < front.len() {
                assert(has_row(front[i], row));
                assert(start.contains(row));
                let k = start.index_of(row);
                assert(rows[k] == row);
            } else {
                let j = last.lines.index_of(row.1);
                assert(mine[j] == row);
                assert(rows[start.len() + j] == row);
            }
        }
        assert forall|i: int, j: int| 0 <= i < j < rows.len() implies (text_less(
            (#[trigger] rows[i]).0,
            (#[trigger] rows[j]).0,
        ) || (rows[i].0 == rows[j].0 && rows[i].1.line_no < rows[j].1.line_no)) by {
            if j < start.len() {
                assert(rows[i] == start[i] && rows[j] == start[j]);
            } else {
                assert(rows[j] == mine[j - start.len()]);
                if i < start.len() {
                    assert(rows[i] == start[i]);
                    assert(start.contains(start[i]));
                    let k = choose|k: int|
                        0 <= k < front.len() && has_row(#[trigger] front[k], start[i]);
                    assert(front[k] == blocks[k]);
                    assert(text_less(blocks[k].rel, blocks[blocks.len() - 1].rel));
                } else {
                    assert(rows[i] == mine[i - start.len()]);
                    assert(last.lines[i - start.len()].line_no < last.lines[j
                        - start.len()].line_no);
                }
            }
        }
    } else {
        assert forall|row: (Seq<char>, RowView)| !(#[trigger] rows.contains(row)) by {}
    }
}

/// The rows that a search which runs to its end shows.
pub open spec fn shown_rows(
    found: Seq<Found>,
    req: SearchRequest,
    backslash_separates: bool,
) -> Seq<(Seq<char>, RowView)> {
    all_rows(sort_blocks(blocks_of(found, req, backslash_separates, found.len())))
}

/// What a search that runs to its end shows: every line that matches in a file that is
/// searched, none missing and none twice, in the order of the paths and then of the lines.
/// Without context nothing else is shown; with it, the other rows are marked as such.
pub proof fn lemma_search_shows_matches(
    outcome: SearchOutcome,
    found: Seq<Found>,
    req: SearchRequest,
    backslash_separates: bool,
)
    requires
        paths_differ(found),
        runs_to_end(found, req, backslash_separates),
        is_search_of(Ok::<SearchOutcome, String>(outcome), req, found, backslash_separates),
    ensures
        ({
            let rows = shown_rows(found, req, backslash_separates);
            &&& outcome.output@ == outcome_text(render_rows(rows), false)
            &&& !outcome.cancelled
            &&& outcome.lines_truncated == any_cut(rows)
            &&& rows_in_order(rows)
            &&& forall|k: int, line_no: nat|
                0 <= k < found.len() && #[trigger] is_match(
                    found[k],
                    req,
                    backslash_separates,
                    line_no,
                ) ==> rows.contains(match_row(found[k], line_no))
            &&& forall|i: int|
                0 <= i < rows.len() && !(#[trigger] rows[i]).1.is_context ==> exists|
                    k: int,
                    line_no: nat,
                |
                    0 <= k < found.len() && #[trigger] is_match(
                        found[k],
                        req,
                        backslash_separates,
                        line_no,
                    ) && rows[i] == match_row(found[k], line_no)
            &&& req.context == 0 ==> forall|i: int|
                0 <= i < rows.len() ==> !(#[trigger] rows[i]).1.is_context
        }),
{
    let blocks = blocks_of(found, req, backslash_separates, found.len());
    let sorted = sort_blocks(blocks);
    let rows = shown_rows(found, req, backslash_separates);
    let pattern = effective_pattern(req.pattern@, req.literal);
    lemma_complete_search(found, req, backslash_separates, found.len());
    lemma_claimed_lines_are_shown(found, req, backslash_separates);
    lemma_block_has_source(found, req, backslash_separates, found.len());
    lemma_sorted_strictly(blocks);
    assert forall|i: int| 0 <= i < sorted.len() implies lines_ascend(#[trigger] sorted[i]) by {
        assert(sorted.contains(sorted[i]));
        assert(blocks.contains(sorted[i]));
        let k = choose|k: int|
            0 <= k < found.len() && block_of(#[trigger] found[k], req, backslash_separates) == Some(
                sorted[i],
            );
        let texts = file_lines(found[k].content->0@);
        let matched = matches_of(pattern, req.case_insensitive, texts);
        lemma_rows_ascend(texts, matched, req.context as nat, texts.len());
    }
    lemma_rows_of_blocks(sorted);
    assert forall|k: int, line_no: nat|
        0 <= k < found.len() && #[trigger] is_match(
            found[k],
            req,
            backslash_separates,
            line_no,
        ) implies rows.contains(match_row(found[k], line_no)) by {
        let texts = file_lines(found[k].content->0@);
        let matched = matches_of(pattern, req.case_insensitive, texts);
        let line = line_no - 1;
        assert(matched[line]);
        assert(near(matched, req.context as nat, line));
        lemma_near_lines_are_shown(texts, matched, req.context as nat, texts.len(), line);
        let b = block_of(found[k], req, backslash_separates)->0;
        let row = match_row(found[k], line_no);
        assert(b.lines.contains(row.1));
        assert(blocks.contains(b));
        assert(sorted.contains(b));
        let i = sorted.index_of(b);
        assert(has_row(sorted[i], row));
    }
    assert forall|i: int| 0 <= i < rows.len() implies {
        &&& !(#[trigger] rows[i]).1.is_context ==> exists|k: int, line_no: nat|
            0 <= k < found.len() && #[trigger] is_match(
                found[k],
                req,
                backslash_separates,
                line_no,
            ) && rows[i] == match_row(found[k], line_no)
        &&& req.context == 0 ==> !rows[i].1.is_context
    } by {
        assert(rows.contains(rows[i]));
        let j = choose|j: int| 0 <= j < sorted.len() && has_row(#[trigger] sorted[j], rows[i]);
        assert(sorted.contains(sorted[j]));
        assert(blocks.contains(sorted[j]));
        let k = choose|k: int|
            0 <= k < found.len() && block_of(#[trigger] found[k], req, backslash_separates) == Some(
                sorted[j],
            );
        let texts = file_lines(found[k].content->0@);
        let matched = matches_of(pattern, req.case_insensitive, texts);
        lemma_rows_ascend(texts, matched, req.context as nat, texts.len());
        let at = sorted[j].lines.index_of(rows[i].1);
        let row = sorted[j].lines[at];
        assert(near(matched, req.context as nat, row.line_no - 1));
        if !row.is_context {
            assert(matched[row.line_no - 1]);
            assert(is_match(found[k], req, backslash_separates, row.line_no));
            assert(rows[i] == match_row(found[k], row.line_no));
        }
    }
}

/// A search shows a line as a match exactly where it stands in a file that does not look
/// binary, holds no NUL and passes the glob, if there is one, and the pattern is found in
/// it: as a regular expression, or escaped where it is meant literally.
pub proof fn lemma_match_is_found_line(
    found: Found,
    req: SearchRequest,
    backslash_separates: bool,
    line_no: nat,
)
    ensures
        is_match(found, req, backslash_separates, line_no) <==> {
            &&& found.entry is File
            &&& !found.entry->binary
            &&& req.include_glob is Some ==> glob_error(req.include_glob->0@, backslash_separates)
                is None && glob_found(
                req.include_glob->0@,
                found.entry->File_rel@,
                backslash_separates,
            )
            &&& found.content is Some
            &&& forall|i: int| 0 <= i < found.content->0@.len() ==> found.content->0@[i] != 0
            &&& 1 <= line_no <= file_lines(found.content->0@).len()
            &&& regex_found(
                if req.literal {
                    regex_escape(req.pattern@)
                } else {
                    req.pattern@
                },
                req.case_insensitive,
                file_lines(found.content->0@)[line_no - 1],
            )
        },
{
}

/// What is shown of rows: their number, then each on a line of its own in their order, with
/// its path, its number and its text up to the five hundredth character, between colons, or
/// between hyphens where it is context. A search that was cut short says so where it has
/// rows.
pub proof fn lemma_rows_are_told(rows: Seq<(Seq<char>, RowView)>, cancelled: bool)
    ensures
        ({
            let lines = Seq::new(
                rows.len(),
                |i: int|
                    (if i == 0 {
                        Seq::empty()
                    } else {
                        "\n"@
                    }) + (rows[i].0 + (if rows[i].1.is_context {
                        "-"@
                    } else {
                        ":"@
                    }) + decimal(rows[i].1.line_no) + (if rows[i].1.is_context {
                        "- "@
                    } else {
                        ": "@
                    }) + (if rows[i].1.text.len() <= 500 {
                        rows[i].1.text
                    } else {
                        rows[i].1.text.take(500) + "... [truncated]"@
                    })),
            );
            &&& rows.len() == 0 ==> outcome_text(render_rows(rows), cancelled)
                == "No matches found"@
            &&& rows.len() > 0 ==> outcome_text(render_rows(rows), cancelled) == "Found "@
                + decimal(rows.len()) + " matches:\n"@ + lines.flatten() + (if cancelled {
                "\nSearch cancelled: results are partial ("@ + decimal(rows.len()) + " shown)."@
            } else {
                Seq::empty()
            })
            &&& any_cut(rows) <==> exists|i: int|
                0 <= i < rows.len() && (#[trigger] rows[i]).1.text.len() > 500
        }),
{
    let shown = render_rows(rows);
    lemma_join_in_turn(shown, "\n"@);
    let joined = Seq::new(
        shown.len(),
        |k: int|
            if k == 0 {
                shown[k]
            } else {
                "\n"@ + shown[k]
            },
    );
    let lines = Seq::new(
        rows.len(),
        |i: int|
            (if i == 0 {
                Seq::empty()
            } else {
                "\n"@
            }) + (rows[i].0 + (if rows[i].1.is_context {
                "-"@
            } else {
                ":"@
            }) + decimal(rows[i].1.line_no) + (if rows[i].1.is_context {
                "- "@
            } else {
                ": "@
            }) + (if rows[i].1.text.len() <= 500 {
                rows[i].1.text
            } else {
                rows[i].1.text.take(500) + "... [truncated]"@
            })),
    );
    assert(lines =~= joined) by {
        assert forall|i: int| 0 <= i < rows.len() implies lines[i] == joined[i] by {
            assert(lines[i] =~= joined[i]);
        }
    }
}

/// The lines of a file, each with the line feed behind it, make up the file: only the last
/// may lack one, and then it is not empty. No line holds a line feed, and each is shown as
/// the text of its bytes without a carriage return at its end.
pub proof fn lemma_lines_make_file(bytes: Seq<u8>)
    ensures
        bytes == Seq::new(
            raw_lines(bytes).len(),
            |i: int|
                if i < raw_lines(bytes).len() - 1 || bytes.last() == 10 {
                    raw_lines(bytes)[i].push(10)
                } else {
                    raw_lines(bytes)[i]
                },
        ).flatten(),
        forall|i: int, j: int|
            0 <= i < raw_lines(bytes).len() && 0 <= j < raw_lines(bytes)[i].len()
                ==> #[trigger] raw_lines(bytes)[i][j] != 10,
        raw_lines(bytes).len() == 0 <==> bytes.len() == 0,
        file_lines(bytes).len() == raw_lines(bytes).len(),
        forall|i: int|
            0 <= i < raw_lines(bytes).len() ==> #[trigger] file_lines(bytes)[i] == {
                let text = utf8_lossy(raw_lines(bytes)[i]);
                if text.len() > 0 && text[text.len() - 1] == '\r' {
                    text.take(text.len() - 1)
                } else {
                    text
                }
            },
    decreases bytes.len(),
{
    let raws = raw_lines(bytes);
    let parts = Seq::new(
        raws.len(),
        |i: int|
            if i < raws.len() - 1 || bytes.last() == 10 {
                raws[i].push(10)
            } else {
                raws[i]
            },
    );
    lemma_lines_of_bytes(bytes);
    lemma_line_end_bounds(bytes);
    let p = line_end(bytes) as int;
    if bytes.len() == 0 {
        assert(parts =~= Seq::empty());
        assert(parts.flatten() =~= bytes);
    } else if p >= bytes.len() {
        assert(parts =~= seq![bytes]);
        parts.lemma_flatten_one_element();
    } else {
        let rest = bytes.skip(p + 1);
        lemma_lines_make_file(rest);
        let more = raw_lines(rest);
        let tail = Seq::new(
            more.len(),
            |i: int|
                if i < more.len() - 1 || rest.last() == 10 {
                    more[i].push(10)
                } else {
                    more[i]
                },
        );
        assert forall|i: int| 0 <= i < more.len() implies raws[i + 1] == more[i] by {}
        assert(parts.drop_first() =~= tail) by {
            assert(parts.drop_first().len() == tail.len());
            if rest.len() > 0 {
                assert(rest.last() == bytes.last());
            }
        }
        assert(parts.first() =~= bytes.take(p).push(10));
        assert(bytes =~= bytes.take(p).push(10) + rest);
    }
    assert forall|i: int, j: int|
        0 <= i < raws.len() && 0 <= j < raws[i].len() implies #[trigger] raws[i][j] != 10 by {
        if p < bytes.len() && i > 0 {
            let rest = bytes.skip(p + 1);
            lemma_lines_make_file(rest);
            assert(raws[i] == raw_lines(rest)[i - 1]);
        }
    }
    assert forall|i: int| 0 <= i < raws.len() implies #[trigger] file_lines(bytes)[i] == {
        let text = utf8_lossy(raws[i]);
        if text.len() > 0 && text[text.len() - 1] == '\r' {
            text.take(text.len() - 1)
        } else {
            text
        }
    } by {
        let text = utf8_lossy(raws[i]);
        if text.len() > 0 {
            assert(text.drop_last() =~= text.take(text.len() - 1));
        }
    }
}

proof fn lemma_line_end_bounds(bytes: Seq<u8>)
    ensures
        line_end(bytes) <= bytes.len(),
        line_end(bytes) < bytes.len() ==> bytes[line_end(bytes) as int] == 10,
        forall|j: int| 0 <= j < line_end(bytes) ==> bytes[j] != 10,
    decreases bytes.len(),
{
    if bytes.len() > 0 && bytes[0] != 10 {
        let t = bytes.drop_first();
        lemma_line_end_bounds(t);
        assert forall|j: int| 0 <= j < line_end(bytes) implies bytes[j] != 10 by {
            if j > 0 {
                assert(t[j - 1] == bytes[j]);
            }
        }
    }
}

/// Whether a row is that of a line of what was found, which is searched and in which a line
/// within the context matches.
spec fn is_row_of(
    found: Found,
    req: SearchRequest,
    backslash_separates: bool,
    row: (Seq<char>, RowView),
) -> bool {
    let texts = file_lines(found.content->0@);
    let matched = matches_of(
        effective_pattern(req.pattern@, req.literal),
        req.case_insensitive,
        texts,
    );
    let at = row.1.line_no - 1;
    &&& is_searched(found, req, backslash_separates)
    &&& found.content is Some
    &&& !found.content->0@.contains(0)
    &&& row.0 == found.entry->File_rel@
    &&& 0 <= at < texts.len()
    &&& row.1.text == texts[at]
    &&& row.1.is_context == !matched[at]
    &&& near(matched, req.context as nat, at)
}

proof fn lemma_block_has_rows(
    found: Found,
    req: SearchRequest,
    backslash_separates: bool,
    row: (Seq<char>, RowView),
)
    ensures
        is_row_of(found, req, backslash_separates, row) <==> {
            let b = block_of(found, req, backslash_separates);
            b is Some && has_row(b->0, row)
        },
{
    let texts = file_lines(found.content->0@);
    let matched = matches_of(
        effective_pattern(req.pattern@, req.literal),
        req.case_insensitive,
        texts,
    );
    let rows = text_rows(texts, matched, req.context as nat);
    if is_row_of(found, req, backslash_separates, row) {
        lemma_near_lines_are_shown(
            texts,
            matched,
            req.context as nat,
            texts.len(),
            row.1.line_no - 1,
        );
        assert(rows.contains(row.1));
    } else {
        let b = block_of(found, req, backslash_separates);
        if b is Some && has_row(b->0, row) {
            lemma_rows_ascend(texts, matched, req.context as nat, texts.len());
            let at = rows.index_of(row.1);
            assert(rows[at] == row.1);
        }
    }
}

proof fn lemma_shown_rows_have_lines(
    found: Seq<Found>,
    req: SearchRequest,
    backslash_separates: bool,
)
    requires
        paths_differ(found),
    ensures
        forall|row: (Seq<char>, RowView)| #[trigger]
            shown_rows(found, req, backslash_separates).contains(row) <==> exists|k: int|
                0 <= k < found.len() && is_row_of(#[trigger] found[k], req, backslash_separates, row),
{
    let blocks = blocks_of(found, req, backslash_separates, found.len());
    let sorted = sort_blocks(blocks);
    let rows = shown_rows(found, req, backslash_separates);
    lemma_block_has_source(found, req, backslash_separates, found.len());
    lemma_sorted_strictly(blocks);
    assert forall|i: int| 0 <= i < sorted.len() implies lines_ascend(#[trigger] sorted[i]) by {
        assert(sorted.contains(sorted[i]));
        assert(blocks.contains(sorted[i]));
        let k = choose|k: int|
            0 <= k < found.len() && block_of(#[trigger] found[k], req, backslash_separates) == Some(
                sorted[i],
            );
        let texts = file_lines(found[k].content->0@);
        let matched = matches_of(
            effective_pattern(req.pattern@, req.literal),
            req.case_insensitive,
            texts,
        );
        lemma_rows_ascend(texts, matched, req.context as nat, texts.len());
    }
    lemma_rows_of_blocks(sorted);
    assert forall|row: (Seq<char>, RowView)| #[trigger] rows.contains(row) <==> exists|k: int|
        0 <= k < found.len() && is_row_of(#[trigger] found[k], req, backslash_separates, row) by {
        if rows.contains(row) {
            let j = choose|j: int| 0 <= j < sorted.len() && has_row(#[trigger] sorted[j], row);
            assert(sorted.contains(sorted[j]));
            assert(blocks.contains(sorted[j]));
            let k = choose|k: int|
                0 <= k < found.len() && block_of(#[trigger] found[k], req, backslash_separates)
                    == Some(sorted[j]);
            lemma_block_has_rows(found[k], req, backslash_separates, row);
        }
        if exists|k: int|
            0 <= k < found.len() && is_row_of(#[trigger] found[k], req, backslash_separates, row) {
            let k = choose|k: int|
                0 <= k < found.len() && is_row_of(
                    #[trigger] found[k],
                    req,
                    backslash_separates,
                    row,
                );
            lemma_block_has_rows(found[k], req, backslash_separates, row);
            let b = block_of(found[k], req, backslash_separates)->0;
            assert(blocks.contains(b));
            assert(sorted.contains(b));
            let i = sorted.index_of(b);
            assert(has_row(sorted[i], row));
        }
    }
}

/// With every line that matches a search shows every line of the file that is no further
/// from it than the context, before it and behind it: the line at `line_no` where the one at
/// `m` matches. It is marked as context exactly where it does not match itself.
pub proof fn lemma_context_is_shown(
    found: Seq<Found>,
    req: SearchRequest,
    backslash_separates: bool,
    k: int,
    m: nat,
    line_no: nat,
)
    requires
        paths_differ(found),
        0 <= k < found.len(),
        is_match(found[k], req, backslash_separates, m),
        1 <= line_no <= file_lines(found[k].content->0@).len(),
        m <= line_no + req.context,
        line_no <= m + req.context,
    ensures
        shown_rows(found, req, backslash_separates).contains(
            (
                found[k].entry->File_rel@,
                RowView {
                    line_no,
                    is_context: !is_match(found[k], req, backslash_separates, line_no),
                    text: file_lines(found[k].content->0@)[line_no - 1],
                },
            ),
        ),
{
    let row = (
        found[k].entry->File_rel@,
        RowView {
            line_no,
            is_context: !is_match(found[k], req, backslash_separates, line_no),
            text: file_lines(found[k].content->0@)[line_no - 1],
        },
    );
    let matched = matches_of(
        effective_pattern(req.pattern@, req.literal),
        req.case_insensitive,
        file_lines(found[k].content->0@),
    );
    lemma_shown_rows_have_lines(found, req, backslash_separates);
    assert(matched[m - 1]);
    assert(near(matched, req.context as nat, line_no - 1));
    assert(is_row_of(found[k], req, backslash_separates, row));
}

/// A search shows no line but those that match and those around them: the row at `i` is that
/// of a line of a file that was found, no further than the context from a line that matches,
/// and it is marked as context exactly where it does not match itself.
pub proof fn lemma_shown_line_is_near(
    found: Seq<Found>,
    req: SearchRequest,
    backslash_separates: bool,
    i: int,
) -> (r: (int, nat))
    requires
        paths_differ(found),
        0 <= i < shown_rows(found, req, backslash_separates).len(),
    ensures
        ({
            let row = shown_rows(found, req, backslash_separates)[i];
            let (k, m) = r;
            &&& 0 <= k < found.len()
            &&& is_match(found[k], req, backslash_separates, m)
            &&& m <= row.1.line_no + req.context
            &&& row.1.line_no <= m + req.context
            &&& row.0 == found[k].entry->File_rel@
            &&& 1 <= row.1.line_no <= file_lines(found[k].content->0@).len()
            &&& row.1.text == file_lines(found[k].content->0@)[row.1.line_no - 1]
            &&& row.1.is_context == !is_match(
                found[k],
                req,
                backslash_separates,
                row.1.line_no,
            )
        }),
{
    let rows = shown_rows(found, req, backslash_separates);
    let row = rows[i];
    lemma_shown_rows_have_lines(found, req, backslash_separates);
    assert(rows.contains(row));
    let k = choose|k: int|
        0 <= k < found.len() && is_row_of(#[trigger] found[k], req, backslash_separates, row);
    let matched = matches_of(
        effective_pattern(req.pattern@, req.literal),
        req.case_insensitive,
        file_lines(found[k].content->0@),
    );
    let m = choose|m: int|
        0 <= m < matched.len() && #[trigger] matched[m] && m - req.context <= row.1.line_no - 1
            <= m + req.context;
    (k, (m + 1) as nat)
}

/// Whether a block holds the first rows of what was found.
spec fn is_front_of(
    b: FileBlockView,
    found: Found,
    req: SearchRequest,
    backslash_separates: bool,
) -> bool {
    let full = block_of(found, req, backslash_separates);
    full is Some && b.rel == full->0.rel && b.lines.is_prefix_of(full->0.lines)
}

proof fn lemma_blocks_are_fronts(
    found: Seq<Found>,
    req: SearchRequest,
    backslash_separates: bool,
    n: nat,
)
    requires
        n <= found.len(),
        paths_differ(found),
    ensures
        ({
            let run = after_steps(found, req, backslash_separates, n);
            &&& forall|i: int|
                0 <= i < run.blocks.len() ==> exists|k: int|
                    0 <= k < n && is_front_of(
                        #[trigger] run.blocks[i],
                        #[trigger] found[k],
                        req,
                        backslash_separates,
                    )
            &&& forall|i: int, j: int|
                0 <= i < j < run.blocks.len() ==> (#[trigger] run.blocks[i]).rel != (
                #[trigger] run.blocks[j]).rel
            &&& (forall|i: int| 0 <= i < n ==> !(#[trigger] found[i]).cancel) ==> {
                &&& !run.cancelled
                &&& run.done ==> run.budget == req.max_results
                &&& !run.done ==> run.blocks == blocks_of(found, req, backslash_separates, n)
            }
        }),
    decreases n,
{
    if n > 0 {
        lemma_blocks_are_fronts(found, req, backslash_separates, (n - 1) as nat);
        lemma_search_within_budget(found, req, backslash_separates, (n - 1) as nat);
        let before = after_steps(found, req, backslash_separates, (n - 1) as nat);
        let run = after_steps(found, req, backslash_separates, n);
        let last = found[n - 1];
        assert forall|i: int| 0 <= i < run.blocks.len() implies exists|k: int|
            0 <= k < n && is_front_of(
                #[trigger] run.blocks[i],
                #[trigger] found[k],
                req,
                backslash_separates,
            ) by {
            if i < before.blocks.len() {
                assert(run.blocks[i] == before.blocks[i]);
                let k = choose|k: int|
                    0 <= k < n - 1 && is_front_of(
                        #[trigger] before.blocks[i],
                        #[trigger] found[k],
                        req,
                        backslash_separates,
                    );
                assert(is_front_of(run.blocks[i], found[k], req, backslash_separates));
            } else {
                let full = block_of(last, req, backslash_separates);
                assert(full is Some);
                let b = run.blocks[i];
                assert(b.lines =~= full->0.lines.subrange(0, b.lines.len() as int));
                assert(is_front_of(b, found[n - 1], req, backslash_separates));
            }
        }
        assert forall|i: int, j: int| 0 <= i < j < run.blocks.len() implies (
        #[trigger] run.blocks[i]).rel != (#[trigger] run.blocks[j]).rel by {
            assert(run.blocks[i] == before.blocks[i]);
            if j < before.blocks.len() {
                assert(run.blocks[j] == before.blocks[j]);
            } else {
                let k = choose|k: int|
                    0 <= k < n - 1 && is_front_of(
                        #[trigger] before.blocks[i],
                        #[trigger] found[k],
                        req,
                        backslash_separates,
                    );
                assert(found[k].entry is File && found[n - 1].entry is File);
            }
        }
        if forall|i: int| 0 <= i < n ==> !(#[trigger] found[i]).cancel {
            assert(!last.cancel);
            assert forall|i: int| 0 <= i < n - 1 implies !(#[trigger] found[i]).cancel by {}
        }
    }
}

/// A search shows at most as many lines as its request allows, in the order of the paths and
/// then of the lines, and none that one without a limit would not show. One that nothing cut
/// short shows exactly as many as allowed, or all there are.
pub proof fn lemma_search_shows_up_to_limit(
    outcome: SearchOutcome,
    found: Seq<Found>,
    req: SearchRequest,
    backslash_separates: bool,
) -> (rows: Seq<(Seq<char>, RowView)>)
    requires
        paths_differ(found),
        is_search_of(Ok::<SearchOutcome, String>(outcome), req, found, backslash_separates),
    ensures
        outcome.output@ == outcome_text(render_rows(rows), outcome.cancelled),
        outcome.lines_truncated == any_cut(rows),
        rows.len() <= req.max_results,
        rows_in_order(rows),
        forall|i: int|
            0 <= i < rows.len() ==> shown_rows(found, req, backslash_separates).contains(
                #[trigger] rows[i],
            ),
        (forall|i: int| 0 <= i < found.len() ==> !(#[trigger] found[i]).cancel) ==> {
            &&& !outcome.cancelled
            &&& rows.len() == req.max_results || rows == shown_rows(
                found,
                req,
                backslash_separates,
            )
        },
{
    let run = after_steps(found, req, backslash_separates, found.len());
    let sorted = sort_blocks(run.blocks);
    let rows = all_rows(sorted);
    lemma_blocks_are_fronts(found, req, backslash_separates, found.len());
    lemma_search_within_budget(found, req, backslash_separates, found.len());
    lemma_claimed_lines_are_shown(found, req, backslash_separates);
    lemma_count_sorted(run.blocks);
    lemma_all_rows_count(sorted);
    lemma_sorted_strictly(run.blocks);
    assert forall|i: int| 0 <= i < sorted.len() implies lines_ascend(#[trigger] sorted[i]) by {
        assert(sorted.contains(sorted[i]));
        let j = run.blocks.index_of(sorted[i]);
        let k = choose|k: int|
            0 <= k < found.len() && is_front_of(
                #[trigger] run.blocks[j],
                #[trigger] found[k],
                req,
                backslash_separates,
            );
        let texts = file_lines(found[k].content->0@);
        let matched = matches_of(
            effective_pattern(req.pattern@, req.literal),
            req.case_insensitive,
            texts,
        );
        lemma_rows_ascend(texts, matched, req.context as nat, texts.len());
        let full = block_of(found[k], req, backslash_separates)->0;
        assert(sorted[i].lines =~= full.lines.subrange(0, sorted[i].lines.len() as int));
        assert forall|x: int, y: int| 0 <= x < y < sorted[i].lines.len() implies (
        #[trigger] sorted[i].lines[x]).line_no < (#[trigger] sorted[i].lines[y]).line_no by {
            assert(sorted[i].lines[x] == full.lines[x]);
            assert(sorted[i].lines[y] == full.lines[y]);
        }
    }
    lemma_rows_of_blocks(sorted);
    lemma_shown_rows_have_lines(found, req, backslash_separates);
    assert forall|i: int| 0 <= i < rows.len() implies shown_rows(
        found,
        req,
        backslash_separates,
    ).contains(#[trigger] rows[i]) by {
        let row = rows[i];
        assert(rows.contains(row));
        let s = choose|s: int| 0 <= s < sorted.len() && has_row(#[trigger] sorted[s], row);
        assert(sorted.contains(sorted[s]));
        let j = run.blocks.index_of(sorted[s]);
        let k = choose|k: int|
            0 <= k < found.len() && is_front_of(
                #[trigger] run.blocks[j],
                #[trigger] found[k],
                req,
                backslash_separates,
            );
        let full = block_of(found[k], req, backslash_separates)->0;
        let at = sorted[s].lines.index_of(row.1);
        assert(full.lines.subrange(0, sorted[s].lines.len() as int)[at] == row.1);
        assert(full.lines[at] == row.1);
        assert(has_row(full, row));
        lemma_block_has_rows(found[k], req, backslash_separates, row);
        assert(is_row_of(found[k], req, backslash_separates, row));
    }
    rows
}

/// What a search in one text shows is in ascending order, so no line is shown twice, and
/// fits: the row at `i` is that of a line which matches, or which is marked as context and is
/// no further than the context from the line that matches at the place given back.
pub proof fn lemma_row_of_text_is_near(
    texts: Seq<Seq<char>>,
    pattern: Seq<char>,
    case_insensitive: bool,
    context: nat,
    room: nat,
    i: int,
) -> (m: int)
    requires
        0 <= i < first_rows(
            text_rows(texts, matches_of(pattern, case_insensitive, texts), context),
            room,
        ).len(),
    ensures
        ({
            let rows = first_rows(
                text_rows(texts, matches_of(pattern, case_insensitive, texts), context),
                room,
            );
            &&& rows.len() <= room
            &&& forall|j: int| i < j < rows.len() ==> rows[i].line_no < (#[trigger] rows[j]).line_no
            &&& 1 <= rows[i].line_no <= texts.len()
            &&& rows[i].text == texts[rows[i].line_no - 1]
            &&& rows[i].is_context == !regex_found(pattern, case_insensitive, rows[i].text)
            &&& 0 <= m < texts.len()
            &&& regex_found(pattern, case_insensitive, texts[m])
            &&& m + 1 <= rows[i].line_no + context
            &&& rows[i].line_no <= m + 1 + context
        }),
{
    let matched = matches_of(pattern, case_insensitive, texts);
    let all = text_rows(texts, matched, context);
    let rows = first_rows(all, room);
    lemma_rows_ascend(texts, matched, context, texts.len());
    assert(rows[i] == all[i]);
    assert forall|j: int| i < j < rows.len() implies rows[i].line_no < (
    #[trigger] rows[j]).line_no by {
        assert(rows[j] == all[j]);
    }
    let line = all[i].line_no - 1;
    assert(near(matched, context, line));
    choose|m: int|
        0 <= m < matched.len() && #[trigger] matched[m] && m - context <= line <= m + context
}

/// A search in one text shows the line at `at` where one no further from it than the context
/// matches, at `m`; or else it shows as many lines as there is room for, and all of them
/// stand before that one. The row that it stands in is given back.
pub proof fn lemma_near_line_of_text_is_shown(
    texts: Seq<Seq<char>>,
    pattern: Seq<char>,
    case_insensitive: bool,
    context: nat,
    room: nat,
    m: int,
    at: int,
) -> (i: int)
    requires
        0 <= m < texts.len(),
        0 <= at < texts.len(),
        regex_found(pattern, case_insensitive, texts[m]),
        m <= at + context,
        at <= m + context,
    ensures
        ({
            let rows = first_rows(
                text_rows(texts, matches_of(pattern, case_insensitive, texts), context),
                room,
            );
            ||| 0 <= i < rows.len() && rows[i].line_no == at + 1
            ||| rows.len() == room && forall|k: int|
                0 <= k < rows.len() ==> (#[trigger] rows[k]).line_no <= at
        }),
{
    let matched = matches_of(pattern, case_insensitive, texts);
    let all = text_rows(texts, matched, context);
    let rows = first_rows(all, room);
    lemma_rows_ascend(texts, matched, context, texts.len());
    assert(matched[m]);
    assert(near(matched, context, at));
    lemma_near_lines_are_shown(texts, matched, context, texts.len(), at);
    let row = RowView { line_no: (at + 1) as nat, is_context: !matched[at], text: texts[at] };
    let i = all.index_of(row);
    assert(all[i].line_no == at + 1);
    if i >= rows.len() {
        assert forall|k: int| 0 <= k < rows.len() implies (#[trigger] rows[k]).line_no <= at by {
            assert(rows[k] == all[k]);
            assert(all[k].line_no < all[i].line_no);
        }
    }
    i
}

/// What is done at an entry: a search that has ended or is cancelled quits; a directory of
/// build products or dependencies is skipped; a file that does not look binary and is taken
/// is searched; anything else is passed by.
pub proof fn lemma_walk_action_when(done: bool, cancel: bool, entry: WalkEntry, included: bool)
    ensures
        done || cancel ==> walk_action(done, cancel, entry, included) == WalkAction::Quit,
        !done && !cancel && entry is File ==> walk_action(done, cancel, entry, included) == (
        if !entry->binary && included {
            WalkAction::Search
        } else {
            WalkAction::Continue
        }),
        !done && !cancel && entry is Directory ==> walk_action(done, cancel, entry, included) == (
        if entry->name is Some && (entry->name->0@ == "node_modules"@ || entry->name->0@
            == "target"@ || entry->name->0@ == "dist"@ || entry->name->0@ == "build"@
            || entry->name->0@ == "__pycache__"@ || entry->name->0@ == ".venv"@ || entry->name->0@
            == "venv"@) {
            WalkAction::Skip
        } else {
            WalkAction::Continue
        }),
        !done && !cancel && !(entry is File) && !(entry is Directory) ==> walk_action(
            done,
            cancel,
            entry,
            included,
        ) == WalkAction::Continue,
{
}

/// A path below the root is told by what stands behind the root's components; the root
/// itself by its own name; a path elsewhere by all its components.
pub proof fn lemma_below_root_when(root: Seq<Seq<char>>, rest: Seq<Seq<char>>)
    ensures
        rest.len() > 0 ==> below_root(root + rest, root) == rest,
        root.len() > 0 && root.last() != "/"@ && root.last() != ".."@ ==> below_root(root, root)
            == seq![root.last()],
        !root.is_prefix_of(rest) ==> below_root(rest, root) == rest,
{
    assert(root =~= (root + rest).subrange(0, root.len() as int));
    assert((root + rest).skip(root.len() as int) =~= rest);
    assert(root =~= root.subrange(0, root.len() as int));
}

/// A file looks binary exactly where a NUL stands among its first eight thousand one hundred
/// and ninety-two bytes.
pub proof fn lemma_binary_when(bytes: Seq<u8>)
    ensures
        sniffed_binary(bytes) <==> exists|i: int|
            0 <= i < bytes.len() && i < 8192 && #[trigger] bytes[i] == 0,
{
}

/// A search fails for a pattern that does not compile, else for a glob that does not, with a
/// message that tells it as it was given and why; a search where both compile does not fail.
pub proof fn lemma_search_fails_when(
    r: Result<SearchOutcome, String>,
    req: SearchRequest,
    found: Seq<Found>,
    backslash_separates: bool,
)
    requires
        is_search_of(r, req, found, backslash_separates),
    ensures
        ({
            let pattern_error = regex_error(
                if req.literal {
                    regex_escape(req.pattern@)
                } else {
                    req.pattern@
                },
                req.case_insensitive,
            );
            let bad_glob = req.include_glob is Some && glob_error(
                req.include_glob->0@,
                backslash_separates,
            ) is Some;
            &&& pattern_error is Some ==> r is Err && r->Err_0@ == "Invalid pattern '"@
                + req.pattern@ + "': "@ + pattern_error->0
            &&& pattern_error is None && bad_glob ==> r is Err && r->Err_0@
                == "Invalid include glob '"@ + req.include_glob->0@ + "': "@ + glob_error(
                req.include_glob->0@,
                backslash_separates,
            )->0
            &&& pattern_error is None && !bad_glob ==> r is Ok
        }),
{
}

} // verus!
