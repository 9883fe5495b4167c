//! Regular expressions and globs, as the `regex` and `globset` crates define them.

use vstd::prelude::*;

verus! {

/// Whether a character means something in a pattern.
pub open spec fn is_meta(c: char) -> bool {
    c == '\\' || c == '.' || c == '+' || c == '*' || c == '?' || c == '(' || c == ')' || c == '|'
        || c == '[' || c == ']' || c == '{' || c == '}' || c == '^' || c == '$' || c == '#' || c
        == '&' || c == '-' || c == '~'
}

/// The text with a backslash before every character that means something in a pattern.
pub open spec fn regex_escape(text: Seq<char>) -> Seq<char>
    decreases text.len(),
{
    if text.len() == 0 {
        Seq::empty()
    } else {
        let front = regex_escape(text.drop_last());
        if is_meta(text.last()) {
            front.push('\\').push(text.last())
        } else {
            front.push(text.last())
        }
    }
}

/// Why a pattern is no regular expression; `None` where it is one.
pub uninterp spec fn regex_error(pattern: Seq<char>, case_insensitive: bool) -> Option<Seq<char>>;

/// Whether a regular expression has a match anywhere in a text.
pub uninterp spec fn regex_found(
    pattern: Seq<char>,
    case_insensitive: bool,
    text: Seq<char>,
) -> bool;

/// Why a text is no glob; `None` where it is one. Whether a backslash separates the names
/// of a path, as on Windows, or escapes a character is given.
pub uninterp spec fn glob_error(glob: Seq<char>, backslash_separates: bool) -> Option<Seq<char>>;

/// Whether a glob matches a whole path, where a backslash separates names or does not.
pub uninterp spec fn glob_found(
    glob: Seq<char>,
    path: Seq<char>,
    backslash_separates: bool,
) -> bool;

/// `regex::escape`: the text with a backslash before every character that means something
/// in a pattern.
#[verifier::external_body]
pub(crate) fn escape(text: &str) -> (r: String)
    ensures
        r@ == regex_escape(text@),
{
    regex::escape(text)
}

/// `regex::RegexBuilder::build` and `regex::Regex::is_match`: the pattern is compiled
/// once, with the given case rule and the defaults otherwise, and tried on every line.
/// Where it does not compile, the message of the error comes back.
#[verifier::external_body]
pub(crate) fn match_lines(pattern: &str, case_insensitive: bool, lines: &Vec<String>) -> (r: Result<
    Vec<bool>,
    String,
>)
    ensures
        match r {
            Ok(v) => {
                &&& regex_error(pattern@, case_insensitive) is None
                &&& v@.len() == lines@.len()
                &&& forall|i: int|
                    0 <= i < v@.len() ==> #[trigger] v@[i] == regex_found(
                        pattern@,
                        case_insensitive,
                        lines@[i]@,
                    )
            },
            Err(e) => regex_error(pattern@, case_insensitive) == Some(e@),
        },
{
    let re = regex::RegexBuilder::new(pattern)
        .case_insensitive(case_insensitive)
        .build()
        .map_err(|e| e.to_string())?;
    Ok(lines.iter().map(|line| re.is_match(line)).collect())
}

/// `globset::GlobBuilder::build` with its defaults, and `globset::GlobSet::is_match` on the
/// set of that one glob for every path. Where the glob does not compile, the message of the
/// error comes back. Beside the answer stands what `std::path::is_separator` says of a
/// backslash on this machine, on which both depend; they do not where neither the glob nor
/// the path holds one.
#[verifier::external_body]
pub(crate) fn match_paths(glob: &str, paths: &Vec<String>) -> (r: (bool, Result<Vec<bool>, String>))
    ensures
        match r.1 {
            Ok(v) => {
                &&& glob_error(glob@, r.0) is None
                &&& v@.len() == paths@.len()
                &&& forall|i: int|
                    0 <= i < v@.len() ==> #[trigger] v@[i] == glob_found(
                        glob@,
                        paths@[i]@,
                        r.0,
                    )
                &&& !glob@.contains('\\') ==> forall|i: int|
                    0 <= i < v@.len() && !paths@[i]@.contains('\\') ==> #[trigger] v@[i]
                        == glob_found(glob@, paths@[i]@, !r.0)
            },
            Err(e) => glob_error(glob@, r.0) == Some(e@),
        },
        !glob@.contains('\\') ==> glob_error(glob@, !r.0) == glob_error(glob@, r.0),
{
    let answer = globset::GlobBuilder::new(glob)
        .build()
        .and_then(|g| globset::GlobSet::new([g]))
        .map(|set| paths.iter().map(|path| set.is_match(path)).collect())
        .map_err(|e| e.to_string());
    (std::path::is_separator('\\'), answer)
}

/// An escaped text is the text with a backslash before each of the characters that mean
/// something in a pattern, and before no other.
pub proof fn lemma_escape_in_turn(text: Seq<char>)
    ensures
        regex_escape(text) == Seq::new(
            text.len(),
            |i: int|
                if "\\.+*?()|[]{}^$#&-~"@.contains(text[i]) {
                    seq!['\\', text[i]]
                } else {
                    seq![text[i]]
                },
        ).flatten(),
    decreases text.len(),
{
    let marks = "\\.+*?()|[]{}^$#&-~"@;
    reveal_strlit("\\.+*?()|[]{}^$#&-~");
    let parts = Seq::new(
        text.len(),
        |i: int|
            if marks.contains(text[i]) {
                seq!['\\', text[i]]
            } else {
                seq![text[i]]
            },
    );
    if text.len() > 0 {
        let front = text.drop_last();
        lemma_escape_in_turn(front);
        assert(parts.drop_last() =~= Seq::new(
            front.len(),
            |i: int|
                if marks.contains(front[i]) {
                    seq!['\\', front[i]]
                } else {
                    seq![front[i]]
                },
        ));
        crate::text::lemma_flatten_last(parts);
        let c = text.last();
        assert(marks.len() == 18);
        assert(is_meta(c) <==> marks.contains(c)) by {
            if is_meta(c) {
                assert(marks[0] == '\\' && marks[1] == '.' && marks[2] == '+' && marks[3] == '*'
                    && marks[4] == '?' && marks[5] == '(' && marks[6] == ')' && marks[7] == '|'
                    && marks[8] == '[' && marks[9] == ']' && marks[10] == '{' && marks[11] == '}'
                    && marks[12] == '^' && marks[13] == '$' && marks[14] == '#' && marks[15] == '&'
                    && marks[16] == '-' && marks[17] == '~');
            }
        }
        assert(regex_escape(text) =~= regex_escape(front) + parts.last());
    }
}

} // verus!
