//! Text as sequences of characters: splitting, joining, trimming and numbers.

use vstd::prelude::*;
use vstd::utf8::{encode_utf8, encode_utf8_decode_utf8};

verus! {

/// `String::push` appends one character at the end of the string.
pub assume_specification[ String::push ](s: &mut String, c: char)
    ensures
        final(s)@ == old(s)@.push(c),
;

/// The views of a sequence of strings.
pub open spec fn views(parts: Seq<String>) -> Seq<Seq<char>> {
    Seq::new(parts.len(), |i: int| parts[i]@)
}

/// The position of the first `c` in `s`, or the length of `s` where there is none.
pub open spec fn position(s: Seq<char>, c: char) -> nat
    decreases s.len(),
{
    if s.len() == 0 || s[0] == c {
        0
    } else {
        1 + position(s.drop_first(), c)
    }
}

/// The place of the first part that is `part`, or the number of parts where none is.
pub open spec fn place_of(parts: Seq<Seq<char>>, part: Seq<char>) -> nat
    decreases parts.len(),
{
    if parts.len() == 0 || parts[0] == part {
        0
    } else {
        1 + place_of(parts.drop_first(), part)
    }
}

/// The pieces of `s` between the separators `c`: one more than there are separators.
pub open spec fn split(s: Seq<char>, c: char) -> Seq<Seq<char>>
    decreases s.len(),
{
    let p = position(s, c);
    if p >= s.len() {
        seq![s]
    } else {
        seq![s.take(p as int)] + split(s.skip(p as int + 1), c)
    }
}

/// What stands before and after the first `c`, where there is one.
pub open spec fn split_once(s: Seq<char>, c: char) -> Option<(Seq<char>, Seq<char>)> {
    let p = position(s, c);
    if p >= s.len() {
        None
    } else {
        Some((s.take(p as int), s.skip(p as int + 1)))
    }
}

/// `s` without one trailing carriage return.
pub open spec fn strip_cr(s: Seq<char>) -> Seq<char> {
    if s.len() > 0 && s.last() == '\r' {
        s.drop_last()
    } else {
        s
    }
}

/// The lines of `s`: each ends in a line feed, with an optional carriage return
/// before it; the last line may lack its ending.
pub open spec fn lines(s: Seq<char>) -> Seq<Seq<char>>
    decreases s.len(),
{
    let p = position(s, '\n');
    if s.len() == 0 {
        Seq::empty()
    } else if p >= s.len() {
        seq![s]
    } else {
        seq![strip_cr(s.take(p as int))] + lines(s.skip(p as int + 1))
    }
}

/// The parts one after the other with `sep` between neighbours.
pub open spec fn join(parts: Seq<Seq<char>>, sep: Seq<char>) -> Seq<char>
    decreases parts.len(),
{
    if parts.len() == 0 {
        Seq::empty()
    } else if parts.len() == 1 {
        parts[0]
    } else {
        join(parts.drop_last(), sep) + sep + parts.last()
    }
}

/// The decimal digit of a number below ten.
pub open spec fn digit(d: nat) -> char {
    ((48 + d) as u8) as char
}

/// The decimal numeral of `n`, without leading zeros.
pub open spec fn decimal(n: nat) -> Seq<char>
    decreases n,
{
    if n < 10 {
        seq![digit(n)]
    } else {
        decimal(n / 10).push(digit(n % 10))
    }
}

/// A position is where the first occurrence stands.
pub proof fn lemma_position_at(s: Seq<char>, c: char, i: int)
    requires
        0 <= i <= s.len(),
        i < s.len() ==> s[i] == c,
        forall|j: int| 0 <= j < i ==> s[j] != c,
    ensures
        position(s, c) == i,
    decreases s.len(),
{
    if i > 0 {
        let t = s.drop_first();
        assert forall|j: int| 0 <= j < i - 1 implies t[j] != c by {
            assert(t[j] == s[j + 1]);
        }
        lemma_position_at(t, c, i - 1);
    }
}

/// A position is at most the length, holds `c` where it is below it, and nothing
/// before it is `c`.
pub proof fn lemma_position_bounds(s: Seq<char>, c: char)
    ensures
        position(s, c) <= s.len(),
        position(s, c) < s.len() ==> s[position(s, c) as int] == c,
        forall|j: int| 0 <= j < position(s, c) ==> s[j] != c,
    decreases s.len(),
{
    if s.len() > 0 && s[0] != c {
        let t = s.drop_first();
        lemma_position_bounds(t, c);
        assert forall|j: int| 0 <= j < position(s, c) implies s[j] != c by {
            if j > 0 {
                assert(t[j - 1] == s[j]);
            }
        }
    }
}

/// A text that is split in two holds the separator, and nothing else is lost.
pub proof fn lemma_split_once_joins(s: Seq<char>, c: char)
    ensures
        split_once(s, c) is Some <==> s.contains(c),
        match split_once(s, c) {
            Some((a, b)) => s == a + seq![c] + b && !a.contains(c),
            None => true,
        },
{
    lemma_position_bounds(s, c);
    let p = position(s, c) as int;
    if p < s.len() {
        assert(s[p] == c);
        assert(s =~= s.take(p) + seq![c] + s.skip(p + 1));
        assert forall|j: int| 0 <= j < p implies s.take(p)[j] != c by {
            assert(s[j] != c);
        }
    } else {
        assert forall|j: int| 0 <= j < s.len() implies s[j] != c by {}
    }
}

/// Whether two texts hold the same characters.
pub fn str_eq(a: &str, b: &str) -> (r: bool)
    ensures
        r == (a@ == b@),
{
    let x: &[u8] = a.as_bytes();
    let y: &[u8] = b.as_bytes();
    if x.len() != y.len() {
        return false;
    }
    let mut i: usize = 0;
    while i < x.len()
        invariant
            i <= x@.len(),
            x@.len() == y@.len(),
            x@ == encode_utf8(a@),
            y@ == encode_utf8(b@),
            forall|j: int| 0 <= j < i ==> x@[j] == y@[j],
        decreases x@.len() - i,
    {
        if x[i] != y[i] {
            return false;
        }
        i += 1;
    }
    proof {
        assert(x@ =~= y@);
        encode_utf8_decode_utf8(a@);
        encode_utf8_decode_utf8(b@);
    }
    true
}

/// The characters of a text.
pub fn chars_of(s: &str) -> (r: Vec<char>)
    ensures
        r@ == s@,
{
    let mut r: Vec<char> = Vec::new();
    for c in it: s.chars()
        invariant
            r@ =~= it.seq().take(it.index()),
            it.seq() == s@,
    {
        r.push(c);
    }
    r
}

/// The text that a range of characters makes.
pub fn text_of(chars: &[char], from: usize, to: usize) -> (r: String)
    requires
        from <= to <= chars@.len(),
    ensures
        r@ == chars@.subrange(from as int, to as int),
{
    let mut r = String::new();
    let mut i: usize = from;
    while i < to
        invariant
            from <= i <= to <= chars@.len(),
            r@ == chars@.subrange(from as int, i as int),
        decreases to - i,
    {
        r.push(chars[i]);
        i += 1;
        proof {
            assert(chars@.subrange(from as int, i as int) =~= chars@.subrange(
                from as int,
                i - 1,
            ).push(chars@[i - 1]));
        }
    }
    r
}

/// The index of the first `c` at or after `from`, or the length.
pub fn find_char(chars: &[char], from: usize, c: char) -> (r: usize)
    requires
        from <= chars@.len(),
    ensures
        from <= r <= chars@.len(),
        r == from + position(chars@.skip(from as int), c),
{
    let mut i: usize = from;
    while i < chars.len() && chars[i] != c
        invariant
            from <= i <= chars@.len(),
            forall|j: int| from <= j < i ==> chars@[j] != c,
        decreases chars@.len() - i,
    {
        i += 1;
    }
    proof {
        lemma_position_at(chars@.skip(from as int), c, i - from);
    }
    i
}

/// Whether `c` occurs in the text.
pub fn contains_char(s: &str, c: char) -> (r: bool)
    ensures
        r == s@.contains(c),
{
    let chars = chars_of(s);
    let p: usize = find_char(&chars, 0, c);
    proof {
        assert(chars@.skip(0) =~= s@);
        lemma_position_bounds(s@, c);
        if p < chars@.len() {
            assert(s@[p as int] == c);
        }
    }
    p < chars.len()
}

/// What stands before and after the first `c`, where there is one.
pub fn split_once_text(s: &str, c: char) -> (r: Option<(String, String)>)
    ensures
        match r {
            Some(pair) => split_once(s@, c) == Some((pair.0@, pair.1@)),
            None => split_once(s@, c) is None,
        },
{
    let chars = chars_of(s);
    let p: usize = find_char(&chars, 0, c);
    proof {
        assert(chars@.skip(0) =~= s@);
    }
    if p >= chars.len() {
        None
    } else {
        let a = text_of(&chars, 0, p);
        let b = text_of(&chars, p + 1, chars.len());
        proof {
            assert(a@ =~= s@.take(p as int));
            assert(b@ =~= s@.skip(p + 1));
        }
        Some((a, b))
    }
}

/// The pieces of the text between the separators.
pub fn split_text(s: &str, c: char) -> (r: Vec<String>)
    ensures
        views(r@) == split(s@, c),
{
    let chars = chars_of(s);
    let mut out: Vec<String> = Vec::new();
    let mut k: usize = 0;
    proof {
        assert(s@.skip(0) =~= s@);
        assert(views(out@) + split(s@, c) =~= split(s@, c));
    }
    loop
        invariant
            chars@ == s@,
            k <= chars@.len(),
            views(out@) + split(s@.skip(k as int), c) == split(s@, c),
        decreases chars@.len() - k,
    {
        let p: usize = find_char(&chars, k, c);
        let piece = text_of(&chars, k, p);
        let ghost before = views(out@);
        out.push(piece);
        proof {
            assert(views(out@) =~= before.push(piece@));
            assert(piece@ =~= s@.skip(k as int).take(p - k));
        }
        if p >= chars.len() {
            proof {
                assert(piece@ =~= s@.skip(k as int));
                assert(views(out@) =~= before + seq![piece@]);
            }
            return out;
        }
        proof {
            assert(s@.skip(k as int).skip(p - k + 1) =~= s@.skip(p + 1));
            assert(views(out@) + split(s@.skip(p + 1), c) =~= before + (seq![piece@] + split(
                s@.skip(p + 1),
                c,
            )));
        }
        k = p + 1;
    }
}

/// The lines of the text.
pub fn lines_of(s: &str) -> (r: Vec<String>)
    ensures
        views(r@) == lines(s@),
{
    let chars = chars_of(s);
    let mut out: Vec<String> = Vec::new();
    let mut k: usize = 0;
    proof {
        assert(s@.skip(0) =~= s@);
        assert(views(out@) + lines(s@) =~= lines(s@));
    }
    while k < chars.len()
        invariant
            chars@ == s@,
            k <= chars@.len(),
            views(out@) + lines(s@.skip(k as int)) == lines(s@),
        decreases chars@.len() - k,
    {
        let p: usize = find_char(&chars, k, '\n');
        let ghost rest = s@.skip(k as int);
        let ghost before = views(out@);
        if p >= chars.len() {
            let piece = text_of(&chars, k, p);
            out.push(piece);
            proof {
                assert(piece@ =~= rest);
                assert(views(out@) =~= before + seq![rest]);
                assert(lines(s@.skip(p as int)) =~= Seq::empty());
                assert(views(out@) + lines(s@.skip(p as int)) =~= views(out@));
            }
            k = p;
        } else {
            let end: usize = if p > k && chars[p - 1] == '\r' {
                p - 1
            } else {
                p
            };
            let piece = text_of(&chars, k, end);
            out.push(piece);
            proof {
                assert(piece@ =~= strip_cr(rest.take(p - k)));
                assert(views(out@) =~= before.push(piece@));
                assert(rest.skip(p - k + 1) =~= s@.skip(p + 1));
                assert(views(out@) + lines(s@.skip(p + 1)) =~= before + (seq![piece@] + lines(
                    s@.skip(p + 1),
                )));
            }
            k = p + 1;
        }
    }
    proof {
        assert(views(out@) + lines(s@.skip(k as int)) =~= views(out@));
    }
    out
}

/// The parts one after the other with `sep` between neighbours.
pub fn join_texts(parts: &[String], sep: &str) -> (r: String)
    ensures
        r@ == join(views(parts@), sep@),
{
    let mut out = String::new();
    let mut i: usize = 0;
    while i < parts.len()
        invariant
            i <= parts@.len(),
            out@ == join(views(parts@).take(i as int), sep@),
        decreases parts@.len() - i,
    {
        if i > 0 {
            out.append(sep);
        }
        out.append(parts[i].as_str());
        i += 1;
        proof {
            let all = views(parts@);
            assert(all.take(i as int).drop_last() =~= all.take(i - 1));
            assert(all.take(i as int).last() == parts@[i - 1]@);
            if i == 1 {
                assert(out@ =~= parts@[0]@);
            }
        }
    }
    proof {
        assert(views(parts@).take(i as int) =~= views(parts@));
    }
    out
}

/// The decimal numeral of a number.
pub fn decimal_text(n: u64) -> (r: String)
    ensures
        r@ == decimal(n as nat),
    decreases n,
{
    let d: u8 = (n % 10) as u8;
    let mut out = if n < 10 {
        String::new()
    } else {
        decimal_text(n / 10)
    };
    out.push((48 + d) as char);
    proof {
        if n < 10 {
            assert(out@ =~= seq![digit(n as nat)]);
        }
    }
    out
}

/// Whether the text begins with `prefix`.
pub fn starts_with(s: &str, prefix: &str) -> (r: bool)
    ensures
        r == prefix@.is_prefix_of(s@),
{
    let x = chars_of(s);
    let y = chars_of(prefix);
    if y.len() > x.len() {
        return false;
    }
    let mut i: usize = 0;
    while i < y.len()
        invariant
            i <= y@.len() <= x@.len(),
            x@ == s@,
            y@ == prefix@,
            forall|j: int| 0 <= j < i ==> x@[j] == y@[j],
        decreases y@.len() - i,
    {
        if x[i] != y[i] {
            proof {
                assert(s@.subrange(0, y@.len() as int)[i as int] == x@[i as int]);
            }
            return false;
        }
        i += 1;
    }
    proof {
        assert(prefix@ =~= s@.subrange(0, prefix@.len() as int));
    }
    true
}

/// Whether the text ends with `suffix`.
pub fn ends_with(s: &str, suffix: &str) -> (r: bool)
    ensures
        r == suffix@.is_suffix_of(s@),
{
    let x = chars_of(s);
    let y = chars_of(suffix);
    if y.len() > x.len() {
        return false;
    }
    let d: usize = x.len() - y.len();
    let mut i: usize = 0;
    while i < y.len()
        invariant
            i <= y@.len() <= x@.len(),
            d + y.len() == x.len(),
            x@ == s@,
            y@ == suffix@,
            forall|j: int| 0 <= j < i ==> x@[j + d] == y@[j],
        decreases y@.len() - i,
    {
        if x[i + d] != y[i] {
            proof {
                assert(s@.subrange(d as int, s@.len() as int)[i as int] == x@[i + d]);
            }
            return false;
        }
        i += 1;
    }
    proof {
        assert(suffix@ =~= s@.subrange(d as int, s@.len() as int));
    }
    true
}

/// Whether a character has the Unicode property `White_Space`.
pub open spec fn white_space(c: char) -> bool {
    ||| '\u{9}' <= c <= '\u{d}'
    ||| c == ' '
    ||| c == '\u{85}'
    ||| c == '\u{a0}'
    ||| c == '\u{1680}'
    ||| '\u{2000}' <= c <= '\u{200a}'
    ||| c == '\u{2028}'
    ||| c == '\u{2029}'
    ||| c == '\u{202f}'
    ||| c == '\u{205f}'
    ||| c == '\u{3000}'
}

/// `s` without the white space at its start.
pub open spec fn trim_start(s: Seq<char>) -> Seq<char>
    decreases s.len(),
{
    if s.len() > 0 && white_space(s[0]) {
        trim_start(s.drop_first())
    } else {
        s
    }
}

/// `s` without the white space at its end.
pub open spec fn trim_end(s: Seq<char>) -> Seq<char>
    decreases s.len(),
{
    if s.len() > 0 && white_space(s.last()) {
        trim_end(s.drop_last())
    } else {
        s
    }
}

/// `s` without the white space at either end.
pub open spec fn trim(s: Seq<char>) -> Seq<char> {
    trim_end(trim_start(s))
}

/// `s` with every line ending, `\r\n` or a lone `\r`, turned into `\n`.
pub open spec fn unix_newlines(s: Seq<char>) -> Seq<char>
    decreases s.len(),
{
    if s.len() == 0 {
        Seq::empty()
    } else if s[0] != '\r' {
        seq![s[0]] + unix_newlines(s.skip(1))
    } else if s.len() > 1 && s[1] == '\n' {
        seq!['\n'] + unix_newlines(s.skip(2))
    } else {
        seq!['\n'] + unix_newlines(s.skip(1))
    }
}

/// The letter of an ASCII character in lower case.
pub open spec fn ascii_lower(c: char) -> char {
    if 'A' <= c <= 'Z' {
        ((c as u8 + 32) as u8) as char
    } else {
        c
    }
}

/// The lower case of a text by the Unicode mapping.
pub uninterp spec fn lowercase(s: Seq<char>) -> Seq<char>;

/// `str::to_lowercase`: the lower-case equivalent of the text, a function of the
/// text alone. On a text of ASCII characters, be it the given text or the result, only the
/// letters `A` to `Z` change.
#[verifier::external_body]
pub(crate) fn to_lowercase(s: &str) -> (r: String)
    ensures
        r@ == lowercase(s@),
        vstd::utf8::is_ascii_chars(s@) ==> r@ == s@.map_values(|c: char| ascii_lower(c)),
        vstd::utf8::is_ascii_chars(r@) ==> lowercase(r@) == r@.map_values(
            |c: char| ascii_lower(c),
        ),
{
    s.to_lowercase()
}

/// Whether a character has the Unicode property `White_Space`.
pub fn is_white_space(c: char) -> (r: bool)
    ensures
        r == white_space(c),
{
    ('\u{9}' <= c && c <= '\u{d}') || c == ' ' || c == '\u{85}' || c == '\u{a0}' || c
        == '\u{1680}' || ('\u{2000}' <= c && c <= '\u{200a}') || c == '\u{2028}' || c
        == '\u{2029}' || c == '\u{202f}' || c == '\u{205f}' || c == '\u{3000}'
}

/// Trimming leaves the text between the first and the last character that is no
/// white space.
proof fn lemma_trim_range(s: Seq<char>, a: int, b: int)
    requires
        0 <= a <= b <= s.len(),
        forall|j: int| 0 <= j < a ==> white_space(s[j]),
        forall|j: int| b <= j < s.len() ==> white_space(s[j]),
        a < b ==> !white_space(s[a]) && !white_space(s[b - 1]),
        a == b ==> b == s.len(),
    ensures
        trim(s) == s.subrange(a, b),
    decreases s.len(),
{
    if a > 0 {
        let t = s.drop_first();
        assert forall|j: int| 0 <= j < a - 1 implies white_space(t[j]) by {
            assert(t[j] == s[j + 1]);
        }
        lemma_trim_range(t, a - 1, b - 1);
        assert(t.subrange(a - 1, b - 1) =~= s.subrange(a, b));
    } else {
        assert(trim_start(s) == s);
        lemma_trim_end_range(s, b);
        assert(s.take(b) =~= s.subrange(a, b));
    }
}

proof fn lemma_trim_end_range(s: Seq<char>, b: int)
    requires
        0 <= b <= s.len(),
        forall|j: int| b <= j < s.len() ==> white_space(s[j]),
        0 < b ==> !white_space(s[b - 1]),
    ensures
        trim_end(s) == s.take(b),
    decreases s.len(),
{
    if b < s.len() {
        lemma_trim_end_range(s.drop_last(), b);
        assert(s.drop_last().take(b) =~= s.take(b));
    } else {
        assert(s.take(b) =~= s);
    }
}

/// The text without the white space at either end.
pub fn trim_text(s: &str) -> (r: String)
    ensures
        r@ == trim(s@),
{
    let chars = chars_of(s);
    let n: usize = chars.len();
    let mut a: usize = 0;
    while a < n && is_white_space(chars[a])
        invariant
            n == chars@.len(),
            a <= n,
            forall|j: int| 0 <= j < a ==> white_space(chars@[j]),
        decreases n - a,
    {
        a += 1;
    }
    let mut b: usize = n;
    while b > a && is_white_space(chars[b - 1])
        invariant
            n == chars@.len(),
            a <= b <= n,
            a < n ==> !white_space(chars@[a as int]),
            forall|j: int| b <= j < n ==> white_space(chars@[j]),
        decreases b,
    {
        b -= 1;
    }
    proof {
        lemma_trim_range(s@, a as int, b as int);
    }
    text_of(&chars, a, b)
}

/// The text with every line ending turned into a line feed.
pub fn unix_newlines_text(s: &str) -> (r: String)
    ensures
        r@ == unix_newlines(s@),
{
    let chars = chars_of(s);
    let mut out = String::new();
    let mut i: usize = 0;
    proof {
        assert(s@.skip(0) =~= s@);
        assert(out@ + unix_newlines(s@) =~= unix_newlines(s@));
    }
    while i < chars.len()
        invariant
            chars@ == s@,
            i <= chars@.len(),
            out@ + unix_newlines(s@.skip(i as int)) == unix_newlines(s@),
        decreases chars@.len() - i,
    {
        let ghost rest = s@.skip(i as int);
        let ghost before = out@;
        let c = chars[i];
        proof {
            assert(rest.skip(1) =~= s@.skip(i + 1));
            if i + 2 <= s@.len() {
                assert(rest.skip(2) =~= s@.skip(i + 2));
            }
        }
        if c != '\r' {
            out.push(c);
            i += 1;
        } else if i + 1 < chars.len() && chars[i + 1] == '\n' {
            out.push('\n');
            i += 2;
        } else {
            out.push('\n');
            i += 1;
        }
        proof {
            let last = out@.last();
            assert(out@ + unix_newlines(s@.skip(i as int)) =~= before + (seq![last]
                + unix_newlines(s@.skip(i as int))));
        }
    }
    proof {
        assert(out@ + unix_newlines(s@.skip(i as int)) =~= out@);
    }
    out
}

/// Whether `a` stands before `b` in the order of their characters.
pub open spec fn text_less(a: Seq<char>, b: Seq<char>) -> bool
    decreases a.len(),
{
    if b.len() == 0 {
        false
    } else if a.len() == 0 {
        true
    } else if a[0] != b[0] {
        a[0] < b[0]
    } else {
        text_less(a.drop_first(), b.drop_first())
    }
}

/// The order of texts is strict.
pub proof fn lemma_text_less_asym(a: Seq<char>, b: Seq<char>)
    ensures
        text_less(a, b) ==> !text_less(b, a),
    decreases a.len(),
{
    if a.len() > 0 && b.len() > 0 && a[0] == b[0] {
        lemma_text_less_asym(a.drop_first(), b.drop_first());
    }
}

/// The order of texts is transitive, also where neither of two texts stands before
/// the other.
pub proof fn lemma_text_less_trans(a: Seq<char>, b: Seq<char>, c: Seq<char>)
    ensures
        text_less(a, b) && text_less(b, c) ==> text_less(a, c),
        !text_less(b, a) && !text_less(c, b) ==> !text_less(c, a),
    decreases a.len(),
{
    if a.len() > 0 && b.len() > 0 && c.len() > 0 && a[0] == b[0] && b[0] == c[0] {
        lemma_text_less_trans(a.drop_first(), b.drop_first(), c.drop_first());
    }
}

/// Two texts of which neither stands before the other are the same.
pub proof fn lemma_text_less_total(a: Seq<char>, b: Seq<char>)
    requires
        !text_less(a, b),
        !text_less(b, a),
    ensures
        a == b,
    decreases a.len(),
{
    if a.len() > 0 && b.len() > 0 {
        let (x, y) = (a.drop_first(), b.drop_first());
        lemma_text_less_total(x, y);
        assert forall|i: int| 0 <= i < a.len() implies a[i] == b[i] by {
            if i > 0 {
                assert(a[i] == x[i - 1] && b[i] == y[i - 1]);
            }
        }
        assert(a.len() == x.len() + 1 && b.len() == y.len() + 1);
    }
    assert(a =~= b);
}

/// Whether `a` stands before `b` in the order of their characters.
pub fn is_text_less(a: &str, b: &str) -> (r: bool)
    ensures
        r == text_less(a@, b@),
{
    let x = chars_of(a);
    let y = chars_of(b);
    let mut i: usize = 0;
    proof {
        assert(a@.skip(0) =~= a@);
        assert(b@.skip(0) =~= b@);
    }
    while i < x.len() && i < y.len()
        invariant
            x@ == a@,
            y@ == b@,
            i <= x@.len(),
            i <= y@.len(),
            text_less(a@.skip(i as int), b@.skip(i as int)) == text_less(a@, b@),
        decreases x@.len() - i,
    {
        if x[i] != y[i] {
            return x[i] < y[i];
        }
        proof {
            assert(a@.skip(i as int).drop_first() =~= a@.skip(i + 1));
            assert(b@.skip(i as int).drop_first() =~= b@.skip(i + 1));
        }
        i += 1;
    }
    i < y.len()
}

/// A path below a directory, as Unix has paths: a slash parts them, and a path that begins
/// with one is absolute. An absolute path stands for itself.
pub open spec fn path_join(dir: Seq<char>, rel: Seq<char>) -> Seq<char> {
    if rel.len() > 0 && rel[0] == '/' {
        rel
    } else if dir.len() == 0 || dir.last() == '/' {
        dir + rel
    } else {
        dir + "/"@ + rel
    }
}

/// A path below a directory.
pub fn join_path(dir: &str, rel: &str) -> (r: String)
    ensures
        r@ == path_join(dir@, rel@),
{
    let rel_chars = chars_of(rel);
    if rel_chars.len() > 0 && rel_chars[0] == '/' {
        return rel.to_owned();
    }
    let dir_chars = chars_of(dir);
    let mut out = dir.to_owned();
    if dir_chars.len() > 0 && dir_chars[dir_chars.len() - 1] != '/' {
        out.append("/");
    }
    out.append(rel);
    out
}

/// The hexadecimal digit of a number below sixteen.
pub open spec fn hex_digit(d: nat) -> char {
    if d < 10 {
        ((48 + d) as u8) as char
    } else {
        ((87 + d) as u8) as char
    }
}

/// The lowest `width` hexadecimal digits of `n`.
pub open spec fn hex(n: nat, width: nat) -> Seq<char>
    decreases width,
{
    if width == 0 {
        Seq::empty()
    } else {
        hex(n / 16, (width - 1) as nat).push(hex_digit(n % 16))
    }
}

/// The lowest `width` hexadecimal digits of a number.
pub fn hex_text(n: u64, width: usize) -> (r: String)
    ensures
        r@ == hex(n as nat, width as nat),
    decreases width,
{
    if width == 0 {
        String::new()
    } else {
        let mut out = hex_text(n / 16, width - 1);
        let d: u8 = (n % 16) as u8;
        if d < 10 {
            out.push((48 + d) as char);
        } else {
            out.push((87 + d) as char);
        }
        out
    }
}

/// The number that a row of decimal digits stands for.
pub open spec fn digits_value(s: Seq<char>) -> nat
    decreases s.len(),
{
    if s.len() == 0 {
        0
    } else {
        digits_value(s.drop_last()) * 10 + (s.last() as nat - 48) as nat
    }
}

/// Whether a character is a decimal digit.
pub open spec fn is_digit(c: char) -> bool {
    '0' <= c <= '9'
}

/// A numeral without a plus sign before it.
pub open spec fn unsigned_part(s: Seq<char>) -> Seq<char> {
    if s.len() > 1 && s[0] == '+' {
        s.skip(1)
    } else {
        s
    }
}

/// Whether every character is a decimal digit.
pub open spec fn all_digits(s: Seq<char>) -> bool {
    forall|i: int| 0 <= i < s.len() ==> is_digit(#[trigger] s[i])
}

/// The natural number that a numeral stands for, where it is at most `max`: digits with
/// an optional plus sign before them.
pub open spec fn parse_number(s: Seq<char>, max: nat) -> Option<nat> {
    let digits = unsigned_part(s);
    if digits.len() > 0 && all_digits(digits) && digits_value(digits) <= max {
        Some(digits_value(digits))
    } else {
        None
    }
}

proof fn lemma_digits_value_prefix(s: Seq<char>, i: int)
    requires
        0 <= i <= s.len(),
        all_digits(s),
    ensures
        digits_value(s.take(i)) <= digits_value(s),
    decreases s.len() - i,
{
    if i < s.len() {
        lemma_digits_value_prefix(s, i + 1);
        assert(s.take(i + 1).drop_last() =~= s.take(i));
    } else {
        assert(s.take(i) =~= s);
    }
}

/// The natural number that a numeral stands for.
pub fn parse_u64(s: &str) -> (r: Option<u64>)
    ensures
        match r {
            Some(n) => parse_number(s@, u64::MAX as nat) == Some(n as nat),
            None => parse_number(s@, u64::MAX as nat) is None,
        },
{
    let chars = chars_of(s);
    let from: usize = if chars.len() > 1 && chars[0] == '+' {
        1
    } else {
        0
    };
    let ghost digits = unsigned_part(s@);
    proof {
        assert(digits =~= chars@.skip(from as int));
    }
    if from == chars.len() {
        return None;
    }
    let mut value: u64 = 0;
    let mut i: usize = from;
    proof {
        assert(digits.take(0) =~= Seq::empty());
    }
    while i < chars.len()
        invariant
            from <= i <= chars@.len(),
            digits == chars@.skip(from as int),
            digits == unsigned_part(s@),
            forall|j: int| 0 <= j < i - from ==> is_digit(#[trigger] digits[j]),
            value == digits_value(digits.take(i - from)),
        decreases chars@.len() - i,
    {
        let c = chars[i];
        proof {
            assert(digits[i - from] == c);
            assert(digits.take(i - from + 1).drop_last() =~= digits.take(i - from));
            assert(digits.take(i - from + 1).last() == c);
        }
        if c < '0' || c > '9' {
            proof {
                assert(!is_digit(digits[i - from]));
            }
            return None;
        }
        let d: u64 = (c as u32 - 48) as u64;
        let next = match value.checked_mul(10) {
            Some(v) => v.checked_add(d),
            None => None,
        };
        match next {
            Some(v) => {
                value = v;
            },
            None => {
                proof {
                    if all_digits(digits) {
                        lemma_digits_value_prefix(digits, i - from + 1);
                    }
                }
                return None;
            },
        }
        i += 1;
    }
    proof {
        assert(digits.take(i - from) =~= digits);
    }
    Some(value)
}

/// The natural number that a numeral stands for, where it fits a size.
pub fn parse_usize(s: &str) -> (r: Option<usize>)
    ensures
        match r {
            Some(n) => parse_number(s@, usize::MAX as nat) == Some(n as nat),
            None => parse_number(s@, usize::MAX as nat) is None,
        },
{
    match parse_u64(s) {
        Some(n) => {
            if n <= usize::MAX as u64 {
                Some(n as usize)
            } else {
                None
            }
        },
        None => None,
    }
}

/// The pieces of a text one after the other, the last one apart.
pub proof fn lemma_flatten_last(parts: Seq<Seq<char>>)
    requires
        parts.len() > 0,
    ensures
        parts.flatten() == parts.drop_last().flatten() + parts.last(),
{
    assert(parts =~= parts.drop_last().push(parts.last()));
    parts.drop_last().lemma_flatten_push(parts.last());
}

/// The pieces of a text one after the other, one of them apart.
pub proof fn lemma_flatten_at(parts: Seq<Seq<char>>, i: int)
    requires
        0 <= i < parts.len(),
    ensures
        parts.flatten() == parts.take(i).flatten() + parts[i] + parts.skip(i + 1).flatten(),
{
    let front = parts.take(i + 1);
    assert(parts =~= front + parts.skip(i + 1));
    vstd::seq_lib::lemma_flatten_concat(front, parts.skip(i + 1));
    lemma_flatten_last(front);
    assert(front.drop_last() =~= parts.take(i));
}

/// A decimal numeral holds digits only, and stands for its number.
pub proof fn lemma_decimal_value(n: nat)
    ensures
        decimal(n).len() > 0,
        all_digits(decimal(n)),
        digits_value(decimal(n)) == n,
    decreases n,
{
    if n >= 10 {
        lemma_decimal_value(n / 10);
        let front = decimal(n / 10);
        let s = decimal(n);
        assert(s.drop_last() =~= front);
        assert forall|i: int| 0 <= i < s.len() implies is_digit(#[trigger] s[i]) by {
            if i < front.len() {
                assert(s[i] == front[i]);
            }
        }
    } else {
        assert(decimal(n).drop_last() =~= Seq::empty());
        assert(digits_value(Seq::<char>::empty()) == 0);
    }
}

/// A decimal numeral is read back as its number.
pub proof fn lemma_parse_decimal(n: nat, max: nat)
    requires
        n <= max,
    ensures
        parse_number(decimal(n), max) == Some(n),
{
    lemma_decimal_value(n);
    assert(is_digit(decimal(n)[0]));
}

/// The length of the word at the start of `s`: up to the first white space.
pub open spec fn word_len(s: Seq<char>) -> nat
    decreases s.len(),
{
    if s.len() == 0 || white_space(s[0]) {
        0
    } else {
        1 + word_len(s.drop_first())
    }
}

/// The first word of `s`, where it has one.
pub open spec fn first_word(s: Seq<char>) -> Option<Seq<char>> {
    let t = trim_start(s);
    if t.len() == 0 {
        None
    } else {
        Some(t.take(word_len(t) as int))
    }
}

/// The word at the start of a text ends where the first white space stands.
pub proof fn lemma_word_len_at(s: Seq<char>, i: int)
    requires
        0 <= i <= s.len(),
        i < s.len() ==> white_space(s[i]),
        forall|j: int| 0 <= j < i ==> !white_space(s[j]),
    ensures
        word_len(s) == i,
    decreases s.len(),
{
    if i > 0 {
        let t = s.drop_first();
        assert forall|j: int| 0 <= j < i - 1 implies !white_space(t[j]) by {
            assert(t[j] == s[j + 1]);
        }
        lemma_word_len_at(t, i - 1);
    }
}

proof fn lemma_trim_start_at(s: Seq<char>, i: int)
    requires
        0 <= i <= s.len(),
        i < s.len() ==> !white_space(s[i]),
        forall|j: int| 0 <= j < i ==> white_space(s[j]),
    ensures
        trim_start(s) == s.skip(i),
    decreases s.len(),
{
    if i > 0 {
        let t = s.drop_first();
        assert forall|j: int| 0 <= j < i - 1 implies white_space(t[j]) by {
            assert(t[j] == s[j + 1]);
        }
        lemma_trim_start_at(t, i - 1);
        assert(t.skip(i - 1) =~= s.skip(i));
    } else {
        assert(s.skip(0) =~= s);
    }
}

/// The first word of a text.
pub fn first_word_text(s: &str) -> (r: Option<String>)
    ensures
        match r {
            Some(w) => first_word(s@) == Some(w@),
            None => first_word(s@) is None,
        },
{
    let chars = chars_of(s);
    let n: usize = chars.len();
    let mut a: usize = 0;
    while a < n && is_white_space(chars[a])
        invariant
            n == chars@.len(),
            a <= n,
            forall|j: int| 0 <= j < a ==> white_space(chars@[j]),
        decreases n - a,
    {
        a += 1;
    }
    proof {
        lemma_trim_start_at(s@, a as int);
    }
    if a == n {
        return None;
    }
    let mut b: usize = a;
    while b < n && !is_white_space(chars[b])
        invariant
            n == chars@.len(),
            a <= b <= n,
            forall|j: int| a <= j < b ==> !white_space(chars@[j]),
        decreases n - b,
    {
        b += 1;
    }
    let word = text_of(&chars, a, b);
    proof {
        let t = s@.skip(a as int);
        lemma_word_len_at(t, b - a);
        assert(word@ =~= t.take(b - a));
    }
    Some(word)
}

/// The same texts again.
pub fn copy_texts(texts: &Vec<String>) -> (r: Vec<String>)
    ensures
        views(r@) == views(texts@),
{
    let mut out: Vec<String> = Vec::new();
    let mut i: usize = 0;
    while i < texts.len()
        invariant
            i <= texts@.len(),
            out@.len() == i,
            forall|j: int| 0 <= j < i ==> (#[trigger] out@[j])@ == texts@[j]@,
        decreases texts@.len() - i,
    {
        out.push(texts[i].clone());
        i += 1;
    }
    proof {
        assert(views(out@) =~= views(texts@));
    }
    out
}

/// The text behind a prefix, where it begins with it.
pub fn strip_prefix_text(s: &str, prefix: &str) -> (r: Option<String>)
    ensures
        match r {
            Some(rest) => prefix@.is_prefix_of(s@) && rest@ == s@.skip(prefix@.len() as int),
            None => !prefix@.is_prefix_of(s@),
        },
{
    if starts_with(s, prefix) {
        let chars = chars_of(s);
        let start: usize = chars_of(prefix).len();
        let rest = text_of(&chars, start, chars.len());
        proof {
            assert(rest@ =~= s@.skip(prefix@.len() as int));
        }
        Some(rest)
    } else {
        None
    }
}

/// The place of the first text that is `part`, or the number of texts where none is.
pub fn find_place(parts: &Vec<String>, part: &str) -> (r: usize)
    ensures
        r == place_of(views(parts@), part@),
        r <= parts@.len(),
{
    let mut i: usize = 0;
    proof {
        assert(views(parts@).skip(0) =~= views(parts@));
    }
    while i < parts.len()
        invariant
            i <= parts@.len(),
            place_of(views(parts@), part@) == i + place_of(views(parts@).skip(i as int), part@),
        decreases parts@.len() - i,
    {
        let ghost rest = views(parts@).skip(i as int);
        if str_eq(parts[i].as_str(), part) {
            return i;
        }
        proof {
            assert(rest.drop_first() =~= views(parts@).skip(i + 1));
        }
        i += 1;
    }
    i
}

/// Joined parts are the parts in their turn, each but the first behind a separator.
pub proof fn lemma_join_in_turn(parts: Seq<Seq<char>>, sep: Seq<char>)
    ensures
        join(parts, sep) == Seq::new(
            parts.len(),
            |k: int|
                if k == 0 {
                    parts[k]
                } else {
                    sep + parts[k]
                },
        ).flatten(),
    decreases parts.len(),
{
    let shown = Seq::new(
        parts.len(),
        |k: int|
            if k == 0 {
                parts[k]
            } else {
                sep + parts[k]
            },
    );
    if parts.len() > 0 {
        let front = parts.drop_last();
        lemma_join_in_turn(front, sep);
        assert(shown.drop_last() =~= Seq::new(
            front.len(),
            |k: int|
                if k == 0 {
                    front[k]
                } else {
                    sep + front[k]
                },
        ));
        lemma_flatten_last(shown);
        if parts.len() > 1 {
            assert(join(parts, sep) =~= join(front, sep) + (sep + parts.last()));
        } else {
            assert(front =~= Seq::empty());
            assert(shown.drop_last() =~= Seq::empty());
            assert(shown.flatten() =~= parts[0]);
        }
    }
}

/// A text stands before another where it is the beginning of it, or where it has the lower
/// character at the first place at which they differ.
pub proof fn lemma_text_less_at(a: Seq<char>, b: Seq<char>, i: int)
    requires
        0 <= i <= a.len(),
        i <= b.len(),
        a.take(i) == b.take(i),
        i < a.len() && i < b.len() ==> a[i] != b[i],
        i == a.len() || i == b.len() || a[i] != b[i],
    ensures
        text_less(a, b) <==> i < b.len() && (i == a.len() || a[i] < b[i]),
    decreases i,
{
    if i > 0 {
        assert(a.take(i)[0] == a[0] && b.take(i)[0] == b[0]);
        let s = a.drop_first();
        let t = b.drop_first();
        assert(s.take(i - 1) =~= a.take(i).skip(1));
        assert(t.take(i - 1) =~= b.take(i).skip(1));
        lemma_text_less_at(s, t, i - 1);
    }
}

/// The pieces of a text between separators, each but the first behind one, make up the
/// text, and no piece holds a separator.
pub proof fn lemma_split_makes_text(s: Seq<char>, c: char)
    ensures
        split(s, c).len() > 0,
        s == Seq::new(
            split(s, c).len(),
            |k: int|
                if k == 0 {
                    split(s, c)[k]
                } else {
                    seq![c] + split(s, c)[k]
                },
        ).flatten(),
        forall|k: int, j: int|
            0 <= k < split(s, c).len() && 0 <= j < split(s, c)[k].len() ==> #[trigger] split(
                s,
                c,
            )[k][j] != c,
    decreases s.len(),
{
    let pieces = split(s, c);
    let parts = Seq::new(
        pieces.len(),
        |k: int|
            if k == 0 {
                pieces[k]
            } else {
                seq![c] + pieces[k]
            },
    );
    lemma_position_bounds(s, c);
    let p = position(s, c) as int;
    if p >= s.len() {
        assert(parts =~= seq![s]);
        parts.lemma_flatten_one_element();
    } else {
        let rest = s.skip(p + 1);
        lemma_split_makes_text(rest, c);
        let more = split(rest, c);
        let tail = Seq::new(
            more.len(),
            |k: int|
                if k == 0 {
                    more[k]
                } else {
                    seq![c] + more[k]
                },
        );
        assert(tail.flatten() == more[0] + tail.drop_first().flatten());
        let back = parts.drop_first();
        assert(back.drop_first() =~= tail.drop_first());
        assert(back.first() =~= seq![c] + more[0]);
        assert(back.flatten() =~= seq![c] + rest);
        assert(parts.first() == s.take(p));
        assert(parts.flatten() =~= s.take(p) + (seq![c] + rest));
        assert(s =~= s.take(p) + (seq![c] + rest));
        assert forall|k: int, j: int|
            0 <= k < pieces.len() && 0 <= j < pieces[k].len() implies #[trigger] pieces[k][j]
            != c by {
            if k > 0 {
                assert(pieces[k] == more[k - 1]);
            }
        }
    }
}

/// The lines of a text come from the pieces between its line feeds, which are given back: a
/// line feed at the end begins no line, and a carriage return before a line feed belongs to
/// no line.
pub proof fn lemma_lines_make_text(s: Seq<char>) -> (raws: Seq<Seq<char>>)
    ensures
        raws.len() == lines(s).len(),
        raws.len() == 0 <==> s.len() == 0,
        s == Seq::new(
            raws.len(),
            |k: int|
                if k < raws.len() - 1 || s.last() == '\n' {
                    raws[k].push('\n')
                } else {
                    raws[k]
                },
        ).flatten(),
        forall|k: int, j: int|
            0 <= k < raws.len() && 0 <= j < raws[k].len() ==> #[trigger] raws[k][j] != '\n',
        forall|k: int|
            0 <= k < raws.len() ==> #[trigger] lines(s)[k] == if (k < raws.len() - 1 || s.last()
                == '\n') && raws[k].len() > 0 && raws[k].last() == '\r' {
                raws[k].drop_last()
            } else {
                raws[k]
            },
    decreases s.len(),
{
    lemma_position_bounds(s, '\n');
    let p = position(s, '\n') as int;
    if s.len() == 0 {
        let raws = Seq::<Seq<char>>::empty();
        let parts = Seq::new(
            raws.len(),
            |k: int|
                if k < raws.len() - 1 || s.last() == '\n' {
                    raws[k].push('\n')
                } else {
                    raws[k]
                },
        );
        assert(parts.flatten() =~= s);
        raws
    } else if p >= s.len() {
        let raws = seq![s];
        let parts = Seq::new(
            raws.len(),
            |k: int|
                if k < raws.len() - 1 || s.last() == '\n' {
                    raws[k].push('\n')
                } else {
                    raws[k]
                },
        );
        assert(parts =~= seq![s]);
        parts.lemma_flatten_one_element();
        raws
    } else {
        let rest = s.skip(p + 1);
        let more = lemma_lines_make_text(rest);
        let raws = seq![s.take(p)] + more;
        let parts = Seq::new(
            raws.len(),
            |k: int|
                if k < raws.len() - 1 || s.last() == '\n' {
                    raws[k].push('\n')
                } else {
                    raws[k]
                },
        );
        let tail = Seq::new(
            more.len(),
            |k: int|
                if k < more.len() - 1 || rest.last() == '\n' {
                    more[k].push('\n')
                } else {
                    more[k]
                },
        );
        if rest.len() > 0 {
            assert(rest.last() == s.last());
        }
        assert(parts.drop_first() =~= tail);
        assert(parts.first() =~= s.take(p).push('\n'));
        assert(s =~= s.take(p).push('\n') + rest);
        assert forall|k: int, j: int|
            0 <= k < raws.len() && 0 <= j < raws[k].len() implies #[trigger] raws[k][j]
            != '\n' by {
            if k > 0 {
                assert(raws[k] == more[k - 1]);
            }
        }
        assert forall|k: int| 0 <= k < raws.len() implies #[trigger] lines(s)[k] == if (k
            < raws.len() - 1 || s.last() == '\n') && raws[k].len() > 0 && raws[k].last() == '\r' {
            raws[k].drop_last()
        } else {
            raws[k]
        } by {
            if k > 0 {
                assert(raws[k] == more[k - 1]);
                assert(lines(s)[k] == lines(rest)[k - 1]);
            }
        }
        raws
    }
}

proof fn lemma_trim_start_is_rest(s: Seq<char>) -> (i: int)
    ensures
        0 <= i <= s.len(),
        trim_start(s) == s.skip(i),
        forall|k: int| 0 <= k < i ==> white_space(#[trigger] s[k]),
        i < s.len() ==> !white_space(s[i]),
    decreases s.len(),
{
    if s.len() > 0 && white_space(s[0]) {
        let t = s.drop_first();
        let i = lemma_trim_start_is_rest(t);
        assert(s.skip(i + 1) =~= t.skip(i));
        assert forall|k: int| 0 <= k < i + 1 implies white_space(#[trigger] s[k]) by {
            if k > 0 {
                assert(t[k - 1] == s[k]);
            }
        }
        i + 1
    } else {
        assert(s.skip(0) =~= s);
        0
    }
}

proof fn lemma_trim_end_is_front(s: Seq<char>) -> (j: int)
    ensures
        0 <= j <= s.len(),
        trim_end(s) == s.take(j),
        forall|k: int| j <= k < s.len() ==> white_space(#[trigger] s[k]),
        j > 0 ==> !white_space(s[j - 1]),
    decreases s.len(),
{
    if s.len() > 0 && white_space(s.last()) {
        let t = s.drop_last();
        let j = lemma_trim_end_is_front(t);
        assert(s.take(j) =~= t.take(j));
        assert forall|k: int| j <= k < s.len() implies white_space(#[trigger] s[k]) by {
            if k < t.len() {
                assert(t[k] == s[k]);
            }
        }
        j
    } else {
        assert(s.take(s.len() as int) =~= s);
        s.len() as int
    }
}

/// A trimmed text is the stretch of the text that is given back: all before and behind it is
/// white space, and it neither begins nor ends with any.
pub proof fn lemma_trim_cuts_white_space(s: Seq<char>) -> (r: (int, int))
    ensures
        0 <= r.0 <= r.1 <= s.len(),
        trim(s) == s.subrange(r.0, r.1),
        forall|k: int| 0 <= k < r.0 ==> white_space(#[trigger] s[k]),
        forall|k: int| r.1 <= k < s.len() ==> white_space(#[trigger] s[k]),
        r.0 < r.1 ==> !white_space(s[r.0]) && !white_space(s[r.1 - 1]),
{
    let i = lemma_trim_start_is_rest(s);
    let t = trim_start(s);
    let j = lemma_trim_end_is_front(t);
    assert(t.take(j) =~= s.subrange(i, i + j));
    assert forall|k: int| i + j <= k < s.len() implies white_space(#[trigger] s[k]) by {
        assert(t[k - i] == s[k]);
    }
    (i, i + j)
}

/// Of the line endings of a text every carriage return becomes a line feed, and a line feed
/// right behind a carriage return goes; every other character stays.
pub proof fn lemma_unix_newlines_in_turn(s: Seq<char>)
    ensures
        unix_newlines(s) == Seq::new(
            s.len(),
            |k: int|
                if s[k] == '\r' {
                    seq!['\n']
                } else if s[k] == '\n' && k > 0 && s[k - 1] == '\r' {
                    Seq::empty()
                } else {
                    seq![s[k]]
                },
        ).flatten(),
    decreases s.len(),
{
    let parts = Seq::new(
        s.len(),
        |k: int|
            if s[k] == '\r' {
                seq!['\n']
            } else if s[k] == '\n' && k > 0 && s[k - 1] == '\r' {
                Seq::empty()
            } else {
                seq![s[k]]
            },
    );
    if s.len() > 0 {
        let n: int = if s[0] == '\r' && s.len() > 1 && s[1] == '\n' {
            2
        } else {
            1
        };
        let rest = s.skip(n);
        lemma_unix_newlines_in_turn(rest);
        let tail = Seq::new(
            rest.len(),
            |k: int|
                if rest[k] == '\r' {
                    seq!['\n']
                } else if rest[k] == '\n' && k > 0 && rest[k - 1] == '\r' {
                    Seq::empty()
                } else {
                    seq![rest[k]]
                },
        );
        assert(parts.skip(n) =~= tail);
        if n == 2 {
            let back = parts.drop_first();
            assert(back.drop_first() =~= tail);
            assert(back.first() =~= Seq::<char>::empty());
            assert(back.flatten() =~= tail.flatten());
        } else {
            assert(parts.drop_first() =~= tail);
        }
    }
}

/// The first word of a text is the stretch that is given back: all before it is white space,
/// none of it is, and it ends before white space or with the text. A text has none exactly
/// where it is all white space.
pub proof fn lemma_first_word_is_stretch(s: Seq<char>) -> (r: (int, int))
    ensures
        first_word(s) is None <==> forall|k: int| 0 <= k < s.len() ==> white_space(#[trigger] s[k]),
        first_word(s) is Some ==> {
            &&& 0 <= r.0 < r.1 <= s.len()
            &&& first_word(s)->0 == s.subrange(r.0, r.1)
            &&& forall|k: int| 0 <= k < r.0 ==> white_space(#[trigger] s[k])
            &&& forall|k: int| r.0 <= k < r.1 ==> !white_space(#[trigger] s[k])
            &&& r.1 < s.len() ==> white_space(s[r.1])
        },
{
    let i = lemma_trim_start_is_rest(s);
    let t = trim_start(s);
    let n = lemma_word_is_front(t);
    if t.len() > 0 {
        assert(t[0] == s[i]);
        assert(t.take(n) =~= s.subrange(i, i + n));
        assert forall|k: int| i <= k < i + n implies !white_space(#[trigger] s[k]) by {
            assert(t[k - i] == s[k]);
        }
        if n < t.len() {
            assert(t[n] == s[i + n]);
        }
        assert(!white_space(s[i]));
    }
    (i, i + n)
}

proof fn lemma_word_is_front(s: Seq<char>) -> (n: int)
    ensures
        n == word_len(s),
        0 <= n <= s.len(),
        s.len() > 0 && !white_space(s[0]) ==> n > 0,
        forall|k: int| 0 <= k < n ==> !white_space(#[trigger] s[k]),
        n < s.len() ==> white_space(s[n]),
    decreases s.len(),
{
    if s.len() == 0 || white_space(s[0]) {
        0
    } else {
        let t = s.drop_first();
        let n = lemma_word_is_front(t);
        assert forall|k: int| 0 <= k < n + 1 implies !white_space(#[trigger] s[k]) by {
            if k > 0 {
                assert(t[k - 1] == s[k]);
            }
        }
        n + 1
    }
}

/// A place is where the first such part stands: it is at most the number of parts, the part
/// stands there where it is below that, and none before it is the same.
pub proof fn lemma_place_of_is_first(parts: Seq<Seq<char>>, part: Seq<char>)
    ensures
        place_of(parts, part) <= parts.len(),
        place_of(parts, part) < parts.len() ==> parts[place_of(parts, part) as int] == part,
        forall|k: int| 0 <= k < place_of(parts, part) ==> #[trigger] parts[k] != part,
        place_of(parts, part) < parts.len() <==> parts.contains(part),
    decreases parts.len(),
{
    if parts.len() > 0 && parts[0] != part {
        let rest = parts.drop_first();
        lemma_place_of_is_first(rest, part);
        assert forall|k: int| 0 <= k < place_of(parts, part) implies #[trigger] parts[k]
            != part by {
            if k > 0 {
                assert(rest[k - 1] == parts[k]);
            }
        }
        if parts.contains(part) {
            let k = parts.index_of(part);
            assert(rest[k - 1] == part);
        }
    }
}

/// The lowest hexadecimal digits of two numbers are the same exactly where the numbers leave
/// the same rest by that power of sixteen.
pub proof fn lemma_hex_tells_low_digits(n: nat, m: nat, width: nat)
    ensures
        hex(n, width) == hex(m, width) <==> n as int % vstd::arithmetic::power::pow(16, width)
            == m as int % vstd::arithmetic::power::pow(16, width),
    decreases width,
{
    let whole = vstd::arithmetic::power::pow(16, width);
    if width == 0 {
        vstd::arithmetic::power::lemma_pow0(16);
        assert(hex(n, 0) =~= hex(m, 0));
    } else {
        let w = (width - 1) as nat;
        let part = vstd::arithmetic::power::pow(16, w);
        lemma_hex_tells_low_digits(n / 16, m / 16, w);
        vstd::arithmetic::power::lemma_pow_positive(16, w);
        reveal(vstd::arithmetic::power::pow);
        assert(whole == 16 * part);
        vstd::arithmetic::div_mod::lemma_breakdown(n as int, 16, part);
        vstd::arithmetic::div_mod::lemma_breakdown(m as int, 16, part);
        let a = hex(n, width);
        let b = hex(m, width);
        assert(a.drop_last() =~= hex(n / 16, w) && a.last() == hex_digit(n % 16));
        assert(b.drop_last() =~= hex(m / 16, w) && b.last() == hex_digit(m % 16));
        assert(hex_digit(n % 16) == hex_digit(m % 16) <==> n % 16 == m % 16);
        if hex(n / 16, w) == hex(m / 16, w) && n % 16 == m % 16 {
            assert(a =~= b);
        }
    }
}

/// A text is split in two at its first separator: what stands before it holds none, and what
/// stands behind it may hold others. A text without a separator is not split.
pub proof fn lemma_split_once_at(front: Seq<char>, c: char, back: Seq<char>)
    requires
        !front.contains(c),
    ensures
        split_once(front.push(c) + back, c) == Some((front, back)),
        split_once(front, c) is None,
{
    let s = front.push(c) + back;
    let n = front.len() as int;
    assert forall|j: int| 0 <= j < n implies s[j] != c by {
        assert(front.contains(front[j]));
        assert(s[j] == front[j]);
    }
    assert forall|j: int| 0 <= j < n implies front[j] != c by {
        assert(front.contains(front[j]));
    }
    lemma_position_at(s, c, n);
    lemma_position_at(front, c, n);
    assert(s.take(n) =~= front);
    assert(s.skip(n + 1) =~= back);
}

/// The pieces of two texts with a separator between them are those of the one, then those of
/// the other.
pub proof fn lemma_split_adds_up(first: Seq<char>, c: char, second: Seq<char>)
    ensures
        split(first.push(c) + second, c) == split(first, c) + split(second, c),
    decreases first.len(),
{
    let s = first.push(c) + second;
    lemma_position_bounds(first, c);
    let p = position(first, c) as int;
    assert forall|j: int| 0 <= j < p implies s[j] != c by {
        assert(s[j] == first[j]);
    }
    assert(s[p] == c);
    lemma_position_at(s, c, p);
    assert(s.take(p) =~= first.take(p));
    if p < first.len() {
        let rest = first.skip(p + 1);
        lemma_split_adds_up(rest, c, second);
        assert(s.skip(p + 1) =~= rest.push(c) + second);
        assert(split(s, c) =~= split(first, c) + split(second, c));
    } else {
        assert(first.take(p) =~= first);
        assert(s.skip(p + 1) =~= second);
        assert(split(s, c) =~= split(first, c) + split(second, c));
    }
}

/// A path that begins with a slash stands for itself below any directory. Another stands
/// behind the directory and a slash, unless the directory is empty or ends in one.
pub proof fn lemma_path_join_when(dir: Seq<char>, rel: Seq<char>)
    ensures
        rel.len() > 0 && rel[0] == '/' ==> path_join(dir, rel) == rel,
        !(rel.len() > 0 && rel[0] == '/') && dir.len() == 0 ==> path_join(dir, rel) == rel,
        !(rel.len() > 0 && rel[0] == '/') && dir.len() > 0 && dir.last() == '/' ==> path_join(
            dir,
            rel,
        ) == dir + rel,
        !(rel.len() > 0 && rel[0] == '/') && dir.len() > 0 && dir.last() != '/' ==> path_join(
            dir,
            rel,
        ) == dir.push('/') + rel,
{
    reveal_strlit("/");
    assert(dir + "/"@ + rel =~= dir.push('/') + rel);
    assert(Seq::<char>::empty() + rel =~= rel);
    if dir.len() == 0 {
        assert(dir + rel =~= rel);
    }
}

/// A numeral may have a plus sign before it. With any character that is no digit in another
/// place, without digits, or above the limit it stands for no number.
pub proof fn lemma_parse_number_when(n: nat, max: nat, s: Seq<char>)
    ensures
        n <= max ==> parse_number(seq!['+'] + decimal(n), max) == Some(n),
        n > max ==> parse_number(decimal(n), max) is None,
        s.len() == 0 ==> parse_number(s, max) is None,
        (exists|i: int| 1 <= i < s.len() && !is_digit(#[trigger] s[i])) ==> parse_number(s, max)
            is None,
        s.len() > 0 && !is_digit(s[0]) && s[0] != '+' ==> parse_number(s, max) is None,
        parse_number(seq!['+'], max) is None,
{
    lemma_decimal_value(n);
    lemma_parse_decimal(n, n);
    let plus = seq!['+'] + decimal(n);
    assert(decimal(n).len() > 0);
    assert(plus.skip(1) =~= decimal(n));
    assert(is_digit(decimal(n)[0]));
    assert(unsigned_part(decimal(n)) == decimal(n));
    if exists|i: int| 1 <= i < s.len() && !is_digit(#[trigger] s[i]) {
        let i = choose|i: int| 1 <= i < s.len() && !is_digit(#[trigger] s[i]);
        let digits = unsigned_part(s);
        if digits.len() == s.len() {
            assert(digits[i] == s[i]);
        } else {
            assert(digits[i - 1] == s[i]);
        }
    }
    if s.len() > 0 && !is_digit(s[0]) && s[0] != '+' {
        assert(!all_digits(s)) by {
            assert(!is_digit(s[0]));
        }
    }
    assert(!is_digit(seq!['+'][0]));
}

/// The characters that count as white space, by their code points.
pub proof fn lemma_white_space_codes(c: char)
    ensures
        white_space(c) <==> {
            let n = c as u32;
            ||| 9 <= n <= 13
            ||| n == 0x20
            ||| n == 0x85
            ||| n == 0xa0
            ||| n == 0x1680
            ||| 0x2000 <= n <= 0x200a
            ||| n == 0x2028
            ||| n == 0x2029
            ||| n == 0x202f
            ||| n == 0x205f
            ||| n == 0x3000
        },
{
}

/// Of the letters of ASCII the upper ones become the lower ones; no other character changes.
pub proof fn lemma_ascii_lower_when(c: char)
    ensures
        65 <= c as u32 <= 90 ==> ascii_lower(c) as u32 == c as u32 + 32,
        !(65 <= c as u32 <= 90) ==> ascii_lower(c) == c,
{
}

} // verus!
