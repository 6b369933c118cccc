//! Text as sequences of characters: the vocabulary every other module states
//! its contracts in, with executable counterparts.

use vstd::prelude::*;
use vstd::utf8::{encode_scalar, encode_utf8};

verus! {

broadcast use vstd::string::group_string_axioms;

/// `String::push` appends one character.
pub assume_specification[ String::push ](text: &mut String, c: char)
    ensures
        final(text)@ == old(text)@.push(c),
;

/// The `White_Space` property of Unicode.
pub open spec fn is_whitespace(c: char) -> bool {
    ||| '\u{9}' <= c <= '\u{d}'
    ||| c == '\u{20}'
    ||| c == '\u{85}'
    ||| c == '\u{a0}'
    ||| c == '\u{1680}'
    ||| '\u{2000}' <= c <= '\u{200a}'
    ||| c == '\u{2028}'
    ||| c == '\u{2029}'
    ||| c == '\u{202f}'
    ||| c == '\u{205f}'
    ||| c == '\u{3000}'
}

/// Whether `c` has the `White_Space` property.
pub fn whitespace(c: char) -> (r: bool)
    ensures
        r == is_whitespace(c),
{
    ('\u{9}' <= c && c <= '\u{d}') || c == '\u{20}' || c == '\u{85}' || c == '\u{a0}' || c
        == '\u{1680}' || ('\u{2000}' <= c && c <= '\u{200a}') || c == '\u{2028}' || c == '\u{2029}'
        || c == '\u{202f}' || c == '\u{205f}' || c == '\u{3000}'
}

/// The characters of `text`.
pub fn chars_of(text: &str) -> (r: Vec<char>)
    ensures
        r@ == text@,
{
    let mut out: Vec<char> = Vec::new();
    for c in it: text.chars()
        invariant
            out@ == it.seq().take(it.index() as int),
            it.seq() == text@,
    {
        out.push(c);
    }
    out
}

/// The text made of the characters `from..to` of `chars`.
pub fn slice_text(chars: &Vec<char>, from: usize, to: usize) -> (r: String)
    requires
        from <= to <= chars@.len(),
    ensures
        r@ == chars@.subrange(from as int, to as int),
{
    let mut out = String::new();
    let mut i: usize = from;
    while i < to
        invariant
            from <= i <= to <= chars@.len(),
            out@ == chars@.subrange(from as int, i as int),
        decreases to - i,
    {
        out.push(chars[i]);
        i += 1;
    }
    out
}

/// The text made of `chars`.
pub fn text_of(chars: &Vec<char>) -> (r: String)
    ensures
        r@ == chars@,
{
    slice_text(chars, 0, chars.len())
}

/// Whether two texts hold the same characters.
pub fn same(a: &str, b: &str) -> (r: bool)
    ensures
        r == (a@ == b@),
{
    a.to_owned() == b.to_owned()
}

/// `a` followed by `b`.
pub fn cat2(a: &str, b: &str) -> (r: String)
    ensures
        r@ == a@ + b@,
{
    let mut out = a.to_owned();
    out.append(b);
    out
}

/// `a`, `b` and `c`, one after the other.
pub fn cat3(a: &str, b: &str, c: &str) -> (r: String)
    ensures
        r@ == a@ + b@ + c@,
{
    let mut out = a.to_owned();
    out.append(b);
    out.append(c);
    out
}

/// `a`, `b`, `c` and `d`, one after the other.
pub fn cat4(a: &str, b: &str, c: &str, d: &str) -> (r: String)
    ensures
        r@ == a@ + b@ + c@ + d@,
{
    let mut out = cat3(a, b, c);
    out.append(d);
    out
}

/// `a` to `e`, one after the other.
pub fn cat5(a: &str, b: &str, c: &str, d: &str, e: &str) -> (r: String)
    ensures
        r@ == a@ + b@ + c@ + d@ + e@,
{
    let mut out = cat4(a, b, c, d);
    out.append(e);
    out
}

// ---------------------------------------------------------------------------
// Trimming

/// `s` without its leading whitespace.
pub open spec fn trim_start(s: Seq<char>) -> Seq<char>
    decreases s.len(),
{
    if s.len() > 0 && is_whitespace(s[0]) {
        trim_start(s.drop_first())
    } else {
        s
    }
}

/// `s` without its trailing whitespace.
pub open spec fn trim_end(s: Seq<char>) -> Seq<char>
    decreases s.len(),
{
    if s.len() > 0 && is_whitespace(s.last()) {
        trim_end(s.drop_last())
    } else {
        s
    }
}

/// `s` without whitespace at either end.
pub open spec fn trimmed(s: Seq<char>) -> Seq<char> {
    trim_end(trim_start(s))
}

/// Whether `s` holds nothing but whitespace.
pub open spec fn is_blank(s: Seq<char>) -> bool {
    trimmed(s).len() == 0
}

proof fn lemma_trim_start(s: Seq<char>, i: int)
    requires
        0 <= i <= s.len(),
        forall|k: int| 0 <= k < i ==> is_whitespace(#[trigger] s[k]),
        i < s.len() ==> !is_whitespace(s[i]),
    ensures
        trim_start(s) == s.subrange(i, s.len() as int),
    decreases i,
{
    if i > 0 {
        let rest = s.drop_first();
        assert forall|k: int| 0 <= k < i - 1 implies is_whitespace(#[trigger] rest[k]) by {
            assert(rest[k] == s[k + 1]);
        }
        lemma_trim_start(rest, i - 1);
        assert(rest.subrange(i - 1, rest.len() as int) =~= s.subrange(i, s.len() as int));
    } else {
        assert(s.subrange(0, s.len() as int) =~= s);
    }
}

proof fn lemma_trim_end(s: Seq<char>, j: int)
    requires
        0 <= j <= s.len(),
        forall|k: int| j <= k < s.len() ==> is_whitespace(#[trigger] s[k]),
        j > 0 ==> !is_whitespace(s[j - 1]),
    ensures
        trim_end(s) == s.subrange(0, j),
    decreases s.len(),
{
    if j < s.len() {
        let rest = s.drop_last();
        lemma_trim_end(rest, j);
        assert(rest.subrange(0, j) =~= s.subrange(0, j));
    } else {
        assert(s.subrange(0, s.len() as int) =~= s);
    }
}

/// The text without whitespace at either end.
pub fn trim(text: &str) -> (r: String)
    ensures
        r@ == trimmed(text@),
{
    let chars = chars_of(text);
    let n: usize = chars.len();
    let mut i: usize = 0;
    while i < n && whitespace(chars[i])
        invariant
            0 <= i <= n == chars@.len(),
            forall|k: int| 0 <= k < i ==> is_whitespace(#[trigger] chars@[k]),
        decreases n - i,
    {
        i += 1;
    }
    let mut j: usize = n;
    while j > i && whitespace(chars[j - 1])
        invariant
            i <= j <= n == chars@.len(),
            forall|k: int| j <= k < n ==> is_whitespace(#[trigger] chars@[k]),
        decreases j,
    {
        j -= 1;
    }
    proof {
        lemma_trim_start(chars@, i as int);
        let rest = chars@.subrange(i as int, n as int);
        assert forall|k: int| j - i <= k < rest.len() implies is_whitespace(#[trigger] rest[k]) by {
            assert(rest[k] == chars@[k + i]);
        }
        lemma_trim_end(rest, j - i);
        assert(rest.subrange(0, j - i) =~= chars@.subrange(i as int, j as int));
    }
    slice_text(&chars, i, j)
}

/// Whether the text holds nothing but whitespace.
pub fn blank(text: &str) -> (r: bool)
    ensures
        r == is_blank(text@),
{
    trim(text).as_str().is_empty()
}

// ---------------------------------------------------------------------------
// Searching

/// Whether `p` stands in `s` at position `i`.
pub open spec fn occurs_at<T>(s: Seq<T>, p: Seq<T>, i: int) -> bool {
    0 <= i && i + p.len() <= s.len() && s.subrange(i, i + p.len()) == p
}

/// Whether `s` begins with `p`.
pub open spec fn starts_with<T>(s: Seq<T>, p: Seq<T>) -> bool {
    occurs_at(s, p, 0)
}

/// Whether `p` stands anywhere in `s`.
pub open spec fn contains<T>(s: Seq<T>, p: Seq<T>) -> bool {
    find_from(s, p, 0) is Some
}

/// The first position at or after `i` at which `p` stands in `s`.
pub open spec fn find_from<T>(s: Seq<T>, p: Seq<T>, i: int) -> Option<int>
    decreases s.len() - i + 1,
{
    if i < 0 || i + p.len() > s.len() {
        None
    } else if occurs_at(s, p, i) {
        Some(i)
    } else {
        find_from(s, p, i + 1)
    }
}

/// What `find_from` gives back is an occurrence, and the first one.
pub proof fn lemma_find_from<T>(s: Seq<T>, p: Seq<T>, i: int)
    requires
        0 <= i,
    ensures
        match find_from(s, p, i) {
            Some(k) => i <= k && occurs_at(s, p, k) && forall|j: int|
                i <= j < k ==> !occurs_at(s, p, j),
            None => forall|j: int| i <= j ==> !occurs_at(s, p, j),
        },
    decreases s.len() - i + 1,
{
    if i + p.len() > s.len() {
    } else if occurs_at(s, p, i) {
    } else {
        lemma_find_from(s, p, i + 1);
    }
}

/// Whether `p` stands in `s` at position `i`.
pub fn stands_at(s: &Vec<char>, p: &Vec<char>, i: usize) -> (r: bool)
    ensures
        r == occurs_at(s@, p@, i as int),
{
    if p.len() > s.len() || i > s.len() - p.len() {
        return false;
    }
    let mut k: usize = 0;
    while k < p.len()
        invariant
            0 <= k <= p@.len(),
            i + p.len() <= s.len(),
            s@.subrange(i as int, i + k) == p@.subrange(0, k as int),
        decreases p@.len() - k,
    {
        if s[i + k] != p[k] {
            proof {
                if s@.subrange(i as int, i + p@.len()) == p@ {
                    assert(s@.subrange(i as int, i + p@.len())[k as int] == p@[k as int]);
                }
            }
            return false;
        }
        assert(s@.subrange(i as int, i + k + 1) =~= s@.subrange(i as int, i + k).push(
            s@[i + k],
        ));
        assert(p@.subrange(0, k + 1) =~= p@.subrange(0, k as int).push(p@[k as int]));
        k += 1;
    }
    assert(p@.subrange(0, k as int) =~= p@);
    true
}

/// The first position at or after `from` at which `p` stands in `s`.
pub fn find(s: &Vec<char>, p: &Vec<char>, from: usize) -> (r: Option<usize>)
    ensures
        match r {
            Some(k) => find_from(s@, p@, from as int) == Some(k as int),
            None => find_from(s@, p@, from as int) is None,
        },
{
    if p.len() > s.len() {
        return None;
    }
    let last: usize = s.len() - p.len();
    let mut i: usize = from;
    while i <= last
        invariant
            from <= i,
            last + p@.len() == s@.len(),
            find_from(s@, p@, from as int) == find_from(s@, p@, i as int),
        decreases last + 1 - i,
    {
        if stands_at(s, p, i) {
            return Some(i);
        }
        if i == last {
            assert(find_from(s@, p@, i + 1) is None);
            return None;
        }
        i += 1;
    }
    None
}

/// Whether `text` begins with `prefix`.
pub fn begins(text: &str, prefix: &str) -> (r: bool)
    ensures
        r == starts_with(text@, prefix@),
{
    stands_at(&chars_of(text), &chars_of(prefix), 0)
}

/// Whether `needle` stands anywhere in `text`.
pub fn has(text: &str, needle: &str) -> (r: bool)
    ensures
        r == contains(text@, needle@),
{
    find(&chars_of(text), &chars_of(needle), 0).is_some()
}

/// `s` without `prefix` in front, where `s` begins with it.
pub open spec fn without_prefix(s: Seq<char>, prefix: Seq<char>) -> Option<Seq<char>> {
    if starts_with(s, prefix) {
        Some(s.subrange(prefix.len() as int, s.len() as int))
    } else {
        None
    }
}

/// The text without `prefix` in front, where it begins with it.
pub fn cut_prefix(text: &str, prefix: &str) -> (r: Option<String>)
    ensures
        match r {
            Some(rest) => without_prefix(text@, prefix@) == Some(rest@),
            None => without_prefix(text@, prefix@) is None,
        },
{
    let chars = chars_of(text);
    let front = chars_of(prefix);
    if stands_at(&chars, &front, 0) {
        Some(slice_text(&chars, front.len(), chars.len()))
    } else {
        None
    }
}

// ---------------------------------------------------------------------------
// Replacing

/// `s` with every non-overlapping occurrence of `p`, left to right, turned
/// into `with`, for a `p` that is not empty.
pub open spec fn substituted<T>(s: Seq<T>, p: Seq<T>, with: Seq<T>) -> Seq<T>
    decreases s.len(),
{
    match find_from(s, p, 0) {
        Some(k) if 0 <= k && p.len() > 0 && k + p.len() <= s.len() => s.subrange(0, k) + with
            + substituted(s.subrange(k + p.len(), s.len() as int), p, with),
        _ => s,
    }
}

/// `with` in front of every element of `s` and at its end.
pub open spec fn interleaved<T>(s: Seq<T>, with: Seq<T>) -> Seq<T>
    decreases s.len(),
{
    if s.len() == 0 {
        with
    } else {
        interleaved(s.drop_last(), with).push(s.last()) + with
    }
}

/// `s` with `p` replaced by `with`: an empty `p` stands between all
/// characters and at both ends.
pub open spec fn replaced(s: Seq<char>, p: Seq<char>, with: Seq<char>) -> Seq<char> {
    if p.len() == 0 {
        interleaved(s, with)
    } else {
        substituted(s, p, with)
    }
}

/// Moving the start of a search moves what it finds.
pub proof fn lemma_find_shift<T>(s: Seq<T>, p: Seq<T>, c: int, i: int)
    requires
        0 <= c <= s.len(),
        0 <= i,
    ensures
        find_from(s, p, c + i) == match find_from(s.subrange(c, s.len() as int), p, i) {
            Some(k) => Some(c + k),
            None => None,
        },
    decreases s.len() - c - i + 1,
{
    let rest = s.subrange(c, s.len() as int);
    if i + p.len() <= rest.len() {
        assert(rest.subrange(i, i + p.len()) =~= s.subrange(c + i, c + i + p.len()));
        if !occurs_at(rest, p, i) {
            lemma_find_shift(s, p, c, i + 1);
        }
    }
}

/// The text with `p` replaced by `with`.
pub fn replace(text: &str, p: &str, with: &str) -> (r: String)
    ensures
        r@ == replaced(text@, p@, with@),
{
    let s = chars_of(text);
    let needle = chars_of(p);
    if needle.len() == 0 {
        let mut out = with.to_owned();
        let mut i: usize = 0;
        while i < s.len()
            invariant
                0 <= i <= s@.len(),
                out@ == interleaved(s@.subrange(0, i as int), with@),
            decreases s@.len() - i,
        {
            out.push(s[i]);
            out.append(with);
            proof {
                let longer = s@.subrange(0, i + 1);
                assert(longer.drop_last() =~= s@.subrange(0, i as int));
            }
            i += 1;
        }
        assert(s@.subrange(0, i as int) =~= s@);
        return out;
    }
    let mut out = String::new();
    let mut cursor: usize = 0;
    assert(s@.subrange(0, s@.len() as int) =~= s@);
    loop
        invariant_except_break
            out@ + substituted(s@.subrange(cursor as int, s@.len() as int), needle@, with@)
                == substituted(s@, needle@, with@),
        invariant
            needle@.len() > 0,
            needle@ == p@,
            cursor <= s.len(),
        ensures
            out@ == substituted(s@, needle@, with@),
        decreases s@.len() - cursor,
    {
        let ghost rest = s@.subrange(cursor as int, s@.len() as int);
        proof {
            lemma_find_shift(s@, needle@, cursor as int, 0);
            lemma_find_from(s@, needle@, cursor as int);
        }
        match find(&s, &needle, cursor) {
            Some(k) => {
                let end: usize = k + needle.len();
                proof {
                    assert(rest.subrange(0, k - cursor) =~= s@.subrange(cursor as int, k as int));
                    assert(rest.subrange(end - cursor, rest.len() as int) =~= s@.subrange(
                        end as int,
                        s@.len() as int,
                    ));
                    assert(out@ + (s@.subrange(cursor as int, k as int) + with@ + substituted(
                        s@.subrange(end as int, s@.len() as int),
                        needle@,
                        with@,
                    )) =~= out@ + s@.subrange(cursor as int, k as int) + with@ + substituted(
                        s@.subrange(end as int, s@.len() as int),
                        needle@,
                        with@,
                    ));
                }
                out.append(slice_text(&s, cursor, k).as_str());
                out.append(with);
                cursor = end;
            },
            None => {
                out.append(slice_text(&s, cursor, s.len()).as_str());
                break;
            },
        }
    }
    out
}

// ---------------------------------------------------------------------------
// Lines and words

/// The length of the first line of `s`, its line feed counted in.
pub open spec fn line_len(s: Seq<char>) -> int
    decreases s.len(),
{
    if s.len() == 0 {
        0
    } else if s[0] == '\n' {
        1
    } else {
        1 + line_len(s.drop_first())
    }
}

/// The lines of `s`, each with the terminator it has.
pub open spec fn raw_lines(s: Seq<char>) -> Seq<Seq<char>>
    decreases s.len(),
{
    let n = line_len(s);
    if 0 < n <= s.len() {
        seq![s.subrange(0, n)] + raw_lines(s.subrange(n, s.len() as int))
    } else {
        seq![]
    }
}

/// A line without its `\n` or `\r\n`.
pub open spec fn line_body(line: Seq<char>) -> Seq<char> {
    if line.len() > 0 && line.last() == '\n' {
        let body = line.drop_last();
        if body.len() > 0 && body.last() == '\r' {
            body.drop_last()
        } else {
            body
        }
    } else {
        line
    }
}

/// The lines of `s` without their terminators.
pub open spec fn lines(s: Seq<char>) -> Seq<Seq<char>> {
    raw_lines(s).map_values(|line: Seq<char>| line_body(line))
}

/// The number of maximal runs of characters that are not whitespace.
pub open spec fn word_count(s: Seq<char>) -> nat
    decreases s.len(),
{
    if s.len() == 0 {
        0
    } else {
        word_count(s.drop_last()) + if !is_whitespace(s.last()) && (s.len() == 1 || is_whitespace(
            s[s.len() - 2],
        )) {
            1nat
        } else {
            0nat
        }
    }
}

/// The contents of a list, item by item.
pub open spec fn views<T: View>(list: Seq<T>) -> Seq<T::V> {
    list.map_values(|item: T| item@)
}

/// The contents of a value that may be absent.
pub open spec fn opt_view<T: View>(value: Option<T>) -> Option<T::V> {
    match value {
        Some(v) => Some(v@),
        None => None,
    }
}

/// Every line of a text but the first starts after a line feed.
pub proof fn lemma_line_len(s: Seq<char>)
    ensures
        0 <= line_len(s) <= s.len(),
        s.len() > 0 ==> line_len(s) > 0,
        forall|k: int| 0 <= k < line_len(s) - 1 ==> s[k] != '\n',
        0 < line_len(s) < s.len() ==> s[line_len(s) - 1] == '\n',
    decreases s.len(),
{
    if s.len() > 0 && s[0] != '\n' {
        let rest = s.drop_first();
        lemma_line_len(rest);
        assert forall|k: int| 0 <= k < line_len(s) - 1 implies s[k] != '\n' by {
            if k > 0 {
                assert(rest[k - 1] == s[k]);
            }
        }
        if 0 < line_len(s) < s.len() && line_len(s) > 1 {
            assert(rest[line_len(s) - 2] == s[line_len(s) - 1]);
        }
    }
}

/// A line ends at the first line feed, or where the text ends.
pub proof fn lemma_line_len_is(s: Seq<char>, n: int)
    requires
        0 < n <= s.len(),
        forall|k: int| 0 <= k < n - 1 ==> s[k] != '\n',
        n == s.len() || s[n - 1] == '\n',
    ensures
        line_len(s) == n,
    decreases s.len(),
{
    if s[0] != '\n' {
        let rest = s.drop_first();
        if n > 1 {
            assert forall|k: int| 0 <= k < n - 2 implies rest[k] != '\n' by {
                assert(rest[k] == s[k + 1]);
            }
            if n < s.len() {
                assert(rest[n - 2] == s[n - 1]);
            }
            lemma_line_len_is(rest, n - 1);
        } else {
            assert(rest.len() == 0);
        }
    }
}

/// The position behind the line of `s` that starts at `from`.
pub fn line_end(s: &Vec<char>, from: usize) -> (r: usize)
    requires
        from < s@.len(),
    ensures
        from < r <= s@.len(),
        r - from == line_len(s@.subrange(from as int, s@.len() as int)),
{
    let ghost rest = s@.subrange(from as int, s@.len() as int);
    let mut i: usize = from;
    while i < s.len() && s[i] != '\n'
        invariant
            from <= i <= s@.len(),
            from < s@.len(),
            forall|k: int| from <= k < i ==> s@[k] != '\n',
        decreases s@.len() - i,
    {
        i += 1;
    }
    let end: usize = if i < s.len() {
        i + 1
    } else {
        i
    };
    proof {
        assert forall|k: int| 0 <= k < end - from - 1 implies rest[k] != '\n' by {
            assert(rest[k] == s@[k + from]);
        }
        assert(rest[end - from - 1] == s@[end - 1]);
        lemma_line_len_is(rest, end - from);
    }
    end
}

/// The lines of `text`, each with the terminator it has.
pub fn split_inclusive(text: &str) -> (r: Vec<String>)
    ensures
        views(r@) == raw_lines(text@),
{
    let s = chars_of(text);
    let mut out: Vec<String> = Vec::new();
    let mut i: usize = 0;
    assert(s@.subrange(0, s@.len() as int) =~= s@);
    assert(views(out@) =~= Seq::<Seq<char>>::empty());
    while i < s.len()
        invariant
            0 <= i <= s@.len(),
            views(out@) + raw_lines(s@.subrange(i as int, s@.len() as int)) == raw_lines(s@),
        decreases s@.len() - i,
    {
        let end = line_end(&s, i);
        let ghost rest = s@.subrange(i as int, s@.len() as int);
        let ghost before = views(out@);
        let line = slice_text(&s, i, end);
        proof {
            assert(rest.subrange(0, end - i) =~= line@);
            assert(rest.subrange(end - i, rest.len() as int) =~= s@.subrange(
                end as int,
                s@.len() as int,
            ));
            assert(views(out@.push(line)) =~= before.push(line@));
            assert(before + (seq![line@] + raw_lines(s@.subrange(end as int, s@.len() as int)))
                =~= before.push(line@) + raw_lines(s@.subrange(end as int, s@.len() as int)));
        }
        out.push(line);
        i = end;
    }
    out
}

/// The line without its `\n` or `\r\n`.
pub fn cut_line_end(line: &str) -> (r: String)
    ensures
        r@ == line_body(line@),
{
    let s = chars_of(line);
    let n: usize = s.len();
    if n > 0 && s[n - 1] == '\n' {
        if n > 1 && s[n - 2] == '\r' {
            assert(s@.subrange(0, n - 2) =~= s@.drop_last().drop_last());
            slice_text(&s, 0, n - 2)
        } else {
            assert(s@.subrange(0, n - 1) =~= s@.drop_last());
            slice_text(&s, 0, n - 1)
        }
    } else {
        line.to_owned()
    }
}

/// The lines of `text` without their terminators.
pub fn split_lines(text: &str) -> (r: Vec<String>)
    ensures
        views(r@) == lines(text@),
{
    let raw = split_inclusive(text);
    let mut out: Vec<String> = Vec::new();
    let mut i: usize = 0;
    while i < raw.len()
        invariant
            0 <= i <= raw@.len(),
            views(raw@) == raw_lines(text@),
            out@.len() == i,
            forall|k: int| 0 <= k < i ==> (#[trigger] out@[k])@ == line_body(raw@[k]@),
        decreases raw@.len() - i,
    {
        out.push(cut_line_end(raw[i].as_str()));
        i += 1;
    }
    proof {
        assert(views(out@) =~= lines(text@)) by {
            assert forall|k: int| 0 <= k < out@.len() implies views(out@)[k] == lines(text@)[k] by {
                assert(views(raw@)[k] == raw@[k]@);
            }
        }
    }
    out
}

/// The number of whitespace-separated words of `text`.
pub fn count_words(text: &str) -> (r: usize)
    ensures
        r == word_count(text@),
{
    let s = chars_of(text);
    let mut count: usize = 0;
    let mut i: usize = 0;
    while i < s.len()
        invariant
            0 <= i <= s@.len(),
            count <= i,
            count == word_count(s@.subrange(0, i as int)),
        decreases s@.len() - i,
    {
        proof {
            let longer = s@.subrange(0, i + 1);
            assert(longer.drop_last() =~= s@.subrange(0, i as int));
            assert(longer.last() == s@[i as int]);
        }
        if !whitespace(s[i]) && (i == 0 || whitespace(s[i - 1])) {
            count += 1;
        }
        i += 1;
    }
    assert(s@.subrange(0, i as int) =~= s@);
    count
}

// ---------------------------------------------------------------------------
// Numbers

/// The character of the digit `d`, for digits up to fifteen.
pub open spec fn digit_char(d: int) -> char {
    if d < 10 {
        (48 + d) as char
    } else {
        (87 + d) as char
    }
}

/// `n` in decimal.
pub open spec fn decimal(n: nat) -> Seq<char>
    decreases n,
{
    if n < 10 {
        seq![digit_char(n as int)]
    } else {
        decimal(n / 10).push(digit_char((n % 10) as int))
    }
}

/// `n` in decimal, with a sign where it is negative.
pub open spec fn signed_decimal(n: int) -> Seq<char> {
    if n < 0 {
        seq!['-'] + decimal((-n) as nat)
    } else {
        decimal(n as nat)
    }
}

/// Whether `c` is one of the digits 0 to 9.
pub open spec fn is_digit(c: char) -> bool {
    '0' <= c <= '9'
}

/// The number that a sequence of decimal digits writes.
pub open spec fn decimal_value(s: Seq<char>) -> nat
    decreases s.len(),
{
    if s.len() == 0 {
        0
    } else {
        10 * decimal_value(s.drop_last()) + (s.last() as nat - 48) as nat
    }
}

/// The character of the digit `d`, for digits up to fifteen.
pub fn digit(d: u8) -> (r: char)
    requires
        d < 16,
    ensures
        r == digit_char(d as int),
{
    if d < 10 {
        (48 + d) as char
    } else {
        (87 + d) as char
    }
}

/// `n` in decimal.
pub fn decimal_text(n: u64) -> (r: String)
    ensures
        r@ == decimal(n as nat),
    decreases n,
{
    if n < 10 {
        let mut out = String::new();
        out.push(digit(n as u8));
        assert(out@ =~= decimal(n as nat));
        out
    } else {
        let mut out = decimal_text(n / 10);
        out.push(digit((n % 10) as u8));
        out
    }
}

/// `n` in decimal.
pub fn wide_decimal_text(n: u128) -> (r: String)
    ensures
        r@ == decimal(n as nat),
    decreases n,
{
    if n < 10 {
        decimal_text(n as u64)
    } else {
        let mut out = wide_decimal_text(n / 10);
        out.push(digit((n % 10) as u8));
        out
    }
}

/// `n` in decimal, with a sign where it is negative.
pub fn signed_decimal_text(n: i64) -> (r: String)
    requires
        n > i64::MIN,
    ensures
        r@ == signed_decimal(n as int),
{
    if n < 0 {
        let mut out = String::new();
        out.push('-');
        assert(out@ =~= seq!['-']);
        out.append(decimal_text((-n) as u64).as_str());
        out
    } else {
        decimal_text(n as u64)
    }
}

/// Whether `c` is one of the digits 0 to 9.
pub fn decimal_digit(c: char) -> (r: bool)
    ensures
        r == is_digit(c),
{
    '0' <= c && c <= '9'
}

proof fn lemma_decimal_value_grows(s: Seq<char>, n: int)
    requires
        0 <= n <= s.len(),
        forall|k: int| 0 <= k < s.len() ==> is_digit(#[trigger] s[k]),
    ensures
        decimal_value(s.subrange(0, n)) <= decimal_value(s),
    decreases s.len(),
{
    if n < s.len() {
        lemma_decimal_value_grows(s.drop_last(), n);
        assert(s.drop_last().subrange(0, n) =~= s.subrange(0, n));
    } else {
        assert(s.subrange(0, n) =~= s);
    }
}

/// The number that the digits `from..to` of `s` write, where there is at least
/// one of them and the number fits.
pub fn read_decimal(s: &Vec<char>, from: usize, to: usize) -> (r: Option<u64>)
    requires
        from <= to <= s@.len(),
        forall|k: int| from <= k < to ==> is_digit(#[trigger] s@[k]),
    ensures
        match r {
            Some(n) => from < to && n == decimal_value(s@.subrange(from as int, to as int)),
            None => from == to || decimal_value(s@.subrange(from as int, to as int)) > u64::MAX,
        },
{
    if from == to {
        return None;
    }
    let ghost digits = s@.subrange(from as int, to as int);
    let mut value: u64 = 0;
    let mut i: usize = from;
    while i < to
        invariant
            from <= i <= to <= s@.len(),
            digits == s@.subrange(from as int, to as int),
            forall|k: int| from <= k < to ==> is_digit(#[trigger] s@[k]),
            value == decimal_value(digits.subrange(0, i - from)),
        decreases to - i,
    {
        let c: u32 = s[i] as u32;
        let d: u64 = (c - 48) as u64;
        proof {
            assert forall|k: int| 0 <= k < digits.len() implies is_digit(#[trigger] digits[k]) by {
                assert(digits[k] == s@[k + from]);
            }
            assert(digits.subrange(0, i - from + 1).drop_last() =~= digits.subrange(0, i - from));
            assert(digits.subrange(0, i - from + 1).last() == s@[i as int]);
            lemma_decimal_value_grows(digits, i - from + 1);
        }
        match value.checked_mul(10) {
            None => {
                return None;
            },
            Some(tens) => match tens.checked_add(d) {
                None => {
                    return None;
                },
                Some(sum) => {
                    value = sum;
                },
            },
        }
        i += 1;
    }
    assert(digits.subrange(0, i - from) =~= digits);
    Some(value)
}

// ---------------------------------------------------------------------------
// Joining

/// `parts` one after the other, with `sep` between them.
pub open spec fn joined(parts: Seq<Seq<char>>, sep: Seq<char>) -> Seq<char>
    decreases parts.len(),
{
    if parts.len() == 0 {
        seq![]
    } else if parts.len() == 1 {
        parts[0]
    } else {
        joined(parts.drop_last(), sep) + sep + parts.last()
    }
}

/// The texts of `parts` one after the other, with `sep` between them.
pub fn join(parts: &Vec<String>, sep: &str) -> (r: String)
    ensures
        r@ == joined(views(parts@), sep@),
{
    let mut out = String::new();
    let mut i: usize = 0;
    assert(views(parts@).take(0) =~= seq![]);
    while i < parts.len()
        invariant
            0 <= i <= parts@.len(),
            out@ == joined(views(parts@).take(i as int), sep@),
        decreases parts@.len() - i,
    {
        proof {
            let longer = views(parts@).take(i + 1);
            assert(longer.drop_last() =~= views(parts@).take(i as int));
            assert(longer.last() == parts@[i as int]@);
            if i == 0 {
                assert(seq![] + parts@[0]@ =~= parts@[0]@);
            }
        }
        if i > 0 {
            out.append(sep);
        }
        out.append(parts[i].as_str());
        i += 1;
    }
    assert(views(parts@).take(i as int) =~= views(parts@));
    out
}

// ---------------------------------------------------------------------------
// Short lists

/// No texts.
pub fn none() -> (r: Vec<String>)
    ensures
        views(r@) == Seq::<Seq<char>>::empty(),
{
    let list: Vec<String> = Vec::new();
    assert(views(list@) =~= Seq::<Seq<char>>::empty());
    list
}

/// A list of one text.
pub fn one(a: &str) -> (r: Vec<String>)
    ensures
        views(r@) == seq![a@],
{
    let list: Vec<String> = vec![a.to_owned()];
    assert(views(list@) =~= seq![a@]);
    list
}

/// A list of two texts.
pub fn two(a: &str, b: &str) -> (r: Vec<String>)
    ensures
        views(r@) == seq![a@, b@],
{
    let list: Vec<String> = vec![a.to_owned(), b.to_owned()];
    assert(views(list@) =~= seq![a@, b@]);
    list
}

/// A list of three texts.
pub fn three(a: &str, b: &str, c: &str) -> (r: Vec<String>)
    ensures
        views(r@) == seq![a@, b@, c@],
{
    let list: Vec<String> = vec![a.to_owned(), b.to_owned(), c.to_owned()];
    assert(views(list@) =~= seq![a@, b@, c@]);
    list
}

/// A list of five texts.
pub fn five(a: &str, b: &str, c: &str, d: &str, e: &str) -> (r: Vec<String>)
    ensures
        views(r@) == seq![a@, b@, c@, d@, e@],
{
    let list: Vec<String> = vec![
        a.to_owned(),
        b.to_owned(),
        c.to_owned(),
        d.to_owned(),
        e.to_owned(),
    ];
    assert(views(list@) =~= seq![a@, b@, c@, d@, e@]);
    list
}

/// A list of six texts.
pub fn six(a: &str, b: &str, c: &str, d: &str, e: &str, f: &str) -> (r: Vec<String>)
    ensures
        views(r@) == seq![a@, b@, c@, d@, e@, f@],
{
    let list: Vec<String> = vec![
        a.to_owned(),
        b.to_owned(),
        c.to_owned(),
        d.to_owned(),
        e.to_owned(),
        f.to_owned(),
    ];
    assert(views(list@) =~= seq![a@, b@, c@, d@, e@, f@]);
    list
}

/// Whether a text is in a list.
pub fn listed(list: &Vec<String>, text: &str) -> (r: bool)
    ensures
        r == views(list@).contains(text@),
{
    let mut i: usize = 0;
    while i < list.len()
        invariant
            0 <= i <= list@.len(),
            forall|k: int| 0 <= k < i ==> views(list@)[k] != text@,
        decreases list@.len() - i,
    {
        assert(views(list@)[i as int] == list@[i as int]@);
        if same(&list[i], text) {
            return true;
        }
        i += 1;
    }
    false
}

// ---------------------------------------------------------------------------
// Bytes

/// The number of bytes of a text in UTF-8.
pub open spec fn byte_len(s: Seq<char>) -> nat {
    encode_utf8(s).len()
}

/// The number of bytes of a character in UTF-8.
pub open spec fn char_len(c: char) -> nat {
    encode_scalar(c as u32).len()
}

/// The bytes of two texts one after the other are the bytes of the whole.
pub proof fn lemma_encode_concat(a: Seq<char>, b: Seq<char>)
    ensures
        encode_utf8(a + b) == encode_utf8(a) + encode_utf8(b),
    decreases a.len(),
{
    if a.len() == 0 {
        assert(a + b =~= b);
        assert(encode_utf8(a) + encode_utf8(b) =~= encode_utf8(b));
    } else {
        lemma_encode_concat(a.drop_first(), b);
        assert((a + b).drop_first() =~= a.drop_first() + b);
        assert(encode_utf8(a + b) =~= encode_utf8(a) + encode_utf8(b));
    }
}

/// One more character adds its own bytes.
pub proof fn lemma_byte_len_push(s: Seq<char>, c: char)
    ensures
        byte_len(s.push(c)) == byte_len(s) + char_len(c),
{
    lemma_encode_concat(s, seq![c]);
    assert(s + seq![c] =~= s.push(c));
    assert(encode_utf8(seq![c].drop_first()) =~= seq![]);
    assert(encode_utf8(seq![c]) =~= encode_scalar(c as u32));
}

/// The number of bytes of the text.
pub fn byte_count(text: &str) -> (r: usize)
    ensures
        r == byte_len(text@),
{
    text.as_bytes().len()
}

/// The number of bytes of the character.
pub fn char_byte_count(c: char) -> (r: usize)
    ensures
        r == char_len(c),
        1 <= r <= 4,
{
    let v: u32 = c as u32;
    if v <= 0x7f {
        1
    } else if v <= 0x7ff {
        2
    } else if v <= 0xffff {
        3
    } else {
        4
    }
}

// ---------------------------------------------------------------------------
// What the standard library says of a text

/// The quoted and escaped form that `{:?}` gives a text.
pub uninterp spec fn debug_text(text: Seq<char>) -> Seq<char>;

/// Whether a text holds nothing but printable ASCII, and neither a quotation mark
/// nor a backslash.
pub open spec fn is_quotable(text: Seq<char>) -> bool {
    forall|k: int|
        0 <= k < text.len() ==> ' ' <= #[trigger] text[k] <= '~' && text[k] != '"' && text[k]
            != '\\'
}

/// `format!("{text:?}")`: the `Debug` form of a `str`, a function of its
/// characters alone. Printable ASCII other than quotation marks and backslashes
/// stands in it as it is, between two quotation marks. How any other character is
/// escaped is not stated.
#[verifier::external_body]
pub(crate) fn debug(text: &str) -> (r: String)
    ensures
        r@ == debug_text(text@),
        is_quotable(text@) ==> r@ == "\""@ + text@ + "\""@,
{
    format!("{text:?}")
}

/// The lowercase form of an ASCII letter; anything else as it is.
pub open spec fn ascii_lower(c: char) -> char {
    if 'A' <= c <= 'Z' {
        (c as u32 + 32) as char
    } else {
        c
    }
}

/// What `str::to_lowercase` makes of a text.
pub uninterp spec fn lowercase_text(text: Seq<char>) -> Seq<char>;

/// `str::to_lowercase`: the lowercase equivalent by Unicode's
/// `Lowercase` property, a function of the characters alone. Every character
/// becomes one or more; of ASCII, letters become their lowercase forms and all
/// else stays.
#[verifier::external_body]
pub(crate) fn lowercase(text: &str) -> (r: String)
    ensures
        r@ == lowercase_text(text@),
        (forall|k: int| 0 <= k < text@.len() ==> #[trigger] text@[k] <= '\u{7f}') ==> r@
            == text@.map_values(|c: char| ascii_lower(c)),
        r@.len() >= text@.len(),
{
    text.to_lowercase()
}

// ---------------------------------------------------------------------------
// Laws

/// Parts one after the other, with `sep` between each two.
pub open spec fn glued<T>(parts: Seq<Seq<T>>, sep: Seq<T>) -> Seq<T>
    decreases parts.len(),
{
    if parts.len() == 0 {
        seq![]
    } else if parts.len() == 1 {
        parts[0]
    } else {
        parts[0] + sep + glued(parts.drop_first(), sep)
    }
}

/// Whether `parts` are what is left of `s` when it is cut at every `p`, from left to
/// right and without overlaps: no `p` begins inside a part.
pub open spec fn is_cut<T>(s: Seq<T>, p: Seq<T>, parts: Seq<Seq<T>>) -> bool {
    &&& parts.len() > 0
    &&& glued(parts, p) == s
    &&& forall|i: int, j: int|
        0 <= i < parts.len() - 1 && 0 <= j < parts[i].len() ==> !#[trigger] occurs_at(
            parts[i] + p,
            p,
            j,
        )
    &&& forall|j: int| !#[trigger] occurs_at(parts.last(), p, j)
}

proof fn lemma_first_cut_parts<T>(s: Seq<T>, p: Seq<T>, k: int, more: Seq<Seq<T>>)
    requires
        p.len() > 0,
        more.len() > 0,
        occurs_at(s, p, k),
        glued(more, p) == s.subrange(k + p.len(), s.len() as int),
    ensures
        glued(seq![s.subrange(0, k)] + more, p) == s,
{
    let first = s.subrange(0, k);
    let parts = seq![first] + more;
    assert(parts.drop_first() =~= more);
    assert(first + p + s.subrange(k + p.len(), s.len() as int) =~= s);
}

/// Cutting a text at its first occurrence and then cutting what is behind it cuts the
/// text.
pub proof fn lemma_first_cut<T>(s: Seq<T>, p: Seq<T>, k: int, more: Seq<Seq<T>>)
    requires
        p.len() > 0,
        find_from(s, p, 0) == Some(k),
        is_cut(s.subrange(k + p.len(), s.len() as int), p, more),
    ensures
        is_cut(s, p, seq![s.subrange(0, k)] + more),
{
    lemma_find_from(s, p, 0);
    lemma_first_cut_parts(s, p, k, more);
    let first = s.subrange(0, k);
    let parts = seq![first] + more;
    assert forall|i: int, j: int|
        0 <= i < parts.len() - 1 && 0 <= j < parts[i].len() implies !#[trigger] occurs_at(
        parts[i] + p,
        p,
        j,
    ) by {
        if i == 0 {
            assert(!occurs_at(s, p, j));
            assert((first + p).subrange(j, j + p.len()) =~= s.subrange(j, j + p.len()));
        } else {
            assert(parts[i] == more[i - 1]);
            assert(!occurs_at(more[i - 1] + p, p, j));
        }
    }
    assert(parts.last() == more.last());
}

/// Replacing cuts a text at every occurrence and puts the replacement there: it
/// keeps all that stands between, and does not look at what it has put in.
pub proof fn lemma_replacing_cuts<T>(s: Seq<T>, p: Seq<T>, with: Seq<T>) -> (parts: Seq<Seq<T>>)
    requires
        p.len() > 0,
    ensures
        is_cut(s, p, parts),
        substituted(s, p, with) == glued(parts, with),
        substituted(s, p, with).len() == s.len() + (parts.len() - 1) * (with.len() - p.len()),
    decreases s.len(),
{
    lemma_find_from(s, p, 0);
    match find_from(s, p, 0) {
        Some(k) => {
            let first = s.subrange(0, k);
            let rest = s.subrange(k + p.len(), s.len() as int);
            let more = lemma_replacing_cuts(rest, p, with);
            let parts = seq![first] + more;
            assert(parts.drop_first() =~= more);
            lemma_first_cut(s, p, k, more);
            let d = with.len() - p.len();
            let m = more.len() as int;
            assert((m - 1) * d + d == m * d) by (nonlinear_arith);
            parts
        },
        None => {
            let parts = seq![s];
            assert forall|j: int| !#[trigger] occurs_at(parts.last(), p, j) by {}
            parts
        },
    }
}

/// A text can be cut in one way only.
pub proof fn lemma_cuts_are_unique<T>(s: Seq<T>, p: Seq<T>, a: Seq<Seq<T>>, b: Seq<Seq<T>>)
    requires
        p.len() > 0,
        is_cut(s, p, a),
        is_cut(s, p, b),
    ensures
        a == b,
    decreases a.len(),
{
    if a.len() > 1 && b.len() > 1 {
        let ra = a.drop_first();
        let rb = b.drop_first();
        let ga = glued(ra, p);
        let gb = glued(rb, p);
        if a[0].len() < b[0].len() {
            lemma_stray(a[0], ga, b[0], gb, p);
            assert(occurs_at(b[0] + p, p, a[0].len() as int));
        } else if b[0].len() < a[0].len() {
            lemma_stray(b[0], gb, a[0], ga, p);
            assert(occurs_at(a[0] + p, p, b[0].len() as int));
        }
        assert(a[0] =~= s.subrange(0, a[0].len() as int));
        assert(b[0] =~= s.subrange(0, b[0].len() as int));
        assert(ga =~= s.subrange((a[0].len() + p.len()) as int, s.len() as int));
        assert(gb =~= s.subrange((b[0].len() + p.len()) as int, s.len() as int));
        lemma_cut_rest(s, p, a);
        lemma_cut_rest(s, p, b);
        lemma_cuts_are_unique(ga, p, ra, rb);
        assert(a =~= seq![a[0]] + ra);
        assert(b =~= seq![b[0]] + rb);
    } else if a.len() > 1 {
        assert(occurs_at(b[0], p, a[0].len() as int)) by {
            assert((a[0] + p + glued(a.drop_first(), p)).subrange(
                a[0].len() as int,
                (a[0].len() + p.len()) as int,
            ) =~= p);
        }
        assert(b.last() == b[0]);
    } else if b.len() > 1 {
        assert(occurs_at(a[0], p, b[0].len() as int)) by {
            assert((b[0] + p + glued(b.drop_first(), p)).subrange(
                b[0].len() as int,
                (b[0].len() + p.len()) as int,
            ) =~= p);
        }
        assert(a.last() == a[0]);
    } else {
        assert(a =~= b);
    }
}

proof fn lemma_stray<T>(x: Seq<T>, rx: Seq<T>, y: Seq<T>, ry: Seq<T>, p: Seq<T>)
    requires
        x + p + rx == y + p + ry,
        x.len() < y.len(),
    ensures
        occurs_at(y + p, p, x.len() as int),
{
    let s = x + p + rx;
    let n = x.len() as int;
    assert(s.subrange(n, n + p.len()) =~= p);
    assert((y + p).subrange(n, n + p.len()) =~= (y + p + ry).subrange(n, n + p.len()));
}

proof fn lemma_cut_rest<T>(s: Seq<T>, p: Seq<T>, parts: Seq<Seq<T>>)
    requires
        is_cut(s, p, parts),
        parts.len() > 1,
    ensures
        is_cut(glued(parts.drop_first(), p), p, parts.drop_first()),
{
    let rest = parts.drop_first();
    assert forall|i: int, j: int|
        0 <= i < rest.len() - 1 && 0 <= j < rest[i].len() implies !#[trigger] occurs_at(
        rest[i] + p,
        p,
        j,
    ) by {
        assert(rest[i] == parts[i + 1]);
        assert(!occurs_at(parts[i + 1] + p, p, j));
    }
    assert(rest.last() == parts.last());
}

/// Replacing a pattern by itself changes nothing.
pub proof fn lemma_replacing_by_itself<T>(s: Seq<T>, p: Seq<T>)
    requires
        p.len() > 0,
    ensures
        substituted(s, p, p) == s,
{
    let parts = lemma_replacing_cuts(s, p, p);
}

/// An empty pattern stands before and behind every character.
pub proof fn lemma_interleaving<T>(s: Seq<T>, with: Seq<T>)
    ensures
        interleaved(s, with) == glued(
            seq![Seq::<T>::empty()] + s.map_values(|c: T| seq![c]) + seq![Seq::<T>::empty()],
            with,
        ),
    decreases s.len(),
{
    let none = Seq::<T>::empty();
    let singles = s.map_values(|c: T| seq![c]);
    let parts = seq![none] + singles + seq![none];
    if s.len() == 0 {
        assert(parts =~= seq![none, none]);
        assert(parts.drop_first() =~= seq![none]);
        assert(glued(parts.drop_first(), with) == none);
        assert(interleaved(s, with) =~= glued(parts, with));
    } else {
        let front = s.drop_last();
        lemma_interleaving(front, with);
        let before = seq![none] + front.map_values(|c: T| seq![c]);
        assert(parts =~= before + seq![seq![s.last()]] + seq![none]);
        lemma_glued_last(before + seq![seq![s.last()]], none, with);
        lemma_glued_last(before, none, with);
        lemma_glued_last(before, seq![s.last()], with);
        assert(seq![none] + front.map_values(|c: T| seq![c]) + seq![none] =~= before.push(none));
        assert(parts =~= before.push(seq![s.last()]).push(none));
        assert(before + seq![seq![s.last()]] =~= before.push(seq![s.last()]));
        assert(interleaved(s, with) =~= glued(parts, with));
    }
}

proof fn lemma_glued_last<T>(parts: Seq<Seq<T>>, last: Seq<T>, sep: Seq<T>)
    requires
        parts.len() > 0,
    ensures
        glued(parts.push(last), sep) == glued(parts, sep) + sep + last,
    decreases parts.len(),
{
    let more = parts.push(last);
    if parts.len() == 1 {
        assert(more.drop_first() =~= seq![last]);
        assert(glued(more.drop_first(), sep) == last);
        assert(more[0] == parts[0]);
    } else {
        assert(more[0] == parts[0]);
        assert(more.drop_first() =~= parts.drop_first().push(last));
        lemma_glued_last(parts.drop_first(), last, sep);
        assert(glued(more, sep) =~= glued(parts, sep) + sep + last);
    }
}

/// With nothing between them, one more part stands behind all others.
pub proof fn lemma_glued_end(parts: Seq<Seq<char>>, last: Seq<char>)
    ensures
        glued(parts.push(last), seq![]) == glued(parts, seq![]) + last,
    decreases parts.len(),
{
    let none = Seq::<char>::empty();
    let more = parts.push(last);
    if parts.len() == 0 {
        assert(more =~= seq![last]);
        assert(none + last =~= last);
    } else {
        assert(more.drop_first() =~= parts.drop_first().push(last));
        lemma_glued_end(parts.drop_first(), last);
        assert(more[0] == parts[0]);
        if parts.len() == 1 {
            assert(glued(parts.drop_first(), none) =~= none);
            assert(glued(more, none) =~= parts[0] + last);
        } else {
            assert(glued(more, none) =~= glued(parts, none) + last);
        }
    }
}

/// Joining puts the separator between each two parts, and nowhere else.
pub proof fn lemma_joining(parts: Seq<Seq<char>>, sep: Seq<char>)
    ensures
        joined(parts, sep) == glued(parts, sep),
    decreases parts.len(),
{
    if parts.len() > 1 {
        let front = parts.drop_last();
        lemma_joining(front, sep);
        lemma_glued_last(front, parts.last(), sep);
        assert(front.push(parts.last()) =~= parts);
    }
}

/// The lines of a text are the text cut behind every line break: put together they
/// are the text again, and a line break stands at the end of each but the last, and
/// nowhere else.
pub proof fn lemma_lines_of_a_text(s: Seq<char>)
    ensures
        glued(raw_lines(s), seq![]) == s,
        forall|i: int|
            0 <= i < raw_lines(s).len() ==> (#[trigger] raw_lines(s)[i]).len() > 0,
        forall|i: int|
            0 <= i < raw_lines(s).len() - 1 ==> (#[trigger] raw_lines(s)[i]).last() == '\n',
        forall|i: int, j: int|
            0 <= i < raw_lines(s).len() && 0 <= j < raw_lines(s)[i].len() - 1
                ==> #[trigger] raw_lines(s)[i][j] != '\n',
    decreases s.len(),
{
    lemma_line_len(s);
    let n = line_len(s);
    let all = raw_lines(s);
    if 0 < n <= s.len() {
        let first = s.subrange(0, n);
        let rest = s.subrange(n, s.len() as int);
        lemma_lines_of_a_text(rest);
        let more = raw_lines(rest);
        assert(all.drop_first() =~= more);
        assert(first + rest =~= s);
        if more.len() == 0 {
            assert(glued(more, seq![]) =~= rest);
            assert(first =~= s);
        } else {
            assert(first + seq![] + glued(more, seq![]) =~= s);
            assert(rest.len() > 0) by {
                if rest.len() == 0 {
                    assert(line_len(rest) == 0);
                }
            }
        }
        assert forall|i: int| 0 <= i < all.len() implies (#[trigger] all[i]).len() > 0 by {
            if i > 0 {
                assert(all[i] == more[i - 1]);
            }
        }
        assert forall|i: int| 0 <= i < all.len() - 1 implies (#[trigger] all[i]).last()
            == '\n' by {
            if i > 0 {
                assert(all[i] == more[i - 1]);
            }
        }
        assert forall|i: int, j: int|
            0 <= i < all.len() && 0 <= j < all[i].len() - 1 implies #[trigger] all[i][j]
            != '\n' by {
            if i > 0 {
                assert(all[i] == more[i - 1]);
                assert(more[i - 1][j] != '\n');
            } else {
                assert(s[j] != '\n');
            }
        }
    } else {
        assert(s.len() == 0);
        assert(glued(all, seq![]) =~= s);
    }
}

/// Of a line only its ending is cut off: a line break, with a carriage return before
/// it where there is one.
pub proof fn lemma_line_ending(body: Seq<char>)
    requires
        !body.contains('\n'),
    ensures
        line_body(body) == body,
        line_body(body.push('\r').push('\n')) == body,
        body.len() == 0 || body.last() != '\r' ==> line_body(body.push('\n')) == body,
{
    assert(body.push('\r').push('\n').drop_last() =~= body.push('\r'));
    assert(body.push('\r').drop_last() =~= body);
    assert(body.push('\n').drop_last() =~= body);
    if body.len() > 0 {
        assert(body[body.len() - 1] != '\n');
    }
}

/// Words are what stands between blanks: two texts with a blank between them have
/// the words of both, and a text of one character has one where that is no blank.
pub proof fn lemma_words_add_up(a: Seq<char>, blank: char, b: Seq<char>)
    requires
        is_whitespace(blank),
    ensures
        word_count(a.push(blank) + b) == word_count(a) + word_count(b),
    decreases b.len(),
{
    let whole = a.push(blank) + b;
    if b.len() == 0 {
        assert(whole =~= a.push(blank));
        assert(whole.drop_last() =~= a);
    } else {
        lemma_words_add_up(a, blank, b.drop_last());
        assert(whole.drop_last() =~= a.push(blank) + b.drop_last());
        assert(whole.last() == b.last());
        if b.len() > 1 {
            assert(whole[whole.len() - 2] == b[b.len() - 2]);
        } else {
            assert(whole[whole.len() - 2] == blank);
        }
    }
}

/// What holds no blank is one word, where it is not empty; blanks are none.
pub proof fn lemma_one_word(s: Seq<char>)
    requires
        s.len() > 0,
    ensures
        (forall|i: int| 0 <= i < s.len() ==> !is_whitespace(#[trigger] s[i])) ==> word_count(s) == 1,
        (forall|i: int| 0 <= i < s.len() ==> is_whitespace(#[trigger] s[i])) ==> word_count(s) == 0,
    decreases s.len(),
{
    assert(s.last() == s[s.len() - 1]);
    if s.len() > 1 {
        let front = s.drop_last();
        lemma_one_word(front);
        assert(front.last() == s[s.len() - 2]);
        if forall|i: int| 0 <= i < s.len() ==> !is_whitespace(#[trigger] s[i]) {
            assert forall|i: int| 0 <= i < front.len() implies !is_whitespace(
                #[trigger] front[i],
            ) by {
                assert(front[i] == s[i]);
            }
            assert(!is_whitespace(s[s.len() - 2]));
            assert(!is_whitespace(s[s.len() - 1]));
        }
        if forall|i: int| 0 <= i < s.len() ==> is_whitespace(#[trigger] s[i]) {
            assert forall|i: int| 0 <= i < front.len() implies is_whitespace(
                #[trigger] front[i],
            ) by {
                assert(front[i] == s[i]);
            }
            assert(is_whitespace(s[s.len() - 1]));
        }
    } else {
        assert(word_count(s.drop_last()) == 0);
        assert(s.last() == s[0]);
    }
}

/// Trimming takes off blanks at both ends, all of them, and nothing else.
pub proof fn lemma_trimming(left: Seq<char>, core: Seq<char>, right: Seq<char>)
    requires
        forall|i: int| 0 <= i < left.len() ==> is_whitespace(#[trigger] left[i]),
        forall|i: int| 0 <= i < right.len() ==> is_whitespace(#[trigger] right[i]),
        core.len() > 0 ==> !is_whitespace(core[0]) && !is_whitespace(core.last()),
    ensures
        trimmed(left + core + right) == core,
{
    let s = left + core + right;
    if core.len() == 0 {
        assert forall|k: int| 0 <= k < s.len() implies is_whitespace(#[trigger] s[k]) by {
            if k < left.len() {
                assert(s[k] == left[k]);
            } else {
                assert(s[k] == right[k - left.len()]);
            }
        }
        lemma_trim_start(s, s.len() as int);
        assert(s.subrange(s.len() as int, s.len() as int) =~= seq![]);
    } else {
        assert forall|k: int| 0 <= k < left.len() implies is_whitespace(#[trigger] s[k]) by {
            assert(s[k] == left[k]);
        }
        lemma_trim_start(s, left.len() as int);
        let rest = s.subrange(left.len() as int, s.len() as int);
        assert(rest =~= core + right);
        assert forall|k: int| core.len() <= k < rest.len() implies is_whitespace(
            #[trigger] rest[k],
        ) by {
            assert(rest[k] == right[k - core.len()]);
        }
        lemma_trim_end(rest, core.len() as int);
        assert(rest.subrange(0, core.len() as int) =~= core);
    }
}

/// A number that was written is the number that its digits mean, and it is written
/// without zeros in front.
pub proof fn lemma_decimals(n: nat)
    ensures
        decimal_value(decimal(n)) == n,
        decimal(n).len() > 0,
        forall|i: int| 0 <= i < decimal(n).len() ==> is_digit(#[trigger] decimal(n)[i]),
        decimal(n).len() > 1 ==> decimal(n)[0] != '0',
    decreases n,
{
    if n < 10 {
        assert(decimal(n).drop_last() =~= seq![]);
        assert(decimal_value(decimal(n).drop_last()) == 0);
    } else {
        lemma_decimals(n / 10);
        let front = decimal(n / 10);
        let last = digit_char((n % 10) as int);
        assert(decimal(n).drop_last() =~= front);
        assert forall|i: int| 0 <= i < decimal(n).len() implies is_digit(
            #[trigger] decimal(n)[i],
        ) by {
            if i < front.len() {
                assert(decimal(n)[i] == front[i]);
            }
        }
        if front.len() == 1 {
            assert(n / 10 < 10) by {
                if n / 10 >= 10 {
                    lemma_decimals(n / 10 / 10);
                }
            }
            assert(front[0] == digit_char((n / 10) as int));
        }
        assert(decimal(n)[0] == front[0]);
    }
}

/// Two numbers are written alike only where they are the same.
pub proof fn lemma_decimals_differ(a: nat, b: nat)
    requires
        a != b,
    ensures
        decimal(a) != decimal(b),
{
    lemma_decimals(a);
    lemma_decimals(b);
}

/// Of ASCII, every character is one byte.
pub proof fn lemma_ascii_bytes(s: Seq<char>)
    requires
        forall|k: int| 0 <= k < s.len() ==> #[trigger] s[k] <= '\u{7f}',
    ensures
        byte_len(s) == s.len(),
    decreases s.len(),
{
    if s.len() == 0 {
        assert(s =~= seq![]);
    } else {
        let front = s.drop_last();
        assert forall|k: int| 0 <= k < front.len() implies #[trigger] front[k] <= '\u{7f}' by {
            assert(front[k] == s[k]);
        }
        lemma_ascii_bytes(front);
        lemma_byte_len_push(front, s.last());
        assert(front.push(s.last()) =~= s);
        assert(s[s.len() - 1] <= '\u{7f}');
        lemma_ascii_char(s.last());
    }
}

/// An ASCII character is one byte.
pub proof fn lemma_ascii_char(c: char)
    requires
        c <= '\u{7f}',
    ensures
        char_len(c) == 1,
{
}

/// A text contains what stands between its beginning and its end.
pub proof fn lemma_contains<T>(front: Seq<T>, middle: Seq<T>, back: Seq<T>)
    ensures
        contains(front + middle + back, middle),
{
    let whole = front + middle + back;
    let at = front.len() as int;
    lemma_find_from(whole, middle, 0);
    assert(whole.subrange(at, at + middle.len()) =~= middle);
    assert(occurs_at(whole, middle, at));
}

/// A number below zero is its distance from zero behind a minus.
pub proof fn lemma_signed_decimals(n: int)
    ensures
        n >= 0 ==> signed_decimal(n) == decimal(n as nat),
        n < 0 ==> signed_decimal(n).len() > 1 && signed_decimal(n)[0] == '-' && signed_decimal(
            n,
        ).skip(1) == decimal((-n) as nat),
{
    if n < 0 {
        lemma_decimals((-n) as nat);
        assert(signed_decimal(n).skip(1) =~= decimal((-n) as nat));
    }
}

/// A text begins with another exactly where it is that other and something more, or
/// nothing more.
pub proof fn lemma_beginnings<T>(s: Seq<T>, p: Seq<T>)
    ensures
        starts_with(s, p) <==> exists|rest: Seq<T>| s == #[trigger] (p + rest),
{
    if starts_with(s, p) {
        let rest = s.skip(p.len() as int);
        assert(s.subrange(0, p.len() as int) =~= p);
        assert(s =~= p + rest);
    }
    if exists|rest: Seq<T>| s == #[trigger] (p + rest) {
        let rest = choose|rest: Seq<T>| s == #[trigger] (p + rest);
        assert(s.subrange(0, p.len() as int) =~= p);
    }
}

/// What is left of a text without its beginning is what follows that.
pub proof fn lemma_cut_beginnings(p: Seq<char>, rest: Seq<char>, s: Seq<char>)
    ensures
        without_prefix(p + rest, p) == Some(rest),
        without_prefix(s, p) is Some <==> starts_with(s, p),
{
    let whole = p + rest;
    assert(whole.subrange(0, p.len() as int) =~= p);
    assert(whole.subrange(p.len() as int, whole.len() as int) =~= rest);
}

/// A text is blank exactly where every character of it is.
pub proof fn lemma_blank_texts(s: Seq<char>)
    ensures
        is_blank(s) <==> forall|i: int| 0 <= i < s.len() ==> is_whitespace(#[trigger] s[i]),
    decreases s.len(),
{
    let none = Seq::<char>::empty();
    if forall|i: int| 0 <= i < s.len() ==> is_whitespace(#[trigger] s[i]) {
        lemma_trimming(s, none, none);
        assert(s + none + none =~= s);
    } else {
        let some = choose|i: int| 0 <= i < s.len() && !is_whitespace(#[trigger] s[i]);
        let (a, b) = lemma_solid_core(s, some);
        lemma_trimming(s.take(a), s.subrange(a, b), s.skip(b));
        assert(s.take(a) + s.subrange(a, b) + s.skip(b) =~= s);
    }
}

proof fn lemma_solid_core(s: Seq<char>, some: int) -> (r: (int, int))
    requires
        0 <= some < s.len(),
        !is_whitespace(s[some]),
    ensures
        0 <= r.0 <= some < r.1 <= s.len(),
        !is_whitespace(s[r.0]),
        !is_whitespace(s[r.1 - 1]),
        forall|i: int| 0 <= i < r.0 ==> is_whitespace(#[trigger] s.take(r.0)[i]),
        forall|i: int| 0 <= i < s.len() - r.1 ==> is_whitespace(#[trigger] s.skip(r.1)[i]),
        s.subrange(r.0, r.1).len() > 0,
        !is_whitespace(s.subrange(r.0, r.1)[0]),
        !is_whitespace(s.subrange(r.0, r.1).last()),
{
    let a = lemma_first_solid(s, some, 0);
    let b = lemma_last_solid(s, some, s.len() as int);
    (a, b)
}

proof fn lemma_first_solid(s: Seq<char>, some: int, from: int) -> (a: int)
    requires
        0 <= from <= some < s.len(),
        !is_whitespace(s[some]),
        forall|i: int| 0 <= i < from ==> is_whitespace(#[trigger] s[i]),
    ensures
        0 <= a <= some,
        !is_whitespace(s[a]),
        forall|i: int| 0 <= i < a ==> is_whitespace(#[trigger] s[i]),
    decreases some - from,
{
    if is_whitespace(s[from]) {
        lemma_first_solid(s, some, from + 1)
    } else {
        from
    }
}

proof fn lemma_last_solid(s: Seq<char>, some: int, to: int) -> (b: int)
    requires
        0 <= some < to <= s.len(),
        !is_whitespace(s[some]),
        forall|i: int| to <= i < s.len() ==> is_whitespace(#[trigger] s[i]),
    ensures
        some < b <= s.len(),
        !is_whitespace(s[b - 1]),
        forall|i: int| b <= i < s.len() ==> is_whitespace(#[trigger] s[i]),
    decreases to - some,
{
    if is_whitespace(s[to - 1]) {
        lemma_last_solid(s, some, to - 1)
    } else {
        to
    }
}

/// Which characters are blank, by their numbers.
pub proof fn lemma_blank_characters(c: char)
    ensures
        is_whitespace(c) <==> {
            let n = c as u32;
            ||| 9 <= n <= 13
            ||| n == 0x20
            ||| n == 0x85
            ||| n == 0xa0
            ||| n == 0x1680
            ||| 0x2000 <= n <= 0x200a
            ||| n == 0x2028 || n == 0x2029
            ||| n == 0x202f
            ||| n == 0x205f
            ||| n == 0x3000
        },
{
}

} // verus!
