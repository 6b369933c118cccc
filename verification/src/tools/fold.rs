//! Replacing a literal text whatever its case.
//!
//! Matches are looked for in the lowercase text and carried over by their byte
//! offsets. Folding case can change how many bytes a character takes; where the
//! offsets are then no longer those of the match, the rest is left as it is.

use vstd::prelude::*;

use crate::text::{
    ascii_lower, byte_count, byte_len, char_byte_count, char_len, chars_of, find, find_from, glued,
    is_cut, lemma_ascii_bytes, lemma_byte_len_push, lemma_find_from, lemma_find_shift,
    lemma_first_cut, lowercase, lowercase_text, occurs_at, slice_text,
};

verus! {

/// How many characters of `s` take exactly `offset` bytes, where that is so.
pub open spec fn index_at(s: Seq<char>, offset: nat) -> Option<int>
    decreases s.len(),
{
    if byte_len(s) == offset {
        Some(s.len() as int)
    } else if s.len() == 0 {
        None
    } else {
        index_at(s.drop_last(), offset)
    }
}

/// Whether a text takes as many bytes in lower case.
pub open spec fn keeps_length(s: Seq<char>) -> bool {
    byte_len(lowercase_text(s)) == byte_len(s)
}

/// What becomes of `s` from its character `at` on, when `lower` from its
/// character `from` on is searched for `needle`.
pub open spec fn folded_from(
    s: Seq<char>,
    lower: Seq<char>,
    needle: Seq<char>,
    with: Seq<char>,
    from: int,
    at: int,
) -> Seq<char>
    decreases lower.len() - from,
{
    match find_from(lower, needle, from) {
        Some(k) if needle.len() > 0 && from <= k && k + needle.len() <= lower.len() => match (
            index_at(s, byte_len(lower.take(k))),
            index_at(s, byte_len(lower.take((k + needle.len()) as int))),
        ) {
            (Some(start), Some(end)) if keeps_length(s.subrange(at, start)) && keeps_length(
                s.subrange(start, end),
            ) => s.subrange(at, start) + with + folded_from(
                s,
                lower,
                needle,
                with,
                k + needle.len(),
                end,
            ),
            _ => s.skip(at),
        },
        _ => s.skip(at),
    }
}

/// `s` with every `needle` in any case replaced by `with`.
pub open spec fn replaced_ignoring_case(s: Seq<char>, needle: Seq<char>, with: Seq<char>) -> Seq<
    char,
> {
    if needle.len() == 0 {
        s
    } else {
        folded_from(s, lowercase_text(s), lowercase_text(needle), with, 0, 0)
    }
}

proof fn lemma_take_bytes(s: Seq<char>, i: int)
    requires
        0 <= i < s.len(),
    ensures
        byte_len(s.take(i + 1)) == byte_len(s.take(i)) + char_len(s[i]),
        char_len(s[i]) >= 1,
{
    assert(s.take(i + 1) =~= s.take(i).push(s[i]));
    lemma_byte_len_push(s.take(i), s[i]);
}

proof fn lemma_bytes_grow(s: Seq<char>, i: int, j: int)
    requires
        0 <= i <= j <= s.len(),
    ensures
        byte_len(s.take(i)) + (j - i) <= byte_len(s.take(j)),
    decreases j - i,
{
    if i < j {
        lemma_bytes_grow(s, i, j - 1);
        lemma_take_bytes(s, j - 1);
    }
}

proof fn lemma_index_at(s: Seq<char>, i: int)
    requires
        0 <= i <= s.len(),
    ensures
        index_at(s, byte_len(s.take(i))) == Some(i),
    decreases s.len(),
{
    assert(s.take(s.len() as int) =~= s);
    if i < s.len() {
        lemma_bytes_grow(s, i, s.len() as int);
        assert(s.drop_last().take(i) =~= s.take(i));
        lemma_index_at(s.drop_last(), i);
    }
}

proof fn lemma_no_index_at(s: Seq<char>, offset: nat)
    requires
        forall|i: int| 0 <= i <= s.len() ==> byte_len(#[trigger] s.take(i)) != offset,
    ensures
        index_at(s, offset) is None,
    decreases s.len(),
{
    assert(s.take(s.len() as int) =~= s);
    if s.len() > 0 {
        let front = s.drop_last();
        assert forall|i: int| 0 <= i <= front.len() implies byte_len(#[trigger] front.take(i))
            != offset by {
            assert(front.take(i) =~= s.take(i));
        }
        lemma_no_index_at(front, offset);
    }
}

fn same_length(text: &str) -> (r: bool)
    ensures
        r == keeps_length(text@),
{
    byte_count(&lowercase(text)) == byte_count(text)
}

/// How many bytes the first `to` characters take, where the first `from` take
/// `offset`.
fn bytes_up_to(chars: &Vec<char>, from: usize, to: usize, offset: usize) -> (r: usize)
    requires
        from <= to <= chars@.len(),
        offset == byte_len(chars@.take(from as int)),
        byte_len(chars@) <= usize::MAX,
    ensures
        r == byte_len(chars@.take(to as int)),
{
    let mut total: usize = offset;
    let mut i: usize = from;
    while i < to
        invariant
            from <= i <= to <= chars@.len(),
            total == byte_len(chars@.take(i as int)),
            byte_len(chars@) <= usize::MAX,
        decreases to - i,
    {
        proof {
            lemma_take_bytes(chars@, i as int);
            lemma_bytes_grow(chars@, i + 1, chars@.len() as int);
            assert(chars@.take(chars@.len() as int) =~= chars@);
        }
        total += char_byte_count(chars[i]);
        i += 1;
    }
    total
}

/// The character at byte `target`, looked for from character `from` on, which
/// stands at byte `offset`.
fn char_at(chars: &Vec<char>, from: usize, offset: usize, target: usize) -> (r: Option<usize>)
    requires
        from <= chars@.len(),
        offset == byte_len(chars@.take(from as int)),
        offset <= target,
        byte_len(chars@) <= usize::MAX,
    ensures
        match r {
            Some(i) => from <= i <= chars@.len() && index_at(chars@, target as nat) == Some(
                i as int,
            ) && byte_len(chars@.take(i as int)) == target,
            None => index_at(chars@, target as nat) is None,
        },
{
    let mut at: usize = offset;
    let mut i: usize = from;
    while at < target && i < chars.len()
        invariant
            from <= i <= chars@.len(),
            at == byte_len(chars@.take(i as int)),
            offset <= target,
            offset == byte_len(chars@.take(from as int)),
            byte_len(chars@) <= usize::MAX,
            i == from || byte_len(chars@.take(i - 1)) < target,
        decreases chars@.len() - i,
    {
        proof {
            lemma_take_bytes(chars@, i as int);
            lemma_bytes_grow(chars@, i + 1, chars@.len() as int);
            assert(chars@.take(chars@.len() as int) =~= chars@);
        }
        at += char_byte_count(chars[i]);
        i += 1;
    }
    if at == target {
        proof {
            lemma_index_at(chars@, i as int);
        }
        Some(i)
    } else {
        proof {
            assert forall|k: int| 0 <= k <= chars@.len() implies byte_len(#[trigger] chars@.take(k))
                != target by {
                if k < i {
                    if i > from {
                        lemma_bytes_grow(chars@, k, i - 1);
                    } else {
                        lemma_bytes_grow(chars@, k, from as int);
                    }
                } else {
                    lemma_bytes_grow(chars@, i as int, k);
                    if i == chars@.len() {
                        assert(k == i);
                    }
                }
            }
            lemma_no_index_at(chars@, target as nat);
        }
        None
    }
}

/// `haystack` with every `needle` in any case replaced by `with`.
pub fn replace_ignore_case(haystack: &str, needle: &str, with: &str) -> (r: String)
    ensures
        r@ == replaced_ignoring_case(haystack@, needle@, with@),
{
    let wanted = chars_of(needle);
    if wanted.len() == 0 {
        return haystack.to_owned();
    }
    let chars = chars_of(haystack);
    let lower_text = lowercase(haystack);
    let lower = chars_of(&lower_text);
    let folded_text = lowercase(needle);
    let folded = chars_of(&folded_text);
    let total: usize = byte_count(haystack);
    let lower_total: usize = byte_count(&lower_text);
    let ghost all = replaced_ignoring_case(haystack@, needle@, with@);
    let mut out = String::new();
    let mut from: usize = 0;
    let mut at: usize = 0;
    let mut offset: usize = 0;
    proof {
        assert(out@ + all =~= all);
        assert(chars@.take(0) =~= seq![]);
        assert(lower@.take(0) =~= seq![]);
        assert(byte_len(chars@.take(0)) == 0);
        assert(byte_len(lower@.take(0)) == 0);
    }
    loop
        invariant_except_break
            from <= lower@.len(),
            offset == byte_len(lower@.take(from as int)),
            offset == byte_len(chars@.take(at as int)),
            out@ + folded_from(chars@, lower@, folded@, with@, from as int, at as int) == all,
        invariant
            at <= chars@.len(),
            folded@.len() > 0,
            folded@ == folded_text@,
            byte_len(chars@) <= usize::MAX,
            byte_len(lower@) <= usize::MAX,
        ensures
            out@ + chars@.skip(at as int) == all,
        decreases lower@.len() - from,
    {
        proof {
            lemma_find_from(lower@, folded@, from as int);
        }
        match find(&lower, &folded, from) {
            Some(k) => {
                assert(k + folded@.len() <= lower.len());
                let end: usize = k + folded.len();
                let start_offset = bytes_up_to(&lower, from, k, offset);
                proof {
                    lemma_bytes_grow(lower@, from as int, k as int);
                    lemma_bytes_grow(lower@, k as int, end as int);
                }
                let end_offset = bytes_up_to(&lower, k, end, start_offset);
                match (
                    char_at(&chars, at, offset, start_offset),
                    char_at(&chars, at, offset, end_offset),
                ) {
                    (Some(a), Some(b)) => {
                        let ghost before = out@;
                        proof {
                            if b < a {
                                lemma_bytes_grow(chars@, b as int, a as int);
                            }
                        }
                        if !same_length(&slice_text(&chars, at, a)) || !same_length(
                            &slice_text(&chars, a, b),
                        ) {
                            break;
                        }
                        out.append(slice_text(&chars, at, a).as_str());
                        out.append(with);
                        proof {
                            let rest = folded_from(
                                chars@,
                                lower@,
                                folded@,
                                with@,
                                end as int,
                                b as int,
                            );
                            assert(before + (chars@.subrange(at as int, a as int) + with@ + rest)
                                =~= out@ + rest);
                        }
                        from = end;
                        at = b;
                        offset = end_offset;
                    },
                    _ => {
                        break;
                    },
                }
            },
            None => {
                break;
            },
        }
    }
    out.append(slice_text(&chars, at, chars.len()).as_str());
    assert(chars@.subrange(at as int, chars@.len() as int) =~= chars@.skip(at as int));
    out
}

/// Where nothing matches, nothing changes.
pub proof fn lemma_no_match_no_change(s: Seq<char>, needle: Seq<char>, with: Seq<char>)
    requires
        needle.len() == 0 || !crate::text::contains(lowercase_text(s), lowercase_text(needle)),
    ensures
        replaced_ignoring_case(s, needle, with) == s,
{
    assert(s.skip(0) =~= s);
}

/// Gaps with what stands between them.
pub open spec fn woven(gaps: Seq<Seq<char>>, hits: Seq<Seq<char>>) -> Seq<char>
    decreases gaps.len(),
{
    if gaps.len() == 0 {
        seq![]
    } else if gaps.len() == 1 || hits.len() == 0 {
        gaps[0]
    } else {
        gaps[0] + hits[0] + woven(gaps.drop_first(), hits.drop_first())
    }
}

/// A text with its ASCII letters in lower case.
pub open spec fn ascii_folded(s: Seq<char>) -> Seq<char> {
    s.map_values(|c: char| ascii_lower(c))
}

/// Whether a text is ASCII.
pub open spec fn is_ascii(s: Seq<char>) -> bool {
    forall|k: int| 0 <= k < s.len() ==> #[trigger] s[k] <= '\u{7f}'
}

/// Whether lowercasing is that of ASCII wherever there is nothing else.
pub open spec fn folds_ascii() -> bool {
    forall|t: Seq<char>| is_ascii(t) ==> #[trigger] lowercase_text(t) == ascii_folded(t)
}

/// Several texts with their ASCII letters in lower case.
pub open spec fn all_folded(list: Seq<Seq<char>>) -> Seq<Seq<char>> {
    list.map_values(|s: Seq<char>| ascii_folded(s))
}

proof fn lemma_index_of_ascii(s: Seq<char>, k: int)
    requires
        is_ascii(s),
        0 <= k <= s.len(),
    ensures
        index_at(s, k as nat) == Some(k),
    decreases s.len(),
{
    lemma_ascii_bytes(s);
    if k < s.len() {
        let front = s.drop_last();
        assert forall|i: int| 0 <= i < front.len() implies #[trigger] front[i] <= '\u{7f}' by {
            assert(front[i] == s[i]);
        }
        lemma_index_of_ascii(front, k);
    }
}

proof fn lemma_ascii_keeps_length(s: Seq<char>, a: int, b: int)
    requires
        is_ascii(s),
        folds_ascii(),
        0 <= a <= b <= s.len(),
    ensures
        keeps_length(s.subrange(a, b)),
{
    let part = s.subrange(a, b);
    assert forall|i: int| 0 <= i < part.len() implies #[trigger] part[i] <= '\u{7f}' by {
        assert(part[i] == s[a + i]);
    }
    let low = ascii_folded(part);
    assert(lowercase_text(part) == low);
    assert forall|i: int| 0 <= i < low.len() implies #[trigger] low[i] <= '\u{7f}' by {
        assert(part[i] <= '\u{7f}');
    }
    lemma_ascii_bytes(part);
    lemma_ascii_bytes(low);
}

proof fn lemma_folding_from(s: Seq<char>, needle: Seq<char>, with: Seq<char>, at: int) -> (r: (
    Seq<Seq<char>>,
    Seq<Seq<char>>,
))
    requires
        is_ascii(s),
        folds_ascii(),
        needle.len() > 0,
        0 <= at <= s.len(),
    ensures
        r.0.len() == r.1.len() + 1,
        woven(r.0, r.1) == s.skip(at),
        forall|i: int| 0 <= i < r.1.len() ==> ascii_folded(#[trigger] r.1[i]) == needle,
        is_cut(ascii_folded(s).skip(at), needle, all_folded(r.0)),
        folded_from(s, ascii_folded(s), needle, with, at, at) == glued(r.0, with),
    decreases s.len() - at,
{
    let lower = ascii_folded(s);
    let tail = lower.skip(at);
    lemma_find_from(lower, needle, at);
    lemma_find_from(tail, needle, 0);
    lemma_find_shift(lower, needle, at, 0);
    assert(lower.subrange(at, lower.len() as int) =~= tail);
    match find_from(lower, needle, at) {
        Some(k) => {
            let end = k + needle.len();
            let (gaps, hits) = lemma_folding_from(s, needle, with, end);
            let gap = s.subrange(at, k);
            let hit = s.subrange(k, end);
            assert(forall|i: int| 0 <= i < lower.len() ==> #[trigger] lower[i] <= '\u{7f}') by {
                assert forall|i: int| 0 <= i < lower.len() implies #[trigger] lower[i]
                    <= '\u{7f}' by {
                    assert(s[i] <= '\u{7f}');
                }
            }
            lemma_ascii_bytes(lower.take(k));
            lemma_ascii_bytes(lower.take(end));
            lemma_index_of_ascii(s, k);
            lemma_index_of_ascii(s, end);
            lemma_ascii_keeps_length(s, at, k);
            lemma_ascii_keeps_length(s, k, end);
            let all_gaps = seq![gap] + gaps;
            let all_hits = seq![hit] + hits;
            assert(all_gaps.drop_first() =~= gaps);
            assert(all_hits.drop_first() =~= hits);
            assert(woven(all_gaps, all_hits) == gap + hit + woven(gaps, hits));
            assert(gap + hit + s.skip(end) =~= s.skip(at));
            assert(ascii_folded(hit) =~= lower.subrange(k, end));
            assert forall|i: int| 0 <= i < all_hits.len() implies ascii_folded(
                #[trigger] all_hits[i],
            ) == needle by {
                if i > 0 {
                    assert(all_hits[i] == hits[i - 1]);
                }
            }
            assert(find_from(tail, needle, 0) == Some(k - at));
            let rest = tail.subrange(k - at + needle.len(), tail.len() as int);
            assert(rest =~= lower.skip(end));
            lemma_first_cut(tail, needle, k - at, all_folded(gaps));
            assert(tail.subrange(0, k - at) =~= ascii_folded(gap));
            assert(seq![ascii_folded(gap)] + all_folded(gaps) =~= all_folded(all_gaps));
            (all_gaps, all_hits)
        },
        None => {
            let gaps = seq![s.skip(at)];
            let hits = Seq::<Seq<char>>::empty();
            assert(ascii_folded(s.skip(at)) =~= tail);
            assert(all_folded(gaps) =~= seq![tail]);
            assert(glued(seq![tail], needle) == tail);
            assert forall|j: int| !#[trigger] occurs_at(all_folded(gaps).last(), needle, j) by {
                assert(!occurs_at(tail, needle, j));
            }
            (gaps, hits)
        },
    }
}

/// Of ASCII, replacing whatever the case cuts the text where it reads as what is
/// looked for once the case of its letters is set aside, from left to right and
/// everywhere, puts the replacement there, and keeps all that stands between as it is
/// written.
pub proof fn lemma_replacing_whatever_the_case(
    s: Seq<char>,
    needle: Seq<char>,
    with: Seq<char>,
) -> (r: (Seq<Seq<char>>, Seq<Seq<char>>))
    requires
        is_ascii(s),
        is_ascii(needle),
        needle.len() > 0,
        folds_ascii(),
    ensures
        r.0.len() == r.1.len() + 1,
        woven(r.0, r.1) == s,
        forall|i: int|
            0 <= i < r.1.len() ==> ascii_folded(#[trigger] r.1[i]) == ascii_folded(needle),
        is_cut(ascii_folded(s), ascii_folded(needle), all_folded(r.0)),
        replaced_ignoring_case(s, needle, with) == glued(r.0, with),
{
    assert(lowercase_text(s) == ascii_folded(s));
    assert(lowercase_text(needle) == ascii_folded(needle));
    assert(s.skip(0) =~= s);
    assert(ascii_folded(s).skip(0) =~= ascii_folded(s));
    lemma_folding_from(s, ascii_folded(needle), with, 0)
}

} // verus!
