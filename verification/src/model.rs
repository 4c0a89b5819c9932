//! Shared model-name normalization for adaptive learner state keys.
use vstd::prelude::*;

verus! {

/// Longest normalized model name.
pub const MAX_MODEL_BUCKET_CHARS: usize = 64;

/// Whether a character is an ASCII letter or digit.
pub open spec fn ascii_alphanumeric(c: char) -> bool {
    ('a' <= c && c <= 'z') || ('A' <= c && c <= 'Z') || ('0' <= c && c <= '9')
}

/// The lower-case form of an ASCII letter; any other character unchanged.
pub open spec fn ascii_lower(c: char) -> char {
    if 'A' <= c && c <= 'Z' {
        (c as u32 + 32) as char
    } else {
        c
    }
}

/// The character that stands for `c` in a normalized name.
pub open spec fn bucket_char(c: char) -> char {
    if ascii_alphanumeric(c) {
        ascii_lower(c)
    } else {
        '-'
    }
}

/// `s` without the leading characters that equal `c`.
pub open spec fn without_leading(s: Seq<char>, c: char) -> Seq<char>
    decreases s.len(),
{
    if s.len() > 0 && s[0] == c {
        without_leading(s.drop_first(), c)
    } else {
        s
    }
}

/// `s` without the trailing characters that equal `c`.
pub open spec fn without_trailing(s: Seq<char>, c: char) -> Seq<char>
    decreases s.len(),
{
    if s.len() > 0 && s.last() == c {
        without_trailing(s.drop_last(), c)
    } else {
        s
    }
}

/// The compact state key for a model name: letters and digits in lower case, everything else a
/// dash, no dash at either end, and no more than the first characters of it.
pub open spec fn bucket_of(model_name: Seq<char>) -> Seq<char> {
    let normalized = model_name.map_values(|c: char| bucket_char(c));
    let trimmed = without_trailing(without_leading(normalized, '-'), '-');
    if trimmed.len() == 0 {
        "unknown"@
    } else if trimmed.len() > MAX_MODEL_BUCKET_CHARS {
        trimmed.take(MAX_MODEL_BUCKET_CHARS as int)
    } else {
        trimmed
    }
}

/// Returns the lower-case form of an ASCII letter; any other character unchanged.
pub fn to_ascii_lower(c: char) -> (r: char)
    ensures
        r == ascii_lower(c),
{
    if 'A' <= c && c <= 'Z' {
        (c as u8 + 32) as char
    } else {
        c
    }
}

fn to_bucket_char(c: char) -> (r: char)
    ensures
        r == bucket_char(c),
{
    if ('a' <= c && c <= 'z') || ('A' <= c && c <= 'Z') || ('0' <= c && c <= '9') {
        to_ascii_lower(c)
    } else {
        '-'
    }
}

/// Dropping leading characters in one step or one at a time comes to the same.
proof fn lemma_without_leading(s: Seq<char>, c: char, n: int)
    requires
        0 <= n <= s.len(),
        forall|i: int| 0 <= i < n ==> s[i] == c,
        n < s.len() ==> s[n] != c,
    ensures
        without_leading(s, c) == s.skip(n),
    decreases n,
{
    if n == 0 {
        assert(s.skip(0) =~= s);
    } else {
        lemma_without_leading(s.drop_first(), c, n - 1);
        assert(s.drop_first().skip(n - 1) =~= s.skip(n));
    }
}

/// Dropping trailing characters in one step or one at a time comes to the same.
proof fn lemma_without_trailing(s: Seq<char>, c: char, n: int)
    requires
        0 <= n <= s.len(),
        forall|i: int| n <= i < s.len() ==> s[i] == c,
        n > 0 ==> s[n - 1] != c,
    ensures
        without_trailing(s, c) == s.take(n),
    decreases s.len() - n,
{
    if n == s.len() {
        assert(s.take(n) =~= s);
    } else {
        lemma_without_trailing(s.drop_last(), c, n);
        assert(s.drop_last().take(n) =~= s.take(n));
    }
}

/// Normalize a model name into a compact state key.
pub fn model_bucket(model_name: &str) -> (r: String)
    ensures
        r@ == bucket_of(model_name@),
{
    let ghost normalized = model_name@.map_values(|c: char| bucket_char(c));
    let mut chars: Vec<char> = Vec::new();
    for c in it: model_name.chars()
        invariant
            it.seq() == model_name@,
            normalized == model_name@.map_values(|c: char| bucket_char(c)),
            chars@ == normalized.take(it.index() as int),
    {
        chars.push(to_bucket_char(c));
    }
    assert(chars@ =~= normalized);

    let mut start: usize = 0;
    while start < chars.len() && chars[start] == '-'
        invariant
            start <= chars.len(),
            forall|i: int| 0 <= i < start ==> chars@[i] == '-',
        decreases chars.len() - start,
    {
        start += 1;
    }
    let mut end: usize = chars.len();
    while end > start && chars[end - 1] == '-'
        invariant
            start <= end <= chars.len(),
            forall|i: int| end <= i < chars.len() ==> chars@[i] == '-',
        decreases end,
    {
        end -= 1;
    }
    proof {
        lemma_without_leading(normalized, '-', start as int);
        lemma_without_trailing(normalized.skip(start as int), '-', end - start);
        assert(normalized.skip(start as int).take(end - start) =~= normalized.subrange(
            start as int,
            end as int,
        ));
    }
    if start == end {
        return "unknown".to_owned();
    }
    let mut stop: usize = end;
    if end - start > MAX_MODEL_BUCKET_CHARS {
        stop = start + MAX_MODEL_BUCKET_CHARS;
    }
    let mut out = String::new();
    let mut i: usize = start;
    while i < stop
        invariant
            start <= i <= stop <= end <= chars.len(),
            chars@ == normalized,
            out@ == normalized.subrange(start as int, i as int),
        decreases stop - i,
    {
        out.push(chars[i]);
        i += 1;
    }
    assert(out@ =~= bucket_of(model_name@));
    out
}

/// What is left without leading characters came from the name and does not begin with one.
proof fn lemma_leading_gone(s: Seq<char>, c: char)
    ensures
        without_leading(s, c).len() > 0 ==> without_leading(s, c)[0] != c,
        forall|i: int|
            0 <= i < without_leading(s, c).len() ==> s.contains(
                #[trigger] without_leading(s, c)[i],
            ),
    decreases s.len(),
{
    if s.len() > 0 && s[0] == c {
        lemma_leading_gone(s.drop_first(), c);
        let left = without_leading(s, c);
        assert forall|i: int| 0 <= i < left.len() implies s.contains(#[trigger] left[i]) by {
            let k = choose|k: int| 0 <= k < s.drop_first().len() && s.drop_first()[k] == left[i];
            assert(s[k + 1] == left[i]);
        }
    }
}

/// What is left without trailing characters begins as the name does.
proof fn lemma_trailing_gone(s: Seq<char>, c: char)
    ensures
        without_trailing(s, c).len() <= s.len(),
        without_trailing(s, c) == s.take(without_trailing(s, c).len() as int),
    decreases s.len(),
{
    if s.len() > 0 && s.last() == c {
        lemma_trailing_gone(s.drop_last(), c);
        let n = without_trailing(s, c).len() as int;
        assert(s.drop_last().take(n) =~= s.take(n));
    } else {
        assert(s.take(s.len() as int) =~= s);
    }
}

/// Whether a character can stand in a state key.
pub open spec fn key_char(c: char) -> bool {
    ('a' <= c && c <= 'z') || ('0' <= c && c <= '9') || c == '-'
}

/// A state key is short, never empty, made of lower-case letters, digits and dashes, and does not
/// begin with a dash.
pub proof fn law_bucket_is_compact(model_name: Seq<char>)
    ensures
        0 < bucket_of(model_name).len() <= MAX_MODEL_BUCKET_CHARS,
        bucket_of(model_name)[0] != '-',
        forall|i: int|
            0 <= i < bucket_of(model_name).len() ==> key_char(#[trigger] bucket_of(model_name)[i]),
{
    let normalized = model_name.map_values(|c: char| bucket_char(c));
    let begun = without_leading(normalized, '-');
    let trimmed = without_trailing(begun, '-');
    reveal_strlit("unknown");
    lemma_leading_gone(normalized, '-');
    lemma_trailing_gone(begun, '-');
    assert forall|i: int| 0 <= i < begun.len() implies key_char(#[trigger] begun[i]) by {
        let k = choose|k: int| 0 <= k < normalized.len() && normalized[k] == begun[i];
        assert(normalized[k] == bucket_char(model_name[k]));
    }
    assert forall|i: int| 0 <= i < bucket_of(model_name).len() implies key_char(
        #[trigger] bucket_of(model_name)[i],
    ) by {
        if trimmed.len() > 0 {
            assert(bucket_of(model_name)[i] == begun[i]);
        }
    }
}

/// Whether `b` spells `c` in a state key: a lower-case letter or a digit stands for itself, an
/// upper-case letter for the lower-case one, and anything else is a dash.
pub open spec fn spells(b: char, c: char) -> bool {
    if 'A' <= c && c <= 'Z' {
        b as int == c as int + 32
    } else if ('a' <= c && c <= 'z') || ('0' <= c && c <= '9') {
        b == c
    } else {
        b == '-'
    }
}

/// Whether a character is part of a name, and none that only parts it.
pub open spec fn named_by(c: char) -> bool {
    ('a' <= c && c <= 'z') || ('A' <= c && c <= 'Z') || ('0' <= c && c <= '9')
}

/// The state key of a model name spells the name, from its first letter or digit to its last, or the
/// first characters of that when they are too many. A name without any letter or digit is unknown. So
/// names that differ in letters or digits have different keys, and names that differ in case alone
/// have the same.
pub proof fn law_bucket_spells_the_name(model_name: Seq<char>, first: int, end: int)
    requires
        0 <= first <= end <= model_name.len(),
        forall|i: int| 0 <= i < first ==> !named_by(#[trigger] model_name[i]),
        forall|i: int| end <= i < model_name.len() ==> !named_by(#[trigger] model_name[i]),
        first < end ==> named_by(model_name[first]) && named_by(model_name[end - 1]),
    ensures
        first == end ==> bucket_of(model_name) == "unknown"@,
        first < end ==> {
            &&& bucket_of(model_name).len() == if end - first > 64 {
                64
            } else {
                end - first
            }
            &&& forall|i: int|
                0 <= i < bucket_of(model_name).len() ==> spells(
                    #[trigger] bucket_of(model_name)[i],
                    model_name[first + i],
                )
        },
{
    let normalized = model_name.map_values(|c: char| bucket_char(c));
    assert forall|i: int| 0 <= i < first implies #[trigger] normalized[i] == '-' by {
        assert(!named_by(model_name[i]));
    }
    if first < end {
        assert(named_by(model_name[first]));
        lemma_leading_skipped(normalized, '-', first);
        let begun = normalized.skip(first);
        assert forall|i: int| end - first <= i < begun.len() implies #[trigger] begun[i] == '-' by {
            assert(!named_by(model_name[first + i]));
        }
        assert(begun[end - first - 1] == bucket_char(model_name[end - 1]));
        lemma_trailing_skipped(begun, '-', end - first);
    } else {
        assert forall|i: int| 0 <= i < normalized.len() implies #[trigger] normalized[i] == '-' by {
            assert(!named_by(model_name[i]));
        }
        lemma_leading_skipped(normalized, '-', normalized.len() as int);
        lemma_trailing_skipped(normalized.skip(normalized.len() as int), '-', 0);
    }
}

proof fn lemma_leading_skipped(s: Seq<char>, c: char, n: int)
    requires
        0 <= n <= s.len(),
        forall|i: int| 0 <= i < n ==> #[trigger] s[i] == c,
        n < s.len() ==> s[n] != c,
    ensures
        without_leading(s, c) == s.skip(n),
    decreases n,
{
    if n == 0 {
        assert(s.skip(0) =~= s);
    } else {
        let rest = s.drop_first();
        assert(s[0] == c);
        assert forall|i: int| 0 <= i < n - 1 implies #[trigger] rest[i] == c by {
            assert(rest[i] == s[i + 1]);
        }
        lemma_leading_skipped(rest, c, n - 1);
        assert(rest.skip(n - 1) =~= s.skip(n));
    }
}

proof fn lemma_trailing_skipped(s: Seq<char>, c: char, n: int)
    requires
        0 <= n <= s.len(),
        forall|i: int| n <= i < s.len() ==> #[trigger] s[i] == c,
        n > 0 ==> s[n - 1] != c,
    ensures
        without_trailing(s, c) == s.take(n),
    decreases s.len() - n,
{
    if n == s.len() {
        assert(s.take(n) =~= s);
    } else {
        let rest = s.drop_last();
        assert(s[s.len() - 1] == c);
        lemma_trailing_skipped(rest, c, n);
        assert(rest.take(n) =~= s.take(n));
    }
}

} // verus!
