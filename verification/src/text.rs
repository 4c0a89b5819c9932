//! Text building and comparison.
use vstd::prelude::*;
use vstd::utf8::encode_utf8;

verus! {

/// Appends one character.
///
/// Specifies `String::push`: the character goes to the end of the text.
pub assume_specification[ String::push ](s: &mut String, c: char)
    ensures
        final(s)@ == old(s)@.push(c),
;

/// The texts that a list of strings holds.
pub open spec fn texts(list: Seq<String>) -> Seq<Seq<char>> {
    list.map_values(|s: String| s@)
}

/// An optional string as optional text.
pub open spec fn optional_text(s: Option<String>) -> Option<Seq<char>> {
    match s {
        Some(text) => Some(text@),
        None => None,
    }
}

/// The decimal digit for a number below ten.
pub open spec fn digit(n: nat) -> char {
    (48 + n) as char
}

/// A number written in decimal.
pub open spec fn decimal(n: nat) -> Seq<char>
    decreases n,
{
    if n < 10 {
        seq![digit(n)]
    } else {
        decimal(n / 10).push(digit(n % 10))
    }
}

/// The texts of `parts` with `separator` between each two.
pub open spec fn joined(parts: Seq<Seq<char>>, separator: Seq<char>) -> Seq<char>
    decreases parts.len(),
{
    if parts.len() == 0 {
        Seq::empty()
    } else if parts.len() == 1 {
        parts[0]
    } else {
        joined(parts.drop_last(), separator) + separator + parts.last()
    }
}

/// Tests whether two texts are equal.
pub fn same_text(a: &str, b: &str) -> (r: bool)
    ensures
        r == (a@ == b@),
{
    a.to_owned() == b.to_owned()
}

/// Tests whether `text` begins with `prefix`.
pub fn begins_with(text: &str, prefix: &str) -> (r: bool)
    ensures
        r == prefix@.is_prefix_of(text@),
{
    let n: usize = prefix.unicode_len();
    if text.unicode_len() < n {
        return false;
    }
    let head = text.substring_char(0, n);
    proof {
        assert(head@ == text@.take(n as int));
        assert(prefix@.is_prefix_of(text@) <==> prefix@ == text@.take(n as int)) by {
            if prefix@.is_prefix_of(text@) {
                assert(prefix@ =~= text@.take(n as int));
            }
        }
    }
    same_text(head, prefix)
}

/// Appends a number in decimal.
pub fn push_decimal(out: &mut String, n: usize)
    ensures
        final(out)@ == old(out)@ + decimal(n as nat),
    decreases n,
{
    if n >= 10 {
        push_decimal(out, n / 10);
    }
    let low: u8 = (n % 10) as u8;
    out.push((48u8 + low) as char);
    proof {
        assert(out@ =~= old(out)@ + decimal(n as nat));
    }
}

/// Joins texts with a separator.
pub fn join(parts: &[String], separator: &str) -> (r: String)
    ensures
        r@ == joined(texts(parts@), separator@),
{
    let mut out = String::new();
    let mut i: usize = 0;
    while i < parts.len()
        invariant
            i <= parts.len(),
            out@ == joined(texts(parts@).take(i as int), separator@),
        decreases parts.len() - i,
    {
        if i > 0 {
            out.append(separator);
        }
        out.append(parts[i].as_str());
        proof {
            let before = texts(parts@).take(i as int);
            let after = texts(parts@).take(i + 1);
            assert(after.drop_last() =~= before);
            assert(after.last() == parts@[i as int]@);
            assert(out@ =~= joined(after, separator@));
        }
        i += 1;
    }
    proof {
        assert(texts(parts@).take(parts.len() as int) =~= texts(parts@));
    }
    out
}

/// Copies a list of strings.
pub fn copy_texts(list: &[String]) -> (r: Vec<String>)
    ensures
        r@ == list@,
{
    let mut out: Vec<String> = Vec::new();
    let mut i: usize = 0;
    while i < list.len()
        invariant
            i <= list@.len(),
            out@ == list@.take(i as int),
        decreases list@.len() - i,
    {
        out.push(list[i].clone());
        i += 1;
    }
    proof {
        assert(list@.take(list@.len() as int) =~= list@);
    }
    out
}

/// Copies an optional string.
pub fn copy_text(text: &Option<String>) -> (r: Option<String>)
    ensures
        r == *text,
{
    match text {
        Some(s) => Some(s.clone()),
        None => None,
    }
}

/// Tests whether a list of strings holds a text.
pub fn holds_text(list: &Vec<String>, text: &str) -> (r: bool)
    ensures
        r == texts(list@).contains(text@),
{
    let mut i: usize = 0;
    while i < list.len()
        invariant
            i <= list.len(),
            forall|j: int| 0 <= j < i ==> (#[trigger] list@[j])@ != text@,
        decreases list.len() - i,
    {
        if same_text(list[i].as_str(), text) {
            proof {
                assert(texts(list@)[i as int] == text@);
            }
            return true;
        }
        i += 1;
    }
    proof {
        assert forall|j: int| 0 <= j < texts(list@).len() implies texts(list@)[j] != text@ by {
            assert(texts(list@)[j] == list@[j]@);
        }
    }
    false
}

/// Two texts that are put together from parts of equal length have equal parts.
pub proof fn lemma_equal_parts(x: Seq<char>, u: Seq<char>, y: Seq<char>, v: Seq<char>)
    requires
        x + u == y + v,
        x.len() == y.len(),
    ensures
        x == y,
        u == v,
{
    let s = x + u;
    assert(x =~= s.take(x.len() as int));
    assert(y =~= s.take(x.len() as int));
    assert(u =~= s.skip(x.len() as int));
    assert(v =~= s.skip(x.len() as int));
}

/// Two texts that are parted at the first occurrence of a character have equal parts.
pub proof fn lemma_parted(x: Seq<char>, u: Seq<char>, y: Seq<char>, v: Seq<char>, c: char)
    requires
        x + u == y + v,
        !x.contains(c),
        !y.contains(c),
        u.len() > 0,
        v.len() > 0,
        u[0] == c,
        v[0] == c,
    ensures
        x == y,
        u == v,
{
    let s = x + u;
    assert(s[x.len() as int] == c);
    assert((y + v)[y.len() as int] == c);
    if x.len() < y.len() {
        assert(y[x.len() as int] == (y + v)[x.len() as int]);
    } else if y.len() < x.len() {
        assert(x[y.len() as int] == s[y.len() as int]);
    }
    lemma_equal_parts(x, u, y, v);
}

/// A number in decimal is written in digits.
pub proof fn lemma_decimal_digits(n: nat)
    ensures
        decimal(n).len() > 0,
        forall|i: int| 0 <= i < decimal(n).len() ==> '0' <= #[trigger] decimal(n)[i] <= '9',
    decreases n,
{
    if n >= 10 {
        lemma_decimal_digits(n / 10);
    }
}

/// Different numbers are written differently.
pub proof fn lemma_decimal_injective(a: nat, b: nat)
    requires
        decimal(a) == decimal(b),
    ensures
        a == b,
    decreases a,
{
    assert(decimal(a).last() == digit(a % 10));
    assert(decimal(b).last() == digit(b % 10));
    assert(a % 10 == b % 10);
    if a >= 10 {
        lemma_decimal_digits(a / 10);
    }
    if b >= 10 {
        lemma_decimal_digits(b / 10);
    }
    assert(decimal(a).len() == decimal(b).len());
    if a >= 10 && b >= 10 {
        assert(decimal(a).drop_last() =~= decimal(a / 10));
        assert(decimal(b).drop_last() =~= decimal(b / 10));
        lemma_decimal_injective(a / 10, b / 10);
    }
}

/// Texts put together take the bytes of both.
pub proof fn lemma_bytes_of_both(a: Seq<char>, b: Seq<char>)
    ensures
        encode_utf8(a + b).len() == encode_utf8(a).len() + encode_utf8(b).len(),
    decreases a.len(),
{
    if a.len() == 0 {
        assert(a + b =~= b);
    } else {
        lemma_bytes_of_both(a.drop_first(), b);
        assert((a + b).drop_first() =~= a.drop_first() + b);
    }
}

/// A text that is not empty takes bytes.
pub proof fn lemma_some_bytes(a: Seq<char>)
    requires
        a.len() > 0,
    ensures
        encode_utf8(a).len() > 0,
{
}

/// Two texts that are parted at the last occurrence of a character have equal parts.
pub proof fn lemma_parted_last(x: Seq<char>, u: Seq<char>, y: Seq<char>, v: Seq<char>, c: char)
    requires
        x.push(c) + u == y.push(c) + v,
        !u.contains(c),
        !v.contains(c),
    ensures
        x == y,
        u == v,
{
    let s = x.push(c) + u;
    let t = y.push(c) + v;
    assert(s.len() == x.len() + 1 + u.len() && t.len() == y.len() + 1 + v.len());
    assert(s[x.len() as int] == c && t[y.len() as int] == c);
    if x.len() < y.len() {
        let k = y.len() - x.len() - 1;
        assert(0 <= k < u.len());
        assert(s[y.len() as int] == u[k]);
    } else if y.len() < x.len() {
        let k = x.len() - y.len() - 1;
        assert(0 <= k < v.len());
        assert(t[x.len() as int] == v[k]);
    }
    lemma_equal_parts(x.push(c), u, y.push(c), v);
    assert(x.push(c).drop_last() =~= x);
    assert(y.push(c).drop_last() =~= y);
}

/// Whether no text of a list has a character in it.
pub open spec fn none_has(parts: Seq<Seq<char>>, c: char) -> bool {
    forall|i: int| 0 <= i < parts.len() ==> !(#[trigger] parts[i]).contains(c)
}

/// Lists of texts without the separator are told apart when they are joined.
pub proof fn lemma_joined_injective(a: Seq<Seq<char>>, b: Seq<Seq<char>>, c: char)
    requires
        a.len() > 0,
        b.len() > 0,
        none_has(a, c),
        none_has(b, c),
        joined(a, seq![c]) == joined(b, seq![c]),
    ensures
        a == b,
    decreases a.len(),
{
    let (last_a, last_b) = (a[a.len() - 1], b[b.len() - 1]);
    assert(!a[0].contains(c) && !b[0].contains(c));
    assert(!last_a.contains(c) && !last_b.contains(c));
    let (front_a, front_b) = (joined(a.drop_last(), seq![c]), joined(b.drop_last(), seq![c]));
    if a.len() > 1 {
        assert(joined(a, seq![c]) =~= front_a.push(c) + last_a);
        assert(joined(a, seq![c])[front_a.len() as int] == c);
    }
    if b.len() > 1 {
        assert(joined(b, seq![c]) =~= front_b.push(c) + last_b);
        assert(joined(b, seq![c])[front_b.len() as int] == c);
    }
    if a.len() > 1 && b.len() > 1 {
        lemma_parted_last(front_a, last_a, front_b, last_b, c);
        assert forall|i: int| 0 <= i < a.drop_last().len() implies !(
        #[trigger] a.drop_last()[i]).contains(c) by {
            assert(a.drop_last()[i] == a[i]);
        }
        assert forall|i: int| 0 <= i < b.drop_last().len() implies !(
        #[trigger] b.drop_last()[i]).contains(c) by {
            assert(b.drop_last()[i] == b[i]);
        }
        lemma_joined_injective(a.drop_last(), b.drop_last(), c);
        assert(a =~= a.drop_last().push(last_a));
        assert(b =~= b.drop_last().push(last_b));
    } else {
        assert(a.len() == 1 && b.len() == 1);
        assert(a =~= b);
    }
}

/// A number in decimal is a digit, or else its tens in decimal and then its last digit.
pub proof fn law_decimal_spells_the_number(tens: nat, last: nat)
    requires
        last < 10,
    ensures
        decimal(last).len() == 1 && decimal(last)[0] as int == '0' as int + last,
        tens > 0 ==> decimal(10 * tens + last) == decimal(tens) + decimal(last),
{
    if tens > 0 {
        assert((10 * tens + last) / 10 == tens && (10 * tens + last) % 10 == last);
        assert(decimal(tens) + decimal(last) =~= decimal(tens).push(digit(last)));
    }
}

} // verus!
