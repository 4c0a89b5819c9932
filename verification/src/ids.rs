//! Scope and run identifiers.
//!
//! An identifier is a UUID, held as a 128-bit number.
use vstd::arithmetic::power::{lemma_pow_adds, pow};
use vstd::prelude::*;

verus! {

/// The lower-case hexadecimal digit for a number below sixteen.
pub open spec fn hex_digit(n: nat) -> char {
    if n < 10 {
        (48 + n) as char
    } else {
        (87 + n) as char
    }
}

/// A number written with `digits` hexadecimal digits.
pub open spec fn hex_text(n: nat, digits: nat) -> Seq<char>
    decreases digits,
{
    if digits == 0 {
        Seq::empty()
    } else {
        hex_text(n / 16, (digits - 1) as nat).push(hex_digit(n % 16))
    }
}

/// An identifier as text: 32 hexadecimal digits in groups of 8, 4, 4, 4 and 12.
pub open spec fn id_text(id: u128) -> Seq<char> {
    let hex = hex_text(id as nat, 32);
    hex.subrange(0, 8) + "-"@ + hex.subrange(8, 12) + "-"@ + hex.subrange(12, 16) + "-"@
        + hex.subrange(16, 20) + "-"@ + hex.subrange(20, 32)
}

/// The version of an identifier.
pub open spec fn version_of(id: u128) -> int {
    (id / 0x1_0000_0000_0000_0000_000) as int % 16
}

/// Writes an identifier as text.
///
/// Calls `uuid::Uuid::from_u128` and formats the result with its `Display`, which is the lower-case
/// hyphenated form.
#[verifier::external_body]
pub(crate) fn write_id(id: u128) -> (r: String)
    ensures
        r@ == id_text(id),
{
    uuid::Uuid::from_u128(id).to_string()
}

/// Makes a new identifier.
///
/// Calls `uuid::Uuid::now_v7`. The identifier is of version 7; the rest of it comes from the clock
/// and from chance.
#[verifier::external_body]
pub(crate) fn fresh_id() -> (r: u128)
    ensures
        version_of(r) == 7,
{
    uuid::Uuid::now_v7().as_u128()
}

/// How many hexadecimal digits there are.
proof fn lemma_hex_len(n: nat, digits: nat)
    ensures
        hex_text(n, digits).len() == digits,
    decreases digits,
{
    if digits > 0 {
        lemma_hex_len(n / 16, (digits - 1) as nat);
    }
}

/// Hexadecimal digits tell numbers apart.
proof fn lemma_hex_injective(a: nat, b: nat, digits: nat)
    requires
        hex_text(a, digits) == hex_text(b, digits),
        a < pow(16, digits),
        b < pow(16, digits),
    ensures
        a == b,
    decreases digits,
{
    reveal(pow);
    if digits > 0 {
        let less = (digits - 1) as nat;
        let x = hex_text(a / 16, less);
        let y = hex_text(b / 16, less);
        assert(x.push(hex_digit(a % 16)).drop_last() =~= x);
        assert(y.push(hex_digit(b % 16)).drop_last() =~= y);
        assert(x.push(hex_digit(a % 16)).last() == y.push(hex_digit(b % 16)).last());
        assert(a % 16 == b % 16);
        let p = pow(16, less);
        assert(pow(16, digits) == 16 * p);
        assert(a / 16 < p && b / 16 < p);
        lemma_hex_injective(a / 16, b / 16, less);
    }
}

/// The text of an identifier has 36 characters.
pub proof fn lemma_id_text_len(id: u128)
    ensures
        id_text(id).len() == 36,
{
    lemma_hex_len(id as nat, 32);
    reveal_strlit("-");
}

/// Different identifiers have different texts.
pub proof fn law_id_texts_apart(a: u128, b: u128)
    requires
        id_text(a) == id_text(b),
    ensures
        a == b,
{
    lemma_hex_len(a as nat, 32);
    lemma_hex_len(b as nat, 32);
    reveal_strlit("-");
    let x = hex_text(a as nat, 32);
    let y = hex_text(b as nat, 32);
    let s = id_text(a);
    let t = id_text(b);
    assert(x =~= y) by {
        assert forall|i: int| 0 <= i < 32 implies x[i] == y[i] by {
            let at = if i < 8 {
                i
            } else if i < 12 {
                i + 1
            } else if i < 16 {
                i + 2
            } else if i < 20 {
                i + 3
            } else {
                i + 4
            };
            assert(s[at] == x[i]);
            assert(t[at] == y[i]);
        }
    }
    assert(pow(16, 32) == 0x1_0000_0000_0000_0000_0000_0000_0000_0000) by {
        lemma_sixteen_powers();
    }
    lemma_hex_injective(a as nat, b as nat, 32);
}

proof fn lemma_sixteen_powers()
    ensures
        pow(16, 32) == 0x1_0000_0000_0000_0000_0000_0000_0000_0000,
{
    reveal(pow);
    assert(pow(16, 1) == 16 * pow(16, 0));
    lemma_pow_adds(16, 1, 1);
    assert(pow(16, 2) == 0x100);
    lemma_pow_adds(16, 2, 2);
    assert(pow(16, 4) == 0x1_0000);
    lemma_pow_adds(16, 4, 4);
    assert(pow(16, 8) == 0x1_0000_0000);
    lemma_pow_adds(16, 8, 8);
    assert(pow(16, 16) == 0x1_0000_0000_0000_0000);
    lemma_pow_adds(16, 16, 16);
}

} // verus!
