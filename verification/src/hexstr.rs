//! Lowercase hexadecimal renderings: content hashes become 32-digit archive
//! entry names and cache blob names, and hex-encoded digests are decoded back
//! to bytes.

use vstd::prelude::*;

verus! {

/// The lowercase hex digit for a value below sixteen.
pub open spec fn hex_digit(d: int) -> char {
    if d == 0 {
        '0'
    } else if d == 1 {
        '1'
    } else if d == 2 {
        '2'
    } else if d == 3 {
        '3'
    } else if d == 4 {
        '4'
    } else if d == 5 {
        '5'
    } else if d == 6 {
        '6'
    } else if d == 7 {
        '7'
    } else if d == 8 {
        '8'
    } else if d == 9 {
        '9'
    } else if d == 10 {
        'a'
    } else if d == 11 {
        'b'
    } else if d == 12 {
        'c'
    } else if d == 13 {
        'd'
    } else if d == 14 {
        'e'
    } else {
        'f'
    }
}

/// The `n` least significant hex digits of `h`, least significant first.
pub open spec fn hex_le(h: nat, n: nat) -> Seq<char>
    decreases n,
{
    if n == 0 {
        Seq::empty()
    } else {
        seq![hex_digit((h % 16) as int)] + hex_le(h / 16, (n - 1) as nat)
    }
}

/// The 32-digit lowercase hex rendering of a 128-bit value, most significant
/// digit first.
pub open spec fn hex32_of(h: u128) -> Seq<char> {
    hex_le(h as nat, 32).reverse()
}

/// Sixteen to the power `n`.
pub open spec fn pow16(n: nat) -> nat
    decreases n,
{
    if n == 0 {
        1
    } else {
        16 * pow16((n - 1) as nat)
    }
}

pub proof fn lemma_hex_le_len(h: nat, n: nat)
    ensures
        hex_le(h, n).len() == n,
    decreases n,
{
    if n > 0 {
        lemma_hex_le_len(h / 16, (n - 1) as nat);
    }
}

/// Two values below `pow16(n)` with the same `n`-digit rendering are equal.
pub proof fn lemma_hex_le_injective(h1: nat, h2: nat, n: nat)
    requires
        h1 < pow16(n),
        h2 < pow16(n),
        hex_le(h1, n) == hex_le(h2, n),
    ensures
        h1 == h2,
    decreases n,
{
    if n == 0 {
        assert(h1 == 0 && h2 == 0);
    } else {
        lemma_hex_le_len(h1 / 16, (n - 1) as nat);
        lemma_hex_le_len(h2 / 16, (n - 1) as nat);
        assert(hex_le(h1, n)[0] == hex_digit((h1 % 16) as int));
        assert(hex_le(h2, n)[0] == hex_digit((h2 % 16) as int));
        assert(h1 % 16 == h2 % 16) by {
            let a = (h1 % 16) as int;
            let b = (h2 % 16) as int;
            assert(0 <= a < 16 && 0 <= b < 16);
            assert(hex_digit(a) == hex_digit(b));
        }
        assert(hex_le(h1, n).subrange(1, n as int) =~= hex_le(h1 / 16, (n - 1) as nat));
        assert(hex_le(h2, n).subrange(1, n as int) =~= hex_le(h2 / 16, (n - 1) as nat));
        assert(h1 / 16 < pow16((n - 1) as nat)) by {
            assert(pow16(n) == 16 * pow16((n - 1) as nat));
            vstd::arithmetic::div_mod::lemma_multiply_divide_lt(
                h1 as int,
                16,
                pow16((n - 1) as nat) as int,
            );
        }
        assert(h2 / 16 < pow16((n - 1) as nat)) by {
            assert(pow16(n) == 16 * pow16((n - 1) as nat));
            vstd::arithmetic::div_mod::lemma_multiply_divide_lt(
                h2 as int,
                16,
                pow16((n - 1) as nat) as int,
            );
        }
        lemma_hex_le_injective(h1 / 16, h2 / 16, (n - 1) as nat);
        vstd::arithmetic::div_mod::lemma_fundamental_div_mod(h1 as int, 16);
        vstd::arithmetic::div_mod::lemma_fundamental_div_mod(h2 as int, 16);
    }
}

/// Every 128-bit value fits in 32 hex digits.
pub proof fn lemma_u128_below_pow16_32(h: u128)
    ensures
        (h as nat) < pow16(32),
{
    assert(pow16(32) == 0x100000000000000000000000000000000) by {
        reveal_with_fuel(pow16, 33);
    }
}

/// Distinct 128-bit values have distinct 32-digit renderings.
pub proof fn lemma_hex32_injective(h1: u128, h2: u128)
    requires
        hex32_of(h1) == hex32_of(h2),
    ensures
        h1 == h2,
{
    lemma_hex_le_len(h1 as nat, 32);
    lemma_hex_le_len(h2 as nat, 32);
    assert(hex_le(h1 as nat, 32) =~= hex_le(h2 as nat, 32)) by {
        assert forall|i: int| 0 <= i < 32 implies hex_le(h1 as nat, 32)[i] == hex_le(
            h2 as nat,
            32,
        )[i] by {
            assert(hex_le(h1 as nat, 32)[i] == hex32_of(h1)[31 - i]);
            assert(hex_le(h2 as nat, 32)[i] == hex32_of(h2)[31 - i]);
        }
    }
    lemma_u128_below_pow16_32(h1);
    lemma_u128_below_pow16_32(h2);
    lemma_hex_le_injective(h1 as nat, h2 as nat, 32);
}

pub proof fn lemma_hex32_len(h: u128)
    ensures
        hex32_of(h).len() == 32,
{
    lemma_hex_le_len(h as nat, 32);
}

/// A one-character string slice holding the hex digit for `d`.
fn hex_digit_str(d: u8) -> (s: &'static str)
    requires
        d < 16,
    ensures
        s@.len() == 1,
        s@[0] == hex_digit(d as int),
{
    proof {
        reveal_strlit("0");
        reveal_strlit("1");
        reveal_strlit("2");
        reveal_strlit("3");
        reveal_strlit("4");
        reveal_strlit("5");
        reveal_strlit("6");
        reveal_strlit("7");
        reveal_strlit("8");
        reveal_strlit("9");
        reveal_strlit("a");
        reveal_strlit("b");
        reveal_strlit("c");
        reveal_strlit("d");
        reveal_strlit("e");
        reveal_strlit("f");
    }
    match d {
        0 => "0",
        1 => "1",
        2 => "2",
        3 => "3",
        4 => "4",
        5 => "5",
        6 => "6",
        7 => "7",
        8 => "8",
        9 => "9",
        10 => "a",
        11 => "b",
        12 => "c",
        13 => "d",
        14 => "e",
        _ => "f",
    }
}

/// Maps nibble values to their hex digit characters.
pub open spec fn digits_chars(s: Seq<u8>) -> Seq<char> {
    s.map_values(|d: u8| hex_digit(d as int))
}

/// Renders a 128-bit value as its 32-digit lowercase hex name.
pub fn hex32(h: u128) -> (s: String)
    ensures
        s@ == hex32_of(h),
{
    let mut digits: Vec<u8> = Vec::new();
    let mut x = h;
    let mut i: usize = 0;
    while i < 32
        invariant
            i <= 32,
            digits@.len() == i,
            digits_chars(digits@) + hex_le(x as nat, (32 - i) as nat) == hex_le(h as nat, 32),
            forall|j: int| 0 <= j < i ==> digits@[j] < 16,
        decreases 32 - i,
    {
        let ghost pre = digits@;
        let ghost xpre = x as nat;
        let d = (x % 16) as u8;
        digits.push(d);
        x = x / 16;
        i = i + 1;
        proof {
            assert(hex_le(xpre, (32 - (i - 1)) as nat) == seq![hex_digit((xpre % 16) as int)]
                + hex_le(xpre / 16, (32 - i) as nat));
            assert(digits_chars(digits@) =~= digits_chars(pre) + seq![hex_digit(d as int)]);
            assert(digits_chars(digits@) + hex_le(x as nat, (32 - i) as nat) =~= digits_chars(pre)
                + hex_le(xpre, (33 - i) as nat));
        }
    }
    proof {
        lemma_hex_le_len(h as nat, 32);
        assert(hex_le(x as nat, 0) =~= Seq::<char>::empty());
        assert(digits_chars(digits@) =~= hex_le(h as nat, 32));
    }
    let mut s = String::new();
    let mut k: usize = 0;
    while k < 32
        invariant
            k <= 32,
            digits@.len() == 32,
            forall|j: int| 0 <= j < 32 ==> digits@[j] < 16,
            digits_chars(digits@) == hex_le(h as nat, 32),
            s@ == hex32_of(h).take(k as int),
        decreases 32 - k,
    {
        let ghost spre = s@;
        let d = digits[31 - k];
        let piece = hex_digit_str(d);
        s.append(piece);
        proof {
            lemma_hex_le_len(h as nat, 32);
            assert(hex32_of(h)[k as int] == hex_le(h as nat, 32)[31 - k as int]);
            assert(hex_le(h as nat, 32)[31 - k as int] == hex_digit(digits@[31 - k as int] as int));
            assert(s@ =~= hex32_of(h).take(k + 1)) by {
                assert(s@ == spre + piece@);
                assert(hex32_of(h).take(k + 1) =~= hex32_of(h).take(k as int) + seq![
                    hex32_of(h)[k as int],
                ]);
            }
        }
        k = k + 1;
    }
    proof {
        lemma_hex32_len(h);
        assert(s@ =~= hex32_of(h));
    }
    s
}

/// The two hex digits of one byte, most significant first.
pub open spec fn byte_hex(b: u8) -> Seq<char> {
    seq![hex_digit(b as int / 16), hex_digit(b as int % 16)]
}

/// The lowercase hex rendering of a byte sequence.
pub open spec fn hex_bytes_of(b: Seq<u8>) -> Seq<char>
    decreases b.len(),
{
    if b.len() == 0 {
        Seq::empty()
    } else {
        hex_bytes_of(b.drop_last()) + byte_hex(b.last())
    }
}

/// Renders bytes as their lowercase hex string.
pub fn hex_bytes(b: &Vec<u8>) -> (s: String)
    ensures
        s@ == hex_bytes_of(b@),
{
    let mut s = String::new();
    let mut i: usize = 0;
    while i < b.len()
        invariant
            i <= b@.len(),
            s@ == hex_bytes_of(b@.take(i as int)),
        decreases b@.len() - i,
    {
        let ghost spre = s@;
        let x = b[i];
        let hi = hex_digit_str(x / 16);
        let lo = hex_digit_str(x % 16);
        s.append(hi);
        s.append(lo);
        i = i + 1;
        proof {
            let t = b@.take(i as int);
            assert(t.drop_last() =~= b@.take(i - 1));
            assert(t.last() == b@[i - 1]);
            assert(s@ =~= hex_bytes_of(t)) by {
                assert(s@ == spre + hi@ + lo@);
                assert(hi@ + lo@ =~= byte_hex(b@[i - 1]));
            }
        }
    }
    proof {
        assert(b@.take(b@.len() as int) =~= b@);
    }
    s
}

/// The value of a hex digit character, if it is one; both cases are accepted.
pub open spec fn hex_val(c: char) -> Option<int> {
    if c == '0' {
        Some(0)
    } else if c == '1' {
        Some(1)
    } else if c == '2' {
        Some(2)
    } else if c == '3' {
        Some(3)
    } else if c == '4' {
        Some(4)
    } else if c == '5' {
        Some(5)
    } else if c == '6' {
        Some(6)
    } else if c == '7' {
        Some(7)
    } else if c == '8' {
        Some(8)
    } else if c == '9' {
        Some(9)
    } else if c == 'a' || c == 'A' {
        Some(10)
    } else if c == 'b' || c == 'B' {
        Some(11)
    } else if c == 'c' || c == 'C' {
        Some(12)
    } else if c == 'd' || c == 'D' {
        Some(13)
    } else if c == 'e' || c == 'E' {
        Some(14)
    } else if c == 'f' || c == 'F' {
        Some(15)
    } else {
        None
    }
}

/// True when the string is a well-formed hex encoding: even length, hex
/// digits throughout.
pub open spec fn hex_decode_ok(s: Seq<char>) -> bool {
    s.len() % 2 == 0 && forall|i: int| 0 <= i < s.len() ==> hex_val(s[i]) is Some
}

/// The bytes encoded by a well-formed hex string.
pub open spec fn hex_decode_of(s: Seq<char>) -> Seq<u8>
    decreases s.len(),
{
    if s.len() < 2 {
        Seq::empty()
    } else {
        hex_decode_of(s.take(s.len() - 2)).push(
            ((hex_val(s[s.len() - 2]).unwrap_or(0) * 16 + hex_val(s[s.len() - 1]).unwrap_or(0))
                as u8),
        )
    }
}

/// The value of a hex digit character, or sixteen for any other character.
fn hex_val_char(c: char) -> (r: u8)
    ensures
        r < 16 <==> hex_val(c) is Some,
        hex_val(c) is Some ==> r == hex_val(c).unwrap_or(0),
{
    match c {
        '0' => 0,
        '1' => 1,
        '2' => 2,
        '3' => 3,
        '4' => 4,
        '5' => 5,
        '6' => 6,
        '7' => 7,
        '8' => 8,
        '9' => 9,
        'a' => 10,
        'A' => 10,
        'b' => 11,
        'B' => 11,
        'c' => 12,
        'C' => 12,
        'd' => 13,
        'D' => 13,
        'e' => 14,
        'E' => 14,
        'f' => 15,
        'F' => 15,
        _ => 16,
    }
}

/// Decodes a hex string to bytes; fails exactly when the string is not a
/// well-formed hex encoding.
pub fn hex_decode(s: &str) -> (r: Option<Vec<u8>>)
    ensures
        r is Some <==> hex_decode_ok(s@),
        r is Some ==> r->0@ == hex_decode_of(s@),
{
    let n = s.unicode_len();
    if n % 2 != 0 {
        return None;
    }
    let mut out: Vec<u8> = Vec::new();
    let mut i: usize = 0;
    while i < n
        invariant
            n == s@.len(),
            n % 2 == 0,
            i <= n,
            i % 2 == 0,
            out@ == hex_decode_of(s@.take(i as int)),
            forall|j: int| 0 <= j < i ==> hex_val(s@[j]) is Some,
        decreases n - i,
    {
        let hi = hex_val_char(s.get_char(i));
        let lo = hex_val_char(s.get_char(i + 1));
        if hi >= 16 || lo >= 16 {
            return None;
        }
        out.push(hi * 16 + lo);
        i = i + 2;
        proof {
            let t = s@.take(i as int);
            assert(t.len() == i);
            assert(t.take(t.len() - 2) =~= s@.take(i - 2));
            assert(t[t.len() - 2] == s@[i - 2] && t[t.len() - 1] == s@[i - 1]);
            assert(out@ =~= hex_decode_of(t));
        }
    }
    proof {
        assert(s@.take(n as int) =~= s@);
    }
    Some(out)
}

} // verus!
