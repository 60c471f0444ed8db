//! The compact binary serialization of a compiled manifest: the format of
//! the `@manifest` stream entry. Little-endian length-prefixed fields;
//! strings as UTF-8; entries tagged by kind. Encoding and decoding are both
//! verified, and decoding an encoded manifest gives the manifest back.

use vstd::prelude::*;
use vstd::utf8::{decode_utf8, encode_utf8, valid_utf8};
use crate::hashing::bytes_to_string;

verus! {

broadcast use vstd::seq::group_seq_axioms, vstd::std_specs::vec::group_vec_axioms;

/// 256 to the power `n`.
pub open spec fn pow256(n: nat) -> nat
    decreases n,
{
    if n == 0 {
        1
    } else {
        256 * pow256((n - 1) as nat)
    }
}

/// The `n` little-endian base-256 digits of `v`.
pub open spec fn le_bytes(v: nat, n: nat) -> Seq<u8>
    decreases n,
{
    if n == 0 {
        Seq::empty()
    } else {
        seq![(v % 256) as u8] + le_bytes(v / 256, (n - 1) as nat)
    }
}

/// The value of a little-endian base-256 digit sequence.
pub open spec fn le_val(s: Seq<u8>) -> nat
    decreases s.len(),
{
    if s.len() == 0 {
        0
    } else {
        (s[0] + 256 * le_val(s.drop_first())) as nat
    }
}

pub proof fn lemma_le_bytes_len(v: nat, n: nat)
    ensures
        le_bytes(v, n).len() == n,
    decreases n,
{
    if n > 0 {
        lemma_le_bytes_len(v / 256, (n - 1) as nat);
    }
}

pub proof fn lemma_le_val_bound(s: Seq<u8>)
    ensures
        le_val(s) < pow256(s.len() as nat),
    decreases s.len(),
{
    if s.len() > 0 {
        lemma_le_val_bound(s.drop_first());
    }
}

/// A value below `pow256(n)` survives the round trip through its digits.
pub proof fn lemma_le_round_trip(v: nat, n: nat)
    requires
        v < pow256(n),
    ensures
        le_bytes(v, n).len() == n,
        le_val(le_bytes(v, n)) == v,
    decreases n,
{
    lemma_le_bytes_len(v, n);
    if n > 0 {
        assert(v / 256 < pow256((n - 1) as nat)) by {
            assert(pow256(n) == 256 * pow256((n - 1) as nat));
            vstd::arithmetic::div_mod::lemma_multiply_divide_lt(
                v as int,
                256,
                pow256((n - 1) as nat) as int,
            );
        }
        lemma_le_round_trip(v / 256, (n - 1) as nat);
        let s = le_bytes(v, n);
        assert(s[0] == (v % 256) as u8);
        assert(s.drop_first() =~= le_bytes(v / 256, (n - 1) as nat));
        vstd::arithmetic::div_mod::lemma_fundamental_div_mod(v as int, 256);
    }
}

pub proof fn lemma_pow256_8()
    ensures
        pow256(8) == 0x10000000000000000,
{
    assert(pow256(8) == 0x10000000000000000) by {
        reveal_with_fuel(pow256, 9);
    }
}

pub proof fn lemma_pow256_16()
    ensures
        pow256(16) == 0x100000000000000000000000000000000,
{
    assert(pow256(16) == 0x100000000000000000000000000000000) by {
        reveal_with_fuel(pow256, 17);
    }
}

/// An eight-byte little-endian length or value field.
pub open spec fn enc_u64(v: nat) -> Seq<u8> {
    le_bytes(v, 8)
}

/// A sixteen-byte little-endian content hash field.
pub open spec fn enc_u128(v: u128) -> Seq<u8> {
    le_bytes(v as nat, 16)
}

/// Reads an eight-byte little-endian field.
pub open spec fn dec_u64(bytes: Seq<u8>, pos: int) -> Option<(nat, int)> {
    if 0 <= pos && pos + 8 <= bytes.len() {
        Some((le_val(bytes.subrange(pos, pos + 8)), pos + 8))
    } else {
        None
    }
}

/// Reads a sixteen-byte little-endian field.
pub open spec fn dec_u128(bytes: Seq<u8>, pos: int) -> Option<(u128, int)> {
    if 0 <= pos && pos + 16 <= bytes.len() {
        Some(((le_val(bytes.subrange(pos, pos + 16)) as u128), pos + 16))
    } else {
        None
    }
}

/// Reads one byte.
pub open spec fn dec_byte(bytes: Seq<u8>, pos: int) -> Option<(u8, int)> {
    if 0 <= pos && pos + 1 <= bytes.len() {
        Some((bytes[pos], pos + 1))
    } else {
        None
    }
}

/// A string field: the byte length of its UTF-8 encoding, then the bytes.
pub open spec fn enc_str(s: Seq<char>) -> Seq<u8> {
    enc_u64(encode_utf8(s).len() as nat) + encode_utf8(s)
}

/// Reads a string field; fails on a length past the end or bytes that are
/// not valid UTF-8.
pub open spec fn dec_str(bytes: Seq<u8>, pos: int) -> Option<(Seq<char>, int)> {
    match dec_u64(bytes, pos) {
        Some((n, p)) => if p + n <= bytes.len() {
            let raw = bytes.subrange(p, p + n);
            if valid_utf8(raw) {
                Some((decode_utf8(raw), p + n as int))
            } else {
                None
            }
        } else {
            None
        },
        None => None,
    }
}

/// Encodings stay decodable only below the length fields' range.
pub open spec fn enc_ok_str(s: Seq<char>) -> bool {
    encode_utf8(s).len() < pow256(8)
}

pub proof fn lemma_dec_u64_at(bytes: Seq<u8>, pos: int, v: nat)
    requires
        0 <= pos,
        pos + 8 <= bytes.len(),
        bytes.subrange(pos, pos + 8) == le_bytes(v, 8),
        v < pow256(8),
    ensures
        dec_u64(bytes, pos) == Some((v, pos + 8)),
{
    lemma_le_round_trip(v, 8);
}

pub proof fn lemma_dec_u128_at(bytes: Seq<u8>, pos: int, v: u128)
    requires
        0 <= pos,
        pos + 16 <= bytes.len(),
        bytes.subrange(pos, pos + 16) == le_bytes(v as nat, 16),
    ensures
        dec_u128(bytes, pos) == Some((v, pos + 16)),
{
    lemma_pow256_16();
    lemma_le_round_trip(v as nat, 16);
}

pub proof fn lemma_dec_str_at(bytes: Seq<u8>, pos: int, s: Seq<char>)
    requires
        0 <= pos,
        pos + enc_str(s).len() <= bytes.len(),
        bytes.subrange(pos, pos + enc_str(s).len()) == enc_str(s),
        enc_ok_str(s),
    ensures
        enc_str(s).len() == 8 + encode_utf8(s).len(),
        dec_str(bytes, pos) == Some((s, pos + enc_str(s).len())),
{
    let n = encode_utf8(s).len() as int;
    lemma_le_bytes_len(n as nat, 8);
    let seg = bytes.subrange(pos, pos + enc_str(s).len());
    assert(bytes.subrange(pos, pos + 8) =~= seg.subrange(0, 8));
    assert(seg.subrange(0, 8) =~= le_bytes(n as nat, 8));
    lemma_dec_u64_at(bytes, pos, n as nat);
    assert(bytes.subrange(pos + 8, pos + 8 + n) =~= seg.subrange(8, 8 + n));
    assert(seg.subrange(8, 8 + n) =~= encode_utf8(s));
    broadcast use vstd::utf8::encode_utf8_valid_utf8, vstd::utf8::encode_utf8_decode_utf8;

    assert(valid_utf8(encode_utf8(s)));
    assert(decode_utf8(encode_utf8(s)) == s);
}

/// Appends an eight-byte little-endian field.
pub fn w_u64(out: &mut Vec<u8>, v: u64)
    ensures
        final(out)@ == old(out)@ + enc_u64(v as nat),
        (v as nat) < pow256(8),
{
    proof {
        lemma_pow256_8();
        assert(out@ =~= out@ + le_bytes(v as nat, 0));
    }
    let mut x = v;
    let mut k: usize = 0;
    while k < 8
        invariant
            k <= 8,
            out@ == old(out)@ + le_bytes(v as nat, k as nat),
            x as nat == split_rest(v as nat, k as nat),
        decreases 8 - k,
    {
        let ghost pre = out@;
        let b = (x % 256) as u8;
        out.push(b);
        x = x / 256;
        k = k + 1;
        proof {
            lemma_le_bytes_snoc(v as nat, (k - 1) as nat);
            assert(out@ =~= old(out)@ + le_bytes(v as nat, k as nat)) by {
                assert(out@ == pre.push(b));
            }
        }
    }
    proof {
        lemma_le_bytes_len(v as nat, 8);
    }
}

/// The value left after dropping `k` low digits.
pub open spec fn split_rest(v: nat, k: nat) -> nat
    decreases k,
{
    if k == 0 {
        v
    } else {
        split_rest(v, (k - 1) as nat) / 256
    }
}

proof fn lemma_le_bytes_snoc(v: nat, k: nat)
    ensures
        le_bytes(v, k + 1) == le_bytes(v, k).push((split_rest(v, k) % 256) as u8),
    decreases k,
{
    reveal_with_fuel(le_bytes, 3);
    if k == 0 {
        assert(le_bytes(v, 1) =~= le_bytes(v, 0).push((split_rest(v, 0) % 256) as u8));
    } else {
        lemma_le_bytes_snoc(v / 256, (k - 1) as nat);
        assert(split_rest(v, k) == split_rest(v / 256, (k - 1) as nat)) by {
            lemma_split_rest_shift(v, k);
        }
        assert(le_bytes(v, k + 1) =~= le_bytes(v, k).push((split_rest(v, k) % 256) as u8));
    }
}

proof fn lemma_split_rest_shift(v: nat, k: nat)
    requires
        k > 0,
    ensures
        split_rest(v, k) == split_rest(v / 256, (k - 1) as nat),
    decreases k,
{
    reveal_with_fuel(split_rest, 3);
    if k > 1 {
        lemma_split_rest_shift(v, (k - 1) as nat);
    }
}

/// Appends a sixteen-byte little-endian field.
pub fn w_u128(out: &mut Vec<u8>, v: u128)
    ensures
        final(out)@ == old(out)@ + enc_u128(v),
{
    proof {
        assert(out@ =~= out@ + le_bytes(v as nat, 0));
    }
    let mut x = v;
    let mut k: usize = 0;
    while k < 16
        invariant
            k <= 16,
            out@ == old(out)@ + le_bytes(v as nat, k as nat),
            x as nat == split_rest(v as nat, k as nat),
        decreases 16 - k,
    {
        let ghost pre = out@;
        let b = (x % 256) as u8;
        out.push(b);
        x = x / 256;
        k = k + 1;
        proof {
            lemma_le_bytes_snoc(v as nat, (k - 1) as nat);
            assert(out@ =~= old(out)@ + le_bytes(v as nat, k as nat)) by {
                assert(out@ == pre.push(b));
            }
        }
    }
    proof {
        lemma_le_bytes_len(v as nat, 16);
    }
}

/// Appends a string field.
pub fn w_str(out: &mut Vec<u8>, s: &str)
    ensures
        final(out)@ == old(out)@ + enc_str(s@),
        enc_ok_str(s@),
{
    let raw = s.as_bytes();
    let n = raw.len();
    proof {
        lemma_pow256_8();
        assert(raw@ == encode_utf8(s@));
    }
    w_u64(out, n as u64);
    let ghost mid = out@;
    let mut i: usize = 0;
    proof {
        assert(out@ =~= mid + raw@.take(0));
    }
    while i < n
        invariant
            i <= n,
            n == raw@.len(),
            raw@ == encode_utf8(s@),
            out@ == mid + raw@.take(i as int),
        decreases n - i,
    {
        out.push(raw[i]);
        i = i + 1;
        proof {
            assert(raw@.take(i as int) =~= raw@.take(i - 1).push(raw@[i - 1]));
            assert(out@ =~= mid + raw@.take(i as int));
        }
    }
    proof {
        assert(raw@.take(n as int) =~= raw@);
        assert(final(out)@ =~= old(out)@ + enc_str(s@));
    }
}

/// Reads an eight-byte little-endian field, advancing the position.
pub fn r_u64(bytes: &Vec<u8>, pos: usize) -> (r: Option<(u64, usize)>)
    ensures
        match r {
            Some(v) => dec_u64(bytes@, pos as int) == Some(((v.0 as nat), v.1 as int))
                && v.1 as int == pos + 8 && v.1 <= bytes@.len(),
            None => dec_u64(bytes@, pos as int) is None,
        },
{
    let len = bytes.len();
    if pos > len || len - pos < 8 {
        return None;
    }
    let ghost seg = bytes@.subrange(pos as int, pos + 8);
    proof {
        lemma_le_val_bound(seg);
        lemma_pow256_8();
    }
    let mut acc: u64 = 0;
    let mut k: usize = 0;
    while k < 8
        invariant
            k <= 8,
            len == bytes@.len(),
            pos + 8 <= len,
            seg == bytes@.subrange(pos as int, pos + 8),
            acc as nat == le_val(seg.skip(8 - k as int)),
            le_val(seg.skip(8 - k as int)) < pow256(k as nat),
            pow256(8) == 0x10000000000000000,
        decreases 8 - k,
    {
        let b = bytes[pos + (7 - k)];
        proof {
            let tail = seg.skip(7 - k as int);
            assert(tail[0] == seg[7 - k as int]);
            assert(seg[7 - k as int] == bytes@[pos + 7 - k as int]);
            assert(tail.drop_first() =~= seg.skip(8 - k as int));
            assert(le_val(tail) == tail[0] + 256 * le_val(seg.skip(8 - k as int)));
            assert(pow256((k + 1) as nat) == 256 * pow256(k as nat));
            assert((acc as nat) * 256 + b < pow256((k + 1) as nat));
            assert(pow256((k + 1) as nat) <= pow256(8)) by {
                lemma_pow256_monotone((k + 1) as nat, 8);
            }
        }
        acc = acc * 256 + (b as u64);
        k = k + 1;
    }
    proof {
        assert(seg.skip(0) =~= seg);
    }
    Some((acc, pos + 8))
}

proof fn lemma_pow256_monotone(a: nat, b: nat)
    requires
        a <= b,
    ensures
        pow256(a) <= pow256(b),
    decreases b,
{
    if a < b {
        lemma_pow256_monotone(a, (b - 1) as nat);
        assert(pow256(b) == 256 * pow256((b - 1) as nat));
    }
}

/// Reads a sixteen-byte little-endian field, advancing the position.
pub fn r_u128(bytes: &Vec<u8>, pos: usize) -> (r: Option<(u128, usize)>)
    ensures
        match r {
            Some(v) => dec_u128(bytes@, pos as int) == Some((v.0, v.1 as int)) && v.1 as int == pos
                + 16 && v.1 <= bytes@.len(),
            None => dec_u128(bytes@, pos as int) is None,
        },
{
    let len = bytes.len();
    if pos > len || len - pos < 16 {
        return None;
    }
    let ghost seg = bytes@.subrange(pos as int, pos + 16);
    proof {
        lemma_le_val_bound(seg);
        lemma_pow256_16();
    }
    let mut acc: u128 = 0;
    let mut k: usize = 0;
    while k < 16
        invariant
            k <= 16,
            len == bytes@.len(),
            pos + 16 <= len,
            seg == bytes@.subrange(pos as int, pos + 16),
            acc as nat == le_val(seg.skip(16 - k as int)),
            le_val(seg.skip(16 - k as int)) < pow256(k as nat),
            pow256(16) == 0x100000000000000000000000000000000,
        decreases 16 - k,
    {
        let b = bytes[pos + (15 - k)];
        proof {
            let tail = seg.skip(15 - k as int);
            assert(tail[0] == seg[15 - k as int]);
            assert(seg[15 - k as int] == bytes@[pos + 15 - k as int]);
            assert(tail.drop_first() =~= seg.skip(16 - k as int));
            assert(le_val(tail) == tail[0] + 256 * le_val(seg.skip(16 - k as int)));
            assert(pow256((k + 1) as nat) == 256 * pow256(k as nat));
            assert((acc as nat) * 256 + b < pow256((k + 1) as nat));
            assert(pow256((k + 1) as nat) <= pow256(16)) by {
                lemma_pow256_monotone((k + 1) as nat, 16);
            }
        }
        acc = acc * 256 + (b as u128);
        k = k + 1;
    }
    proof {
        assert(seg.skip(0) =~= seg);
    }
    Some((acc, pos + 16))
}

/// Reads one byte, advancing the position.
pub fn r_byte(bytes: &Vec<u8>, pos: usize) -> (r: Option<(u8, usize)>)
    ensures
        match r {
            Some(v) => dec_byte(bytes@, pos as int) == Some((v.0, v.1 as int)) && v.1 as int == pos
                + 1 && v.1 <= bytes@.len(),
            None => dec_byte(bytes@, pos as int) is None,
        },
{
    if pos < bytes.len() {
        Some((bytes[pos], pos + 1))
    } else {
        None
    }
}

/// Reads a string field, advancing the position.
pub fn r_str(bytes: &Vec<u8>, pos: usize) -> (r: Option<(String, usize)>)
    ensures
        match r {
            Some(v) => dec_str(bytes@, pos as int) == Some((v.0@, v.1 as int)) && pos < v.1
                && v.1 <= bytes@.len(),
            None => dec_str(bytes@, pos as int) is None,
        },
{
    let (n64, p) = match r_u64(bytes, pos) {
        Some(x) => x,
        None => {
            return None;
        },
    };
    if n64 > (bytes.len() - p) as u64 {
        return None;
    }
    let n = n64 as usize;
    let mut raw: Vec<u8> = Vec::new();
    let mut i: usize = 0;
    proof {
        assert(raw@ =~= bytes@.subrange(p as int, p as int));
    }
    let len = bytes.len();
    while i < n
        invariant
            i <= n,
            len == bytes@.len(),
            p + n <= len,
            raw@ == bytes@.subrange(p as int, p + i as int),
        decreases n - i,
    {
        raw.push(bytes[p + i]);
        i = i + 1;
        proof {
            assert(bytes@.subrange(p as int, p + i as int) =~= bytes@.subrange(
                p as int,
                p + i - 1,
            ).push(bytes@[p + i - 1]));
        }
    }
    match bytes_to_string(raw.as_slice()) {
        Some(s) => Some((s, p + n)),
        None => None,
    }
}

/// Splitting a concatenation read out of a longer byte sequence.
pub proof fn lemma_peel(bytes: Seq<u8>, pos: int, a: Seq<u8>, b: Seq<u8>)
    requires
        0 <= pos,
        pos + a.len() + b.len() <= bytes.len(),
        bytes.subrange(pos, pos + a.len() + b.len()) == a + b,
    ensures
        bytes.subrange(pos, pos + a.len()) == a,
        bytes.subrange(pos + a.len(), pos + a.len() + b.len()) == b,
{
    let whole = bytes.subrange(pos, pos + a.len() + b.len());
    let first = bytes.subrange(pos, pos + a.len());
    assert(first =~= a) by {
        assert forall|i: int| 0 <= i < a.len() implies first[i] == a[i] by {
            assert(whole[i] == (a + b)[i]);
        }
    }
    assert(bytes.subrange(pos + a.len(), pos + a.len() + b.len()) =~= b) by {
        assert forall|i: int| 0 <= i < b.len() implies bytes.subrange(
            pos + a.len(),
            pos + a.len() + b.len(),
        )[i] == b[i] by {
            assert(whole[a.len() + i] == (a + b)[a.len() + i]);
        }
    }
}

/// A one-byte boolean field.
pub open spec fn enc_bool(b: bool) -> Seq<u8> {
    seq![if b { 1u8 } else { 0u8 }]
}

/// Reads a boolean field; only the two canonical bytes decode.
pub open spec fn dec_bool(bytes: Seq<u8>, pos: int) -> Option<(bool, int)> {
    match dec_byte(bytes, pos) {
        Some((t, p)) => if t == 0 {
            Some((false, p))
        } else if t == 1 {
            Some((true, p))
        } else {
            None
        },
        None => None,
    }
}

/// A string list field: the count, then each string.
pub open spec fn enc_strs_items(ss: Seq<Seq<char>>) -> Seq<u8>
    decreases ss.len(),
{
    if ss.len() == 0 {
        Seq::empty()
    } else {
        enc_str(ss[0]) + enc_strs_items(ss.drop_first())
    }
}

pub open spec fn enc_strs(ss: Seq<Seq<char>>) -> Seq<u8> {
    enc_u64(ss.len() as nat) + enc_strs_items(ss)
}

pub open spec fn enc_ok_strs(ss: Seq<Seq<char>>) -> bool {
    ss.len() < pow256(8) && (forall|i: int| 0 <= i < ss.len() ==> enc_ok_str(#[trigger] ss[i]))
}

/// Reads `n` string fields.
pub open spec fn dec_strs_items(bytes: Seq<u8>, pos: int, n: nat) -> Option<(Seq<Seq<char>>, int)>
    decreases n,
{
    if n == 0 {
        Some((Seq::empty(), pos))
    } else {
        match dec_str(bytes, pos) {
            Some((s, p)) => match dec_strs_items(bytes, p, (n - 1) as nat) {
                Some((ss, q)) => Some((seq![s] + ss, q)),
                None => None,
            },
            None => None,
        }
    }
}

/// Reads a string list field.
pub open spec fn dec_strs(bytes: Seq<u8>, pos: int) -> Option<(Seq<Seq<char>>, int)> {
    match dec_u64(bytes, pos) {
        Some((n, p)) => dec_strs_items(bytes, p, n),
        None => None,
    }
}

pub proof fn lemma_dec_strs_items_at(bytes: Seq<u8>, pos: int, ss: Seq<Seq<char>>)
    requires
        0 <= pos,
        pos + enc_strs_items(ss).len() <= bytes.len(),
        bytes.subrange(pos, pos + enc_strs_items(ss).len()) == enc_strs_items(ss),
        forall|i: int| 0 <= i < ss.len() ==> enc_ok_str(#[trigger] ss[i]),
    ensures
        dec_strs_items(bytes, pos, ss.len() as nat) == Some(
            (ss, pos + enc_strs_items(ss).len()),
        ),
    decreases ss.len(),
{
    if ss.len() == 0 {
        assert(ss =~= Seq::<Seq<char>>::empty());
    } else {
        let a = enc_str(ss[0]);
        let b = enc_strs_items(ss.drop_first());
        lemma_peel(bytes, pos, a, b);
        assert(enc_ok_str(ss[0]));
        lemma_dec_str_at(bytes, pos, ss[0]);
        assert forall|i: int| 0 <= i < ss.drop_first().len() implies enc_ok_str(
            #[trigger] ss.drop_first()[i],
        ) by {
            assert(ss.drop_first()[i] == ss[i + 1]);
        }
        lemma_dec_strs_items_at(bytes, pos + a.len(), ss.drop_first());
        assert(seq![ss[0]] + ss.drop_first() =~= ss);
    }
}

pub proof fn lemma_dec_strs_at(bytes: Seq<u8>, pos: int, ss: Seq<Seq<char>>)
    requires
        0 <= pos,
        pos + enc_strs(ss).len() <= bytes.len(),
        bytes.subrange(pos, pos + enc_strs(ss).len()) == enc_strs(ss),
        enc_ok_strs(ss),
    ensures
        dec_strs(bytes, pos) == Some((ss, pos + enc_strs(ss).len())),
{
    lemma_le_bytes_len(ss.len() as nat, 8);
    lemma_peel(bytes, pos, enc_u64(ss.len() as nat), enc_strs_items(ss));
    lemma_dec_u64_at(bytes, pos, ss.len() as nat);
    lemma_dec_strs_items_at(bytes, pos + 8, ss);
}

/// Appends a boolean field.
pub fn w_bool(out: &mut Vec<u8>, b: bool)
    ensures
        final(out)@ == old(out)@ + enc_bool(b),
{
    let ghost pre = out@;
    if b {
        out.push(1u8);
    } else {
        out.push(0u8);
    }
    proof {
        assert(final(out)@ =~= pre + enc_bool(b));
    }
}

/// Reads a boolean field, advancing the position.
pub fn r_bool(bytes: &Vec<u8>, pos: usize) -> (r: Option<(bool, usize)>)
    ensures
        match r {
            Some(v) => dec_bool(bytes@, pos as int) == Some((v.0, v.1 as int)) && pos < v.1
                && v.1 <= bytes@.len(),
            None => dec_bool(bytes@, pos as int) is None,
        },
{
    match r_byte(bytes, pos) {
        Some((t, p)) => if t == 0 {
            Some((false, p))
        } else if t == 1 {
            Some((true, p))
        } else {
            None
        },
        None => None,
    }
}

/// Appends a string list field.
pub fn w_strs(out: &mut Vec<u8>, ss: &Vec<String>)
    ensures
        final(out)@ == old(out)@ + enc_strs(ss@.map_values(|x: String| x@)),
        enc_ok_strs(ss@.map_values(|x: String| x@)),
{
    let ghost view_all = ss@.map_values(|x: String| x@);
    w_u64(out, ss.len() as u64);
    let ghost mid = out@;
    let mut i: usize = 0;
    proof {
        assert(enc_strs_items(view_all.take(0)) =~= Seq::<u8>::empty());
        assert(out@ =~= mid + enc_strs_items(view_all.take(0)));
    }
    while i < ss.len()
        invariant
            i <= ss@.len(),
            view_all == ss@.map_values(|x: String| x@),
            view_all.len() == ss@.len(),
            out@ == mid + enc_strs_items(view_all.take(i as int)),
            forall|j: int| 0 <= j < i ==> enc_ok_str(#[trigger] view_all[j]),
        decreases ss@.len() - i,
    {
        let ghost opre = out@;
        w_str(out, ss[i].as_str());
        i = i + 1;
        proof {
            lemma_enc_strs_items_push(view_all.take(i - 1), view_all[i - 1]);
            assert(view_all.take(i as int) =~= view_all.take(i - 1).push(view_all[i - 1]));
            assert(out@ =~= mid + enc_strs_items(view_all.take(i as int)));
        }
    }
    proof {
        assert(view_all.take(view_all.len() as int) =~= view_all);
        assert(final(out)@ =~= old(out)@ + enc_strs(view_all));
        lemma_pow256_8();
    }
}

proof fn lemma_enc_strs_items_push(ss: Seq<Seq<char>>, s: Seq<char>)
    ensures
        enc_strs_items(ss.push(s)) == enc_strs_items(ss) + enc_str(s),
    decreases ss.len(),
{
    reveal_with_fuel(enc_strs_items, 3);
    if ss.len() == 0 {
        assert(ss.push(s).drop_first() =~= Seq::<Seq<char>>::empty());
        assert(enc_strs_items(ss.push(s)) =~= enc_strs_items(ss) + enc_str(s));
    } else {
        lemma_enc_strs_items_push(ss.drop_first(), s);
        assert(ss.push(s).drop_first() =~= ss.drop_first().push(s));
        assert(ss.push(s)[0] == ss[0]);
        assert(enc_strs_items(ss.push(s)) =~= enc_strs_items(ss) + enc_str(s));
    }
}

/// Reads a string list field, advancing the position.
pub fn r_strs(bytes: &Vec<u8>, pos: usize) -> (r: Option<(Vec<String>, usize)>)
    ensures
        match r {
            Some(v) => dec_strs(bytes@, pos as int) == Some(
                (v.0@.map_values(|x: String| x@), v.1 as int),
            ) && pos < v.1 && v.1 <= bytes@.len(),
            None => dec_strs(bytes@, pos as int) is None,
        },
{
    let (n, p0) = match r_u64(bytes, pos) {
        Some(x) => x,
        None => {
            return None;
        },
    };
    let mut out: Vec<String> = Vec::new();
    let mut cur = p0;
    let mut k: u64 = 0;
    proof {
        assert(out@.map_values(|x: String| x@) =~= Seq::<Seq<char>>::empty());
    }
    while k < n
        invariant
            k <= n,
            pos < p0 <= cur <= bytes@.len(),
            dec_u64(bytes@, pos as int) == Some(((n as nat), p0 as int)),
            ({
                let done = out@.map_values(|x: String| x@);
                match dec_strs_items(bytes@, cur as int, (n - k) as nat) {
                    Some(rest) => dec_strs_items(bytes@, p0 as int, n as nat) == Some(
                        (done + rest.0, rest.1),
                    ),
                    None => dec_strs_items(bytes@, p0 as int, n as nat) is None,
                }
            }),
        decreases n - k,
    {
        let ghost done_pre = out@.map_values(|x: String| x@);
        let (s, p2) = match r_str(bytes, cur) {
            Some(x) => x,
            None => {
                return None;
            },
        };
        out.push(s);
        proof {
            let got = dec_str(bytes@, cur as int)->0;
            let sv = got.0;
            assert(out@.map_values(|x: String| x@) =~= done_pre.push(sv));
            assert forall|rest0: Seq<Seq<char>>, q: int|
                dec_strs_items(bytes@, p2 as int, (n - k - 1) as nat) == Some::<
                    (Seq<Seq<char>>, int),
                >((rest0, q)) implies done_pre + (seq![sv] + rest0) =~= done_pre.push(sv)
                + rest0 by {}
        }
        cur = p2;
        k = k + 1;
    }
    proof {
        assert(out@.map_values(|x: String| x@) + Seq::<Seq<char>>::empty() =~= out@.map_values(
            |x: String| x@,
        ));
    }
    Some((out, cur))
}

/// The option-set field: memory, GC options, extra options, server jar.
pub open spec fn enc_options(o: crate::manifest::OptionsV) -> Seq<u8> {
    enc_str(o.java_mem) + (enc_str(o.java_gc_opts) + (enc_strs(o.java_extra_opts) + enc_str(
        o.server_jar_rel,
    )))
}

pub open spec fn enc_ok_options(o: crate::manifest::OptionsV) -> bool {
    enc_ok_str(o.java_mem) && enc_ok_str(o.java_gc_opts) && enc_ok_strs(o.java_extra_opts)
        && enc_ok_str(o.server_jar_rel)
}

/// Reads an option-set field.
pub open spec fn dec_options(bytes: Seq<u8>, pos: int) -> Option<
    (crate::manifest::OptionsV, int),
> {
    match dec_str(bytes, pos) {
        Some((mem, p1)) => match dec_str(bytes, p1) {
            Some((gc, p2)) => match dec_strs(bytes, p2) {
                Some((extra, p3)) => match dec_str(bytes, p3) {
                    Some((jar, p4)) => Some(
                        (
                            crate::manifest::OptionsV {
                                java_mem: mem,
                                java_gc_opts: gc,
                                java_extra_opts: extra,
                                server_jar_rel: jar,
                            },
                            p4,
                        ),
                    ),
                    None => None,
                },
                None => None,
            },
            None => None,
        },
        None => None,
    }
}

pub proof fn lemma_dec_options_at(bytes: Seq<u8>, pos: int, o: crate::manifest::OptionsV)
    requires
        0 <= pos,
        pos + enc_options(o).len() <= bytes.len(),
        bytes.subrange(pos, pos + enc_options(o).len()) == enc_options(o),
        enc_ok_options(o),
    ensures
        dec_options(bytes, pos) == Some((o, pos + enc_options(o).len())),
{
    let a = enc_str(o.java_mem);
    let b = enc_str(o.java_gc_opts);
    let c = enc_strs(o.java_extra_opts);
    let d = enc_str(o.server_jar_rel);
    lemma_peel(bytes, pos, a, b + (c + d));
    lemma_peel(bytes, pos + a.len(), b, c + d);
    lemma_peel(bytes, pos + a.len() + b.len(), c, d);
    lemma_dec_str_at(bytes, pos, o.java_mem);
    lemma_dec_str_at(bytes, pos + a.len(), o.java_gc_opts);
    lemma_dec_strs_at(bytes, pos + a.len() + b.len(), o.java_extra_opts);
    lemma_dec_str_at(bytes, pos + a.len() + b.len() + c.len(), o.server_jar_rel);
}

/// Appends an option-set field.
pub fn w_options(out: &mut Vec<u8>, o: &crate::manifest::Options)
    ensures
        final(out)@ == old(out)@ + enc_options(o@),
        enc_ok_options(o@),
{
    w_str(out, o.java_mem.as_str());
    w_str(out, o.java_gc_opts.as_str());
    w_strs(out, &o.java_extra_opts);
    w_str(out, o.server_jar_rel.as_str());
    proof {
        assert(final(out)@ =~= old(out)@ + enc_options(o@));
    }
}

/// Reads an option-set field, advancing the position.
pub fn r_options(bytes: &Vec<u8>, pos: usize) -> (r: Option<(crate::manifest::Options, usize)>)
    ensures
        match r {
            Some(v) => dec_options(bytes@, pos as int) == Some((v.0@, v.1 as int)) && pos < v.1
                && v.1 <= bytes@.len(),
            None => dec_options(bytes@, pos as int) is None,
        },
{
    let (mem, p1) = match r_str(bytes, pos) {
        Some(x) => x,
        None => { return None; },
    };
    let (gc, p2) = match r_str(bytes, p1) {
        Some(x) => x,
        None => { return None; },
    };
    let (extra, p3) = match r_strs(bytes, p2) {
        Some(x) => x,
        None => { return None; },
    };
    let (jar, p4) = match r_str(bytes, p3) {
        Some(x) => x,
        None => { return None; },
    };
    Some(
        (
            crate::manifest::Options {
                java_mem: mem,
                java_gc_opts: gc,
                java_extra_opts: extra,
                server_jar_rel: jar,
            },
            p4,
        ),
    )
}

/// The one-byte tag of a script kind.
pub open spec fn script_tag(t: crate::manifest::ScriptType) -> u8 {
    match t {
        crate::manifest::ScriptType::Bash => 0,
        crate::manifest::ScriptType::Batch => 1,
        crate::manifest::ScriptType::Both => 2,
    }
}

/// Reads a script-kind tag.
pub open spec fn dec_script(bytes: Seq<u8>, pos: int) -> Option<
    (crate::manifest::ScriptType, int),
> {
    match dec_byte(bytes, pos) {
        Some((t, p)) => if t == 0 {
            Some((crate::manifest::ScriptType::Bash, p))
        } else if t == 1 {
            Some((crate::manifest::ScriptType::Batch, p))
        } else if t == 2 {
            Some((crate::manifest::ScriptType::Both, p))
        } else {
            None
        },
        None => None,
    }
}

/// Reads a script-kind tag, advancing the position.
pub fn r_script(bytes: &Vec<u8>, pos: usize) -> (r: Option<(crate::manifest::ScriptType, usize)>)
    ensures
        match r {
            Some(v) => dec_script(bytes@, pos as int) == Some((v.0, v.1 as int)) && pos < v.1
                && v.1 <= bytes@.len(),
            None => dec_script(bytes@, pos as int) is None,
        },
{
    match r_byte(bytes, pos) {
        Some((t, p)) => if t == 0 {
            Some((crate::manifest::ScriptType::Bash, p))
        } else if t == 1 {
            Some((crate::manifest::ScriptType::Batch, p))
        } else if t == 2 {
            Some((crate::manifest::ScriptType::Both, p))
        } else {
            None
        },
        None => None,
    }
}

/// The one-byte tag of an optional registry file kind.
pub open spec fn ft_tag(t: Option<crate::modrinth::VersionFileType>) -> u8 {
    match t {
        None => 0,
        Some(crate::modrinth::VersionFileType::RequiredResourcePack) => 1,
        Some(crate::modrinth::VersionFileType::OptionalResourcePack) => 2,
    }
}

/// Reads an optional registry file kind.
pub open spec fn dec_ft(bytes: Seq<u8>, pos: int) -> Option<
    (Option<crate::modrinth::VersionFileType>, int),
> {
    match dec_byte(bytes, pos) {
        Some((t, p)) => if t == 0 {
            Some((None, p))
        } else if t == 1 {
            Some((Some(crate::modrinth::VersionFileType::RequiredResourcePack), p))
        } else if t == 2 {
            Some((Some(crate::modrinth::VersionFileType::OptionalResourcePack), p))
        } else {
            None
        },
        None => None,
    }
}

/// Reads an optional registry file kind, advancing the position.
pub fn r_ft(bytes: &Vec<u8>, pos: usize) -> (r: Option<
    (Option<crate::modrinth::VersionFileType>, usize),
>)
    ensures
        match r {
            Some(v) => dec_ft(bytes@, pos as int) == Some((v.0, v.1 as int)) && pos < v.1
                && v.1 <= bytes@.len(),
            None => dec_ft(bytes@, pos as int) is None,
        },
{
    match r_byte(bytes, pos) {
        Some((t, p)) => if t == 0 {
            Some((None, p))
        } else if t == 1 {
            Some((Some(crate::modrinth::VersionFileType::RequiredResourcePack), p))
        } else if t == 2 {
            Some((Some(crate::modrinth::VersionFileType::OptionalResourcePack), p))
        } else {
            None
        },
        None => None,
    }
}

/// A registry file field: digests, URL, name, primacy, size, kind.
pub open spec fn enc_vf(f: crate::modrinth::VersionFileV) -> Seq<u8> {
    enc_str(f.hashes.sha512) + (enc_str(f.hashes.sha1) + (enc_str(f.url) + (enc_str(f.filename)
        + (enc_bool(f.primary) + (enc_u64(f.size) + seq![ft_tag(f.file_type)])))))
}

pub open spec fn enc_ok_vf(f: crate::modrinth::VersionFileV) -> bool {
    enc_ok_str(f.hashes.sha512) && enc_ok_str(f.hashes.sha1) && enc_ok_str(f.url) && enc_ok_str(
        f.filename,
    ) && f.size <= usize::MAX as nat
}

/// Reads a registry file field.
pub open spec fn dec_vf(bytes: Seq<u8>, pos: int) -> Option<
    (crate::modrinth::VersionFileV, int),
> {
    match dec_str(bytes, pos) {
        Some((sha512, p1)) => match dec_str(bytes, p1) {
            Some((sha1, p2)) => match dec_str(bytes, p2) {
                Some((url, p3)) => match dec_str(bytes, p3) {
                    Some((filename, p4)) => match dec_bool(bytes, p4) {
                        Some((primary, p5)) => match dec_u64(bytes, p5) {
                            Some((size, p6)) => if size <= usize::MAX as nat {
                                match dec_ft(bytes, p6) {
                                    Some((ft, p7)) => Some(
                                        (
                                            crate::modrinth::VersionFileV {
                                                hashes: crate::modrinth::VersionFileHashesV {
                                                    sha512,
                                                    sha1,
                                                },
                                                url,
                                                filename,
                                                primary,
                                                size,
                                                file_type: ft,
                                            },
                                            p7,
                                        ),
                                    ),
                                    None => None,
                                }
                            } else {
                                None
                            },
                            None => None,
                        },
                        None => None,
                    },
                    None => None,
                },
                None => None,
            },
            None => None,
        },
        None => None,
    }
}

pub proof fn lemma_dec_vf_at(bytes: Seq<u8>, pos: int, f: crate::modrinth::VersionFileV)
    requires
        0 <= pos,
        pos + enc_vf(f).len() <= bytes.len(),
        bytes.subrange(pos, pos + enc_vf(f).len()) == enc_vf(f),
        enc_ok_vf(f),
    ensures
        dec_vf(bytes, pos) == Some((f, pos + enc_vf(f).len())),
{
    let a = enc_str(f.hashes.sha512);
    let b = enc_str(f.hashes.sha1);
    let c = enc_str(f.url);
    let d = enc_str(f.filename);
    let e = enc_bool(f.primary);
    let g = enc_u64(f.size);
    let h = seq![ft_tag(f.file_type)];
    lemma_le_bytes_len(f.size, 8);
    lemma_peel(bytes, pos, a, b + (c + (d + (e + (g + h)))));
    let p1 = pos + a.len();
    lemma_peel(bytes, p1, b, c + (d + (e + (g + h))));
    let p2 = p1 + b.len();
    lemma_peel(bytes, p2, c, d + (e + (g + h)));
    let p3 = p2 + c.len();
    lemma_peel(bytes, p3, d, e + (g + h));
    let p4 = p3 + d.len();
    lemma_peel(bytes, p4, e, g + h);
    let p5 = p4 + e.len();
    lemma_peel(bytes, p5, g, h);
    let p6 = p5 + g.len();
    lemma_dec_str_at(bytes, pos, f.hashes.sha512);
    lemma_dec_str_at(bytes, p1, f.hashes.sha1);
    lemma_dec_str_at(bytes, p2, f.url);
    lemma_dec_str_at(bytes, p3, f.filename);
    assert(bytes.subrange(p4, p4 + 1)[0] == bytes[p4]);
    assert(bytes[p4] == enc_bool(f.primary)[0]);
    assert(dec_bool(bytes, p4) == Some((f.primary, p4 + 1)));
    assert(f.size < pow256(8)) by {
        lemma_pow256_8();
    }
    lemma_dec_u64_at(bytes, p5, f.size);
    assert(bytes.subrange(p6, p6 + 1)[0] == bytes[p6]);
    assert(bytes[p6] == h[0]);
    assert(dec_ft(bytes, p6) == Some((f.file_type, p6 + 1)));
}

/// Appends a registry file field.
#[verifier::rlimit(60)]
pub fn w_vf(out: &mut Vec<u8>, f: &crate::modrinth::VersionFile)
    ensures
        final(out)@ == old(out)@ + enc_vf(f@),
        enc_ok_vf(f@),
{
    w_str(out, f.hashes.sha512.as_str());
    w_str(out, f.hashes.sha1.as_str());
    w_str(out, f.url.as_str());
    w_str(out, f.filename.as_str());
    w_bool(out, f.primary);
    w_u64(out, f.size as u64);
    let ghost pre = out@;
    match f.file_type {
        None => out.push(0u8),
        Some(crate::modrinth::VersionFileType::RequiredResourcePack) => out.push(1u8),
        Some(crate::modrinth::VersionFileType::OptionalResourcePack) => out.push(2u8),
    }
    proof {
        assert(out@ =~= pre + seq![ft_tag(f@.file_type)]);
        assert(final(out)@ =~= old(out)@ + enc_vf(f@));
    }
}

/// Reads a registry file field, advancing the position.
pub fn r_vf(bytes: &Vec<u8>, pos: usize) -> (r: Option<(crate::modrinth::VersionFile, usize)>)
    ensures
        match r {
            Some(v) => dec_vf(bytes@, pos as int) == Some((v.0@, v.1 as int)) && pos < v.1
                && v.1 <= bytes@.len(),
            None => dec_vf(bytes@, pos as int) is None,
        },
{
    let (sha512, p1) = match r_str(bytes, pos) {
        Some(x) => x,
        None => { return None; },
    };
    let (sha1, p2) = match r_str(bytes, p1) {
        Some(x) => x,
        None => { return None; },
    };
    let (url, p3) = match r_str(bytes, p2) {
        Some(x) => x,
        None => { return None; },
    };
    let (filename, p4) = match r_str(bytes, p3) {
        Some(x) => x,
        None => { return None; },
    };
    let (primary, p5) = match r_bool(bytes, p4) {
        Some(x) => x,
        None => { return None; },
    };
    let (size64, p6) = match r_u64(bytes, p5) {
        Some(x) => x,
        None => { return None; },
    };
    if size64 > usize::MAX as u64 {
        return None;
    }
    let (ft, p7) = match r_ft(bytes, p6) {
        Some(x) => x,
        None => { return None; },
    };
    Some(
        (
            crate::modrinth::VersionFile {
                hashes: crate::modrinth::VersionFileHashes { sha512, sha1 },
                url,
                filename,
                primary,
                size: size64 as usize,
                file_type: ft,
            },
            p7,
        ),
    )
}

/// A registry file list field: the count, then each file.
pub open spec fn enc_vfs_items(fs: Seq<crate::modrinth::VersionFileV>) -> Seq<u8>
    decreases fs.len(),
{
    if fs.len() == 0 {
        Seq::empty()
    } else {
        enc_vf(fs[0]) + enc_vfs_items(fs.drop_first())
    }
}

pub open spec fn enc_vfs(fs: Seq<crate::modrinth::VersionFileV>) -> Seq<u8> {
    enc_u64(fs.len() as nat) + enc_vfs_items(fs)
}

pub open spec fn enc_ok_vfs(fs: Seq<crate::modrinth::VersionFileV>) -> bool {
    fs.len() < pow256(8) && (forall|i: int| 0 <= i < fs.len() ==> enc_ok_vf(#[trigger] fs[i]))
}

/// Reads `n` registry file fields.
pub open spec fn dec_vfs_items(bytes: Seq<u8>, pos: int, n: nat) -> Option<
    (Seq<crate::modrinth::VersionFileV>, int),
>
    decreases n,
{
    if n == 0 {
        Some((Seq::empty(), pos))
    } else {
        match dec_vf(bytes, pos) {
            Some((f, p)) => match dec_vfs_items(bytes, p, (n - 1) as nat) {
                Some((fs, q)) => Some((seq![f] + fs, q)),
                None => None,
            },
            None => None,
        }
    }
}

/// Reads a registry file list field.
pub open spec fn dec_vfs(bytes: Seq<u8>, pos: int) -> Option<
    (Seq<crate::modrinth::VersionFileV>, int),
> {
    match dec_u64(bytes, pos) {
        Some((n, p)) => dec_vfs_items(bytes, p, n),
        None => None,
    }
}

pub proof fn lemma_dec_vfs_items_at(
    bytes: Seq<u8>,
    pos: int,
    fs: Seq<crate::modrinth::VersionFileV>,
)
    requires
        0 <= pos,
        pos + enc_vfs_items(fs).len() <= bytes.len(),
        bytes.subrange(pos, pos + enc_vfs_items(fs).len()) == enc_vfs_items(fs),
        forall|i: int| 0 <= i < fs.len() ==> enc_ok_vf(#[trigger] fs[i]),
    ensures
        dec_vfs_items(bytes, pos, fs.len() as nat) == Some(
            (fs, pos + enc_vfs_items(fs).len()),
        ),
    decreases fs.len(),
{
    if fs.len() == 0 {
        assert(fs =~= Seq::<crate::modrinth::VersionFileV>::empty());
    } else {
        let a = enc_vf(fs[0]);
        let b = enc_vfs_items(fs.drop_first());
        lemma_peel(bytes, pos, a, b);
        lemma_dec_vf_at(bytes, pos, fs[0]);
        assert forall|i: int| 0 <= i < fs.drop_first().len() implies enc_ok_vf(
            #[trigger] fs.drop_first()[i],
        ) by {
            assert(fs.drop_first()[i] == fs[i + 1]);
        }
        lemma_dec_vfs_items_at(bytes, pos + a.len(), fs.drop_first());
        assert(seq![fs[0]] + fs.drop_first() =~= fs);
    }
}

pub proof fn lemma_dec_vfs_at(bytes: Seq<u8>, pos: int, fs: Seq<crate::modrinth::VersionFileV>)
    requires
        0 <= pos,
        pos + enc_vfs(fs).len() <= bytes.len(),
        bytes.subrange(pos, pos + enc_vfs(fs).len()) == enc_vfs(fs),
        enc_ok_vfs(fs),
    ensures
        dec_vfs(bytes, pos) == Some((fs, pos + enc_vfs(fs).len())),
{
    lemma_le_bytes_len(fs.len() as nat, 8);
    lemma_peel(bytes, pos, enc_u64(fs.len() as nat), enc_vfs_items(fs));
    lemma_dec_u64_at(bytes, pos, fs.len() as nat);
    lemma_dec_vfs_items_at(bytes, pos + 8, fs);
}

proof fn lemma_enc_vfs_items_push(
    fs: Seq<crate::modrinth::VersionFileV>,
    f: crate::modrinth::VersionFileV,
)
    ensures
        enc_vfs_items(fs.push(f)) == enc_vfs_items(fs) + enc_vf(f),
    decreases fs.len(),
{
    reveal_with_fuel(enc_vfs_items, 3);
    if fs.len() == 0 {
        assert(fs.push(f).drop_first() =~= Seq::<crate::modrinth::VersionFileV>::empty());
        assert(enc_vfs_items(fs.push(f)) =~= enc_vfs_items(fs) + enc_vf(f));
    } else {
        lemma_enc_vfs_items_push(fs.drop_first(), f);
        assert(fs.push(f).drop_first() =~= fs.drop_first().push(f));
        assert(fs.push(f)[0] == fs[0]);
        assert(enc_vfs_items(fs.push(f)) =~= enc_vfs_items(fs) + enc_vf(f));
    }
}

/// Appends a registry file list field.
pub fn w_vfs(out: &mut Vec<u8>, fs: &Vec<crate::modrinth::VersionFile>)
    ensures
        final(out)@ == old(out)@ + enc_vfs(
            fs@.map_values(|f: crate::modrinth::VersionFile| f@),
        ),
        enc_ok_vfs(fs@.map_values(|f: crate::modrinth::VersionFile| f@)),
{
    let ghost view_all = fs@.map_values(|f: crate::modrinth::VersionFile| f@);
    w_u64(out, fs.len() as u64);
    let ghost mid = out@;
    let mut i: usize = 0;
    proof {
        assert(enc_vfs_items(view_all.take(0)) =~= Seq::<u8>::empty());
        assert(out@ =~= mid + enc_vfs_items(view_all.take(0)));
    }
    while i < fs.len()
        invariant
            i <= fs@.len(),
            view_all == fs@.map_values(|f: crate::modrinth::VersionFile| f@),
            view_all.len() == fs@.len(),
            out@ == mid + enc_vfs_items(view_all.take(i as int)),
            forall|j: int| 0 <= j < i ==> enc_ok_vf(#[trigger] view_all[j]),
        decreases fs@.len() - i,
    {
        w_vf(out, &fs[i]);
        i = i + 1;
        proof {
            lemma_enc_vfs_items_push(view_all.take(i - 1), view_all[i - 1]);
            assert(view_all.take(i as int) =~= view_all.take(i - 1).push(view_all[i - 1]));
            assert(out@ =~= mid + enc_vfs_items(view_all.take(i as int)));
        }
    }
    proof {
        assert(view_all.take(view_all.len() as int) =~= view_all);
        assert(final(out)@ =~= old(out)@ + enc_vfs(view_all));
        lemma_pow256_8();
    }
}

/// Reads a registry file list field, advancing the position.
pub fn r_vfs(bytes: &Vec<u8>, pos: usize) -> (r: Option<
    (Vec<crate::modrinth::VersionFile>, usize),
>)
    ensures
        match r {
            Some(v) => dec_vfs(bytes@, pos as int) == Some(
                (v.0@.map_values(|f: crate::modrinth::VersionFile| f@), v.1 as int),
            ) && pos < v.1 && v.1 <= bytes@.len(),
            None => dec_vfs(bytes@, pos as int) is None,
        },
{
    let (n, p0) = match r_u64(bytes, pos) {
        Some(x) => x,
        None => { return None; },
    };
    let mut out: Vec<crate::modrinth::VersionFile> = Vec::new();
    let mut cur = p0;
    let mut k: u64 = 0;
    proof {
        assert(out@.map_values(|f: crate::modrinth::VersionFile| f@) =~= Seq::<
            crate::modrinth::VersionFileV,
        >::empty());
    }
    while k < n
        invariant
            k <= n,
            pos < p0 <= cur <= bytes@.len(),
            dec_u64(bytes@, pos as int) == Some(((n as nat), p0 as int)),
            ({
                let done = out@.map_values(|f: crate::modrinth::VersionFile| f@);
                match dec_vfs_items(bytes@, cur as int, (n - k) as nat) {
                    Some(rest) => dec_vfs_items(bytes@, p0 as int, n as nat) == Some(
                        (done + rest.0, rest.1),
                    ),
                    None => dec_vfs_items(bytes@, p0 as int, n as nat) is None,
                }
            }),
        decreases n - k,
    {
        let ghost done_pre = out@.map_values(|f: crate::modrinth::VersionFile| f@);
        let (f, p2) = match r_vf(bytes, cur) {
            Some(x) => x,
            None => { return None; },
        };
        out.push(f);
        proof {
            let got = dec_vf(bytes@, cur as int)->0;
            let fv = got.0;
            assert(out@.map_values(|f: crate::modrinth::VersionFile| f@) =~= done_pre.push(fv));
            assert forall|rest0: Seq<crate::modrinth::VersionFileV>, q: int|
                dec_vfs_items(bytes@, p2 as int, (n - k - 1) as nat) == Some::<
                    (Seq<crate::modrinth::VersionFileV>, int),
                >((rest0, q)) implies done_pre + (seq![fv] + rest0) =~= done_pre.push(fv)
                + rest0 by {}
        }
        cur = p2;
        k = k + 1;
    }
    proof {
        assert(out@.map_values(|f: crate::modrinth::VersionFile| f@) + Seq::<
            crate::modrinth::VersionFileV,
        >::empty() =~= out@.map_values(|f: crate::modrinth::VersionFile| f@));
    }
    Some((out, cur))
}

/// The project metadata field: name, description, version, authors.
pub open spec fn enc_project(p: crate::manifest::ProjectInfoV) -> Seq<u8> {
    enc_str(p.name) + (enc_str(p.description) + (enc_str(p.version) + enc_strs(p.authors)))
}

pub open spec fn enc_ok_project(p: crate::manifest::ProjectInfoV) -> bool {
    enc_ok_str(p.name) && enc_ok_str(p.description) && enc_ok_str(p.version) && enc_ok_strs(
        p.authors,
    )
}

/// Reads the project metadata field.
pub open spec fn dec_project(bytes: Seq<u8>, pos: int) -> Option<
    (crate::manifest::ProjectInfoV, int),
> {
    match dec_str(bytes, pos) {
        Some((name, p1)) => match dec_str(bytes, p1) {
            Some((description, p2)) => match dec_str(bytes, p2) {
                Some((version, p3)) => match dec_strs(bytes, p3) {
                    Some((authors, p4)) => Some(
                        (
                            crate::manifest::ProjectInfoV {
                                name,
                                description,
                                version,
                                authors,
                            },
                            p4,
                        ),
                    ),
                    None => None,
                },
                None => None,
            },
            None => None,
        },
        None => None,
    }
}

pub proof fn lemma_dec_project_at(bytes: Seq<u8>, pos: int, p: crate::manifest::ProjectInfoV)
    requires
        0 <= pos,
        pos + enc_project(p).len() <= bytes.len(),
        bytes.subrange(pos, pos + enc_project(p).len()) == enc_project(p),
        enc_ok_project(p),
    ensures
        dec_project(bytes, pos) == Some((p, pos + enc_project(p).len())),
{
    let a = enc_str(p.name);
    let b = enc_str(p.description);
    let c = enc_str(p.version);
    let d = enc_strs(p.authors);
    lemma_peel(bytes, pos, a, b + (c + d));
    lemma_peel(bytes, pos + a.len(), b, c + d);
    lemma_peel(bytes, pos + a.len() + b.len(), c, d);
    lemma_dec_str_at(bytes, pos, p.name);
    lemma_dec_str_at(bytes, pos + a.len(), p.description);
    lemma_dec_str_at(bytes, pos + a.len() + b.len(), p.version);
    lemma_dec_strs_at(bytes, pos + a.len() + b.len() + c.len(), p.authors);
}

/// Appends the project metadata field.
pub fn w_project(out: &mut Vec<u8>, p: &crate::manifest::ProjectInfo)
    ensures
        final(out)@ == old(out)@ + enc_project(p@),
        enc_ok_project(p@),
{
    w_str(out, p.name.as_str());
    w_str(out, p.description.as_str());
    w_str(out, p.version.as_str());
    w_strs(out, &p.authors);
    proof {
        assert(final(out)@ =~= old(out)@ + enc_project(p@));
    }
}

/// Reads the project metadata field, advancing the position.
pub fn r_project(bytes: &Vec<u8>, pos: usize) -> (r: Option<
    (crate::manifest::ProjectInfo, usize),
>)
    ensures
        match r {
            Some(v) => dec_project(bytes@, pos as int) == Some((v.0@, v.1 as int)) && pos < v.1
                && v.1 <= bytes@.len(),
            None => dec_project(bytes@, pos as int) is None,
        },
{
    let (name, p1) = match r_str(bytes, pos) {
        Some(x) => x,
        None => { return None; },
    };
    let (description, p2) = match r_str(bytes, p1) {
        Some(x) => x,
        None => { return None; },
    };
    let (version, p3) = match r_str(bytes, p2) {
        Some(x) => x,
        None => { return None; },
    };
    let (authors, p4) = match r_strs(bytes, p3) {
        Some(x) => x,
        None => { return None; },
    };
    Some((crate::manifest::ProjectInfo { name, description, version, authors }, p4))
}

/// A manifest entry field: a kind tag, then the kind's payload; a directory
/// carries its child count and children.
pub open spec fn enc_entry(e: crate::manifest::EntryV) -> Seq<u8>
    decreases e,
{
    match e {
        crate::manifest::EntryV::Directory { name, contents } => seq![0u8] + (enc_str(name) + (
        enc_u64(contents.len() as nat) + enc_entry_items(contents))),
        crate::manifest::EntryV::File { name, hash, size } => seq![1u8] + (enc_str(name) + (
        enc_u128(hash) + enc_u64(size))),
        crate::manifest::EntryV::Modrinth { project, version, files } => seq![2u8] + (enc_str(
            project,
        ) + (enc_str(version) + enc_vfs(files))),
        crate::manifest::EntryV::FabricServerJar {
            minecraft_version,
            loader_version,
            installer_version,
        } => seq![3u8] + (enc_str(minecraft_version) + (enc_str(loader_version) + enc_str(
            installer_version,
        ))),
        crate::manifest::EntryV::RunScript { name, script_type, options } => seq![4u8] + (
        enc_str(name) + (seq![script_tag(script_type)] + enc_options(options))),
        crate::manifest::EntryV::Persist { name } => seq![5u8] + enc_str(name),
    }
}

pub open spec fn enc_entry_items(s: Seq<crate::manifest::EntryV>) -> Seq<u8>
    decreases s,
{
    if s.len() == 0 {
        Seq::empty()
    } else {
        enc_entry(s[0]) + enc_entry_items(s.drop_first())
    }
}

pub open spec fn enc_ok_entry(e: crate::manifest::EntryV) -> bool
    decreases e,
{
    match e {
        crate::manifest::EntryV::Directory { name, contents } => enc_ok_str(name)
            && contents.len() < pow256(8) && (forall|i: int|
            0 <= i < contents.len() ==> enc_ok_entry(#[trigger] contents[i])),
        crate::manifest::EntryV::File { name, hash, size } => enc_ok_str(name) && size
            <= usize::MAX as nat,
        crate::manifest::EntryV::Modrinth { project, version, files } => enc_ok_str(project)
            && enc_ok_str(version) && enc_ok_vfs(files),
        crate::manifest::EntryV::FabricServerJar {
            minecraft_version,
            loader_version,
            installer_version,
        } => enc_ok_str(minecraft_version) && enc_ok_str(loader_version) && enc_ok_str(
            installer_version,
        ),
        crate::manifest::EntryV::RunScript { name, script_type, options } => enc_ok_str(name)
            && enc_ok_options(options),
        crate::manifest::EntryV::Persist { name } => enc_ok_str(name),
    }
}

/// Reads one manifest entry field.
pub open spec fn dec_entry(bytes: Seq<u8>, pos: int) -> Option<(crate::manifest::EntryV, int)>
    decreases bytes.len() - pos, 0nat,
{
    match dec_byte(bytes, pos) {
        None => None,
        Some((tag, p1)) => if tag == 0 {
            match dec_str(bytes, p1) {
                Some((name, p2)) => match dec_u64(bytes, p2) {
                    Some((n, p3)) => if pos < p3 && p3 <= bytes.len() {
                        match dec_entry_items(bytes, p3, n) {
                            Some((es, p4)) => Some(
                                (
                                    crate::manifest::EntryV::Directory { name, contents: es },
                                    p4,
                                ),
                            ),
                            None => None,
                        }
                    } else {
                        None
                    },
                    None => None,
                },
                None => None,
            }
        } else if tag == 1 {
            match dec_str(bytes, p1) {
                Some((name, p2)) => match dec_u128(bytes, p2) {
                    Some((hash, p3)) => match dec_u64(bytes, p3) {
                        Some((size, p4)) => if size <= usize::MAX as nat {
                            Some((crate::manifest::EntryV::File { name, hash, size }, p4))
                        } else {
                            None
                        },
                        None => None,
                    },
                    None => None,
                },
                None => None,
            }
        } else if tag == 2 {
            match dec_str(bytes, p1) {
                Some((project, p2)) => match dec_str(bytes, p2) {
                    Some((version, p3)) => match dec_vfs(bytes, p3) {
                        Some((files, p4)) => Some(
                            (
                                crate::manifest::EntryV::Modrinth { project, version, files },
                                p4,
                            ),
                        ),
                        None => None,
                    },
                    None => None,
                },
                None => None,
            }
        } else if tag == 3 {
            match dec_str(bytes, p1) {
                Some((mc, p2)) => match dec_str(bytes, p2) {
                    Some((loader, p3)) => match dec_str(bytes, p3) {
                        Some((installer, p4)) => Some(
                            (
                                crate::manifest::EntryV::FabricServerJar {
                                    minecraft_version: mc,
                                    loader_version: loader,
                                    installer_version: installer,
                                },
                                p4,
                            ),
                        ),
                        None => None,
                    },
                    None => None,
                },
                None => None,
            }
        } else if tag == 4 {
            match dec_str(bytes, p1) {
                Some((name, p2)) => match dec_script(bytes, p2) {
                    Some((st, p3)) => match dec_options(bytes, p3) {
                        Some((o, p4)) => Some(
                            (
                                crate::manifest::EntryV::RunScript {
                                    name,
                                    script_type: st,
                                    options: o,
                                },
                                p4,
                            ),
                        ),
                        None => None,
                    },
                    None => None,
                },
                None => None,
            }
        } else if tag == 5 {
            match dec_str(bytes, p1) {
                Some((name, p2)) => Some((crate::manifest::EntryV::Persist { name }, p2)),
                None => None,
            }
        } else {
            None
        },
    }
}

/// Reads `n` manifest entry fields.
pub open spec fn dec_entry_items(bytes: Seq<u8>, pos: int, n: nat) -> Option<
    (Seq<crate::manifest::EntryV>, int),
>
    decreases bytes.len() - pos, n,
{
    if n == 0 {
        Some((Seq::empty(), pos))
    } else {
        match dec_entry(bytes, pos) {
            Some((e, p)) => if pos < p && p <= bytes.len() {
                match dec_entry_items(bytes, p, (n - 1) as nat) {
                    Some((es, q)) => Some((seq![e] + es, q)),
                    None => None,
                }
            } else {
                None
            },
            None => None,
        }
    }
}

pub proof fn lemma_enc_entry_len_pos(e: crate::manifest::EntryV)
    ensures
        enc_entry(e).len() >= 1,
{
    match e {
        crate::manifest::EntryV::Directory { .. } => {},
        crate::manifest::EntryV::File { .. } => {},
        crate::manifest::EntryV::Modrinth { .. } => {},
        crate::manifest::EntryV::FabricServerJar { .. } => {},
        crate::manifest::EntryV::RunScript { .. } => {},
        crate::manifest::EntryV::Persist { .. } => {},
    }
}

#[verifier::rlimit(90)]
pub proof fn lemma_dec_entry_at(bytes: Seq<u8>, pos: int, e: crate::manifest::EntryV)
    requires
        0 <= pos,
        pos + enc_entry(e).len() <= bytes.len(),
        bytes.subrange(pos, pos + enc_entry(e).len()) == enc_entry(e),
        enc_ok_entry(e),
    ensures
        dec_entry(bytes, pos) == Some((e, pos + enc_entry(e).len())),
    decreases e, 0nat,
{
    match e {
        crate::manifest::EntryV::Directory { name, contents } => {
            let a = enc_str(name);
            let b = enc_u64(contents.len() as nat);
            let c = enc_entry_items(contents);
            lemma_le_bytes_len(contents.len() as nat, 8);
            lemma_peel(bytes, pos, seq![0u8], a + (b + c));
            let p1 = pos + 1;
            lemma_peel(bytes, p1, a, b + c);
            let p2 = p1 + a.len();
            lemma_peel(bytes, p2, b, c);
            let p3 = p2 + b.len();
            assert(bytes.subrange(pos, pos + 1)[0] == bytes[pos]);
            assert(bytes[pos] == 0u8);
            lemma_dec_str_at(bytes, p1, name);
            lemma_dec_u64_at(bytes, p2, contents.len() as nat);
            lemma_dec_entry_items_at(bytes, p3, contents);
        },
        crate::manifest::EntryV::File { name, hash, size } => {
            let a = enc_str(name);
            let b = enc_u128(hash);
            let c = enc_u64(size);
            lemma_le_bytes_len(hash as nat, 16);
            lemma_le_bytes_len(size, 8);
            lemma_peel(bytes, pos, seq![1u8], a + (b + c));
            let p1 = pos + 1;
            lemma_peel(bytes, p1, a, b + c);
            let p2 = p1 + a.len();
            lemma_peel(bytes, p2, b, c);
            let p3 = p2 + b.len();
            assert(bytes.subrange(pos, pos + 1)[0] == bytes[pos]);
            assert(bytes[pos] == 1u8);
            lemma_dec_str_at(bytes, p1, name);
            lemma_dec_u128_at(bytes, p2, hash);
            assert(size < pow256(8)) by {
                lemma_pow256_8();
            }
            lemma_dec_u64_at(bytes, p3, size);
        },
        crate::manifest::EntryV::Modrinth { project, version, files } => {
            let a = enc_str(project);
            let b = enc_str(version);
            let c = enc_vfs(files);
            lemma_peel(bytes, pos, seq![2u8], a + (b + c));
            let p1 = pos + 1;
            lemma_peel(bytes, p1, a, b + c);
            let p2 = p1 + a.len();
            lemma_peel(bytes, p2, b, c);
            let p3 = p2 + b.len();
            assert(bytes.subrange(pos, pos + 1)[0] == bytes[pos]);
            assert(bytes[pos] == 2u8);
            lemma_dec_str_at(bytes, p1, project);
            lemma_dec_str_at(bytes, p2, version);
            lemma_dec_vfs_at(bytes, p3, files);
        },
        crate::manifest::EntryV::FabricServerJar {
            minecraft_version,
            loader_version,
            installer_version,
        } => {
            let a = enc_str(minecraft_version);
            let b = enc_str(loader_version);
            let c = enc_str(installer_version);
            lemma_peel(bytes, pos, seq![3u8], a + (b + c));
            let p1 = pos + 1;
            lemma_peel(bytes, p1, a, b + c);
            let p2 = p1 + a.len();
            lemma_peel(bytes, p2, b, c);
            let p3 = p2 + b.len();
            assert(bytes.subrange(pos, pos + 1)[0] == bytes[pos]);
            assert(bytes[pos] == 3u8);
            lemma_dec_str_at(bytes, p1, minecraft_version);
            lemma_dec_str_at(bytes, p2, loader_version);
            lemma_dec_str_at(bytes, p3, installer_version);
        },
        crate::manifest::EntryV::RunScript { name, script_type, options } => {
            let a = enc_str(name);
            let b = seq![script_tag(script_type)];
            let c = enc_options(options);
            lemma_peel(bytes, pos, seq![4u8], a + (b + c));
            let p1 = pos + 1;
            lemma_peel(bytes, p1, a, b + c);
            let p2 = p1 + a.len();
            lemma_peel(bytes, p2, b, c);
            let p3 = p2 + 1;
            assert(bytes.subrange(pos, pos + 1)[0] == bytes[pos]);
            assert(bytes[pos] == 4u8);
            lemma_dec_str_at(bytes, p1, name);
            assert(bytes.subrange(p2, p2 + 1)[0] == bytes[p2]);
            assert(bytes[p2] == script_tag(script_type));
            assert(dec_script(bytes, p2) == Some((script_type, p3)));
            lemma_dec_options_at(bytes, p3, options);
        },
        crate::manifest::EntryV::Persist { name } => {
            let a = enc_str(name);
            lemma_peel(bytes, pos, seq![5u8], a);
            assert(bytes.subrange(pos, pos + 1)[0] == bytes[pos]);
            assert(bytes[pos] == 5u8);
            lemma_dec_str_at(bytes, pos + 1, name);
        },
    }
}

pub proof fn lemma_dec_entry_items_at(
    bytes: Seq<u8>,
    pos: int,
    s: Seq<crate::manifest::EntryV>,
)
    requires
        0 <= pos,
        pos + enc_entry_items(s).len() <= bytes.len(),
        bytes.subrange(pos, pos + enc_entry_items(s).len()) == enc_entry_items(s),
        forall|i: int| 0 <= i < s.len() ==> enc_ok_entry(#[trigger] s[i]),
    ensures
        dec_entry_items(bytes, pos, s.len() as nat) == Some(
            (s, pos + enc_entry_items(s).len()),
        ),
    decreases s, 1nat,
{
    if s.len() == 0 {
        assert(s =~= Seq::<crate::manifest::EntryV>::empty());
    } else {
        let a = enc_entry(s[0]);
        let b = enc_entry_items(s.drop_first());
        lemma_peel(bytes, pos, a, b);
        lemma_dec_entry_at(bytes, pos, s[0]);
        lemma_enc_entry_len_pos(s[0]);
        assert forall|i: int| 0 <= i < s.drop_first().len() implies enc_ok_entry(
            #[trigger] s.drop_first()[i],
        ) by {
            assert(s.drop_first()[i] == s[i + 1]);
        }
        lemma_dec_entry_items_at(bytes, pos + a.len(), s.drop_first());
        assert(seq![s[0]] + s.drop_first() =~= s);
    }
}

/// The whole manifest: project metadata, then the root entry count and
/// entries; nothing may follow.
pub open spec fn enc_manifest(m: crate::manifest::ManifestV) -> Seq<u8> {
    enc_project(m.project_info) + (enc_u64(m.contents.len() as nat) + enc_entry_items(
        m.contents,
    ))
}

pub open spec fn enc_ok_manifest(m: crate::manifest::ManifestV) -> bool {
    enc_ok_project(m.project_info) && m.contents.len() < pow256(8) && (forall|i: int|
        0 <= i < m.contents.len() ==> enc_ok_entry(#[trigger] m.contents[i]))
}

/// Reads a whole manifest; trailing bytes are rejected.
pub open spec fn dec_manifest(bytes: Seq<u8>) -> Option<crate::manifest::ManifestV> {
    match dec_project(bytes, 0) {
        Some((p, p1)) => match dec_u64(bytes, p1) {
            Some((n, p2)) => match dec_entry_items(bytes, p2, n) {
                Some((es, q)) => if q == bytes.len() {
                    Some(crate::manifest::ManifestV { project_info: p, contents: es })
                } else {
                    None
                },
                None => None,
            },
            None => None,
        },
        None => None,
    }
}

/// Decoding an encoded manifest gives the manifest back.
pub proof fn lemma_manifest_round_trip(m: crate::manifest::ManifestV)
    requires
        enc_ok_manifest(m),
    ensures
        dec_manifest(enc_manifest(m)) == Some(m),
{
    let bytes = enc_manifest(m);
    let a = enc_project(m.project_info);
    let b = enc_u64(m.contents.len() as nat);
    let c = enc_entry_items(m.contents);
    lemma_le_bytes_len(m.contents.len() as nat, 8);
    assert(bytes.subrange(0, bytes.len() as int) =~= bytes);
    lemma_peel(bytes, 0, a, b + c);
    lemma_peel(bytes, a.len() as int, b, c);
    lemma_dec_project_at(bytes, 0, m.project_info);
    lemma_dec_u64_at(bytes, a.len() as int, m.contents.len() as nat);
    lemma_dec_entry_items_at(bytes, a.len() + b.len() as int, m.contents);
}

proof fn lemma_enc_entry_items_push(
    s: Seq<crate::manifest::EntryV>,
    e: crate::manifest::EntryV,
)
    ensures
        enc_entry_items(s.push(e)) == enc_entry_items(s) + enc_entry(e),
    decreases s,
{
    reveal_with_fuel(enc_entry_items, 3);
    if s.len() == 0 {
        assert(s.push(e).drop_first() =~= Seq::<crate::manifest::EntryV>::empty());
        assert(enc_entry_items(s.push(e)) =~= enc_entry_items(s) + enc_entry(e));
    } else {
        lemma_enc_entry_items_push(s.drop_first(), e);
        assert(s.push(e).drop_first() =~= s.drop_first().push(e));
        assert(s.push(e)[0] == s[0]);
        assert(enc_entry_items(s.push(e)) =~= enc_entry_items(s) + enc_entry(e));
    }
}

/// Appends one manifest entry field.
#[verifier::loop_isolation(false)]
#[verifier::rlimit(90)]
pub fn w_entry(out: &mut Vec<u8>, e: &crate::manifest::Entry)
    ensures
        final(out)@ == old(out)@ + enc_entry(e@),
        enc_ok_entry(e@),
    decreases *e,
{
    match e {
        crate::manifest::Entry::Directory { name, contents } => {
            out.push(0u8);
            w_str(out, name.as_str());
            w_u64(out, contents.len() as u64);
            let ghost mid = out@;
            let ghost cv = crate::manifest::entries_view(contents@);
            proof {
                crate::manifest::lemma_entries_view_len(contents@);
                assert(enc_entry_items(cv.take(0)) =~= Seq::<u8>::empty());
                assert(out@ =~= mid + enc_entry_items(cv.take(0)));
            }
            let mut i: usize = 0;
            while i < contents.len()
                invariant
                    i <= contents@.len(),
                    out@ == mid + enc_entry_items(cv.take(i as int)),
                    forall|j: int| 0 <= j < i ==> enc_ok_entry(#[trigger] cv[j]),
                decreases contents@.len() - i,
            {
                proof {
                    crate::manifest::lemma_entries_view_index(contents@, i as int);
                }
                w_entry(out, &contents[i]);
                i = i + 1;
                proof {
                    lemma_enc_entry_items_push(cv.take(i - 1), cv[i - 1]);
                    assert(cv.take(i as int) =~= cv.take(i - 1).push(cv[i - 1]));
                    assert(out@ =~= mid + enc_entry_items(cv.take(i as int)));
                }
            }
            proof {
                assert(cv.take(cv.len() as int) =~= cv);
                assert(final(out)@ =~= old(out)@ + enc_entry(e@));
                lemma_pow256_8();
            }
        },
        crate::manifest::Entry::File { name, hash, size } => {
            out.push(1u8);
            w_str(out, name.as_str());
            w_u128(out, *hash);
            w_u64(out, *size as u64);
            proof {
                assert(final(out)@ =~= old(out)@ + enc_entry(e@));
            }
        },
        crate::manifest::Entry::Modrinth { project, version, files } => {
            out.push(2u8);
            w_str(out, project.as_str());
            w_str(out, version.as_str());
            w_vfs(out, files);
            proof {
                assert(final(out)@ =~= old(out)@ + enc_entry(e@));
            }
        },
        crate::manifest::Entry::FabricServerJar {
            minecraft_version,
            loader_version,
            installer_version,
        } => {
            out.push(3u8);
            w_str(out, minecraft_version.as_str());
            w_str(out, loader_version.as_str());
            w_str(out, installer_version.as_str());
            proof {
                assert(final(out)@ =~= old(out)@ + enc_entry(e@));
            }
        },
        crate::manifest::Entry::RunScript { name, script_type, options } => {
            out.push(4u8);
            w_str(out, name.as_str());
            match script_type {
                crate::manifest::ScriptType::Bash => out.push(0u8),
                crate::manifest::ScriptType::Batch => out.push(1u8),
                crate::manifest::ScriptType::Both => out.push(2u8),
            }
            w_options(out, options);
            proof {
                assert(final(out)@ =~= old(out)@ + enc_entry(e@));
            }
        },
        crate::manifest::Entry::Persist { name } => {
            out.push(5u8);
            w_str(out, name.as_str());
            proof {
                assert(final(out)@ =~= old(out)@ + enc_entry(e@));
            }
        },
    }
}

/// Reads one manifest entry field, advancing the position.
#[verifier::loop_isolation(false)]
#[verifier::rlimit(90)]
pub fn r_entry(bytes: &Vec<u8>, pos: usize) -> (r: Option<(crate::manifest::Entry, usize)>)
    ensures
        match r {
            Some(v) => dec_entry(bytes@, pos as int) == Some((v.0@, v.1 as int)) && pos < v.1
                && v.1 <= bytes@.len(),
            None => dec_entry(bytes@, pos as int) is None,
        },
    decreases bytes@.len() - pos,
{
    let (tag, p1) = match r_byte(bytes, pos) {
        Some(x) => x,
        None => { return None; },
    };
    if tag == 0 {
        let (name, p2) = match r_str(bytes, p1) {
            Some(x) => x,
            None => { return None; },
        };
        let (n, p3) = match r_u64(bytes, p2) {
            Some(x) => x,
            None => { return None; },
        };
        let mut out: Vec<crate::manifest::Entry> = Vec::new();
        let mut cur = p3;
        let mut k: u64 = 0;
        proof {
            assert(crate::manifest::entries_view(out@) =~= Seq::<
                crate::manifest::EntryV,
            >::empty());
        }
        while k < n
            invariant
                k <= n,
                pos < p3 <= cur <= bytes@.len(),
                ({
                    let done = crate::manifest::entries_view(out@);
                    match dec_entry_items(bytes@, cur as int, (n - k) as nat) {
                        Some(rest) => dec_entry_items(bytes@, p3 as int, n as nat) == Some(
                            (done + rest.0, rest.1),
                        ),
                        None => dec_entry_items(bytes@, p3 as int, n as nat) is None,
                    }
                }),
            decreases n - k,
        {
            let ghost done_pre = crate::manifest::entries_view(out@);
            let ghost outpre = out@;
            let (child, p4) = match r_entry(bytes, cur) {
                Some(x) => x,
                None => { return None; },
            };
            let ghost childe = child;
            out.push(child);
            proof {
                let got = dec_entry(bytes@, cur as int)->0;
                let ev = got.0;
                crate::manifest::lemma_entries_view_push(outpre, childe);
                assert(out@ == outpre.push(childe));
                assert(ev == childe@);
                assert(crate::manifest::entries_view(out@) =~= done_pre.push(ev));
                assert forall|rest0: Seq<crate::manifest::EntryV>, q: int|
                    dec_entry_items(bytes@, p4 as int, (n - k - 1) as nat) == Some::<
                        (Seq<crate::manifest::EntryV>, int),
                    >((rest0, q)) implies done_pre + (seq![ev] + rest0) =~= done_pre.push(ev)
                    + rest0 by {}
            }
            cur = p4;
            k = k + 1;
        }
        proof {
            assert(crate::manifest::entries_view(out@) + Seq::<
                crate::manifest::EntryV,
            >::empty() =~= crate::manifest::entries_view(out@));
        }
        Some(
            (
                crate::manifest::Entry::Directory { name, contents: out },
                cur,
            ),
        )
    } else if tag == 1 {
        let (name, p2) = match r_str(bytes, p1) {
            Some(x) => x,
            None => { return None; },
        };
        let (hash, p3) = match r_u128(bytes, p2) {
            Some(x) => x,
            None => { return None; },
        };
        let (size64, p4) = match r_u64(bytes, p3) {
            Some(x) => x,
            None => { return None; },
        };
        if size64 > usize::MAX as u64 {
            return None;
        }
        Some(
            (
                crate::manifest::Entry::File { name, hash, size: size64 as usize },
                p4,
            ),
        )
    } else if tag == 2 {
        let (project, p2) = match r_str(bytes, p1) {
            Some(x) => x,
            None => { return None; },
        };
        let (version, p3) = match r_str(bytes, p2) {
            Some(x) => x,
            None => { return None; },
        };
        let (files, p4) = match r_vfs(bytes, p3) {
            Some(x) => x,
            None => { return None; },
        };
        Some(
            (
                crate::manifest::Entry::Modrinth { project, version, files },
                p4,
            ),
        )
    } else if tag == 3 {
        let (mc, p2) = match r_str(bytes, p1) {
            Some(x) => x,
            None => { return None; },
        };
        let (loader, p3) = match r_str(bytes, p2) {
            Some(x) => x,
            None => { return None; },
        };
        let (installer, p4) = match r_str(bytes, p3) {
            Some(x) => x,
            None => { return None; },
        };
        Some(
            (
                crate::manifest::Entry::FabricServerJar {
                    minecraft_version: mc,
                    loader_version: loader,
                    installer_version: installer,
                },
                p4,
            ),
        )
    } else if tag == 4 {
        let (name, p2) = match r_str(bytes, p1) {
            Some(x) => x,
            None => { return None; },
        };
        let (st, p3) = match r_script(bytes, p2) {
            Some(x) => x,
            None => { return None; },
        };
        let (o, p4) = match r_options(bytes, p3) {
            Some(x) => x,
            None => { return None; },
        };
        Some(
            (
                crate::manifest::Entry::RunScript { name, script_type: st, options: o },
                p4,
            ),
        )
    } else if tag == 5 {
        let (name, p2) = match r_str(bytes, p1) {
            Some(x) => x,
            None => { return None; },
        };
        Some((crate::manifest::Entry::Persist { name }, p2))
    } else {
        None
    }
}

/// Serializes a compiled manifest.
pub fn encode_manifest(m: &crate::manifest::Manifest) -> (r: Vec<u8>)
    ensures
        r@ == enc_manifest(m@),
        enc_ok_manifest(m@),
{
    let mut out: Vec<u8> = Vec::new();
    w_project(&mut out, &m.project_info);
    w_u64(&mut out, m.contents.len() as u64);
    let ghost mid = out@;
    let ghost cv = crate::manifest::entries_view(m.contents@);
    proof {
        crate::manifest::lemma_entries_view_len(m.contents@);
        assert(enc_entry_items(cv.take(0)) =~= Seq::<u8>::empty());
        assert(out@ =~= mid + enc_entry_items(cv.take(0)));
    }
    let mut i: usize = 0;
    while i < m.contents.len()
        invariant
            i <= m.contents@.len(),
            cv == crate::manifest::entries_view(m.contents@),
            cv.len() == m.contents@.len(),
            out@ == mid + enc_entry_items(cv.take(i as int)),
            forall|j: int| 0 <= j < i ==> enc_ok_entry(#[trigger] cv[j]),
        decreases m.contents@.len() - i,
    {
        proof {
            crate::manifest::lemma_entries_view_index(m.contents@, i as int);
        }
        w_entry(&mut out, &m.contents[i]);
        i = i + 1;
        proof {
            lemma_enc_entry_items_push(cv.take(i - 1), cv[i - 1]);
            assert(cv.take(i as int) =~= cv.take(i - 1).push(cv[i - 1]));
            assert(out@ =~= mid + enc_entry_items(cv.take(i as int)));
        }
    }
    proof {
        assert(cv.take(cv.len() as int) =~= cv);
        assert(out@ =~= enc_manifest(m@));
        lemma_pow256_8();
    }
    out
}

/// Deserializes a compiled manifest; fails exactly where the format does
/// not decode.
pub fn decode_manifest(bytes: &Vec<u8>) -> (r: Option<crate::manifest::Manifest>)
    ensures
        match r {
            Some(m) => dec_manifest(bytes@) == Some(m@),
            None => dec_manifest(bytes@) is None,
        },
{
    let (p, p1) = match r_project(bytes, 0) {
        Some(x) => x,
        None => { return None; },
    };
    let (n, p2) = match r_u64(bytes, p1) {
        Some(x) => x,
        None => { return None; },
    };
    let mut out: Vec<crate::manifest::Entry> = Vec::new();
    let mut cur = p2;
    let mut k: u64 = 0;
    proof {
        assert(crate::manifest::entries_view(out@) =~= Seq::<crate::manifest::EntryV>::empty());
    }
    while k < n
        invariant
            k <= n,
            cur <= bytes@.len(),
            p2 <= cur,
            dec_project(bytes@, 0) == Some((p@, p1 as int)),
            dec_u64(bytes@, p1 as int) == Some(((n as nat), p2 as int)),
            ({
                let done = crate::manifest::entries_view(out@);
                match dec_entry_items(bytes@, cur as int, (n - k) as nat) {
                    Some(rest) => dec_entry_items(bytes@, p2 as int, n as nat) == Some(
                        (done + rest.0, rest.1),
                    ),
                    None => dec_entry_items(bytes@, p2 as int, n as nat) is None,
                }
            }),
        decreases n - k,
    {
        let ghost done_pre = crate::manifest::entries_view(out@);
        let ghost outpre = out@;
        let (child, p4) = match r_entry(bytes, cur) {
            Some(x) => x,
            None => { return None; },
        };
        let ghost childe = child;
        out.push(child);
        proof {
            let got = dec_entry(bytes@, cur as int)->0;
            let ev = got.0;
            crate::manifest::lemma_entries_view_push(outpre, childe);
            assert(out@ == outpre.push(childe));
            assert(ev == childe@);
            assert(crate::manifest::entries_view(out@) =~= done_pre.push(ev));
            assert forall|rest0: Seq<crate::manifest::EntryV>, q: int|
                dec_entry_items(bytes@, p4 as int, (n - k - 1) as nat) == Some::<
                    (Seq<crate::manifest::EntryV>, int),
                >((rest0, q)) implies done_pre + (seq![ev] + rest0) =~= done_pre.push(ev)
                + rest0 by {}
        }
        cur = p4;
        k = k + 1;
    }
    proof {
        assert(crate::manifest::entries_view(out@) + Seq::<crate::manifest::EntryV>::empty()
            =~= crate::manifest::entries_view(out@));
    }
    if cur != bytes.len() {
        return None;
    }
    Some(crate::manifest::Manifest { project_info: p, contents: out })
}

} // verus!
