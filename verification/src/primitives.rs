//! Primitive encodings shared by calls and storage keys: little-endian
//! integers of a fixed width, compact integers, and length-prefixed bytes.

use vstd::prelude::*;
use vstd::slice::{slice_subrange, slice_to_vec};
use crate::error::DecodeError;

verus! {

/// The `n` low-order bytes of `v`, least significant first.
pub open spec fn le_bytes(v: nat, n: nat) -> Seq<u8>
    decreases n,
{
    if n == 0 {
        Seq::empty()
    } else {
        seq![(v % 256) as u8] + le_bytes(v / 256, (n - 1) as nat)
    }
}

/// The number that `s` spells when read least significant byte first.
pub open spec fn le_value(s: Seq<u8>) -> nat
    decreases s.len(),
{
    if s.len() == 0 {
        0
    } else {
        s[0] as nat + 256 * le_value(s.skip(1))
    }
}

/// The least number of bytes that can hold `v`: zero for zero.
pub open spec fn byte_width(v: nat) -> nat
    decreases v,
{
    if v == 0 {
        0
    } else {
        1 + byte_width(v / 256)
    }
}

/// `le_bytes` always yields the number of bytes asked for.
pub proof fn lemma_le_bytes_len(v: nat, n: nat)
    ensures
        le_bytes(v, n).len() == n,
    decreases n,
{
    if n > 0 {
        lemma_le_bytes_len(v / 256, (n - 1) as nat);
    }
}

/// Reading back `n` bytes of `v` gives `v` whenever `n` bytes can hold it.
pub proof fn lemma_le_value_of_bytes(v: nat, n: nat)
    requires
        byte_width(v) <= n,
    ensures
        le_value(le_bytes(v, n)) == v,
    decreases n,
{
    if n == 0 {
        assert(v == 0);
    } else {
        let rest = le_bytes(v / 256, (n - 1) as nat);
        let all = le_bytes(v, n);
        lemma_le_bytes_len(v / 256, (n - 1) as nat);
        assert(all.skip(1) =~= rest);
        if v > 0 {
            lemma_le_value_of_bytes(v / 256, (n - 1) as nat);
        } else {
            assert(byte_width(0) == 0);
            lemma_le_value_of_bytes(0, (n - 1) as nat);
        }
        assert(all[0] == (v % 256) as u8);
    }
}

/// Writing out the number that `s` spells, at the length of `s`, gives `s`.
pub proof fn lemma_le_bytes_of_value(s: Seq<u8>)
    ensures
        le_bytes(le_value(s), s.len()) == s,
    decreases s.len(),
{
    if s.len() > 0 {
        let tail = s.skip(1);
        lemma_le_bytes_of_value(tail);
        let v = le_value(s);
        assert(v % 256 == s[0] as nat);
        assert(v / 256 == le_value(tail));
        assert(le_bytes(v, s.len()) =~= s);
    } else {
        assert(le_bytes(le_value(s), s.len()) =~= s);
    }
}

/// The number that `s` spells fits in as many bytes as `s` has.
pub proof fn lemma_le_value_width(s: Seq<u8>)
    ensures
        byte_width(le_value(s)) <= s.len(),
    decreases s.len(),
{
    if s.len() > 0 {
        let tail = s.skip(1);
        lemma_le_value_width(tail);
        let v = le_value(s);
        assert(v / 256 == le_value(tail));
    }
}

/// Appends the `width` low-order bytes of `v`, least significant first.
pub fn encode_fixed(v: u64, width: usize, out: &mut Vec<u8>)
    ensures
        final(out)@ == old(out)@ + le_bytes(v as nat, width as nat),
{
    let ghost start = out@;
    let mut rest: u64 = v;
    let mut i: usize = 0;
    while i < width
        invariant
            i <= width,
            start + le_bytes(v as nat, width as nat) == out@ + le_bytes(
                rest as nat,
                (width - i) as nat,
            ),
        decreases width - i,
    {
        let ghost before = out@;
        let ghost tail = le_bytes((rest / 256) as nat, (width - i - 1) as nat);
        let low: u8 = (rest % 256) as u8;
        out.push(low);
        assert(before + (seq![low] + tail) =~= out@ + tail);
        rest = rest / 256;
        i += 1;
    }
}

/// The largest number that `k` bytes can hold, plus one, for `k` up to eight.
pub open spec fn capacity(k: nat) -> nat {
    if k == 0 {
        1
    } else if k == 1 {
        0x100
    } else if k == 2 {
        0x1_0000
    } else if k == 3 {
        0x100_0000
    } else if k == 4 {
        0x1_0000_0000
    } else if k == 5 {
        0x100_0000_0000
    } else if k == 6 {
        0x1_0000_0000_0000
    } else if k == 7 {
        0x100_0000_0000_0000
    } else {
        0x1_0000_0000_0000_0000
    }
}

/// Reads the first `width` bytes of `input` as a little-endian number.
///
/// Fails with `Truncated`, and only then, when `input` is shorter than
/// `width`.
pub fn decode_fixed(input: &[u8], width: usize) -> (r: Result<u64, DecodeError>)
    requires
        width <= 8,
    ensures
        match r {
            Ok(v) => width <= input.len() && v == le_value(input@.take(width as int)),
            Err(e) => e == DecodeError::Truncated && input.len() < width,
        },
{
    if input.len() < width {
        return Err(DecodeError::Truncated);
    }
    let ghost field = input@.take(width as int);
    let mut acc: u64 = 0;
    let mut i: usize = width;
    while i > 0
        invariant
            i <= width <= 8,
            width <= input.len(),
            field == input@.take(width as int),
            acc == le_value(field.skip(i as int)),
            acc < capacity((width - i) as nat),
        decreases i,
    {
        i -= 1;
        let b: u8 = input[i];
        assert(field.skip(i as int)[0] == b);
        assert(field.skip(i as int).skip(1) =~= field.skip(i + 1));
        acc = acc * 256 + b as u64;
    }
    assert(field.skip(0) =~= field);
    Ok(acc)
}

/// The least number of bytes that can hold `v`.
pub fn width_of(v: u64) -> (n: usize)
    ensures
        n == byte_width(v as nat),
        n <= 8,
{
    let mut rest: u64 = v;
    let mut n: usize = 0;
    while rest > 0
        invariant
            n + byte_width(rest as nat) == byte_width(v as nat),
            rest < capacity((8 - n) as nat),
            n <= 8,
        decreases rest,
    {
        rest = rest / 256;
        n += 1;
    }
    n
}

/// `k` bytes can hold `v` exactly when `v` is below `capacity(k)`.
pub proof fn lemma_width_capacity(v: nat, k: nat)
    requires
        k <= 8,
    ensures
        byte_width(v) <= k <==> v < capacity(k),
    decreases k,
{
    if k > 0 && v > 0 {
        lemma_width_capacity(v / 256, (k - 1) as nat);
        assert(capacity(k) == 256 * capacity((k - 1) as nat));
    }
}

/// The compact encoding of `v`.
///
/// The two low bits of the first byte select the form. Values below 2^6,
/// 2^14 and 2^30 are shifted left by two bits, tagged 0, 1 or 2, and written
/// in one, two or four bytes. Larger values are written in as few bytes as
/// hold them, after a first byte that carries that count less four, shifted
/// left by two bits, and the tag 3.
pub open spec fn compact(v: nat) -> Seq<u8> {
    if v < 0x40 {
        le_bytes(4 * v, 1)
    } else if v < 0x4000 {
        le_bytes(4 * v + 1, 2)
    } else if v < 0x4000_0000 {
        le_bytes(4 * v + 2, 4)
    } else {
        seq![(4 * (byte_width(v) - 4) + 3) as u8] + le_bytes(v, byte_width(v))
    }
}

/// The length of the compact encoding of `v`.
pub open spec fn compact_len(v: nat) -> nat {
    if v < 0x40 {
        1
    } else if v < 0x4000 {
        2
    } else if v < 0x4000_0000 {
        4
    } else {
        byte_width(v) + 1
    }
}

/// The length of the compact integer that starts with the byte `first`.
pub open spec fn compact_span(first: u8) -> nat {
    if first % 4 == 0 {
        1
    } else if first % 4 == 1 {
        2
    } else if first % 4 == 2 {
        4
    } else {
        (first / 4) as nat + 5
    }
}

/// What a strict reader makes of a compact integer of at most `width`
/// payload bytes at the start of `s`: the value and the number of bytes it
/// occupies, or the reason for rejecting it.
///
/// A first byte that announces more than `width` payload bytes is rejected
/// before anything else is read. The bytes read are accepted only if they are
/// the compact encoding of the value they spell.
pub open spec fn parse_compact(s: Seq<u8>, width: nat) -> Result<(nat, nat), DecodeError> {
    if s.len() == 0 {
        Err(DecodeError::Truncated)
    } else {
        let n = compact_span(s[0]);
        if s[0] % 4 == 3 && n > width + 1 {
            Err(DecodeError::NonCanonicalCompact)
        } else if s.len() < n {
            Err(DecodeError::Truncated)
        } else {
            let v = if s[0] % 4 == 3 {
                le_value(s.subrange(1, n as int))
            } else {
                le_value(s.take(n as int)) / 4
            };
            if compact(v) == s.take(n as int) {
                Ok((v, n))
            } else {
                Err(DecodeError::NonCanonicalCompact)
            }
        }
    }
}

/// The compact encoding of `v` has `compact_len(v)` bytes.
pub proof fn lemma_compact_len(v: nat)
    ensures
        compact(v).len() == compact_len(v),
        1 <= compact_len(v),
{
    lemma_le_bytes_len(4 * v, 1);
    lemma_le_bytes_len(4 * v + 1, 2);
    lemma_le_bytes_len(4 * v + 2, 4);
    lemma_le_bytes_len(v, byte_width(v));
}

/// A strict reader that finds the compact encoding of `v` at the start of its
/// input reads `v` and stops right behind it, whatever follows.
pub proof fn lemma_parse_compact_of_encoding(v: nat, rest: Seq<u8>, width: nat)
    requires
        width == 4 || width == 8,
        byte_width(v) <= width,
    ensures
        parse_compact(compact(v) + rest, width) == Ok::<(nat, nat), DecodeError>(
            (v, compact_len(v)),
        ),
{
    let c = compact(v);
    let s = c + rest;
    lemma_compact_len(v);
    let n = compact_len(v);
    assert(s.take(n as int) =~= c);
    assert(s[0] == c[0]);
    if v < 0x40 {
        lemma_width_capacity(4 * v, 1);
        lemma_le_value_of_bytes(4 * v, 1);
    } else if v < 0x4000 {
        lemma_width_capacity(4 * v + 1, 2);
        lemma_le_value_of_bytes(4 * v + 1, 2);
    } else if v < 0x4000_0000 {
        lemma_width_capacity(4 * v + 2, 4);
        lemma_le_value_of_bytes(4 * v + 2, 4);
    } else {
        let w = byte_width(v);
        lemma_width_capacity(v, 3);
        lemma_le_value_of_bytes(v, w);
        assert(c[0] == (4 * (w - 4) + 3) as u8);
        assert(s.subrange(1, n as int) =~= le_bytes(v, w));
    }
}

/// Whatever a strict reader accepts is the compact encoding of the value it
/// reads, and fits the width it was asked for.
pub proof fn lemma_parse_compact_canonical(s: Seq<u8>, width: nat)
    requires
        width == 4 || width == 8,
    ensures
        match parse_compact(s, width) {
            Ok((v, n)) => n <= s.len() && s.take(n as int) == compact(v) && n == compact_len(v)
                && byte_width(v) <= width,
            Err(_) => true,
        },
{
    if let Ok((v, n)) = parse_compact(s, width) {
        lemma_compact_len(v);
        if s[0] % 4 == 3 {
            lemma_le_value_width(s.subrange(1, n as int));
        } else {
            lemma_le_value_width(s.take(n as int));
            lemma_width_capacity(le_value(s.take(n as int)), n);
            lemma_width_capacity(v, 4);
        }
    }
}

/// Appends the compact encoding of `v`.
pub fn encode_compact(v: u64, out: &mut Vec<u8>)
    ensures
        final(out)@ == old(out)@ + compact(v as nat),
{
    if v < 0x40 {
        encode_fixed(4 * v, 1, out);
    } else if v < 0x4000 {
        encode_fixed(4 * v + 1, 2, out);
    } else if v < 0x4000_0000 {
        encode_fixed(4 * v + 2, 4, out);
    } else {
        let n: usize = width_of(v);
        proof {
            lemma_width_capacity(v as nat, 3);
        }
        let ghost before = out@;
        let first: u8 = (4 * (n - 4) + 3) as u8;
        out.push(first);
        encode_fixed(v, n, out);
        assert(before.push(first) + le_bytes(v as nat, n as nat) =~= before + (seq![first]
            + le_bytes(v as nat, n as nat)));
    }
}

/// When the first byte announces one of the three short forms, the bytes of
/// that form are a compact encoding exactly when the value they spell is too
/// large for the next shorter form.
proof fn lemma_short_form(s: Seq<u8>)
    requires
        s.len() > 0,
        s[0] % 4 != 3,
        s.len() >= compact_span(s[0]),
    ensures
        ({
            let n = compact_span(s[0]);
            let v = le_value(s.take(n as int)) / 4;
            &&& v < 0x4000_0000
            &&& compact(v) == s.take(n as int) <==> (n == 1 || (n == 2 && v >= 0x40) || (n == 4
                && v >= 0x4000))
        }),
{
    let n = compact_span(s[0]);
    let field = s.take(n as int);
    let x = le_value(field);
    let v = x / 4;
    lemma_le_bytes_of_value(field);
    lemma_le_value_width(field);
    lemma_width_capacity(x, n);
    lemma_compact_len(v);
    assert(field[0] == s[0]);
    assert(x % 256 == s[0] as nat);
    assert(x % 4 == (s[0] % 4) as nat);
    if n == 1 {
        assert(4 * v == x);
    } else if n == 2 {
        assert(4 * v + 1 == x);
    } else {
        assert(4 * v + 2 == x);
    }
}

/// When the first byte announces the long form with `n` payload bytes, the
/// bytes of that form are a compact encoding exactly when the value they
/// spell needs all `n` bytes and is too large for the short forms.
proof fn lemma_long_form(s: Seq<u8>, n: nat)
    requires
        s.len() > n,
        s[0] % 4 == 3,
        n == s[0] / 4 + 4,
        n <= 8,
    ensures
        ({
            let v = le_value(s.subrange(1, (n + 1) as int));
            compact(v) == s.take((n + 1) as int) <==> (v >= 0x4000_0000 && byte_width(v) == n)
        }),
{
    let field = s.subrange(1, (n + 1) as int);
    let v = le_value(field);
    lemma_le_bytes_of_value(field);
    lemma_compact_len(v);
    assert(s.take((n + 1) as int) =~= seq![s[0]] + field);
    if v >= 0x4000_0000 && byte_width(v) == n {
        assert((4 * (n - 4) + 3) as u8 == s[0]);
    }
}

/// Reads a compact integer of at most `width` payload bytes from the start of
/// `input`, and says how many bytes it occupies.
fn decode_compact(input: &[u8], width: usize) -> (r: Result<(u64, usize), DecodeError>)
    requires
        width == 4 || width == 8,
    ensures
        match r {
            Ok((v, n)) => parse_compact(input@, width as nat) == Ok::<(nat, nat), DecodeError>(
                (v as nat, n as nat),
            ),
            Err(e) => parse_compact(input@, width as nat) == Err::<(nat, nat), DecodeError>(e),
        },
{
    if input.len() == 0 {
        return Err(DecodeError::Truncated);
    }
    let first: u8 = input[0];
    let mode: u8 = first % 4;
    if mode == 3 {
        let n: usize = (first / 4) as usize + 4;
        if n > width {
            return Err(DecodeError::NonCanonicalCompact);
        }
        let payload = slice_subrange(input, 1, input.len());
        match decode_fixed(payload, n) {
            Err(e) => Err(e),
            Ok(v) => {
                proof {
                    assert(payload@.take(n as int) =~= input@.subrange(1, n + 1));
                    lemma_long_form(input@, n as nat);
                }
                if v >= 0x4000_0000 && width_of(v) == n {
                    Ok((v, n + 1))
                } else {
                    Err(DecodeError::NonCanonicalCompact)
                }
            },
        }
    } else {
        let n: usize = if mode == 0 {
            1
        } else if mode == 1 {
            2
        } else {
            4
        };
        match decode_fixed(input, n) {
            Err(e) => Err(e),
            Ok(x) => {
                proof {
                    lemma_short_form(input@);
                }
                let v: u64 = x / 4;
                if n == 1 || (n == 2 && v >= 0x40) || (n == 4 && v >= 0x4000) {
                    Ok((v, n))
                } else {
                    Err(DecodeError::NonCanonicalCompact)
                }
            },
        }
    }
}

/// Reads a compact 64-bit integer from the start of `input`, and says how many
/// bytes it occupies.
pub fn decode_compact_u64(input: &[u8]) -> (r: Result<(u64, usize), DecodeError>)
    ensures
        match r {
            Ok((v, n)) => parse_compact(input@, 8) == Ok::<(nat, nat), DecodeError>(
                (v as nat, n as nat),
            ),
            Err(e) => parse_compact(input@, 8) == Err::<(nat, nat), DecodeError>(e),
        },
{
    decode_compact(input, 8)
}

/// Reads a compact 32-bit integer from the start of `input`, and says how many
/// bytes it occupies.
pub fn decode_compact_u32(input: &[u8]) -> (r: Result<(u32, usize), DecodeError>)
    ensures
        match r {
            Ok((v, n)) => parse_compact(input@, 4) == Ok::<(nat, nat), DecodeError>(
                (v as nat, n as nat),
            ),
            Err(e) => parse_compact(input@, 4) == Err::<(nat, nat), DecodeError>(e),
        },
{
    match decode_compact(input, 4) {
        Err(e) => Err(e),
        Ok((v, n)) => {
            proof {
                lemma_parse_compact_canonical(input@, 4);
                lemma_width_capacity(v as nat, 4);
            }
            Ok((v as u32, n))
        },
    }
}

/// The encoding of a byte string: its length as a compact integer, then the
/// bytes themselves.
pub open spec fn prefixed(b: Seq<u8>) -> Seq<u8> {
    compact(b.len()) + b
}

/// What a strict reader makes of a length-prefixed byte string at the start
/// of `s`: the bytes and the space they and their prefix occupy, or the reason
/// for rejecting them.
pub open spec fn parse_prefixed(s: Seq<u8>) -> Result<(Seq<u8>, nat), DecodeError> {
    match parse_compact(s, 4) {
        Err(e) => Err(e),
        Ok((len, n)) => if s.len() - n < len {
            Err(DecodeError::LengthOverrun)
        } else {
            Ok((s.subrange(n as int, (n + len) as int), n + len))
        },
    }
}

/// A strict reader that finds the encoding of `b` at the start of its input
/// reads `b` and stops right behind it, whatever follows.
pub proof fn lemma_parse_prefixed_of_encoding(b: Seq<u8>, rest: Seq<u8>)
    requires
        b.len() <= u32::MAX,
    ensures
        parse_prefixed(prefixed(b) + rest) == Ok::<(Seq<u8>, nat), DecodeError>(
            (b, prefixed(b).len()),
        ),
{
    let s = prefixed(b) + rest;
    let n = compact_len(b.len());
    lemma_compact_len(b.len());
    lemma_width_capacity(b.len(), 4);
    lemma_parse_compact_of_encoding(b.len(), b + rest, 4);
    assert(s =~= compact(b.len()) + (b + rest));
    assert(s.subrange(n as int, (n + b.len()) as int) =~= b);
}

/// Whatever a strict reader accepts as a byte string is the encoding of the
/// bytes it reads, and those are few enough for their length to be encoded.
pub proof fn lemma_parse_prefixed_canonical(s: Seq<u8>)
    ensures
        match parse_prefixed(s) {
            Ok((b, n)) => n <= s.len() && s.take(n as int) == prefixed(b) && n == prefixed(b).len()
                && b.len() <= u32::MAX,
            Err(_) => true,
        },
{
    if let Ok((b, n)) = parse_prefixed(s) {
        lemma_parse_compact_canonical(s, 4);
        let m = parse_compact(s, 4)->Ok_0.1;
        lemma_width_capacity(b.len(), 4);
        assert(s.take(n as int) =~= s.take(m as int) + b);
    }
}

/// Appends `bytes` as they are.
pub fn append(bytes: &[u8], out: &mut Vec<u8>)
    ensures
        final(out)@ == old(out)@ + bytes@,
{
    let ghost start = out@;
    let mut i: usize = 0;
    while i < bytes.len()
        invariant
            i <= bytes.len(),
            out@ == start + bytes@.take(i as int),
        decreases bytes.len() - i,
    {
        out.push(bytes[i]);
        i += 1;
    }
    assert(bytes@.take(bytes.len() as int) =~= bytes@);
}

/// Appends the encoding of the byte string `bytes`.
///
/// The length prefix is a 32-bit quantity, so longer strings have no
/// encoding.
pub fn encode_bytes(bytes: &[u8], out: &mut Vec<u8>)
    requires
        bytes.len() <= u32::MAX,
    ensures
        final(out)@ == old(out)@ + prefixed(bytes@),
{
    let ghost start = out@;
    encode_compact(bytes.len() as u64, out);
    append(bytes, out);
    assert(out@ =~= start + prefixed(bytes@));
}

/// Reads a length-prefixed byte string from the start of `input`, and says
/// how many bytes it and its prefix occupy.
pub fn decode_bytes(input: &[u8]) -> (r: Result<(Vec<u8>, usize), DecodeError>)
    ensures
        match r {
            Ok((b, n)) => parse_prefixed(input@) == Ok::<(Seq<u8>, nat), DecodeError>(
                (b@, n as nat),
            ),
            Err(e) => parse_prefixed(input@) == Err::<(Seq<u8>, nat), DecodeError>(e),
        },
{
    match decode_compact_u32(input) {
        Err(e) => Err(e),
        Ok((len, n)) => {
            proof {
                lemma_parse_compact_canonical(input@, 4);
            }
            let len: usize = len as usize;
            if input.len() - n < len {
                Err(DecodeError::LengthOverrun)
            } else {
                let body = slice_subrange(input, n, n + len);
                Ok((slice_to_vec(body), n + len))
            }
        },
    }
}

/// A rejection for want of input: one that more input might lift.
pub open spec fn ran_short<T>(r: Result<T, DecodeError>) -> bool {
    r matches Err(e) && (e == DecodeError::Truncated || e == DecodeError::LengthOverrun)
}

/// Cutting the input behind a compact integer leaves the reading unchanged;
/// cutting it inside the integer makes the reader run short.
pub proof fn lemma_parse_compact_cut(s: Seq<u8>, width: nat, k: int)
    requires
        parse_compact(s, width) is Ok,
        0 <= k <= s.len(),
    ensures
        k >= parse_compact(s, width)->Ok_0.1 ==> parse_compact(s.take(k), width) == parse_compact(
            s,
            width,
        ),
        k < parse_compact(s, width)->Ok_0.1 ==> parse_compact(s.take(k), width) == Err::<
            (nat, nat),
            DecodeError,
        >(DecodeError::Truncated),
{
    let n = parse_compact(s, width)->Ok_0.1;
    let t = s.take(k);
    if k >= n {
        assert(t.take(n as int) =~= s.take(n as int));
        assert(t.subrange(1, n as int) =~= s.subrange(1, n as int));
    }
}

/// Cutting the input behind a byte string leaves the reading unchanged;
/// cutting it inside the string or its prefix makes the reader run short.
pub proof fn lemma_parse_prefixed_cut(s: Seq<u8>, k: int)
    requires
        parse_prefixed(s) is Ok,
        0 <= k <= s.len(),
    ensures
        k >= parse_prefixed(s)->Ok_0.1 ==> parse_prefixed(s.take(k)) == parse_prefixed(s),
        k < parse_prefixed(s)->Ok_0.1 ==> ran_short(parse_prefixed(s.take(k))),
{
    let (len, m) = parse_compact(s, 4)->Ok_0;
    let n = parse_prefixed(s)->Ok_0.1;
    let t = s.take(k);
    lemma_parse_compact_cut(s, 4, k);
    if k >= n {
        assert(t.subrange(m as int, (m + len) as int) =~= s.subrange(m as int, (m + len) as int));
    }
}

/// The part of `input` from position `at` on.
pub(crate) fn tail(input: &[u8], at: usize) -> (r: &[u8])
    requires
        at <= input.len(),
    ensures
        r@ == input@.skip(at as int),
{
    let r = slice_subrange(input, at, input.len());
    assert(r@ =~= input@.skip(at as int));
    r
}

} // verus!
