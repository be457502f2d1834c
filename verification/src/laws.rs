//! What holds of the wire format as a whole: decoding undoes encoding, accepts
//! nothing but encodings, and rejects unknown tags, cut input and input with
//! bytes left over.

use vstd::prelude::*;
use crate::calls::{
    decoding, parse_call, parse_xassets, parse_xcontracts, CallView, XAssetsView, XContractsView,
    CONVERT_TO_ASSET_CALL, TRANSFER_CALL, XASSETS_MODULE, XCONTRACTS_MODULE,
};
use crate::error::DecodeError;
use crate::primitives::{
    compact, compact_len, lemma_compact_len, lemma_parse_compact_canonical,
    lemma_parse_compact_cut, lemma_parse_compact_of_encoding, lemma_parse_prefixed_canonical,
    lemma_parse_prefixed_cut, lemma_parse_prefixed_of_encoding, lemma_width_capacity,
    parse_compact, parse_prefixed, prefixed, ran_short,
};

verus! {

/// Dropping `j` bytes from the first `k` is taking `k - j` after dropping `j`.
proof fn lemma_take_skip(s: Seq<u8>, k: int, j: int)
    requires
        0 <= j <= k <= s.len(),
    ensures
        s.take(k).skip(j) == s.skip(j).take(k - j),
{
    assert(s.take(k).skip(j) =~= s.skip(j).take(k - j));
}

/// A reader that finds the encoding of an assets call at the start of its
/// input reads that call and stops right behind it, whatever follows.
pub proof fn lemma_parse_xassets_of_encoding(x: XAssetsView, rest: Seq<u8>)
    requires
        x.wf(),
    ensures
        parse_xassets(x.encoding() + rest) == Ok::<(XAssetsView, nat), DecodeError>(
            (x, x.encoding().len()),
        ),
{
    let XAssetsView::Transfer { dest, token, value, memo } = x;
    let s = x.encoding() + rest;
    let n2 = prefixed(token).len() as int;
    let n3 = compact_len(value) as int;
    let n4 = prefixed(memo).len() as int;
    lemma_compact_len(value);
    lemma_width_capacity(value, 8);
    assert(s[0] == TRANSFER_CALL);
    assert(s.skip(1).take(32) =~= dest);
    assert(s.skip(33) =~= prefixed(token) + (compact(value) + prefixed(memo) + rest));
    lemma_parse_prefixed_of_encoding(token, compact(value) + prefixed(memo) + rest);
    assert(s.skip(33 + n2) =~= compact(value) + (prefixed(memo) + rest));
    lemma_parse_compact_of_encoding(value, prefixed(memo) + rest, 8);
    assert(s.skip(33 + n2 + n3) =~= prefixed(memo) + rest);
    lemma_parse_prefixed_of_encoding(memo, rest);
    assert(x.encoding().len() == 33 + n2 + n3 + n4);
}

/// A reader that finds the encoding of a contracts call at the start of its
/// input reads that call and stops right behind it, whatever follows.
pub proof fn lemma_parse_xcontracts_of_encoding(x: XContractsView, rest: Seq<u8>)
    requires
        x.wf(),
    ensures
        parse_xcontracts(x.encoding() + rest) == Ok::<(XContractsView, nat), DecodeError>(
            (x, x.encoding().len()),
        ),
{
    let XContractsView::ConvertToAsset { to, value } = x;
    let s = x.encoding() + rest;
    lemma_compact_len(value);
    lemma_width_capacity(value, 8);
    assert(s[0] == CONVERT_TO_ASSET_CALL);
    assert(s.skip(1).take(32) =~= to);
    assert(s.skip(33) =~= compact(value) + rest);
    lemma_parse_compact_of_encoding(value, rest, 8);
}

/// A reader that finds the encoding of a call at the start of its input reads
/// that call and stops right behind it, whatever follows.
pub proof fn lemma_parse_call_of_encoding(c: CallView, rest: Seq<u8>)
    requires
        c.wf(),
    ensures
        parse_call(c.encoding() + rest) == Ok::<(CallView, nat), DecodeError>(
            (c, c.encoding().len()),
        ),
{
    let s = c.encoding() + rest;
    match c {
        CallView::XAssets(x) => {
            assert(s[0] == XASSETS_MODULE);
            assert(s.skip(1) =~= x.encoding() + rest);
            lemma_parse_xassets_of_encoding(x, rest);
        },
        CallView::XContracts(x) => {
            assert(s[0] == XCONTRACTS_MODULE);
            assert(s.skip(1) =~= x.encoding() + rest);
            lemma_parse_xcontracts_of_encoding(x, rest);
        },
    }
}

/// Decoding undoes encoding: the encoding of a call decodes to that call.
pub proof fn lemma_round_trip(c: CallView)
    requires
        c.wf(),
    ensures
        decoding(c.encoding()) == Ok::<CallView, DecodeError>(c),
{
    lemma_parse_call_of_encoding(c, Seq::empty());
    assert(c.encoding() + Seq::<u8>::empty() =~= c.encoding());
}

/// An encoding followed by anything at all is rejected for its trailing
/// bytes.
pub proof fn lemma_trailing_bytes_rejected(c: CallView, rest: Seq<u8>)
    requires
        c.wf(),
        rest.len() > 0,
    ensures
        decoding(c.encoding() + rest) == Err::<CallView, DecodeError>(DecodeError::TrailingBytes),
{
    lemma_parse_call_of_encoding(c, rest);
}

/// What a reader accepts as an assets call is the encoding of the call it
/// reads.
pub proof fn lemma_parse_xassets_canonical(s: Seq<u8>)
    ensures
        match parse_xassets(s) {
            Ok((x, n)) => x.wf() && n <= s.len() && s.take(n as int) == x.encoding(),
            Err(_) => true,
        },
{
    if let Ok((x, n)) = parse_xassets(s) {
        let XAssetsView::Transfer { dest, token, value, memo } = x;
        let n2 = parse_prefixed(s.skip(33))->Ok_0.1 as int;
        let n3 = parse_compact(s.skip(33 + n2), 8)->Ok_0.1 as int;
        let n4 = parse_prefixed(s.skip(33 + n2 + n3))->Ok_0.1 as int;
        lemma_parse_prefixed_canonical(s.skip(33));
        lemma_parse_compact_canonical(s.skip(33 + n2), 8);
        lemma_parse_prefixed_canonical(s.skip(33 + n2 + n3));
        lemma_width_capacity(value, 8);
        assert(s.take(n as int) =~= seq![TRANSFER_CALL] + s.skip(1).take(32) + s.skip(33).take(
            n2 as int,
        ) + s.skip(33 + n2).take(n3 as int) + s.skip(33 + n2 + n3).take(n4 as int));
    }
}

/// What a reader accepts as a contracts call is the encoding of the call it
/// reads.
pub proof fn lemma_parse_xcontracts_canonical(s: Seq<u8>)
    ensures
        match parse_xcontracts(s) {
            Ok((x, n)) => x.wf() && n <= s.len() && s.take(n as int) == x.encoding(),
            Err(_) => true,
        },
{
    if let Ok((x, n)) = parse_xcontracts(s) {
        let XContractsView::ConvertToAsset { to, value } = x;
        let n2 = parse_compact(s.skip(33), 8)->Ok_0.1 as int;
        lemma_parse_compact_canonical(s.skip(33), 8);
        lemma_width_capacity(value, 8);
        assert(s.take(n as int) =~= seq![CONVERT_TO_ASSET_CALL] + s.skip(1).take(32) + s.skip(
            33,
        ).take(n2 as int));
    }
}

/// Decoding accepts nothing but encodings: whatever decodes to a call is the
/// encoding of that call, byte for byte.
pub proof fn lemma_decoding_canonical(s: Seq<u8>)
    ensures
        match decoding(s) {
            Ok(c) => c.wf() && s == c.encoding(),
            Err(_) => true,
        },
{
    if let Ok(c) = decoding(s) {
        assert(s.take(s.len() as int) =~= s);
        match c {
            CallView::XAssets(x) => {
                lemma_parse_xassets_canonical(s.skip(1));
                assert(s =~= seq![XASSETS_MODULE] + s.skip(1).take(s.len() - 1));
            },
            CallView::XContracts(x) => {
                lemma_parse_xcontracts_canonical(s.skip(1));
                assert(s =~= seq![XCONTRACTS_MODULE] + s.skip(1).take(s.len() - 1));
            },
        }
    }
}

/// Decoding succeeds on exactly the encodings of calls.
pub proof fn lemma_decodable_iff_encoding(s: Seq<u8>)
    ensures
        decoding(s) is Ok <==> exists|c: CallView| c.wf() && s == #[trigger] c.encoding(),
{
    if decoding(s) is Ok {
        lemma_decoding_canonical(s);
        let c = decoding(s)->Ok_0;
        assert(c.wf() && s == c.encoding());
    }
    if exists|c: CallView| c.wf() && s == #[trigger] c.encoding() {
        let c = choose|c: CallView| c.wf() && s == #[trigger] c.encoding();
        lemma_round_trip(c);
    }
}

/// Two different calls never share an encoding.
pub proof fn lemma_encoding_injective(a: CallView, b: CallView)
    requires
        a.wf(),
        b.wf(),
        a.encoding() == b.encoding(),
    ensures
        a == b,
{
    lemma_round_trip(a);
    lemma_round_trip(b);
}

/// A first byte that is no module's tag is rejected as such, whatever
/// follows it.
pub proof fn lemma_unknown_module_rejected(s: Seq<u8>)
    requires
        s.len() > 0,
        s[0] != XASSETS_MODULE,
        s[0] != XCONTRACTS_MODULE,
    ensures
        decoding(s) == Err::<CallView, DecodeError>(DecodeError::UnknownModule),
{
}

/// A second byte that is no call's tag in the module named by the first is
/// rejected as such, whatever follows it.
pub proof fn lemma_unknown_call_rejected(s: Seq<u8>)
    requires
        s.len() > 1,
        (s[0] == XASSETS_MODULE && s[1] != TRANSFER_CALL) || (s[0] == XCONTRACTS_MODULE && s[1]
            != CONVERT_TO_ASSET_CALL),
    ensures
        decoding(s) == Err::<CallView, DecodeError>(DecodeError::UnknownCall),
{
    assert(s.skip(1)[0] == s[1]);
}

/// Cutting the input behind an assets call leaves the reading unchanged;
/// cutting it inside the call makes the reader run short.
pub proof fn lemma_parse_xassets_cut(s: Seq<u8>, k: int)
    requires
        parse_xassets(s) is Ok,
        0 <= k <= s.len(),
    ensures
        k >= parse_xassets(s)->Ok_0.1 ==> parse_xassets(s.take(k)) == parse_xassets(s),
        k < parse_xassets(s)->Ok_0.1 ==> ran_short(parse_xassets(s.take(k))),
{
    let t = s.take(k);
    let n2 = parse_prefixed(s.skip(33))->Ok_0.1 as int;
    let n3 = parse_compact(s.skip(33 + n2), 8)->Ok_0.1 as int;
    let n4 = parse_prefixed(s.skip(33 + n2 + n3))->Ok_0.1 as int;
    lemma_parse_prefixed_canonical(s.skip(33));
    lemma_parse_compact_canonical(s.skip(33 + n2), 8);
    lemma_parse_prefixed_canonical(s.skip(33 + n2 + n3));
    if k >= 1 {
        lemma_take_skip(s, k, 1);
        if k >= 33 {
            assert(t.skip(1).take(32) =~= s.skip(1).take(32));
            lemma_take_skip(s, k, 33);
            lemma_parse_prefixed_cut(s.skip(33), k - 33);
            if k >= 33 + n2 {
                lemma_take_skip(s, k, 33 + n2);
                lemma_parse_compact_cut(s.skip(33 + n2), 8, k - 33 - n2);
                if k >= 33 + n2 + n3 {
                    lemma_take_skip(s, k, 33 + n2 + n3);
                    lemma_parse_prefixed_cut(s.skip(33 + n2 + n3), k - 33 - n2 - n3);
                }
            }
        }
    }
}

/// Cutting the input behind a contracts call leaves the reading unchanged;
/// cutting it inside the call makes the reader run short.
pub proof fn lemma_parse_xcontracts_cut(s: Seq<u8>, k: int)
    requires
        parse_xcontracts(s) is Ok,
        0 <= k <= s.len(),
    ensures
        k >= parse_xcontracts(s)->Ok_0.1 ==> parse_xcontracts(s.take(k)) == parse_xcontracts(s),
        k < parse_xcontracts(s)->Ok_0.1 ==> ran_short(parse_xcontracts(s.take(k))),
{
    let t = s.take(k);
    lemma_parse_compact_canonical(s.skip(33), 8);
    if k >= 1 {
        lemma_take_skip(s, k, 1);
        if k >= 33 {
            assert(t.skip(1).take(32) =~= s.skip(1).take(32));
            lemma_take_skip(s, k, 33);
            lemma_parse_compact_cut(s.skip(33), 8, k - 33);
        }
    }
}

/// An encoding cut short at any point is rejected for want of input: no
/// proper beginning of an encoding decodes to a call.
pub proof fn lemma_truncation_rejected(c: CallView, k: int)
    requires
        c.wf(),
        0 <= k < c.encoding().len(),
    ensures
        ran_short(decoding(c.encoding().take(k))),
{
    let s = c.encoding();
    lemma_parse_call_of_encoding(c, Seq::empty());
    assert(s + Seq::<u8>::empty() =~= s);
    if k >= 1 {
        lemma_take_skip(s, k, 1);
        match c {
            CallView::XAssets(x) => {
                lemma_parse_xassets_cut(s.skip(1), k - 1);
            },
            CallView::XContracts(x) => {
                lemma_parse_xcontracts_cut(s.skip(1), k - 1);
            },
        }
    }
}

} // verus!
