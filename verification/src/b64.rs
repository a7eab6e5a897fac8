//! Base64 of binary payloads: the on-the-wire text form of audio and cover
//! bytes, three input bytes giving four symbols of the standard alphabet,
//! with `=` padding.

use crate::wire::bytes_to_string;
use vstd::prelude::*;
use vstd::utf8::{
    decode_utf8, encode_scalar, encode_utf8, encode_utf8_decode_utf8, encode_utf8_valid_utf8,
    valid_utf8,
};

verus! {

/// The base64 symbol for one six-bit value, as an ASCII byte.
pub open spec fn b64_sym(v: u8) -> u8
    recommends
        v < 64,
{
    if v < 26 {
        (65 + v) as u8  // 'A' to 'Z'

    } else if v < 52 {
        (97 + (v - 26)) as u8  // 'a' to 'z'

    } else if v < 62 {
        (48 + (v - 52)) as u8  // '0' to '9'

    } else if v == 62 {
        43u8  // '+'

    } else {
        47u8  // '/'

    }
}

/// The ASCII bytes of the base64 form.
pub open spec fn spec_b64_bytes(data: Seq<u8>) -> Seq<u8>
    decreases data.len(),
{
    if data.len() == 0 {
        seq![]
    } else if data.len() == 1 {
        let b0 = data[0];
        seq![b64_sym((b0 / 4) as u8), b64_sym(((b0 % 4) * 16) as u8), 61u8, 61u8]
    } else if data.len() == 2 {
        let b0 = data[0];
        let b1 = data[1];
        seq![
            b64_sym((b0 / 4) as u8),
            b64_sym(((b0 % 4) * 16 + b1 / 16) as u8),
            b64_sym(((b1 % 16) * 4) as u8),
            61u8,
        ]
    } else {
        let b0 = data[0];
        let b1 = data[1];
        let b2 = data[2];
        seq![
            b64_sym((b0 / 4) as u8),
            b64_sym(((b0 % 4) * 16 + b1 / 16) as u8),
            b64_sym(((b1 % 16) * 4 + b2 / 64) as u8),
            b64_sym((b2 % 64) as u8),
        ] + spec_b64_bytes(data.skip(3))
    }
}

/// The text of the base64 form: its ASCII bytes, one character each.
pub open spec fn spec_b64_chars(data: Seq<u8>) -> Seq<char> {
    spec_b64_bytes(data).map_values(|b: u8| b as char)
}

/// A sequence of ASCII bytes is valid UTF-8 and reads back as one character
/// per byte.
pub proof fn lemma_ascii_bytes_chars(bs: Seq<u8>)
    requires
        forall|i: int| 0 <= i < bs.len() ==> bs[i] < 128,
    ensures
        encode_utf8(bs.map_values(|b: u8| b as char)) == bs,
        valid_utf8(bs),
        decode_utf8(bs) == bs.map_values(|b: u8| b as char),
    decreases bs.len(),
{
    broadcast use encode_utf8_valid_utf8, encode_utf8_decode_utf8;

    let cs = bs.map_values(|b: u8| b as char);
    if bs.len() == 0 {
        assert(cs =~= Seq::<char>::empty());
        assert(encode_utf8(cs) =~= bs);
    } else {
        lemma_ascii_bytes_chars(bs.drop_first());
        let b = bs[0];
        assert(cs[0] == b as char);
        let v = cs[0] as u32;
        assert(v == b as u32);
        assert((v & 0x7F) as u8 == b) by (bit_vector)
            requires
                v < 128 && v == b as u32,
        ;
        assert(encode_scalar(v) =~= seq![bs[0]]);
        assert(cs.drop_first() =~= bs.drop_first().map_values(|b: u8| b as char));
        assert(encode_utf8(cs) =~= bs);
    }
}

fn b64_sym_exec(v: u8) -> (r: u8)
    requires
        v < 64,
    ensures
        r == b64_sym(v),
        r < 128,
{
    if v < 26 {
        65 + v
    } else if v < 52 {
        97 + (v - 26)
    } else if v < 62 {
        48 + (v - 52)
    } else if v == 62 {
        43
    } else {
        47
    }
}

/// Encodes bytes as base64 text.
#[verifier::loop_isolation(false)]
pub fn base64_encode(data: &[u8]) -> (r: String)
    ensures
        r@ == spec_b64_chars(data@),
{
    let n = data.len();
    let mut out: Vec<u8> = Vec::new();
    let mut i: usize = 0;
    proof {
        assert(data@.skip(0) =~= data@);
    }
    while i < n
        invariant
            i <= n,
            spec_b64_bytes(data@) == out@ + spec_b64_bytes(data@.skip(i as int)),
            forall|j: int| 0 <= j < out@.len() ==> out@[j] < 128,
        decreases n - i,
    {
        let ghost suffix = data@.skip(i as int);
        let rem = n - i;
        let b0 = data[i];
        proof {
            assert(suffix[0] == data@[i as int]);
        }
        if rem >= 3 {
            let b1 = data[i + 1];
            let b2 = data[i + 2];
            proof {
                assert(suffix[1] == data@[i as int + 1]);
                assert(suffix[2] == data@[i as int + 2]);
            }
            out.push(b64_sym_exec(b0 / 4));
            out.push(b64_sym_exec((b0 % 4) * 16 + b1 / 16));
            out.push(b64_sym_exec((b1 % 16) * 4 + b2 / 64));
            out.push(b64_sym_exec(b2 % 64));
            proof {
                assert(suffix.skip(3) =~= data@.skip(i as int + 3));
            }
            i = i + 3;
        } else if rem == 2 {
            let b1 = data[i + 1];
            proof {
                assert(suffix[1] == data@[i as int + 1]);
            }
            out.push(b64_sym_exec(b0 / 4));
            out.push(b64_sym_exec((b0 % 4) * 16 + b1 / 16));
            out.push(b64_sym_exec((b1 % 16) * 4));
            out.push(61u8);
            proof {
                assert(suffix.len() == 2);
                assert(data@.skip(n as int) =~= Seq::<u8>::empty());
            }
            i = n;
        } else {
            out.push(b64_sym_exec(b0 / 4));
            out.push(b64_sym_exec((b0 % 4) * 16));
            out.push(61u8);
            out.push(61u8);
            proof {
                assert(suffix.len() == 1);
                assert(data@.skip(n as int) =~= Seq::<u8>::empty());
            }
            i = n;
        }
    }
    proof {
        assert(data@.skip(n as int) =~= Seq::<u8>::empty());
        assert(out@ =~= spec_b64_bytes(data@));
        lemma_ascii_bytes_chars(out@);
    }
    match bytes_to_string(out) {
        Some(s) => s,
        None => vstd::pervasive::unreached(),
    }
}

} // verus!
