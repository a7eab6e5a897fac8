//! Length-prefixed framing of byte strings: every stored artifact is a list
//! of parts, each part an 8-byte little-endian length followed by its
//! payload. Parsing is exact, and framing round-trips.

use vstd::bytes::{
    lemma_auto_spec_u64_to_from_le_bytes, spec_u64_from_le_bytes, spec_u64_to_le_bytes,
    u64_from_le_bytes, u64_to_le_bytes,
};
use vstd::prelude::*;
use vstd::slice::{slice_subrange, slice_to_vec};
use vstd::string::StrSliceExecFns;
use vstd::utf8::{decode_utf8, encode_utf8, valid_utf8};

verus! {

/// One framed part: an 8-byte little-endian length, then the payload.
pub open spec fn spec_frame(p: Seq<u8>) -> Seq<u8>
    recommends
        p.len() <= u64::MAX,
{
    spec_u64_to_le_bytes(p.len() as u64) + p
}

/// All parts framed back to back.
pub open spec fn spec_frame_all(ps: Seq<Seq<u8>>) -> Seq<u8>
    decreases ps.len(),
{
    if ps.len() == 0 {
        seq![]
    } else {
        spec_frame(ps[0]) + spec_frame_all(ps.drop_first())
    }
}

/// Parses framed parts; `None` on any malformed framing.
pub open spec fn spec_parse(b: Seq<u8>) -> Option<Seq<Seq<u8>>>
    decreases b.len(),
{
    if b.len() == 0 {
        Some(seq![])
    } else if b.len() < 8 {
        None
    } else {
        let n = spec_u64_from_le_bytes(b.subrange(0, 8)) as int;
        if 8 + n > b.len() {
            None
        } else {
            match spec_parse(b.subrange(8 + n, b.len() as int)) {
                Some(rest) => Some(seq![b.subrange(8, 8 + n)] + rest),
                None => None,
            }
        }
    }
}

/// The element views of a byte vector and its deep view agree.
pub proof fn lemma_bytes_deep_view(v: Vec<u8>)
    ensures
        v.deep_view() == v@,
{
    assert(v.deep_view() =~= v@);
}

/// The view of a list of text pairs: both sides as character sequences.
pub open spec fn pairs_view(ms: Seq<(String, String)>) -> Seq<(Seq<char>, Seq<char>)> {
    ms.map_values(|p: (String, String)| (p.0@, p.1@))
}

/// The view of a list of texts.
pub open spec fn strs_view(ss: Seq<String>) -> Seq<Seq<char>> {
    ss.map_values(|s: String| s@)
}

/// The view of an optional text value.
pub open spec fn opt_text(o: Option<String>) -> Option<Seq<char>> {
    match o {
        Some(s) => Some(s@),
        None => None,
    }
}

/// The deep view of a part list at one index is that part's view.
pub proof fn lemma_part_view(ps: Vec<Vec<u8>>, i: int)
    requires
        0 <= i < ps@.len(),
    ensures
        ps.deep_view()[i] == ps@[i]@,
{
    lemma_bytes_deep_view(ps@[i]);
}

/// Appends one part to a part list, tracked at the view level.
pub fn push_part(parts: &mut Vec<Vec<u8>>, p: Vec<u8>)
    ensures
        final(parts).deep_view() == old(parts).deep_view().push(p@),
{
    let ghost dv = parts.deep_view();
    let ghost pv = p@;
    parts.push(p);
    proof {
        lemma_bytes_deep_view(parts@[parts@.len() - 1]);
        assert(parts.deep_view() =~= dv.push(pv));
    }
}

/// Framing a list and appending one more part extends the framed bytes.
pub proof fn lemma_frame_all_push(ps: Seq<Seq<u8>>, p: Seq<u8>)
    ensures
        spec_frame_all(ps.push(p)) == spec_frame_all(ps) + spec_frame(p),
    decreases ps.len(),
{
    let q = ps.push(p);
    if ps.len() == 0 {
        assert(q[0] == p);
        assert(q.drop_first() =~= Seq::<Seq<u8>>::empty());
        assert(spec_frame_all(q) == spec_frame(p) + spec_frame_all(Seq::<Seq<u8>>::empty()));
        assert(spec_frame(p) + spec_frame_all(Seq::<Seq<u8>>::empty()) =~= spec_frame_all(ps)
            + spec_frame(p));
    } else {
        assert(q[0] == ps[0]);
        assert(q.drop_first() =~= ps.drop_first().push(p));
        lemma_frame_all_push(ps.drop_first(), p);
        assert(spec_frame_all(q) == spec_frame(ps[0]) + (spec_frame_all(ps.drop_first())
            + spec_frame(p)));
        assert(spec_frame(ps[0]) + (spec_frame_all(ps.drop_first()) + spec_frame(p)) =~= (
        spec_frame(ps[0]) + spec_frame_all(ps.drop_first())) + spec_frame(p));
    }
}

/// Parsing inverts framing: the round trip of the parts layer.
pub proof fn lemma_parse_frame_all(ps: Seq<Seq<u8>>)
    requires
        forall|i: int| 0 <= i < ps.len() ==> #[trigger] ps[i].len() <= u64::MAX,
    ensures
        spec_parse(spec_frame_all(ps)) == Some(ps),
    decreases ps.len(),
{
    lemma_auto_spec_u64_to_from_le_bytes();
    if ps.len() == 0 {
        assert(spec_frame_all(ps) =~= Seq::<u8>::empty());
        assert(ps =~= Seq::<Seq<u8>>::empty());
    } else {
        let p0 = ps[0];
        let rest = ps.drop_first();
        let tail = spec_frame_all(rest);
        let b = spec_frame_all(ps);
        let n = p0.len() as int;
        assert(spec_u64_to_le_bytes(p0.len() as u64).len() == 8);
        assert(b =~= spec_u64_to_le_bytes(p0.len() as u64) + p0 + tail);
        assert(b.len() == 8 + n + tail.len());
        assert(b.subrange(0, 8) =~= spec_u64_to_le_bytes(p0.len() as u64));
        assert(spec_u64_from_le_bytes(b.subrange(0, 8)) == p0.len() as u64);
        assert(b.subrange(8, 8 + n) =~= p0);
        assert(b.subrange(8 + n, b.len() as int) =~= tail);
        assert(forall|i: int| 0 <= i < rest.len() ==> #[trigger] rest[i].len() <= u64::MAX) by {
            assert(forall|i: int|
                0 <= i < rest.len() ==> rest[i] == ps[i + 1] && #[trigger] ps[i + 1].len()
                    <= u64::MAX);
        }
        lemma_parse_frame_all(rest);
        assert(seq![b.subrange(8, 8 + n)] + rest =~= ps);
    }
}

/// Frames a list of parts into one byte string.
pub fn encode_parts(ps: &Vec<Vec<u8>>) -> (r: Vec<u8>)
    ensures
        r@ == spec_frame_all(ps.deep_view()),
{
    let mut out: Vec<u8> = Vec::new();
    let mut i: usize = 0;
    while i < ps.len()
        invariant
            i <= ps.len(),
            out@ == spec_frame_all(ps.deep_view().take(i as int)),
        decreases ps.len() - i,
    {
        let ghost prefix = ps.deep_view().take(i as int);
        let p = &ps[i];
        proof {
            lemma_bytes_deep_view(ps@[i as int]);
        }
        let mut len8 = u64_to_le_bytes(p.len() as u64);
        out.append(&mut len8);
        let mut body = slice_to_vec(p.as_slice());
        out.append(&mut body);
        proof {
            lemma_frame_all_push(prefix, p@);
            assert(prefix.push(p@) =~= ps.deep_view().take(i + 1));
            assert(out@ =~= spec_frame_all(prefix) + spec_frame(p@));
        }
        i = i + 1;
    }
    proof {
        assert(ps.deep_view().take(ps.len() as int) =~= ps.deep_view());
    }
    out
}

/// Splits one framed byte string back into its parts.
pub fn decode_parts(b: &Vec<u8>) -> (r: Option<Vec<Vec<u8>>>)
    ensures
        match r {
            Some(ps) => spec_parse(b@) == Some(ps.deep_view()),
            None => spec_parse(b@) is None,
        },
{
    let total = b.len();
    let mut pos: usize = 0;
    let mut acc: Vec<Vec<u8>> = Vec::new();
    proof {
        assert(b@.subrange(0, total as int) =~= b@);
        assert(forall|rest: Seq<Seq<u8>>| #[trigger] (acc.deep_view() + rest) =~= rest);
    }
    while pos < total
        invariant
            pos <= total,
            total == b@.len(),
            spec_parse(b@) == match spec_parse(b@.subrange(pos as int, total as int)) {
                Some(rest) => Some(acc.deep_view() + rest),
                None => None::<Seq<Seq<u8>>>,
            },
        decreases total - pos,
    {
        let ghost suffix = b@.subrange(pos as int, total as int);
        if total - pos < 8 {
            return None;
        }
        let len8 = slice_subrange(b.as_slice(), pos, pos + 8);
        let n = u64_from_le_bytes(len8);
        proof {
            assert(suffix.subrange(0, 8) =~= b@.subrange(pos as int, pos as int + 8));
        }
        if n > (total - pos - 8) as u64 {
            return None;
        }
        let n_us = n as usize;
        let part = slice_to_vec(slice_subrange(b.as_slice(), pos + 8, pos + 8 + n_us));
        proof {
            assert(suffix.subrange(8, 8 + n as int) =~= b@.subrange(
                pos as int + 8,
                pos as int + 8 + n as int,
            ));
            assert(suffix.subrange(8 + n as int, suffix.len() as int) =~= b@.subrange(
                pos as int + 8 + n as int,
                total as int,
            ));
            assert(forall|rest: Seq<Seq<u8>>|
                acc.deep_view() + (seq![part@] + rest) =~= #[trigger] (acc.deep_view().push(part@)
                    + rest));
        }
        let ghost acc_dv = acc.deep_view();
        let ghost part_view = part@;
        acc.push(part);
        proof {
            lemma_bytes_deep_view(acc@[acc@.len() - 1]);
            assert(acc.deep_view() =~= acc_dv.push(part_view));
        }
        pos = pos + 8 + n_us;
    }
    proof {
        assert(b@.subrange(pos as int, total as int) =~= Seq::<u8>::empty());
        assert(acc.deep_view() + Seq::<Seq<u8>>::empty() =~= acc.deep_view());
    }
    Some(acc)
}

// ---------------------------------------------------------------------------
// Field atoms: the payloads parts carry
// ---------------------------------------------------------------------------
/// A text field as a part: its UTF-8 bytes.
pub open spec fn spec_str_part(s: Seq<char>) -> Seq<u8> {
    encode_utf8(s)
}

/// Reading a text field back: only valid UTF-8 is accepted.
pub open spec fn spec_take_str(p: Seq<u8>) -> Option<Seq<char>> {
    if valid_utf8(p) {
        Some(decode_utf8(p))
    } else {
        None
    }
}

/// A signed integer as a part: a sign byte, then the magnitude little-endian.
pub open spec fn spec_i64_part(n: int) -> Seq<u8>
    recommends
        i64::MIN <= n <= i64::MAX,
{
    if n >= 0 {
        seq![0u8] + spec_u64_to_le_bytes(n as u64)
    } else {
        seq![1u8] + spec_u64_to_le_bytes((-n) as u64)
    }
}

/// Reading a signed integer back; only canonical encodings are accepted.
pub open spec fn spec_take_i64(p: Seq<u8>) -> Option<int> {
    if p.len() == 9 && (p[0] == 0u8 || p[0] == 1u8) {
        let m = spec_u64_from_le_bytes(p.subrange(1, 9)) as int;
        if p[0] == 0u8 {
            if m <= i64::MAX {
                Some(m)
            } else {
                None
            }
        } else {
            if 1 <= m <= 0x8000_0000_0000_0000 {
                Some(-m)
            } else {
                None
            }
        }
    } else {
        None
    }
}

/// A boolean as a single-byte part.
pub open spec fn spec_bool_part(b: bool) -> Seq<u8> {
    seq![if b { 1u8 } else { 0u8 }]
}

/// Reading a boolean back.
pub open spec fn spec_take_bool(p: Seq<u8>) -> Option<bool> {
    if p.len() == 1 && p[0] <= 1 {
        Some(p[0] == 1)
    } else {
        None
    }
}

/// An optional text field as a part: a presence byte, then the UTF-8 bytes.
pub open spec fn spec_opt_str_part(o: Option<Seq<char>>) -> Seq<u8> {
    match o {
        None => seq![0u8],
        Some(s) => seq![1u8] + encode_utf8(s),
    }
}

/// Reading an optional text field back.
pub open spec fn spec_take_opt_str(p: Seq<u8>) -> Option<Option<Seq<char>>> {
    if p.len() >= 1 && p[0] == 0 {
        if p.len() == 1 {
            Some(None)
        } else {
            None
        }
    } else if p.len() >= 1 && p[0] == 1 {
        let rest = p.drop_first();
        if valid_utf8(rest) {
            Some(Some(decode_utf8(rest)))
        } else {
            None
        }
    } else {
        None
    }
}

/// Relies on String::from_utf8: it succeeds exactly on valid UTF-8 input
/// and returns the string those bytes encode.
#[verifier::external_body]
pub(crate) fn bytes_to_string(v: Vec<u8>) -> (r: Option<String>)
    ensures
        r is Some <==> valid_utf8(v@),
        r matches Some(s) ==> s@ == decode_utf8(v@),
{
    match String::from_utf8(v) {
        Ok(s) => Some(s),
        Err(_) => None,
    }
}

/// Builds the part for a text field.
pub fn str_part(s: &str) -> (r: Vec<u8>)
    ensures
        r@ == spec_str_part(s@),
{
    s.as_bytes_vec()
}

/// Reads a text field back from a part.
pub fn take_str(p: &Vec<u8>) -> (r: Option<String>)
    ensures
        match r {
            Some(s) => spec_take_str(p@) == Some(s@),
            None => spec_take_str(p@) is None,
        },
{
    bytes_to_string(slice_to_vec(p.as_slice()))
}

/// Builds the part for a signed integer field.
pub fn i64_part(n: i64) -> (r: Vec<u8>)
    ensures
        r@ == spec_i64_part(n as int),
{
    let mut out: Vec<u8> = Vec::new();
    if n >= 0 {
        out.push(0u8);
        let mut w = u64_to_le_bytes(n as u64);
        out.append(&mut w);
    } else {
        out.push(1u8);
        let m: u64 = (-(n as i128)) as u64;
        let mut w = u64_to_le_bytes(m);
        out.append(&mut w);
    }
    proof {
        assert(out@ =~= spec_i64_part(n as int));
    }
    out
}

/// Reads a signed integer back from a part.
pub fn take_i64(p: &Vec<u8>) -> (r: Option<i64>)
    ensures
        match r {
            Some(n) => spec_take_i64(p@) == Some(n as int),
            None => spec_take_i64(p@) is None,
        },
{
    if p.len() != 9 {
        return None;
    }
    let sign = p[0];
    if sign > 1 {
        return None;
    }
    let m = u64_from_le_bytes(slice_subrange(p.as_slice(), 1, 9));
    proof {
        assert(p@.subrange(1, 9) =~= p@.subrange(1int, 9int));
    }
    if sign == 0 {
        if m <= i64::MAX as u64 {
            Some(m as i64)
        } else {
            None
        }
    } else {
        if 1 <= m && m <= 0x8000_0000_0000_0000u64 {
            Some((-(m as i128)) as i64)
        } else {
            None
        }
    }
}

/// Builds the part for a boolean field.
pub fn bool_part(b: bool) -> (r: Vec<u8>)
    ensures
        r@ == spec_bool_part(b),
{
    let mut out: Vec<u8> = Vec::new();
    out.push(if b { 1u8 } else { 0u8 });
    proof {
        assert(out@ =~= spec_bool_part(b));
    }
    out
}

/// Reads a boolean back from a part.
pub fn take_bool(p: &Vec<u8>) -> (r: Option<bool>)
    ensures
        match r {
            Some(b) => spec_take_bool(p@) == Some(b),
            None => spec_take_bool(p@) is None,
        },
{
    if p.len() == 1 {
        let v = p[0];
        if v <= 1 {
            Some(v == 1)
        } else {
            None
        }
    } else {
        None
    }
}

/// Builds the part for an optional text field.
pub fn opt_str_part(o: &Option<String>) -> (r: Vec<u8>)
    ensures
        r@ == spec_opt_str_part(match o {
            Some(s) => Some(s@),
            None => None,
        }),
{
    match o {
        None => {
            let mut out: Vec<u8> = Vec::new();
            out.push(0u8);
            proof {
                assert(out@ =~= spec_opt_str_part(None));
            }
            out
        },
        Some(s) => {
            let mut out: Vec<u8> = Vec::new();
            out.push(1u8);
            let mut body = str_part(s.as_str());
            out.append(&mut body);
            proof {
                assert(out@ =~= spec_opt_str_part(Some(s@)));
            }
            out
        },
    }
}

/// Reads an optional text field back from a part.
pub fn take_opt_str(p: &Vec<u8>) -> (r: Option<Option<String>>)
    ensures
        match r {
            Some(Some(s)) => spec_take_opt_str(p@) == Some(Some(s@)),
            Some(None) => spec_take_opt_str(p@) == Some(None::<Seq<char>>),
            None => spec_take_opt_str(p@) is None,
        },
{
    if p.len() == 0 {
        return None;
    }
    let tag = p[0];
    if tag == 0 {
        if p.len() == 1 {
            Some(None)
        } else {
            None
        }
    } else if tag == 1 {
        let rest = slice_to_vec(slice_subrange(p.as_slice(), 1, p.len()));
        proof {
            assert(rest@ =~= p@.drop_first());
        }
        match bytes_to_string(rest) {
            Some(s) => Some(Some(s)),
            None => None,
        }
    } else {
        None
    }
}

/// Reading a text part written by `spec_str_part` yields the original text.
pub proof fn lemma_take_str_part(s: Seq<char>)
    ensures
        spec_take_str(spec_str_part(s)) == Some(s),
{
    broadcast use vstd::utf8::encode_utf8_valid_utf8, vstd::utf8::encode_utf8_decode_utf8;

}

/// Reading an integer part written by `spec_i64_part` yields the original value.
pub proof fn lemma_take_i64_part(n: int)
    requires
        i64::MIN <= n <= i64::MAX,
    ensures
        spec_take_i64(spec_i64_part(n)) == Some(n),
{
    lemma_auto_spec_u64_to_from_le_bytes();
    let p = spec_i64_part(n);
    if n >= 0 {
        assert(p.subrange(1, 9) =~= spec_u64_to_le_bytes(n as u64));
    } else {
        assert(p.subrange(1, 9) =~= spec_u64_to_le_bytes((-n) as u64));
    }
}

/// Reading a boolean part written by `spec_bool_part` yields the original value.
pub proof fn lemma_take_bool_part(b: bool)
    ensures
        spec_take_bool(spec_bool_part(b)) == Some(b),
{
}

/// Reading an optional-text part written by `spec_opt_str_part` yields the original value.
pub proof fn lemma_take_opt_str_part(o: Option<Seq<char>>)
    ensures
        spec_take_opt_str(spec_opt_str_part(o)) == Some(o),
{
    broadcast use vstd::utf8::encode_utf8_valid_utf8, vstd::utf8::encode_utf8_decode_utf8;

    match o {
        None => {},
        Some(s) => {
            let p = spec_opt_str_part(o);
            assert(p.drop_first() =~= encode_utf8(s));
        },
    }
}

} // verus!
