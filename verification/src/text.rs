//! Text transforms the pipeline leans on: Unicode lowercasing and
//! whitespace trimming (named, since their full definitions live outside),
//! and percent-encoding, whose behaviour is stated exactly.

use vstd::prelude::*;
use vstd::utf8::{decode_utf8, encode_utf8};

verus! {

/// What str::to_lowercase returns: a function of the characters alone.
pub uninterp spec fn lower_of(s: Seq<char>) -> Seq<char>;

/// Relies on str::to_lowercase: the result depends on the characters alone,
/// and an empty string stays empty.
#[verifier::external_body]
pub fn lowercase(s: &str) -> (r: String)
    ensures
        r@ == lower_of(s@),
        s@.len() == 0 ==> r@.len() == 0,
{
    s.to_lowercase()
}

/// What str::trim returns: a function of the characters alone.
pub uninterp spec fn trim_of(s: Seq<char>) -> Seq<char>;

/// Relies on str::trim: the result depends on the characters alone, and an
/// empty string stays empty.
#[verifier::external_body]
pub fn trim_text<'a>(s: &'a str) -> (r: &'a str)
    ensures
        r@ == trim_of(s@),
        s@.len() == 0 ==> r@.len() == 0,
{
    s.trim()
}

/// True of the bytes percent-encoding keeps as they are: ASCII letters and
/// digits, minus, period, underscore and tilde.
pub open spec fn url_unreserved(b: u8) -> bool {
    (48 <= b <= 57) || (65 <= b <= 90) || (97 <= b <= 122) || b == 45 || b == 46 || b == 95 || b
        == 126
}

/// The byte of one uppercase hexadecimal digit.
pub open spec fn hex_upper(v: u8) -> u8
    recommends
        v < 16,
{
    if v < 10 {
        (48 + v) as u8
    } else {
        (55 + v) as u8
    }
}

/// Percent-encoding of a byte string: unreserved bytes stay, every other
/// byte becomes a percent sign and two uppercase hexadecimal digits.
pub open spec fn spec_pct_bytes(bs: Seq<u8>) -> Seq<u8>
    decreases bs.len(),
{
    if bs.len() == 0 {
        seq![]
    } else {
        let b = bs[0];
        (if url_unreserved(b) {
            seq![b]
        } else {
            seq![37u8, hex_upper(b / 16), hex_upper(b % 16)]
        }) + spec_pct_bytes(bs.drop_first())
    }
}

/// Percent-encoding of text: its UTF-8 bytes encoded, read back as text;
/// the encoded bytes are all ASCII.
pub open spec fn spec_url_encoded(s: Seq<char>) -> Seq<char> {
    decode_utf8(spec_pct_bytes(encode_utf8(s)))
}

/// Relies on urlencoding::encode: it keeps ASCII alphanumerics and the
/// bytes `- . _ ~` of the UTF-8 form, and replaces every other byte with a
/// percent sign and two uppercase hexadecimal digits.
#[verifier::external_body]
pub fn url_encode(s: &str) -> (r: String)
    ensures
        r@ == spec_url_encoded(s@),
{
    urlencoding::encode(s).into_owned()
}

} // verus!
