//! Content digests: the SHA-1 hash behind download verification, its
//! hex rendering, and the decision whether a cached file satisfies a
//! download descriptor.
use vstd::prelude::*;
use sha1::Digest;
use crate::strutil::string_of;

verus! {

/// The SHA-1 digest of a byte string: twenty bytes, a function of the
/// input alone.
pub uninterp spec fn sha1_of(data: Seq<u8>) -> Seq<u8>;

/// Relies on the sha1 crate's `Sha1` hasher (its `Digest` interface):
/// feeding the whole input and finalizing yields the input's 20-byte
/// SHA-1 digest, a function of the input bytes alone.
#[verifier::external_body]
fn sha1_digest(data: &Vec<u8>) -> (r: Vec<u8>)
    ensures
        r@ == sha1_of(data@),
        r@.len() == 20,
{
    let mut hasher = sha1::Sha1::new();
    hasher.update(data.as_slice());
    hasher.finalize().to_vec()
}

/// The lowercase hex digit for a value in 0..16.
pub open spec fn hex_digit(d: int) -> char {
    seq![
        '0',
        '1',
        '2',
        '3',
        '4',
        '5',
        '6',
        '7',
        '8',
        '9',
        'a',
        'b',
        'c',
        'd',
        'e',
        'f',
    ][d]
}

/// The lowercase hex rendering of a byte string, two digits per byte.
pub open spec fn hex_of(data: Seq<u8>) -> Seq<char>
    decreases data.len(),
{
    if data.len() == 0 {
        Seq::empty()
    } else {
        hex_of(data.drop_last()) + seq![
            hex_digit((data.last() >> 4) as int),
            hex_digit((data.last() & 0x0f) as int),
        ]
    }
}

/// The lowercase hex digit character for a nibble.
fn hex_digit_char(d: u8) -> (c: char)
    requires
        d < 16,
    ensures
        c == hex_digit(d as int),
{
    match d {
        0 => '0',
        1 => '1',
        2 => '2',
        3 => '3',
        4 => '4',
        5 => '5',
        6 => '6',
        7 => '7',
        8 => '8',
        9 => '9',
        10 => 'a',
        11 => 'b',
        12 => 'c',
        13 => 'd',
        14 => 'e',
        _ => 'f',
    }
}

/// Renders bytes as lowercase hex.
pub fn to_hex(data: &Vec<u8>) -> (r: String)
    ensures
        r@ == hex_of(data@),
{
    let mut out: Vec<char> = Vec::new();
    let n = data.len();
    proof {
        assert(data@.take(0) =~= Seq::<u8>::empty());
    }
    for i in 0..n
        invariant
            n == data@.len(),
            out@ == hex_of(data@.take(i as int)),
    {
        let b = data[i];
        let hi = b >> 4;
        let lo = b & 0x0f;
        assert(b >> 4 < 16 && b & 0x0f < 16) by (bit_vector);
        out.push(hex_digit_char(hi));
        out.push(hex_digit_char(lo));
        proof {
            assert(data@.take(i + 1).drop_last() =~= data@.take(i as int));
            assert(data@.take(i + 1).last() == data@[i as int]);
            assert(out@ =~= hex_of(data@.take(i + 1)));
        }
    }
    proof {
        assert(data@.take(n as int) =~= data@);
    }
    string_of(&out)
}

/// Whether these bytes hash to the declared hex digest.
pub fn digest_matches(data: &Vec<u8>, expected: &str) -> (r: bool)
    ensures
        r == (hex_of(sha1_of(data@)) == expected@),
{
    let digest = sha1_digest(data);
    let rendered = to_hex(&digest);
    crate::strutil::str_eq(rendered.as_str(), expected)
}

/// Whether a download must be (re)fetched: a missing file always is;
/// a present file is trusted when no digest is declared, and kept
/// only when its digest matches the declared one.
pub fn needs_refetch(existing: Option<&Vec<u8>>, declared_sha1: Option<&String>) -> (r: bool)
    ensures
        r == !(existing is Some && (declared_sha1 is None || hex_of(sha1_of(existing->0@))
            == declared_sha1->0@)),
{
    match existing {
        None => true,
        Some(data) => match declared_sha1 {
            None => false,
            Some(expected) => !digest_matches(data, expected.as_str()),
        },
    }
}

} // verus!
