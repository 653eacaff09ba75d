//! Content hashes of archives, as lower-case hexadecimal text.
use vstd::prelude::*;

verus! {

/// The SHA-1 digest of a byte sequence.
pub uninterp spec fn sha1_of(data: Seq<u8>) -> Seq<u8>;

/// Relies on `sha1::Sha1` through `digest::Digest::digest`: the SHA-1 digest of
/// the bytes, whose output size is 20 bytes.
#[verifier::external_body]
fn sha1_digest(data: &[u8]) -> (r: Vec<u8>)
    ensures
        r@ == sha1_of(data@),
        r@.len() == 20,
{
    <sha1::Sha1 as sha1::Digest>::digest(data).to_vec()
}

/// The lower-case hexadecimal digit of a value below 16.
pub open spec fn hex_digit(n: u8) -> char {
    if n < 10 {
        ((n + 48) as u8) as char
    } else {
        ((n + 87) as u8) as char
    }
}

/// Two lower-case hexadecimal digits per byte, high nibble first.
pub open spec fn hex_of(bytes: Seq<u8>) -> Seq<char>
    decreases bytes.len(),
{
    if bytes.len() == 0 {
        Seq::empty()
    } else {
        let b = bytes.last();
        hex_of(bytes.drop_last()) + seq![hex_digit(b / 16), hex_digit(b % 16)]
    }
}

pub open spec fn hex_digits() -> Seq<char> {
    seq!['0', '1', '2', '3', '4', '5', '6', '7', '8', '9', 'a', 'b', 'c', 'd', 'e', 'f']
}

/// Appends the digit of `n` to `out`.
fn push_hex_digit(out: &mut String, n: u8)
    requires
        n < 16,
    ensures
        final(out)@ == old(out)@.push(hex_digit(n)),
{
    let digits = "0123456789abcdef";
    proof {
        reveal_strlit("0123456789abcdef");
        assert(digits@ == hex_digits());
    }
    let d = digits.substring_char(n as usize, n as usize + 1);
    assert(d@ == seq![hex_digit(n)]) by {
        assert(d@.len() == 1);
        assert(d@[0] == hex_digits()[n as int]);
        assert(hex_digit(n) == hex_digits()[n as int]) by {
            if n < 10 {
                assert(hex_digit(n) == ((n + 48) as u8) as char);
            }
        }
    }
    out.append(d);
}

/// Lower-case hexadecimal text of `bytes`, two digits per byte.
pub fn hex_encode(bytes: &[u8]) -> (r: String)
    ensures
        r@ == hex_of(bytes@),
        r@.len() == 2 * bytes@.len(),
{
    let mut out = String::new();
    let mut i: usize = 0;
    while i < bytes.len()
        invariant
            i <= bytes@.len(),
            out@ == hex_of(bytes@.take(i as int)),
            out@.len() == 2 * i,
        decreases bytes@.len() - i,
    {
        let b = bytes[i];
        assert(bytes@.take(i + 1).drop_last() == bytes@.take(i as int));
        push_hex_digit(&mut out, b / 16);
        push_hex_digit(&mut out, b % 16);
        i = i + 1;
    }
    assert(bytes@.take(bytes@.len() as int) == bytes@);
    out
}

/// The SHA-1 digest of `data` as 40 lower-case hexadecimal digits.
pub fn sha1_hex(data: &[u8]) -> (r: String)
    ensures
        r@ == hex_of(sha1_of(data@)),
        r@.len() == 40,
{
    let d = sha1_digest(data);
    hex_encode(d.as_slice())
}

/// Hashing depends on the bytes alone: archives with the same bytes, however
/// often they are built, carry the same hash text.
pub proof fn lemma_hash_deterministic(a: Seq<u8>, b: Seq<u8>)
    requires
        a == b,
    ensures
        hex_of(sha1_of(a)) == hex_of(sha1_of(b)),
{
}

} // verus!
