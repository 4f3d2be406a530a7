//! SHA-256 hashing, and hexadecimal rendering of hashes.

use sha2::Digest;
use vstd::prelude::*;

verus! {

/// The SHA-256 digest of a byte sequence. The algorithm itself is left
/// uninterpreted: the only facts available are those stated by the trusted
/// wrapper below.
pub uninterp spec fn sha256_of(message: Seq<u8>) -> Seq<u8>;

/// Relies on sha2::Sha256: the digest is a function of the message bytes
/// alone and is always 32 bytes long.
#[verifier::external_body]
pub fn sha256(message: Vec<u8>) -> (digest: Vec<u8>)
    ensures
        digest@ == sha256_of(message@),
        digest@.len() == 32,
{
    let mut hasher = sha2::Sha256::new();
    hasher.update(message);
    hasher.finalize().to_vec()
}

/// The lower-case hexadecimal digit for a value below 16.
pub open spec fn spec_hex_digit(n: u8) -> char {
    if n == 0 { '0' } else if n == 1 { '1' } else if n == 2 { '2' } else if n == 3 { '3' }
    else if n == 4 { '4' } else if n == 5 { '5' } else if n == 6 { '6' } else if n == 7 { '7' }
    else if n == 8 { '8' } else if n == 9 { '9' } else if n == 10 { 'a' } else if n == 11 { 'b' }
    else if n == 12 { 'c' } else if n == 13 { 'd' } else if n == 14 { 'e' } else { 'f' }
}

/// Two lower-case hexadecimal digits for each byte, in order.
pub open spec fn spec_hex_of(s: Seq<u8>) -> Seq<char>
    decreases s.len(),
{
    if s.len() == 0 {
        Seq::empty()
    } else {
        seq![spec_hex_digit(s[0] / 16), spec_hex_digit(s[0] % 16)] + spec_hex_of(s.drop_first())
    }
}

/// The value of a hexadecimal digit, if it is one.
pub open spec fn spec_hex_value(c: char) -> Option<u8> {
    if c == '0' { Some(0u8) } else if c == '1' { Some(1u8) } else if c == '2' { Some(2u8) }
    else if c == '3' { Some(3u8) } else if c == '4' { Some(4u8) } else if c == '5' { Some(5u8) }
    else if c == '6' { Some(6u8) } else if c == '7' { Some(7u8) } else if c == '8' { Some(8u8) }
    else if c == '9' { Some(9u8) } else if c == 'a' { Some(10u8) } else if c == 'b' { Some(11u8) }
    else if c == 'c' { Some(12u8) } else if c == 'd' { Some(13u8) } else if c == 'e' { Some(14u8) }
    else if c == 'f' { Some(15u8) } else if c == 'A' { Some(10u8) } else if c == 'B' { Some(11u8) }
    else if c == 'C' { Some(12u8) } else if c == 'D' { Some(13u8) } else if c == 'E' { Some(14u8) }
    else if c == 'F' { Some(15u8) } else { None }
}

/// The bytes a hexadecimal string denotes: `None` on odd length or a
/// character that is no hexadecimal digit.
pub open spec fn spec_hex_decode(s: Seq<char>) -> Option<Seq<u8>>
    decreases s.len(),
{
    if s.len() == 0 {
        Some(Seq::empty())
    } else if s.len() == 1 {
        None
    } else {
        match (spec_hex_value(s[0]), spec_hex_value(s[1])) {
            (Some(hi), Some(lo)) => match spec_hex_decode(s.skip(2)) {
                Some(rest) => Some(seq![(hi * 16 + lo) as u8] + rest),
                None => None,
            },
            _ => None,
        }
    }
}

fn hex_digit(n: u8) -> (r: char)
    requires
        n < 16,
    ensures
        r == spec_hex_digit(n),
{
    if n == 0 { '0' } else if n == 1 { '1' } else if n == 2 { '2' } else if n == 3 { '3' }
    else if n == 4 { '4' } else if n == 5 { '5' } else if n == 6 { '6' } else if n == 7 { '7' }
    else if n == 8 { '8' } else if n == 9 { '9' } else if n == 10 { 'a' } else if n == 11 { 'b' }
    else if n == 12 { 'c' } else if n == 13 { 'd' } else if n == 14 { 'e' } else { 'f' }
}

fn hex_value(c: char) -> (r: Option<u8>)
    ensures
        r == spec_hex_value(c),
{
    if c == '0' { Some(0u8) } else if c == '1' { Some(1u8) } else if c == '2' { Some(2u8) }
    else if c == '3' { Some(3u8) } else if c == '4' { Some(4u8) } else if c == '5' { Some(5u8) }
    else if c == '6' { Some(6u8) } else if c == '7' { Some(7u8) } else if c == '8' { Some(8u8) }
    else if c == '9' { Some(9u8) } else if c == 'a' { Some(10u8) } else if c == 'b' { Some(11u8) }
    else if c == 'c' { Some(12u8) } else if c == 'd' { Some(13u8) } else if c == 'e' { Some(14u8) }
    else if c == 'f' { Some(15u8) } else if c == 'A' { Some(10u8) } else if c == 'B' { Some(11u8) }
    else if c == 'C' { Some(12u8) } else if c == 'D' { Some(13u8) } else if c == 'E' { Some(14u8) }
    else if c == 'F' { Some(15u8) } else { None }
}

/// Render bytes as lower-case hexadecimal characters.
pub fn to_hex_chars(bytes: &Vec<u8>) -> (r: Vec<char>)
    ensures
        r@ == spec_hex_of(bytes@),
{
    let ghost full = bytes@;
    let mut out: Vec<char> = Vec::new();
    let mut k: usize = 0;
    proof {
        assert(full.skip(0) =~= full);
        assert(out@ + spec_hex_of(full.skip(0)) =~= spec_hex_of(full));
    }
    while k < bytes.len()
        invariant
            k <= bytes.len(),
            full == bytes@,
            spec_hex_of(full) == out@ + spec_hex_of(full.skip(k as int)),
        decreases bytes.len() - k,
    {
        let ghost acc = out@;
        let ghost rest = full.skip(k as int);
        proof {
            assert(rest[0] == full[k as int]);
            assert(rest.drop_first() =~= full.skip(k + 1));
        }
        let b = bytes[k];
        out.push(hex_digit(b / 16));
        out.push(hex_digit(b % 16));
        proof {
            assert(out@ =~= acc + seq![spec_hex_digit(rest[0] / 16), spec_hex_digit(rest[0] % 16)]);
            assert(acc + (seq![spec_hex_digit(rest[0] / 16), spec_hex_digit(rest[0] % 16)]
                + spec_hex_of(full.skip(k + 1)))
                =~= (acc + seq![spec_hex_digit(rest[0] / 16), spec_hex_digit(rest[0] % 16)])
                    + spec_hex_of(full.skip(k + 1)));
        }
        k = k + 1;
    }
    proof {
        assert(full.skip(full.len() as int) =~= Seq::<u8>::empty());
        assert(out@ + Seq::<char>::empty() =~= out@);
    }
    out
}

/// Decode hexadecimal characters to bytes; `None` on odd length or a
/// stray character.
pub fn from_hex_chars(chars: &Vec<char>) -> (r: Option<Vec<u8>>)
    ensures
        match r {
            Some(v) => spec_hex_decode(chars@) == Some(v@),
            None => spec_hex_decode(chars@) is None,
        },
{
    let ghost full = chars@;
    let mut out: Vec<u8> = Vec::new();
    let mut k: usize = 0;
    proof {
        assert(full.skip(0) =~= full);
    }
    while k < chars.len()
        invariant
            k <= chars.len(),
            k % 2 == 0,
            full == chars@,
            spec_hex_decode(full) == match spec_hex_decode(full.skip(k as int)) {
                Some(rest) => Some(out@ + rest),
                None => None::<Seq<u8>>,
            },
        decreases chars.len() - k,
    {
        let ghost acc = out@;
        let ghost rest = full.skip(k as int);
        proof {
            assert(rest[0] == full[k as int]);
            if rest.len() >= 2 {
                assert(rest[1] == full[k + 1]);
                assert(rest.skip(2) =~= full.skip(k + 2));
            }
        }
        if k + 1 >= chars.len() {
            assert(rest.len() == 1);
            return None;
        }
        let hi = hex_value(chars[k]);
        let lo = hex_value(chars[k + 1]);
        match (hi, lo) {
            (Some(h), Some(l)) => {
                out.push(h * 16 + l);
                proof {
                    assert(out@ =~= acc + seq![(h * 16 + l) as u8]);
                    match spec_hex_decode(full.skip(k + 2)) {
                        Some(restv) => {
                            assert(acc + (seq![(h * 16 + l) as u8] + restv)
                                =~= (acc + seq![(h * 16 + l) as u8]) + restv);
                        }
                        None => {}
                    }
                }
                k = k + 2;
            }
            _ => {
                return None;
            }
        }
    }
    proof {
        assert(full.skip(full.len() as int) =~= Seq::<char>::empty());
        assert(out@ + Seq::<u8>::empty() =~= out@);
    }
    Some(out)
}

/// Byte-vector equality, decided element by element.
pub fn bytes_eq(a: &Vec<u8>, b: &Vec<u8>) -> (r: bool)
    ensures
        r == (a@ == b@),
{
    if a.len() != b.len() {
        assert(a@ != b@);
        return false;
    }
    let mut k: usize = 0;
    while k < a.len()
        invariant
            k <= a.len(),
            a@.len() == b@.len(),
            forall|j: int| 0 <= j < k ==> a@[j] == b@[j],
        decreases a.len() - k,
    {
        if a[k] != b[k] {
            return false;
        }
        k = k + 1;
    }
    assert(a@ =~= b@);
    true
}

} // verus!
