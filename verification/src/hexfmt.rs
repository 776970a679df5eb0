//! Lower-case hexadecimal encoding of byte strings, and its strict inverse.
//!
//! Coin identifiers travel between the store, the queue and the chain as hex
//! text; the two directions here are proved inverse to each other, so a key
//! determines the identifier it was printed from.

use vstd::prelude::*;

verus! {

/// The ASCII code of the lower-case hex digit for `n`.
pub open spec fn hex_digit(n: u8) -> u8
    recommends
        n < 16,
{
    if n < 10 {
        (48 + n) as u8
    } else {
        (87 + n) as u8
    }
}

/// The value of the ASCII code `c` as a lower-case hex digit, if it is one.
pub open spec fn hex_value(c: u8) -> Option<u8> {
    if 48 <= c && c <= 57 {
        Some((c - 48) as u8)
    } else if 97 <= c && c <= 102 {
        Some((c - 87) as u8)
    } else {
        None
    }
}

/// The hex text of a byte string: two digits per byte, high nibble first.
pub open spec fn spec_hex(bytes: Seq<u8>) -> Seq<u8>
    decreases bytes.len(),
{
    if bytes.len() == 0 {
        Seq::<u8>::empty()
    } else {
        seq![hex_digit(bytes.first() / 16), hex_digit(bytes.first() % 16)]
            + spec_hex(bytes.drop_first())
    }
}

/// The byte string a hex text denotes, if every pair is two valid digits.
pub open spec fn spec_unhex(s: Seq<u8>) -> Option<Seq<u8>>
    decreases s.len(),
{
    if s.len() == 0 {
        Some(Seq::<u8>::empty())
    } else if s.len() == 1 {
        None
    } else {
        match (hex_value(s[0]), hex_value(s[1])) {
            (Some(hi), Some(lo)) => match spec_unhex(s.skip(2)) {
                Some(rest) => Some(seq![(hi * 16 + lo) as u8] + rest),
                None => None,
            },
            _ => None,
        }
    }
}

pub proof fn lemma_hex_len(bytes: Seq<u8>)
    ensures
        spec_hex(bytes).len() == 2 * bytes.len(),
    decreases bytes.len(),
{
    if bytes.len() > 0 {
        lemma_hex_len(bytes.drop_first());
    }
}

/// Decoding undoes encoding: the hex text of any byte string denotes exactly
/// that byte string.
pub proof fn lemma_unhex_hex(bytes: Seq<u8>)
    ensures
        spec_unhex(spec_hex(bytes)) == Some(bytes),
    decreases bytes.len(),
{
    if bytes.len() == 0 {
        assert(spec_hex(bytes) =~= Seq::<u8>::empty());
    } else {
        let b = bytes.first();
        let s = spec_hex(bytes);
        lemma_hex_len(bytes.drop_first());
        lemma_unhex_hex(bytes.drop_first());
        assert(s.skip(2) =~= spec_hex(bytes.drop_first()));
        assert(hex_value(hex_digit(b / 16)) == Some(b / 16));
        assert(hex_value(hex_digit(b % 16)) == Some(b % 16));
        assert(b / 16 * 16 + b % 16 == b) by (nonlinear_arith);
        assert(seq![b] + bytes.drop_first() =~= bytes);
    }
}

/// Encoding undoes decoding: a hex text that denotes some byte string is the
/// hex text of that byte string.  Together with [`lemma_unhex_hex`] this makes
/// the hex form of a byte string unique.
pub proof fn lemma_hex_unhex(s: Seq<u8>)
    requires
        spec_unhex(s) is Some,
    ensures
        spec_hex(spec_unhex(s).unwrap()) == s,
    decreases s.len(),
{
    if s.len() == 0 {
        assert(spec_hex(Seq::<u8>::empty()) =~= s);
    } else {
        let hi = hex_value(s[0]).unwrap();
        let lo = hex_value(s[1]).unwrap();
        let rest = spec_unhex(s.skip(2)).unwrap();
        lemma_hex_unhex(s.skip(2));
        let b = (hi * 16 + lo) as u8;
        assert(hi < 16 && lo < 16);
        assert(b / 16 == hi && b % 16 == lo) by (nonlinear_arith)
            requires
                hi < 16 && lo < 16 && b == hi * 16 + lo,
        ;
        let bytes = seq![b] + rest;
        assert(bytes.first() == b);
        assert(bytes.drop_first() =~= rest);
        assert(spec_hex(bytes) =~= seq![hex_digit(hi), hex_digit(lo)] + spec_hex(rest));
        assert(spec_hex(bytes) =~= s);
    }
}

/// Prints `bytes` as lower-case hex, two digits per byte.
pub fn bytes_to_hex(bytes: &Vec<u8>) -> (r: Vec<u8>)
    ensures
        r@ == spec_hex(bytes@),
{
    let mut r: Vec<u8> = Vec::new();
    let n = bytes.len();
    assert(bytes@.skip(0) =~= bytes@);
    for i in 0..n
        invariant
            n == bytes@.len(),
            spec_hex(bytes@) =~= r@ + spec_hex(bytes@.skip(i as int)),
    {
        let b = bytes[i];
        let hi = b / 16;
        let lo = b % 16;
        r.push(if hi < 10 { 48 + hi } else { 87 + hi });
        r.push(if lo < 10 { 48 + lo } else { 87 + lo });
        assert(bytes@.skip(i as int).drop_first() =~= bytes@.skip(i + 1));
    }
    r
}

/// Reads lower-case hex text back into bytes; `None` on an odd length or any
/// character that is not a lower-case hex digit.
pub fn hex_to_bytes(s: &Vec<u8>) -> (r: Option<Vec<u8>>)
    ensures
        match r {
            Some(bytes) => spec_unhex(s@) == Some(bytes@),
            None => spec_unhex(s@) is None,
        },
{
    if s.len() % 2 != 0 {
        proof {
            lemma_odd_unhex(s@);
        }
        return None;
    }
    let mut out: Vec<u8> = Vec::new();
    let n = s.len();
    let mut i: usize = 0;
    assert(s@.skip(0) =~= s@);
    while i < n
        invariant
            n == s@.len(),
            i % 2 == 0,
            i <= n,
            n % 2 == 0,
            match spec_unhex(s@) {
                Some(all) => spec_unhex(s@.skip(i as int)) is Some
                    && all =~= out@ + spec_unhex(s@.skip(i as int)).unwrap(),
                None => spec_unhex(s@.skip(i as int)) is None,
            } || (spec_unhex(s@) is None && spec_unhex(s@.skip(i as int)) is None),
        decreases n - i,
    {
        let hi = match hex_digit_value(s[i]) {
            Some(v) => v,
            None => {
                return None;
            },
        };
        let lo = match hex_digit_value(s[i + 1]) {
            Some(v) => v,
            None => {
                return None;
            },
        };
        out.push(hi * 16 + lo);
        proof {
            assert(s@.skip(i as int).skip(2) =~= s@.skip(i + 2));
        }
        i = i + 2;
    }
    assert(s@.skip(i as int) =~= Seq::<u8>::empty());
    Some(out)
}

/// Hex text of odd length denotes nothing.
proof fn lemma_odd_unhex(s: Seq<u8>)
    requires
        s.len() % 2 == 1,
    ensures
        spec_unhex(s) is None,
    decreases s.len(),
{
    if s.len() > 1 {
        lemma_odd_unhex(s.skip(2));
    }
}

fn hex_digit_value(c: u8) -> (r: Option<u8>)
    ensures
        r == hex_value(c),
{
    if 48 <= c && c <= 57 {
        Some(c - 48)
    } else if 97 <= c && c <= 102 {
        Some(c - 87)
    } else {
        None
    }
}

} // verus!
