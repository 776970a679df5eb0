//! The JSON form of the gas section, as the HTTP surface sends it.
//!
//! The encoder is exact: its output is pinned byte for byte.  The numeric
//! fields carry the round-trip burden — a decimal is proved to parse back to
//! exactly the number it was printed from, and to be the only text that
//! parses to it.

use vstd::prelude::*;
use crate::admission::GasData;
use crate::coin::{spec_id_text, CoinRef};
use crate::hexfmt::{bytes_to_hex, spec_hex};

verus! {

/// The decimal digits of `n`, most significant first.
pub open spec fn spec_dec(n: int) -> Seq<u8>
    recommends
        n >= 0,
    decreases n,
{
    if n < 10 {
        seq![(48 + n) as u8]
    } else {
        spec_dec(n / 10).push((48 + n % 10) as u8)
    }
}

/// The number a digit string denotes.
pub open spec fn spec_dec_val(s: Seq<u8>) -> int
    decreases s.len(),
{
    if s.len() == 0 {
        0
    } else {
        spec_dec_val(s.drop_last()) * 10 + (s.last() - 48)
    }
}

/// Whether a byte string is the canonical decimal form of some number: only
/// digits, at least one, and no leading zero except for `0` itself.
pub open spec fn spec_canonical_dec(s: Seq<u8>) -> bool {
    &&& s.len() >= 1
    &&& (forall|i: int| 0 <= i < s.len() ==> 48 <= #[trigger] s[i] <= 57)
    &&& (s[0] == 48 ==> s.len() == 1)
}

/// A printed decimal is canonical.
pub proof fn lemma_dec_canonical(n: int)
    requires
        n >= 0,
    ensures
        spec_canonical_dec(spec_dec(n)),
        n >= 1 ==> spec_dec(n)[0] != 48,
    decreases n,
{
    if n >= 10 {
        lemma_dec_canonical(n / 10);
    }
}

/// Reading a printed decimal back yields the number it was printed from.
pub proof fn lemma_dec_val(n: int)
    requires
        n >= 0,
    ensures
        spec_dec_val(spec_dec(n)) == n,
    decreases n,
{
    if n < 10 {
        let s = spec_dec(n);
        assert(s.drop_last() =~= Seq::<u8>::empty());
        assert(s.last() == (48 + n) as u8);
        assert((48 + n) as u8 == 48 + n);
        assert(spec_dec_val(s) == spec_dec_val(s.drop_last()) * 10 + (s.last() - 48));
    } else {
        lemma_dec_val(n / 10);
        let s = spec_dec(n);
        assert(s.drop_last() =~= spec_dec(n / 10));
        assert(s.last() == (48 + n % 10) as u8);
        assert((48 + n % 10) as u8 == 48 + n % 10);
        assert(spec_dec_val(s) == (n / 10) * 10 + n % 10);
        assert((n / 10) * 10 + n % 10 == n) by (nonlinear_arith);
    }
}

/// A canonical digit string is the printed form of its own value: printing
/// is a bijection between numbers and canonical texts.
pub proof fn lemma_dec_unique(s: Seq<u8>)
    requires
        spec_canonical_dec(s),
    ensures
        spec_dec_val(s) >= 0,
        spec_dec(spec_dec_val(s)) == s,
        s.len() > 1 ==> spec_dec_val(s) >= 10,
    decreases s.len(),
{
    if s.len() == 1 {
        assert(s.last() == s[0]);
        assert(48 <= s[0] <= 57);
        assert(s.drop_last() =~= Seq::<u8>::empty());
        assert(spec_dec_val(s.drop_last()) == 0);
        assert(spec_dec_val(s) == s[0] - 48);
        assert(spec_dec(spec_dec_val(s)) =~= s);
    } else {
        let p = s.drop_last();
        assert(spec_canonical_dec(p)) by {
            assert(forall|i: int| 0 <= i < p.len() ==> p[i] == s[i]);
        }
        lemma_dec_unique(p);
        let v = spec_dec_val(s);
        let vp = spec_dec_val(p);
        assert(v == vp * 10 + (s.last() - 48));
        assert(p[0] != 48);
        assert(vp >= 1) by {
            if p.len() > 1 {
            } else {
                assert(p =~= spec_dec(vp));
            }
        }
        assert(v >= 10);
        assert(v / 10 == vp && v % 10 == s.last() - 48) by (nonlinear_arith)
            requires
                v == vp * 10 + (s.last() - 48),
                48 <= s.last() <= 57,
                vp >= 0,
        ;
        assert(spec_dec(v) =~= s);
    }
}

/// The value of a digit string never falls as it grows to the right.
proof fn lemma_dec_val_prefix(s: Seq<u8>, i: int)
    requires
        0 <= i <= s.len(),
        forall|j: int| 0 <= j < s.len() ==> 48 <= #[trigger] s[j] <= 57,
    ensures
        spec_dec_val(s.take(i)) <= spec_dec_val(s),
        spec_dec_val(s) >= 0,
    decreases s.len(),
{
    if s.len() > 0 {
        let p = s.drop_last();
        lemma_dec_val_prefix(p, if i <= p.len() {
            i
        } else {
            p.len() as int
        });
        assert(spec_dec_val(p) * 10 + (s.last() - 48) >= spec_dec_val(p)) by (nonlinear_arith)
            requires
                spec_dec_val(p) >= 0,
                s.last() >= 48,
        ;
        if i <= p.len() {
            assert(s.take(i) =~= p.take(i));
        } else {
            assert(s.take(i) =~= s);
        }
    }
}

/// Prints `n` in decimal.
pub fn u64_to_dec(n: u64) -> (r: Vec<u8>)
    ensures
        r@ == spec_dec(n as int),
    decreases n,
{
    if n < 10 {
        let mut r: Vec<u8> = Vec::new();
        r.push(48 + (n as u8));
        assert(r@ =~= spec_dec(n as int));
        r
    } else {
        let mut r = u64_to_dec(n / 10);
        r.push(48 + ((n % 10) as u8));
        r
    }
}

/// Reads a whole byte string as a decimal: `Some(n)` exactly when the string
/// is the canonical decimal form of `n`.
pub fn parse_dec(s: &Vec<u8>) -> (r: Option<u64>)
    ensures
        match r {
            Some(n) => s@ == spec_dec(n as int),
            None => forall|n: u64| s@ != spec_dec(n as int),
        },
{
    if s.len() == 0 {
        proof {
            assert forall|n: u64| s@ != spec_dec(n as int) by {
                lemma_dec_canonical(n as int);
            }
        }
        return None;
    }
    if s[0] == 48 && s.len() > 1 {
        proof {
            assert forall|n: u64| s@ != spec_dec(n as int) by {
                lemma_dec_canonical(n as int);
            }
        }
        return None;
    }
    let mut acc: u64 = 0;
    let n_len = s.len();
    let mut i: usize = 0;
    while i < n_len
        invariant
            n_len == s@.len() >= 1,
            i <= n_len,
            s@[0] == 48 ==> n_len == 1,
            forall|j: int| 0 <= j < i ==> 48 <= #[trigger] s@[j] <= 57,
            acc == spec_dec_val(s@.take(i as int)),
        decreases n_len - i,
    {
        let c = s[i];
        if c < 48 || c > 57 {
            proof {
                assert forall|n: u64| s@ != spec_dec(n as int) by {
                    lemma_dec_canonical(n as int);
                }
            }
            return None;
        }
        let d = (c - 48) as u64;
        if acc > (u64::MAX - d) / 10 {
            proof {
                assert forall|n: u64| s@ != spec_dec(n as int) by {
                    if s@ == spec_dec(n as int) {
                        lemma_dec_canonical(n as int);
                        lemma_dec_val(n as int);
                        lemma_dec_val_prefix(s@, i + 1);
                        assert(s@.take(i + 1).drop_last() =~= s@.take(i as int));
                        assert(spec_dec_val(s@.take(i + 1)) == acc * 10 + d);
                        assert(acc * 10 + d <= n) by (nonlinear_arith)
                            requires
                                acc * 10 + d == spec_dec_val(s@.take(i + 1)),
                                spec_dec_val(s@.take(i + 1)) <= spec_dec_val(s@),
                                spec_dec_val(s@) == n,
                        ;
                        assert(acc <= (u64::MAX - d) / 10) by (nonlinear_arith)
                            requires
                                acc * 10 + d <= u64::MAX,
                                0 <= d <= 9,
                        ;
                    }
                }
            }
            return None;
        }
        proof {
            assert(acc * 10 + d <= u64::MAX) by (nonlinear_arith)
                requires
                    acc <= (u64::MAX - d) / 10,
                    0 <= d <= 9,
            ;
            assert(s@.take(i + 1).drop_last() =~= s@.take(i as int));
        }
        acc = acc * 10 + d;
        i = i + 1;
    }
    proof {
        assert(s@.take(n_len as int) =~= s@);
        lemma_dec_unique(s@);
    }
    Some(acc)
}

/// The JSON text of one coin reference.
pub open spec fn spec_json_ref(r: CoinRef) -> Seq<u8> {
    seq![123u8, 34u8, 105u8, 100u8, 34u8, 58u8, 34u8] + spec_id_text(r.id.bytes@) + seq![
        34u8,
        44u8,
        34u8,
        118u8,
        101u8,
        114u8,
        115u8,
        105u8,
        111u8,
        110u8,
        34u8,
        58u8,
    ] + spec_dec(r.version as int) + seq![
        44u8,
        34u8,
        100u8,
        105u8,
        103u8,
        101u8,
        115u8,
        116u8,
        34u8,
        58u8,
        34u8,
    ] + spec_hex(r.digest@) + seq![34u8, 125u8]
}

/// The JSON text of a payment list: references joined by commas.
pub open spec fn spec_json_refs(s: Seq<CoinRef>) -> Seq<u8>
    decreases s.len(),
{
    if s.len() == 0 {
        Seq::empty()
    } else if s.len() == 1 {
        spec_json_ref(s[0])
    } else {
        spec_json_refs(s.drop_last()) + seq![44u8] + spec_json_ref(s.last())
    }
}

/// The JSON text of a gas section.
pub open spec fn spec_json_gas_data(g: GasData) -> Seq<u8> {
    seq![
        123u8,
        34u8,
        112u8,
        97u8,
        121u8,
        109u8,
        101u8,
        110u8,
        116u8,
        34u8,
        58u8,
        91u8,
    ] + spec_json_refs(g.payment@) + seq![
        93u8,
        44u8,
        34u8,
        111u8,
        119u8,
        110u8,
        101u8,
        114u8,
        34u8,
        58u8,
        34u8,
    ] + spec_id_text(g.owner.bytes@) + seq![
        34u8,
        44u8,
        34u8,
        112u8,
        114u8,
        105u8,
        99u8,
        101u8,
        34u8,
        58u8,
    ] + spec_dec(g.price as int) + seq![
        44u8,
        34u8,
        98u8,
        117u8,
        100u8,
        103u8,
        101u8,
        116u8,
        34u8,
        58u8,
    ] + spec_dec(g.budget as int) + seq![125u8]
}

/// A parsed coin reference: identifier bytes, version, digest bytes.
pub type RefFields = (Seq<u8>, u64, Seq<u8>);

pub open spec fn is_digit(c: u8) -> bool {
    48 <= c <= 57
}

pub open spec fn is_hex_char(c: u8) -> bool {
    (48 <= c <= 57) || (97 <= c <= 102)
}

/// Where the run of decimal digits starting at `pos` ends.
pub open spec fn digits_end(s: Seq<u8>, pos: int) -> int
    recommends
        0 <= pos <= s.len(),
    decreases s.len() - pos,
{
    if pos < s.len() && is_digit(s[pos]) {
        digits_end(s, pos + 1)
    } else {
        pos
    }
}

/// Where the run of hex digits starting at `pos` ends.
pub open spec fn hexes_end(s: Seq<u8>, pos: int) -> int
    recommends
        0 <= pos <= s.len(),
    decreases s.len() - pos,
{
    if pos < s.len() && is_hex_char(s[pos]) {
        hexes_end(s, pos + 1)
    } else {
        pos
    }
}

/// Parses an expected literal: the position after it, when it is there.
pub open spec fn sp_lit(s: Seq<u8>, pos: int, lit: Seq<u8>) -> Option<int> {
    if 0 <= pos && pos + lit.len() <= s.len() && s.subrange(pos, pos + lit.len()) == lit {
        Some(pos + lit.len())
    } else {
        None
    }
}

/// Parses a canonical decimal that fits a `u64`.
pub open spec fn sp_dec_at(s: Seq<u8>, pos: int) -> Option<(u64, int)> {
    let e = digits_end(s, pos);
    let text = s.subrange(pos, e);
    if e > pos && spec_canonical_dec(text) && spec_dec_val(text) <= u64::MAX {
        Some((spec_dec_val(text) as u64, e))
    } else {
        None
    }
}

/// Parses an `0x`-prefixed 64-digit identifier.
pub open spec fn sp_id_at(s: Seq<u8>, pos: int) -> Option<(Seq<u8>, int)> {
    if 0 <= pos && pos + 66 <= s.len() && s[pos] == 48 && s[pos + 1] == 120 {
        match crate::hexfmt::spec_unhex(s.subrange(pos + 2, pos + 66)) {
            Some(bytes) => Some((bytes, pos + 66)),
            None => None,
        }
    } else {
        None
    }
}

/// Parses the maximal run of hex digits as bytes.
pub open spec fn sp_hex_at(s: Seq<u8>, pos: int) -> Option<(Seq<u8>, int)> {
    let e = hexes_end(s, pos);
    match crate::hexfmt::spec_unhex(s.subrange(pos, e)) {
        Some(bytes) => Some((bytes, e)),
        None => None,
    }
}

/// Parses one coin reference.
pub open spec fn sp_ref_at(s: Seq<u8>, pos: int) -> Option<(RefFields, int)> {
    match sp_lit(s, pos, seq![123u8, 34u8, 105u8, 100u8, 34u8, 58u8, 34u8]) {
        None => None,
        Some(p1) => match sp_id_at(s, p1) {
            None => None,
            Some((id, p2)) => match sp_lit(
                s,
                p2,
                seq![34u8, 44u8, 34u8, 118u8, 101u8, 114u8, 115u8, 105u8, 111u8, 110u8, 34u8, 58u8],
            ) {
                None => None,
                Some(p3) => match sp_dec_at(s, p3) {
                    None => None,
                    Some((version, p4)) => match sp_lit(
                        s,
                        p4,
                        seq![44u8, 34u8, 100u8, 105u8, 103u8, 101u8, 115u8, 116u8, 34u8, 58u8, 34u8],
                    ) {
                        None => None,
                        Some(p5) => match sp_hex_at(s, p5) {
                            None => None,
                            Some((digest, p6)) => match sp_lit(s, p6, seq![34u8, 125u8]) {
                                None => None,
                                Some(p7) => Some(((id, version, digest), p7)),
                            },
                        },
                    },
                },
            },
        },
    }
}

/// Parses a nonempty comma-separated reference list: after each reference a
/// comma continues the list and anything else ends it.
pub open spec fn sp_refs_at(s: Seq<u8>, pos: int, fuel: nat) -> Option<(Seq<RefFields>, int)>
    decreases fuel,
{
    if fuel == 0 {
        None
    } else {
        match sp_ref_at(s, pos) {
            None => None,
            Some((r, p2)) => {
                if p2 < s.len() && s[p2] == 44 {
                    match sp_refs_at(s, p2 + 1, (fuel - 1) as nat) {
                        Some((rest, p3)) => Some((seq![r] + rest, p3)),
                        None => None,
                    }
                } else {
                    Some((seq![r], p2))
                }
            },
        }
    }
}

/// Parses a whole gas section: `None` unless the text is exactly the
/// canonical JSON of one.
pub open spec fn sp_gas_data(s: Seq<u8>) -> Option<(Seq<RefFields>, Seq<u8>, u64, u64)> {
    match sp_lit(
        s,
        0,
        seq![123u8, 34u8, 112u8, 97u8, 121u8, 109u8, 101u8, 110u8, 116u8, 34u8, 58u8, 91u8],
    ) {
        None => None,
        Some(p1) => {
            let parsed = if p1 < s.len() && s[p1] == 93 {
                Some((Seq::<RefFields>::empty(), p1))
            } else {
                sp_refs_at(s, p1, s.len() as nat)
            };
            match parsed {
                None => None,
                Some((payment, p2)) => match sp_lit(
                    s,
                    p2,
                    seq![93u8, 44u8, 34u8, 111u8, 119u8, 110u8, 101u8, 114u8, 34u8, 58u8, 34u8],
                ) {
                    None => None,
                    Some(p3) => match sp_id_at(s, p3) {
                        None => None,
                        Some((owner, p4)) => match sp_lit(
                            s,
                            p4,
                            seq![34u8, 44u8, 34u8, 112u8, 114u8, 105u8, 99u8, 101u8, 34u8, 58u8],
                        ) {
                            None => None,
                            Some(p5) => match sp_dec_at(s, p5) {
                                None => None,
                                Some((price, p6)) => match sp_lit(
                                    s,
                                    p6,
                                    seq![44u8, 34u8, 98u8, 117u8, 100u8, 103u8, 101u8, 116u8, 34u8, 58u8],
                                ) {
                                    None => None,
                                    Some(p7) => match sp_dec_at(s, p7) {
                                        None => None,
                                        Some((budget, p8)) => if sp_lit(s, p8, seq![125u8])
                                            == Some(s.len() as int) {
                                            Some((payment, owner, price, budget))
                                        } else {
                                            None
                                        },
                                    },
                                },
                            },
                        },
                    },
                },
            }
        },
    }
}

/// The field view of a reference list.
pub open spec fn ref_fields(payment: Seq<CoinRef>) -> Seq<RefFields> {
    payment.map_values(|r: CoinRef| (r.id.bytes@, r.version, r.digest@))
}

/// A stretch of text equal to a concatenation splits into a stretch per
/// part.
proof fn lemma_split_concat(s: Seq<u8>, pos: int, a: Seq<u8>, b: Seq<u8>)
    requires
        0 <= pos,
        pos + a.len() + b.len() <= s.len(),
        s.subrange(pos, pos + a.len() + b.len()) == a + b,
    ensures
        s.subrange(pos, pos + a.len()) == a,
        s.subrange(pos + a.len(), pos + a.len() + b.len()) == b,
{
    assert forall|k: int| 0 <= k < a.len() implies s.subrange(pos, pos + a.len())[k] == a[k] by {
        assert(s.subrange(pos, pos + a.len() + b.len())[k] == (a + b)[k]);
    }
    assert(s.subrange(pos, pos + a.len()) =~= a);
    let whole = s.subrange(pos, pos + a.len() + b.len());
    assert forall|k: int|
        0 <= k < b.len() implies s.subrange(pos + a.len(), pos + a.len() + b.len())[k] == b[k] by {
        assert(whole[a.len() + k] == (a + b)[a.len() + k]);
        assert(whole[a.len() + k] == s[pos + a.len() + k]);
        assert((a + b)[a.len() + k] == b[k]);
        assert(s.subrange(pos + a.len(), pos + a.len() + b.len())[k] == s[pos + a.len() + k]);
    }
    assert(s.subrange(pos + a.len(), pos + a.len() + b.len()) =~= b);
}

/// Hex text consists of hex digits.
proof fn lemma_hex_chars(b: Seq<u8>)
    ensures
        forall|i: int| 0 <= i < spec_hex(b).len() ==> is_hex_char(#[trigger] spec_hex(b)[i]),
    decreases b.len(),
{
    if b.len() > 0 {
        lemma_hex_chars(b.drop_first());
        crate::hexfmt::lemma_hex_len(b);
        assert forall|i: int| 0 <= i < spec_hex(b).len() implies is_hex_char(
            #[trigger] spec_hex(b)[i],
        ) by {
            if i >= 2 {
                assert(spec_hex(b)[i] == spec_hex(b.drop_first())[i - 2]);
            }
        }
    }
}

/// A digit run bounded by a non-digit ends exactly at the bound.
proof fn lemma_digits_end(s: Seq<u8>, pos: int, e: int)
    requires
        0 <= pos <= e <= s.len(),
        forall|j: int| pos <= j < e ==> is_digit(#[trigger] s[j]),
        e == s.len() || !is_digit(s[e]),
    ensures
        digits_end(s, pos) == e,
    decreases e - pos,
{
    if pos < e {
        lemma_digits_end(s, pos + 1, e);
    }
}

/// A hex run bounded by a non-hex byte ends exactly at the bound.
proof fn lemma_hexes_end(s: Seq<u8>, pos: int, e: int)
    requires
        0 <= pos <= e <= s.len(),
        forall|j: int| pos <= j < e ==> is_hex_char(#[trigger] s[j]),
        e == s.len() || !is_hex_char(s[e]),
    ensures
        hexes_end(s, pos) == e,
    decreases e - pos,
{
    if pos < e {
        lemma_hexes_end(s, pos + 1, e);
    }
}

/// A printed decimal embedded before a non-digit parses back to its number.
proof fn lemma_sp_dec_complete(s: Seq<u8>, pos: int, n: u64)
    requires
        0 <= pos,
        pos + spec_dec(n as int).len() <= s.len(),
        s.subrange(pos, pos + spec_dec(n as int).len()) == spec_dec(n as int),
        pos + spec_dec(n as int).len() == s.len() || !is_digit(
            s[pos + spec_dec(n as int).len()],
        ),
    ensures
        sp_dec_at(s, pos) == Some((n, pos + spec_dec(n as int).len())),
{
    let text = spec_dec(n as int);
    lemma_dec_canonical(n as int);
    lemma_dec_val(n as int);
    assert forall|j: int| pos <= j < pos + text.len() implies is_digit(#[trigger] s[j]) by {
        assert(s[j] == text[j - pos]);
    }
    lemma_digits_end(s, pos, pos + text.len());
}

/// An embedded identifier text parses back to its bytes.
proof fn lemma_sp_id_complete(s: Seq<u8>, pos: int, b: Seq<u8>)
    requires
        0 <= pos,
        b.len() == 32,
        pos + 66 <= s.len(),
        s.subrange(pos, pos + 66) == spec_id_text(b),
    ensures
        sp_id_at(s, pos) == Some((b, pos + 66)),
{
    crate::hexfmt::lemma_hex_len(b);
    crate::hexfmt::lemma_unhex_hex(b);
    assert(s[pos] == spec_id_text(b)[0]);
    assert(s[pos + 1] == spec_id_text(b)[1]);
    assert(s.subrange(pos + 2, pos + 66) =~= spec_id_text(b).subrange(2, 66));
    assert(spec_id_text(b).subrange(2, 66) =~= spec_hex(b));
}

/// An embedded hex text bounded by a non-hex byte parses back to its bytes.
proof fn lemma_sp_hex_complete(s: Seq<u8>, pos: int, b: Seq<u8>)
    requires
        0 <= pos,
        pos + spec_hex(b).len() < s.len(),
        s.subrange(pos, pos + spec_hex(b).len()) == spec_hex(b),
        !is_hex_char(s[pos + spec_hex(b).len()]),
    ensures
        sp_hex_at(s, pos) == Some((b, pos + spec_hex(b).len())),
{
    lemma_hex_chars(b);
    crate::hexfmt::lemma_unhex_hex(b);
    assert forall|j: int| pos <= j < pos + spec_hex(b).len() implies is_hex_char(
        #[trigger] s[j],
    ) by {
        assert(s[j] == spec_hex(b)[j - pos]);
    }
    lemma_hexes_end(s, pos, pos + spec_hex(b).len());
}

/// An embedded reference text parses back to its fields.
proof fn lemma_sp_ref_complete(s: Seq<u8>, pos: int, r: CoinRef)
    requires
        0 <= pos,
        r.id.bytes@.len() == 32,
        pos + spec_json_ref(r).len() <= s.len(),
        s.subrange(pos, pos + spec_json_ref(r).len()) == spec_json_ref(r),
    ensures
        sp_ref_at(s, pos) == Some(((r.id.bytes@, r.version, r.digest@), pos + spec_json_ref(
            r,
        ).len())),
{
    let jr = spec_json_ref(r);
    let lit1 = seq![123u8, 34u8, 105u8, 100u8, 34u8, 58u8, 34u8];
    let lit2 = seq![34u8, 44u8, 34u8, 118u8, 101u8, 114u8, 115u8, 105u8, 111u8, 110u8, 34u8, 58u8];
    let lit3 = seq![44u8, 34u8, 100u8, 105u8, 103u8, 101u8, 115u8, 116u8, 34u8, 58u8, 34u8];
    let lit4 = seq![34u8, 125u8];
    let idt = spec_id_text(r.id.bytes@);
    let dec = spec_dec(r.version as int);
    let hx = spec_hex(r.digest@);
    crate::hexfmt::lemma_hex_len(r.id.bytes@);
    let p1 = pos + 7;
    let p2 = p1 + 66;
    let p3 = p2 + 12;
    let p4 = p3 + dec.len();
    let p5 = p4 + 11;
    let p6 = p5 + hx.len();
    let p7 = p6 + 2;
    lemma_split_concat(s, pos, lit1 + idt + lit2 + dec + lit3 + hx, lit4);
    lemma_split_concat(s, pos, lit1 + idt + lit2 + dec + lit3, hx);
    lemma_split_concat(s, pos, lit1 + idt + lit2 + dec, lit3);
    lemma_split_concat(s, pos, lit1 + idt + lit2, dec);
    lemma_split_concat(s, pos, lit1 + idt, lit2);
    lemma_split_concat(s, pos, lit1, idt);
    lemma_sp_id_complete(s, p1, r.id.bytes@);
    assert(s[p4] == s.subrange(p4, p5)[0]);
    assert(s[p4] == 44u8 && !is_digit(s[p4]));
    lemma_sp_dec_complete(s, p3, r.version);
    assert(s[p6] == s.subrange(p6, p7)[0]);
    assert(s[p6] == 34u8 && !is_hex_char(s[p6]));
    lemma_sp_hex_complete(s, p5, r.digest@);
    assert(sp_lit(s, pos, lit1) == Some(p1));
    assert(sp_lit(s, p2, lit2) == Some(p3));
    assert(sp_lit(s, p4, lit3) == Some(p5));
    assert(sp_lit(s, p6, lit4) == Some(p7));
}

/// A reference list read head-first: its first element, then a comma and the
/// rest.
proof fn lemma_json_refs_head(refs: Seq<CoinRef>)
    requires
        refs.len() >= 1,
    ensures
        refs.len() == 1 ==> spec_json_refs(refs) == spec_json_ref(refs[0]),
        refs.len() > 1 ==> spec_json_refs(refs) == spec_json_ref(refs[0]) + seq![44u8]
            + spec_json_refs(refs.drop_first()),
    decreases refs.len(),
{
    if refs.len() > 1 {
        let p = refs.drop_last();
        lemma_json_refs_head(p);
        if refs.len() == 2 {
            assert(p =~= seq![refs[0]]);
            assert(refs.drop_first() =~= seq![refs[1]]);
            assert(spec_json_refs(refs.drop_first()) == spec_json_ref(refs[1]));
            assert(spec_json_refs(refs) =~= spec_json_ref(refs[0]) + seq![44u8] + spec_json_refs(
                refs.drop_first(),
            ));
        } else {
            assert(p[0] == refs[0]);
            assert(p.drop_first() =~= refs.drop_first().drop_last());
            assert(refs.drop_first().len() > 1);
            lemma_json_refs_head(refs.drop_first());
            assert(refs.drop_first().last() == refs.last());
            assert(spec_json_refs(refs) == spec_json_refs(p) + seq![44u8] + spec_json_ref(
                refs.last(),
            ));
            assert(spec_json_refs(p) == spec_json_ref(refs[0]) + seq![44u8] + spec_json_refs(
                p.drop_first(),
            ));
            assert(spec_json_refs(refs.drop_first()) == spec_json_refs(
                refs.drop_first().drop_last(),
            ) + seq![44u8] + spec_json_ref(refs.drop_first().last()));
            assert(spec_json_refs(refs) =~= spec_json_ref(refs[0]) + seq![44u8] + spec_json_refs(
                refs.drop_first(),
            ));
        }
    }
}

/// A reference list is at least as long in text as in elements.
proof fn lemma_json_refs_len(refs: Seq<CoinRef>)
    ensures
        spec_json_refs(refs).len() >= refs.len(),
    decreases refs.len(),
{
    if refs.len() > 1 {
        lemma_json_refs_len(refs.drop_last());
    }
}

/// An embedded nonempty reference list, bounded by the closing bracket,
/// parses back to its fields.
proof fn lemma_sp_refs_complete(s: Seq<u8>, pos: int, refs: Seq<CoinRef>, fuel: nat)
    requires
        0 <= pos,
        refs.len() >= 1,
        forall|i: int| 0 <= i < refs.len() ==> (#[trigger] refs[i]).id.bytes@.len() == 32,
        pos + spec_json_refs(refs).len() < s.len(),
        s.subrange(pos, pos + spec_json_refs(refs).len()) == spec_json_refs(refs),
        s[pos + spec_json_refs(refs).len()] == 93,
        fuel >= refs.len(),
    ensures
        sp_refs_at(s, pos, fuel) == Some((ref_fields(refs), pos + spec_json_refs(refs).len())),
    decreases refs.len(),
{
    lemma_json_refs_head(refs);
    let jr = spec_json_ref(refs[0]);
    let all = spec_json_refs(refs);
    let p2 = pos + jr.len();
    if refs.len() == 1 {
        lemma_sp_ref_complete(s, pos, refs[0]);
        assert(s[p2] == 93);
        assert(ref_fields(refs) =~= seq![(refs[0].id.bytes@, refs[0].version, refs[0].digest@)]);
    } else {
        let rest = refs.drop_first();
        lemma_split_concat(s, pos, jr + seq![44u8], spec_json_refs(rest));
        lemma_split_concat(s, pos, jr, seq![44u8]);
        lemma_sp_ref_complete(s, pos, refs[0]);
        assert(s[p2] == s.subrange(p2, p2 + 1)[0]);
        assert(s[p2] == 44);
        assert(s.subrange(p2 + 1, p2 + 1 + spec_json_refs(rest).len()) == spec_json_refs(rest));
        assert(s[p2 + 1 + spec_json_refs(rest).len()] == 93);
        lemma_sp_refs_complete(s, p2 + 1, rest, (fuel - 1) as nat);
        assert(ref_fields(refs) =~= seq![(refs[0].id.bytes@, refs[0].version, refs[0].digest@)]
            + ref_fields(rest));
    }
}

/// The gas-section round trip: the canonical JSON of a gas section parses
/// back to exactly its fields, so nothing is lost between the service and
/// its clients.
#[verifier::rlimit(100)]
pub proof fn lemma_gas_json_roundtrip(g: GasData)
    requires
        g.owner.bytes@.len() == 32,
        forall|i: int|
            0 <= i < g.payment@.len() ==> (#[trigger] g.payment@[i]).id.bytes@.len() == 32,
    ensures
        sp_gas_data(spec_json_gas_data(g)) == Some(
            (ref_fields(g.payment@), g.owner.bytes@, g.price, g.budget),
        ),
{
    let s = spec_json_gas_data(g);
    let head = seq![123u8, 34u8, 112u8, 97u8, 121u8, 109u8, 101u8, 110u8, 116u8, 34u8, 58u8, 91u8];
    let lit_owner = seq![93u8, 44u8, 34u8, 111u8, 119u8, 110u8, 101u8, 114u8, 34u8, 58u8, 34u8];
    let lit_price = seq![34u8, 44u8, 34u8, 112u8, 114u8, 105u8, 99u8, 101u8, 34u8, 58u8];
    let lit_budget = seq![44u8, 34u8, 98u8, 117u8, 100u8, 103u8, 101u8, 116u8, 34u8, 58u8];
    let refs = spec_json_refs(g.payment@);
    let dec_p = spec_dec(g.price as int);
    let dec_b = spec_dec(g.budget as int);
    let idt = spec_id_text(g.owner.bytes@);
    crate::hexfmt::lemma_hex_len(g.owner.bytes@);
    let p1 = 12int;
    let p2 = p1 + refs.len();
    let p3 = p2 + 11;
    let p4 = p3 + 66;
    let p5 = p4 + 10;
    let p6 = p5 + dec_p.len();
    let p7 = p6 + 10;
    let p8 = p7 + dec_b.len();
    assert(s.len() == p8 + 1);
    assert(s.subrange(0, s.len() as int) =~= s);
    lemma_split_concat(s, 0, head + refs + lit_owner + idt + lit_price + dec_p + lit_budget + dec_b, seq![125u8]);
    lemma_split_concat(s, 0, head + refs + lit_owner + idt + lit_price + dec_p + lit_budget, dec_b);
    lemma_split_concat(s, 0, head + refs + lit_owner + idt + lit_price + dec_p, lit_budget);
    lemma_split_concat(s, 0, head + refs + lit_owner + idt + lit_price, dec_p);
    lemma_split_concat(s, 0, head + refs + lit_owner + idt, lit_price);
    lemma_split_concat(s, 0, head + refs + lit_owner, idt);
    lemma_split_concat(s, 0, head + refs, lit_owner);
    lemma_split_concat(s, 0, head, refs);
    assert(sp_lit(s, 0, head) == Some(p1));
    assert(s[p2] == s.subrange(p2, p3)[0]);
    assert(s[p2] == 93);
    if g.payment@.len() == 0 {
        assert(refs =~= Seq::<u8>::empty());
        assert(s[p1] == 93);
        assert(ref_fields(g.payment@) =~= Seq::<RefFields>::empty());
    } else {
        lemma_json_refs_head(g.payment@);
        assert(s[p1] == s.subrange(p1, p2)[0]);
        assert(s[p1] == 123);
        lemma_json_refs_len(g.payment@);
        lemma_sp_refs_complete(s, p1, g.payment@, s.len() as nat);
    }
    assert(sp_lit(s, p2, lit_owner) == Some(p3));
    lemma_sp_id_complete(s, p3, g.owner.bytes@);
    assert(sp_lit(s, p4, lit_price) == Some(p5));
    assert(s[p6] == s.subrange(p6, p7)[0]);
    assert(s[p6] == 44u8 && !is_digit(s[p6]));
    lemma_sp_dec_complete(s, p5, g.price);
    assert(sp_lit(s, p6, lit_budget) == Some(p7));
    assert(s[p8] == s.subrange(p8, p8 + 1)[0]);
    assert(s[p8] == 125u8 && !is_digit(s[p8]));
    lemma_sp_dec_complete(s, p7, g.budget);
    assert(sp_lit(s, p8, seq![125u8]) == Some(s.len() as int));
}

/// Appends a whole byte vector.
fn push_vec(out: &mut Vec<u8>, piece: &Vec<u8>)
    ensures
        final(out)@ == old(out)@ + piece@,
{
    let ghost base = out@;
    let n = piece.len();
    let mut i: usize = 0;
    while i < n
        invariant
            n == piece@.len(),
            i <= n,
            out@ =~= base + piece@.take(i as int),
        decreases n - i,
    {
        out.push(piece[i]);
        i = i + 1;
    }
    assert(piece@.take(n as int) =~= piece@);
}

/// Serializes one coin reference to JSON.
fn json_of_ref(r: &CoinRef) -> (out: Vec<u8>)
    ensures
        out@ == spec_json_ref(*r),
{
    let mut out: Vec<u8> = Vec::new();
    push_vec(&mut out, &(vec![123, 34, 105, 100, 34, 58, 34u8]));
    let text = r.id.to_hex_text();
    push_vec(&mut out, &text);
    push_vec(&mut out, &(vec![34, 44, 34, 118, 101, 114, 115, 105, 111, 110, 34, 58u8]));
    let version = u64_to_dec(r.version);
    push_vec(&mut out, &version);
    push_vec(&mut out, &(vec![44, 34, 100, 105, 103, 101, 115, 116, 34, 58, 34u8]));
    let digest = bytes_to_hex(&r.digest);
    push_vec(&mut out, &digest);
    push_vec(&mut out, &(vec![34, 125u8]));
    proof {
        assert(out@ =~= spec_json_ref(*r));
    }
    out
}

impl GasData {
    /// Serializes the gas section to its canonical JSON text.
    pub fn to_json(&self) -> (out: Vec<u8>)
        ensures
            out@ == spec_json_gas_data(*self),
    {
        let mut out: Vec<u8> = Vec::new();
        push_vec(&mut out, &(vec![123, 34, 112, 97, 121, 109, 101, 110, 116, 34, 58, 91u8]));
        let ghost head = out@;
        let n = self.payment.len();
        let mut i: usize = 0;
        assert(out@ =~= head + spec_json_refs(self.payment@.take(0)));
        while i < n
            invariant
                n == self.payment@.len(),
                i <= n,
                out@ =~= head + spec_json_refs(self.payment@.take(i as int)),
            decreases n - i,
        {
            if i > 0 {
                push_vec(&mut out, &(vec![44u8]));
            }
            let piece = json_of_ref(&self.payment[i]);
            push_vec(&mut out, &piece);
            proof {
                let taken = self.payment@.take(i + 1);
                assert(taken.drop_last() =~= self.payment@.take(i as int));
                assert(taken.last() == self.payment@[i as int]);
                if i == 0 {
                    assert(spec_json_refs(taken) == spec_json_ref(self.payment@[0]));
                    assert(out@ =~= head + spec_json_refs(taken));
                } else {
                    assert(out@ =~= head + spec_json_refs(taken));
                }
            }
            i = i + 1;
        }
        proof {
            assert(self.payment@.take(n as int) =~= self.payment@);
        }
        push_vec(&mut out, &(vec![93, 44, 34, 111, 119, 110, 101, 114, 34, 58, 34u8]));
        let owner = crate::coin::CoinId { bytes: self.owner.bytes.clone() };
        assert(owner.bytes@ =~= self.owner.bytes@);
        let owner_text = owner.to_hex_text();
        push_vec(&mut out, &owner_text);
        push_vec(&mut out, &(vec![34, 44, 34, 112, 114, 105, 99, 101, 34, 58u8]));
        let price = u64_to_dec(self.price);
        push_vec(&mut out, &price);
        push_vec(&mut out, &(vec![44, 34, 98, 117, 100, 103, 101, 116, 34, 58u8]));
        let budget = u64_to_dec(self.budget);
        push_vec(&mut out, &budget);
        push_vec(&mut out, &(vec![125u8]));
        proof {
            assert(out@ =~= spec_json_gas_data(*self));
        }
        out
    }
}

/// Parses an expected literal at `pos`.
fn eat_lit(s: &Vec<u8>, pos: usize, lit: &Vec<u8>) -> (r: Option<usize>)
    ensures
        match r {
            Some(p) => sp_lit(s@, pos as int, lit@) == Some(p as int),
            None => sp_lit(s@, pos as int, lit@) is None,
        },
{
    let n = lit.len();
    if pos > s.len() || n > s.len() - pos {
        return None;
    }
    let mut i: usize = 0;
    while i < n
        invariant
            n == lit@.len(),
            pos + n <= s@.len(),
            s@.len() <= usize::MAX,
            i <= n,
            forall|j: int| 0 <= j < i ==> s@[pos + j] == lit@[j],
        decreases n - i,
    {
        if s[pos + i] != lit[i] {
            assert(s@.subrange(pos as int, pos + n) != lit@) by {
                assert(s@.subrange(pos as int, pos + n)[i as int] == s@[pos + i]);
            }
            return None;
        }
        i = i + 1;
    }
    assert(s@.subrange(pos as int, pos + n) =~= lit@);
    Some(pos + n)
}

/// Parses a canonical decimal at `pos`, up to the first non-digit.
fn parse_dec_at(s: &Vec<u8>, pos: usize) -> (r: Option<(u64, usize)>)
    requires
        pos <= s@.len(),
    ensures
        match r {
            Some(p) => sp_dec_at(s@, pos as int) == Some((p.0, p.1 as int)),
            None => sp_dec_at(s@, pos as int) is None,
        },
{
    let n = s.len();
    let mut e: usize = pos;
    while e < n && 48 <= s[e] && s[e] <= 57
        invariant
            pos <= e <= n,
            n == s@.len(),
            forall|j: int| pos <= j < e ==> is_digit(#[trigger] s@[j]),
        decreases n - e,
    {
        e = e + 1;
    }
    proof {
        lemma_digits_end(s@, pos as int, e as int);
    }
    let mut text: Vec<u8> = Vec::new();
    let mut i: usize = pos;
    while i < e
        invariant
            pos <= i <= e <= n,
            n == s@.len(),
            text@ =~= s@.subrange(pos as int, i as int),
        decreases e - i,
    {
        text.push(s[i]);
        i = i + 1;
    }
    assert(text@ =~= s@.subrange(pos as int, e as int));
    if e == pos {
        return None;
    }
    match parse_dec(&text) {
        Some(v) => {
            proof {
                lemma_dec_canonical(v as int);
                lemma_dec_val(v as int);
            }
            Some((v, e))
        },
        None => {
            proof {
                if sp_dec_at(s@, pos as int) is Some {
                    lemma_dec_unique(text@);
                    let v = spec_dec_val(text@);
                    assert(text@ == spec_dec(v as u64 as int));
                }
            }
            None
        },
    }
}

/// Parses an `0x`-prefixed identifier at `pos`.
fn parse_id_at(s: &Vec<u8>, pos: usize) -> (r: Option<(Vec<u8>, usize)>)
    requires
        pos <= s@.len(),
    ensures
        match r {
            Some(p) => sp_id_at(s@, pos as int) == Some((p.0@, p.1 as int)),
            None => sp_id_at(s@, pos as int) is None,
        },
{
    if s.len() - pos < 66 || s[pos] != 48 || s[pos + 1] != 120 {
        return None;
    }
    let end = pos + 66;
    let mut text: Vec<u8> = Vec::new();
    let mut i: usize = pos + 2;
    while i < end
        invariant
            end == pos + 66,
            pos + 2 <= i <= pos + 66 <= s@.len(),
            s@.len() <= usize::MAX,
            text@ =~= s@.subrange(pos + 2, i as int),
        decreases pos + 66 - i,
    {
        text.push(s[i]);
        i = i + 1;
    }
    assert(text@ =~= s@.subrange(pos + 2, pos + 66));
    match crate::hexfmt::hex_to_bytes(&text) {
        Some(bytes) => Some((bytes, pos + 66)),
        None => None,
    }
}

/// Parses a run of hex digits at `pos` as bytes.
fn parse_hex_at(s: &Vec<u8>, pos: usize) -> (r: Option<(Vec<u8>, usize)>)
    requires
        pos <= s@.len(),
    ensures
        match r {
            Some(p) => sp_hex_at(s@, pos as int) == Some((p.0@, p.1 as int)),
            None => sp_hex_at(s@, pos as int) is None,
        },
{
    let n = s.len();
    let mut e: usize = pos;
    while e < n && ((48 <= s[e] && s[e] <= 57) || (97 <= s[e] && s[e] <= 102))
        invariant
            pos <= e <= n,
            n == s@.len(),
            forall|j: int| pos <= j < e ==> is_hex_char(#[trigger] s@[j]),
        decreases n - e,
    {
        e = e + 1;
    }
    proof {
        lemma_hexes_end(s@, pos as int, e as int);
    }
    let mut text: Vec<u8> = Vec::new();
    let mut i: usize = pos;
    while i < e
        invariant
            pos <= i <= e <= n,
            n == s@.len(),
            text@ =~= s@.subrange(pos as int, i as int),
        decreases e - i,
    {
        text.push(s[i]);
        i = i + 1;
    }
    assert(text@ =~= s@.subrange(pos as int, e as int));
    match crate::hexfmt::hex_to_bytes(&text) {
        Some(bytes) => Some((bytes, e)),
        None => None,
    }
}

/// Parses one coin reference at `pos`.
fn parse_ref_at(s: &Vec<u8>, pos: usize) -> (r: Option<(CoinRef, usize)>)
    requires
        pos <= s@.len(),
    ensures
        match r {
            Some(p) => (sp_ref_at(s@, pos as int) matches Some(f) && f.0 == (
                p.0.id.bytes@,
                p.0.version,
                p.0.digest@,
            ) && f.1 == p.1 as int) && p.1 <= s@.len(),
            None => sp_ref_at(s@, pos as int) is None,
        },
{
    let p1 = match eat_lit(s, pos, &(vec![123u8, 34, 105, 100, 34, 58, 34])) {
        Some(p) => p,
        None => { return None },
    };
    let (id_bytes, p2) = match parse_id_at(s, p1) {
        Some(p) => p,
        None => { return None },
    };
    let p3 = match eat_lit(
        s,
        p2,
        &(vec![34u8, 44, 34, 118, 101, 114, 115, 105, 111, 110, 34, 58]),
    ) {
        Some(p) => p,
        None => { return None },
    };
    let (version, p4) = match parse_dec_at(s, p3) {
        Some(p) => p,
        None => { return None },
    };
    let p5 = match eat_lit(s, p4, &(vec![44u8, 34, 100, 105, 103, 101, 115, 116, 34, 58, 34])) {
        Some(p) => p,
        None => { return None },
    };
    let (digest, p6) = match parse_hex_at(s, p5) {
        Some(p) => p,
        None => { return None },
    };
    let p7 = match eat_lit(s, p6, &(vec![34u8, 125])) {
        Some(p) => p,
        None => { return None },
    };
    Some((CoinRef { id: crate::coin::CoinId { bytes: id_bytes }, version, digest }, p7))
}

/// Parses a nonempty reference list at `pos`.
fn parse_refs_at(s: &Vec<u8>, pos: usize, fuel: usize) -> (r: Option<(Vec<CoinRef>, usize)>)
    requires
        pos <= s@.len(),
    ensures
        match r {
            Some(p) => (sp_refs_at(s@, pos as int, fuel as nat) matches Some(f) && f.0
                == ref_fields(p.0@) && f.1 == p.1 as int) && p.1 <= s@.len(),
            None => sp_refs_at(s@, pos as int, fuel as nat) is None,
        },
    decreases fuel,
{
    if fuel == 0 {
        return None;
    }
    let (first, p2) = match parse_ref_at(s, pos) {
        Some(p) => p,
        None => { return None },
    };
    if p2 < s.len() && s[p2] == 44 {
        match parse_refs_at(s, p2 + 1, fuel - 1) {
            Some((rest, p3)) => {
                let mut out: Vec<CoinRef> = Vec::new();
                out.push(first);
                let ghost first_fields = (out@[0].id.bytes@, out@[0].version, out@[0].digest@);
                let mut k: usize = 0;
                let n = rest.len();
                while k < n
                    invariant
                        n == rest@.len(),
                        k <= n,
                        out@.len() == k + 1,
                        ref_fields(out@) =~= seq![first_fields] + ref_fields(rest@).take(k as int),
                    decreases n - k,
                {
                    let ghost before = ref_fields(out@);
                    out.push(rest[k].duplicate());
                    proof {
                        assert(ref_fields(out@) =~= before.push(
                            (rest@[k as int].id.bytes@, rest@[k as int].version, rest@[
                                k as int
                            ].digest@),
                        ));
                        assert(ref_fields(rest@).take(k + 1) =~= ref_fields(rest@).take(
                            k as int,
                        ).push(ref_fields(rest@)[k as int]));
                    }
                    k = k + 1;
                }
                proof {
                    assert(ref_fields(rest@).take(n as int) =~= ref_fields(rest@));
                    assert(ref_fields(out@) =~= seq![first_fields] + ref_fields(rest@));
                }
                Some((out, p3))
            },
            None => None,
        }
    } else {
        let mut out: Vec<CoinRef> = Vec::new();
        out.push(first);
        proof {
            assert(ref_fields(out@) =~= seq![
                (out@[0].id.bytes@, out@[0].version, out@[0].digest@),
            ]);
        }
        Some((out, p2))
    }
}

impl GasData {
    /// Reads a gas section back from its canonical JSON text: the exact
    /// inverse of [`GasData::to_json`], refusing everything else the parser
    /// recognizes as non-canonical.
    pub fn from_json(s: &Vec<u8>) -> (r: Option<GasData>)
        ensures
            match r {
                Some(g) => (sp_gas_data(s@) matches Some(t) && t.0 == ref_fields(g.payment@)
                    && t.1 == g.owner.bytes@ && t.2 == g.price && t.3 == g.budget),
                None => sp_gas_data(s@) is None,
            },
    {
        let lit_head: Vec<u8> = vec![123u8, 34, 112, 97, 121, 109, 101, 110, 116, 34, 58, 91];
        assert(lit_head@ =~= seq![
            123u8, 34u8, 112u8, 97u8, 121u8, 109u8, 101u8, 110u8, 116u8, 34u8, 58u8, 91u8,
        ]);
        let lit_owner: Vec<u8> = vec![93u8, 44, 34, 111, 119, 110, 101, 114, 34, 58, 34];
        assert(lit_owner@ =~= seq![
            93u8, 44u8, 34u8, 111u8, 119u8, 110u8, 101u8, 114u8, 34u8, 58u8, 34u8,
        ]);
        let lit_price: Vec<u8> = vec![34u8, 44, 34, 112, 114, 105, 99, 101, 34, 58];
        assert(lit_price@ =~= seq![34u8, 44u8, 34u8, 112u8, 114u8, 105u8, 99u8, 101u8, 34u8, 58u8]);
        let lit_budget: Vec<u8> = vec![44u8, 34, 98, 117, 100, 103, 101, 116, 34, 58];
        assert(lit_budget@ =~= seq![
            44u8, 34u8, 98u8, 117u8, 100u8, 103u8, 101u8, 116u8, 34u8, 58u8,
        ]);
        let lit_close: Vec<u8> = vec![125u8];
        assert(lit_close@ =~= seq![125u8]);
        let p1 = match eat_lit(s, 0, &lit_head) {
            Some(p) => p,
            None => { return None },
        };
        let (payment, p2) = if p1 < s.len() && s[p1] == 93 {
            (Vec::new(), p1)
        } else {
            match parse_refs_at(s, p1, s.len()) {
                Some(p) => p,
                None => { return None },
            }
        };
        assert(ref_fields(Seq::<CoinRef>::empty()) =~= Seq::<RefFields>::empty());
        let p3 = match eat_lit(s, p2, &lit_owner) {
            Some(p) => p,
            None => { return None },
        };
        let (owner_bytes, p4) = match parse_id_at(s, p3) {
            Some(p) => p,
            None => { return None },
        };
        let p5 = match eat_lit(s, p4, &lit_price) {
            Some(p) => p,
            None => { return None },
        };
        let (price, p6) = match parse_dec_at(s, p5) {
            Some(p) => p,
            None => { return None },
        };
        let p7 = match eat_lit(s, p6, &lit_budget) {
            Some(p) => p,
            None => { return None },
        };
        let (budget, p8) = match parse_dec_at(s, p7) {
            Some(p) => p,
            None => { return None },
        };
        match eat_lit(s, p8, &lit_close) {
            Some(end) => {
                if end != s.len() {
                    return None;
                }
            },
            None => { return None },
        }
        Some(GasData { payment, owner: crate::coin::Address { bytes: owner_bytes }, price, budget })
    }
}

} // verus!
