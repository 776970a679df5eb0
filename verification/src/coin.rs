//! Coin identifiers and on-chain coin references, as the core sees them.
//!
//! On the wire a coin identifier is hex text with an `0x` prefix; in the
//! key-value store the coin sits under that text behind a `gas:` prefix.
//! Printing and parsing are strict inverses, so the text a lease was recorded
//! under determines the coin it names.

use vstd::prelude::*;
use crate::hexfmt::{bytes_to_hex, hex_to_bytes, lemma_hex_len, lemma_hex_unhex, lemma_unhex_hex,
    spec_hex, spec_unhex};

verus! {

/// The number of bytes in a coin identifier or an account address.
pub const ID_BYTES: usize = 32;

/// Identifier of a coin object on-chain.
#[derive(Clone, Debug)]
pub struct CoinId {
    pub bytes: Vec<u8>,
}

/// The hex text of an identifier, `0x` prefix included.
pub open spec fn spec_id_text(bytes: Seq<u8>) -> Seq<u8> {
    seq![48u8, 120u8] + spec_hex(bytes)
}

/// The identifier a piece of text names: an `0x` prefix and exactly 64
/// lower-case hex digits.
pub open spec fn spec_id_of_text(s: Seq<u8>) -> Option<Seq<u8>> {
    if s.len() == 2 + 2 * ID_BYTES && s[0] == 48u8 && s[1] == 120u8 {
        match spec_unhex(s.skip(2)) {
            Some(bytes) => Some(bytes),
            None => None,
        }
    } else {
        None
    }
}

/// The store key under which a pooled coin's sentinel lives.
pub open spec fn spec_gas_key(bytes: Seq<u8>) -> Seq<u8> {
    seq![103u8, 97u8, 115u8, 58u8] + spec_id_text(bytes)
}

/// Parsing undoes printing: the text of an identifier names that identifier.
pub proof fn lemma_id_text_roundtrip(bytes: Seq<u8>)
    requires
        bytes.len() == ID_BYTES,
    ensures
        spec_id_of_text(spec_id_text(bytes)) == Some(bytes),
{
    lemma_hex_len(bytes);
    lemma_unhex_hex(bytes);
    assert(spec_id_text(bytes).skip(2) =~= spec_hex(bytes));
}

/// Two pieces of text that name the same identifier are the same text: a
/// lease key determines its coin.
pub proof fn lemma_id_text_injective(s1: Seq<u8>, s2: Seq<u8>)
    requires
        spec_id_of_text(s1) is Some,
        spec_id_of_text(s1) == spec_id_of_text(s2),
    ensures
        s1 == s2,
{
    lemma_hex_unhex(s1.skip(2));
    lemma_hex_unhex(s2.skip(2));
    assert(s1 =~= seq![48u8, 120u8] + s1.skip(2));
    assert(s2 =~= seq![48u8, 120u8] + s2.skip(2));
}

impl CoinId {
    /// A genuine identifier holds exactly [`ID_BYTES`] bytes.
    pub open spec fn wf(&self) -> bool {
        self.bytes@.len() == ID_BYTES
    }

    /// Prints the identifier as `0x` followed by 64 lower-case hex digits.
    pub fn to_hex_text(&self) -> (r: Vec<u8>)
        ensures
            r@ == spec_id_text(self.bytes@),
    {
        let mut r: Vec<u8> = Vec::new();
        r.push(48);
        r.push(120);
        let hex = bytes_to_hex(&self.bytes);
        let mut i: usize = 0;
        let n = hex.len();
        while i < n
            invariant
                n == hex@.len(),
                i <= n,
                hex@ == spec_hex(self.bytes@),
                r@ =~= seq![48u8, 120u8] + hex@.take(i as int),
            decreases n - i,
        {
            r.push(hex[i]);
            i = i + 1;
        }
        assert(hex@.take(n as int) =~= hex@);
        r
    }

    /// Reads an identifier back from its hex text; `None` unless the text is
    /// an `0x` prefix and exactly 64 lower-case hex digits.
    pub fn from_hex_text(s: &Vec<u8>) -> (r: Option<CoinId>)
        ensures
            match r {
                Some(id) => spec_id_of_text(s@) == Some(id.bytes@) && id.wf(),
                None => spec_id_of_text(s@) is None,
            },
    {
        if s.len() != 2 + 2 * ID_BYTES || s[0] != 48 || s[1] != 120 {
            return None;
        }
        let mut body: Vec<u8> = Vec::new();
        let mut i: usize = 2;
        let n = s.len();
        while i < n
            invariant
                n == s@.len(),
                2 <= i <= n,
                body@ =~= s@.subrange(2, i as int),
            decreases n - i,
        {
            body.push(s[i]);
            i = i + 1;
        }
        assert(body@ =~= s@.skip(2));
        match hex_to_bytes(&body) {
            Some(bytes) => {
                proof {
                    lemma_unhex_len(body@);
                }
                Some(CoinId { bytes })
            },
            None => None,
        }
    }

    /// A second handle on the same identifier.
    pub fn duplicate(&self) -> (r: CoinId)
        ensures
            r.bytes@ == self.bytes@,
    {
        let bytes = self.bytes.clone();
        assert(bytes@ =~= self.bytes@);
        CoinId { bytes }
    }

    /// The key-value-store key of this coin: `gas:` followed by the hex text.
    pub fn gas_key(&self) -> (r: Vec<u8>)
        ensures
            r@ == spec_gas_key(self.bytes@),
    {
        let text = self.to_hex_text();
        let mut r: Vec<u8> = Vec::new();
        r.push(103);
        r.push(97);
        r.push(115);
        r.push(58);
        let mut i: usize = 0;
        let n = text.len();
        while i < n
            invariant
                n == text@.len(),
                i <= n,
                text@ == spec_id_text(self.bytes@),
                r@ =~= seq![103u8, 97u8, 115u8, 58u8] + text@.take(i as int),
            decreases n - i,
        {
            r.push(text[i]);
            i = i + 1;
        }
        assert(text@.take(n as int) =~= text@);
        r
    }
}

/// A decoded hex text is half as long as its source.
proof fn lemma_unhex_len(s: Seq<u8>)
    requires
        spec_unhex(s) is Some,
    ensures
        spec_unhex(s).unwrap().len() == s.len() / 2,
    decreases s.len(),
{
    if s.len() >= 2 {
        lemma_unhex_len(s.skip(2));
    }
}

/// The on-chain reference of a coin: identifier, version, digest.  Refreshed
/// from chain before each use, since the version moves with every transaction
/// that touches the coin.
#[derive(Clone, Debug)]
pub struct CoinRef {
    pub id: CoinId,
    pub version: u64,
    pub digest: Vec<u8>,
}

impl CoinRef {
    pub open spec fn wf(&self) -> bool {
        self.id.wf()
    }

    /// A second handle on the same reference.
    pub fn duplicate(&self) -> (r: CoinRef)
        ensures
            r.id.bytes@ == self.id.bytes@,
            r.version == self.version,
            r.digest@ == self.digest@,
    {
        let digest = self.digest.clone();
        assert(digest@ =~= self.digest@);
        CoinRef { id: self.id.duplicate(), version: self.version, digest }
    }
}

/// An account address on-chain; the sponsor's own, in every use the core
/// makes of one.
#[derive(Clone, Debug)]
pub struct Address {
    pub bytes: Vec<u8>,
}

impl Address {
    pub open spec fn wf(&self) -> bool {
        self.bytes@.len() == ID_BYTES
    }
}

} // verus!
