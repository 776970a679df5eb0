//! The wire form of queue records.
//!
//! The durable queue carries one record per pooled coin: the coin's hex
//! identifier behind a four-byte little-endian length, the layout a
//! single-string-field record has under borsh serialization.  Encoding and
//! decoding are proved inverse to each other.

use vstd::prelude::*;
use crate::errors::Error;

verus! {

/// A freshly minted pool coin announced on the durable queue.  `id` holds the
/// coin identifier as hex text bytes, `0x` prefix included.
#[derive(Debug)]
pub struct NewCoinObject {
    pub id: Vec<u8>,
}

/// The four little-endian bytes of `n`.
pub open spec fn spec_u32_le(n: u32) -> Seq<u8> {
    seq![
        (n % 256) as u8,
        (n / 256 % 256) as u8,
        (n / 65536 % 256) as u8,
        (n / 16777216) as u8,
    ]
}

/// The wire form of a record whose identifier is `id`.
pub open spec fn spec_record(id: Seq<u8>) -> Seq<u8>
    recommends
        id.len() <= u32::MAX,
{
    spec_u32_le(id.len() as u32) + id
}

/// The record a byte string denotes: a length prefix that matches the rest.
pub open spec fn spec_decode_record(data: Seq<u8>) -> Option<Seq<u8>> {
    if data.len() >= 4 && data.len() - 4 == spec_u32_le_value(data.take(4)) {
        Some(data.skip(4))
    } else {
        None
    }
}

/// The value of four little-endian bytes.
pub open spec fn spec_u32_le_value(b: Seq<u8>) -> int
    recommends
        b.len() == 4,
{
    b[0] + b[1] * 256 + b[2] * 65536 + b[3] * 16777216
}

/// Reading four little-endian bytes yields the number they were written from.
pub proof fn lemma_u32_le_value(n: u32)
    ensures
        spec_u32_le_value(spec_u32_le(n)) == n,
{
    assert(n % 256 + n / 256 % 256 * 256 + n / 65536 % 256 * 65536 + n / 16777216 * 16777216
        == n) by (nonlinear_arith);
}

/// Decoding undoes encoding for every identifier that fits the length prefix.
pub proof fn lemma_record_roundtrip(id: Seq<u8>)
    requires
        id.len() <= u32::MAX,
    ensures
        spec_decode_record(spec_record(id)) == Some(id),
{
    let data = spec_record(id);
    lemma_u32_le_value(id.len() as u32);
    assert(data.take(4) =~= spec_u32_le(id.len() as u32));
    assert(data.skip(4) =~= id);
}

impl NewCoinObject {
    /// Serializes the record for the queue.
    pub fn encode(&self) -> (r: Vec<u8>)
        requires
            self.id@.len() <= u32::MAX,
        ensures
            r@ == spec_record(self.id@),
    {
        let len = self.id.len() as u32;
        let mut r: Vec<u8> = Vec::new();
        r.push((len % 256) as u8);
        r.push((len / 256 % 256) as u8);
        r.push((len / 65536 % 256) as u8);
        r.push((len / 16777216) as u8);
        let mut i: usize = 0;
        let n = self.id.len();
        while i < n
            invariant
                n == self.id@.len(),
                i <= n,
                r@ =~= spec_u32_le(n as u32) + self.id@.take(i as int),
            decreases n - i,
        {
            r.push(self.id[i]);
            assert(self.id@.take(i as int).push(self.id@[i as int]) =~= self.id@.take(i + 1));
            i = i + 1;
        }
        assert(self.id@.take(n as int) =~= self.id@);
        r
    }

    /// Reads a record off the queue; rejects a wrong length prefix or a
    /// truncated body.
    pub fn decode(data: &Vec<u8>) -> (r: Result<NewCoinObject, Error>)
        ensures
            match r {
                Ok(rec) => spec_decode_record(data@) == Some(rec.id@),
                Err(e) => spec_decode_record(data@) is None && e == Error::Decode,
            },
    {
        if data.len() < 4 {
            return Err(Error::Decode);
        }
        let n0 = data[0] as usize;
        let n1 = data[1] as usize;
        let n2 = data[2] as usize;
        let n3 = data[3] as usize;
        let len = n0 + n1 * 256 + n2 * 65536 + n3 * 16777216;
        assert(len == spec_u32_le_value(data@.take(4)));
        if data.len() - 4 != len {
            return Err(Error::Decode);
        }
        let mut id: Vec<u8> = Vec::new();
        let mut i: usize = 4;
        let n = data.len();
        while i < n
            invariant
                n == data@.len(),
                4 <= i <= n,
                id@ =~= data@.subrange(4, i as int),
            decreases n - i,
        {
            id.push(data[i]);
            i = i + 1;
        }
        assert(id@ =~= data@.skip(4));
        Ok(NewCoinObject { id })
    }
}

} // verus!
