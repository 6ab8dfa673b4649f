//! The `.bmpd` container encoding: a 13-byte magic, then records each made
//! of a u32 big-endian length and the payload.

use vstd::prelude::*;

verus! {

/// The container magic, `BMPDOPENBMP1\n`.
pub const MAGIC: [u8; 13] = [66, 77, 80, 68, 79, 80, 69, 78, 66, 77, 80, 49, 10];

/// The bytes of the container magic.
pub open spec fn magic_bytes() -> Seq<u8> {
    seq![66u8, 77u8, 80u8, 68u8, 79u8, 80u8, 69u8, 78u8, 66u8, 77u8, 80u8, 49u8, 10u8]
}

/// The four big-endian bytes of the low 32 bits of `n`.
pub open spec fn be32_bytes(n: nat) -> Seq<u8> {
    let v = n % 4294967296;
    seq![(v / 16777216) as u8, ((v / 65536) % 256) as u8, ((v / 256) % 256) as u8, (v % 256) as u8]
}

/// The encoding of one record.
pub open spec fn record_bytes(payload: Seq<u8>) -> Seq<u8> {
    be32_bytes(payload.len()) + payload
}

/// The encoding of a sequence of records, magic excluded.
pub open spec fn records_bytes(payloads: Seq<Seq<u8>>) -> Seq<u8>
    decreases payloads.len(),
{
    if payloads.len() == 0 {
        Seq::empty()
    } else {
        records_bytes(payloads.drop_last()) + record_bytes(payloads.last())
    }
}

/// A whole container holding `payloads`.
pub open spec fn container_bytes(payloads: Seq<Seq<u8>>) -> Seq<u8> {
    magic_bytes() + records_bytes(payloads)
}

/// The container magic as a vector.
pub fn magic_vec() -> (r: Vec<u8>)
    ensures
        r@ == magic_bytes(),
{
    let r = vec![66u8, 77u8, 80u8, 68u8, 79u8, 80u8, 69u8, 78u8, 66u8, 77u8, 80u8, 49u8, 10u8];
    proof {
        assert(r@ =~= magic_bytes());
    }
    r
}

/// The encoding of one record: the payload length (its low 32 bits) then the payload.
pub fn encode_record(payload: &[u8]) -> (r: Vec<u8>)
    ensures
        r@ == record_bytes(payload@),
{
    let len = (payload.len() as u64 % 4294967296) as u32;
    let mut out: Vec<u8> = Vec::new();
    out.push((len / 16777216) as u8);
    out.push(((len / 65536) % 256) as u8);
    out.push(((len / 256) % 256) as u8);
    out.push((len % 256) as u8);
    let mut i: usize = 0;
    while i < payload.len()
        invariant
            i <= payload@.len(),
            out@ == be32_bytes(payload@.len()) + payload@.subrange(0, i as int),
        decreases payload@.len() - i,
    {
        out.push(payload[i]);
        proof {
            assert(payload@.subrange(0, i + 1) =~= payload@.subrange(0, i as int).push(payload@[i as int]));
        }
        i = i + 1;
    }
    proof {
        assert(payload@.subrange(0, payload@.len() as int) =~= payload@);
    }
    out
}

/// Running totals of a container being written.
pub struct ObmpEncoder {
    messages_written: u64,
    bytes_written: u64,
}

impl ObmpEncoder {
    /// Records written so far.
    pub closed spec fn messages(&self) -> nat {
        self.messages_written as nat
    }

    /// Bytes written so far, magic included.
    pub closed spec fn bytes(&self) -> nat {
        self.bytes_written as nat
    }

    /// Totals of a container that holds only its magic.
    pub fn new() -> (r: Self)
        ensures
            r.messages() == 0,
            r.bytes() == 13,
    {
        ObmpEncoder { messages_written: 0, bytes_written: 13 }
    }

    /// Encodes one record and counts it.
    pub fn encode_frame(&mut self, payload: &[u8]) -> (r: Vec<u8>)
        requires
            old(self).messages() < u64::MAX,
            old(self).bytes() + 4 + payload@.len() <= u64::MAX,
        ensures
            r@ == record_bytes(payload@),
            final(self).messages() == old(self).messages() + 1,
            final(self).bytes() == old(self).bytes() + 4 + payload@.len(),
    {
        let r = encode_record(payload);
        self.messages_written = self.messages_written + 1;
        self.bytes_written = self.bytes_written + 4 + payload.len() as u64;
        r
    }

    /// Records written so far.
    pub fn messages_written(&self) -> (r: u64)
        ensures
            r == self.messages(),
    {
        self.messages_written
    }

    /// Bytes written so far, magic included.
    pub fn bytes_written(&self) -> (r: u64)
        ensures
            r == self.bytes(),
    {
        self.bytes_written
    }
}

} // verus!
