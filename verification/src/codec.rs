use vstd::prelude::*;
use vstd::bytes::{
    spec_u64_to_le_bytes, spec_u64_from_le_bytes, lemma_auto_spec_u64_to_from_le_bytes,
    u64_to_le_bytes, u64_from_le_bytes,
};

verus! {

/// One instruction of the binary format: an opcode byte and a 64-bit
/// immediate. Every instruction occupies one such record; kinds that take no
/// immediate carry zero.
#[derive(Clone, Copy, Debug, PartialEq, Eq, Structural)]
pub struct ByteCode {
    pub opcode: u8,
    pub value: u64,
}

/// A failure of the binary reader.
#[derive(Clone, Copy, Debug, PartialEq, Eq, Structural)]
pub enum CodecError {
    /// The byte stream ended before the promised count of records.
    Truncated,
}

/// The nine bytes of one record: the opcode, then the immediate little-endian.
pub open spec fn record_bytes(r: ByteCode) -> Seq<u8> {
    seq![r.opcode] + spec_u64_to_le_bytes(r.value)
}

/// The records of a program, in order.
pub open spec fn records_bytes(p: Seq<ByteCode>) -> Seq<u8>
    decreases p.len(),
{
    if p.len() == 0 {
        seq![]
    } else {
        record_bytes(p.first()) + records_bytes(p.drop_first())
    }
}

/// The file image of a program: the record count little-endian, then the
/// records.
pub open spec fn program_bytes(p: Seq<ByteCode>) -> Seq<u8>
    recommends
        p.len() <= u64::MAX,
{
    spec_u64_to_le_bytes(p.len() as u64) + records_bytes(p)
}

/// Reads `n` records from the front of `b`; `None` on a short stream.
/// Trailing bytes are ignored.
pub open spec fn decode_records(b: Seq<u8>, n: nat) -> Option<Seq<ByteCode>>
    decreases n,
{
    if n == 0 {
        Some(seq![])
    } else if b.len() >= 9 {
        let r = ByteCode { opcode: b[0], value: spec_u64_from_le_bytes(b.subrange(1, 9)) };
        match decode_records(b.skip(9), (n - 1) as nat) {
            Some(rest) => Some(seq![r] + rest),
            None => None,
        }
    } else {
        None
    }
}

/// Reads a whole program image: the count, then that many records.
pub open spec fn decode_program_spec(b: Seq<u8>) -> Option<Seq<ByteCode>> {
    if b.len() < 8 {
        None
    } else {
        decode_records(b.skip(8), spec_u64_from_le_bytes(b.take(8)) as nat)
    }
}

/// Appending one record appends its nine bytes.
pub proof fn lemma_records_bytes_push(p: Seq<ByteCode>, r: ByteCode)
    ensures
        records_bytes(p.push(r)) == records_bytes(p) + record_bytes(r),
    decreases p.len(),
{
    if p.len() == 0 {
        assert(p.push(r).first() == r);
        assert(p.push(r).drop_first() =~= Seq::<ByteCode>::empty());
        assert(records_bytes(Seq::<ByteCode>::empty()) =~= Seq::<u8>::empty());
        assert(records_bytes(p.push(r)) =~= record_bytes(r) + Seq::<u8>::empty());
        assert(records_bytes(p) =~= Seq::<u8>::empty());
        assert(records_bytes(p.push(r)) =~= records_bytes(p) + record_bytes(r));
    } else {
        assert(p.push(r).first() == p.first());
        assert(p.push(r).drop_first() =~= p.drop_first().push(r));
        lemma_records_bytes_push(p.drop_first(), r);
        assert(records_bytes(p.push(r)) =~= records_bytes(p) + record_bytes(r));
    }
}

proof fn lemma_decode_encoded_records(p: Seq<ByteCode>)
    ensures
        decode_records(records_bytes(p), p.len()) == Some(p),
    decreases p.len(),
{
    lemma_auto_spec_u64_to_from_le_bytes();
    if p.len() == 0 {
        assert(decode_records(records_bytes(p), 0) =~= Some(Seq::<ByteCode>::empty()));
        assert(p =~= Seq::<ByteCode>::empty());
    } else {
        let b = records_bytes(p);
        let head = record_bytes(p.first());
        assert(b == head + records_bytes(p.drop_first()));
        assert(records_bytes(p.drop_first()).len() >= 0);
        assert(b.len() >= 9) by {
            assert(head.len() == 9);
        }
        assert(b[0] == p.first().opcode);
        assert(b.subrange(1, 9) =~= spec_u64_to_le_bytes(p.first().value));
        assert(b.skip(9) =~= records_bytes(p.drop_first()));
        lemma_decode_encoded_records(p.drop_first());
        let r0 = ByteCode { opcode: b[0], value: spec_u64_from_le_bytes(b.subrange(1, 9)) };
        assert(r0 == p.first());
        assert(seq![r0] + p.drop_first() =~= p);
    }
}

/// Decoding inverts encoding: a program written as a file image reads back
/// unchanged.
pub proof fn lemma_codec_round_trip(p: Seq<ByteCode>)
    requires
        p.len() <= u64::MAX,
    ensures
        decode_program_spec(program_bytes(p)) == Some(p),
{
    lemma_auto_spec_u64_to_from_le_bytes();
    let b = program_bytes(p);
    assert(b.take(8) =~= spec_u64_to_le_bytes(p.len() as u64));
    assert(b.skip(8) =~= records_bytes(p));
    lemma_decode_encoded_records(p);
}

impl ByteCode {
    /// Appends this record's nine bytes to a byte buffer.
    pub fn write_to_bin(&self, out: &mut Vec<u8>)
        ensures
            final(out)@ == old(out)@ + record_bytes(*self),
    {
        out.push(self.opcode);
        let mut tail = u64_to_le_bytes(self.value);
        out.append(&mut tail);
        assert(out@ =~= old(out)@ + record_bytes(*self));
    }

    /// Reads the record that starts at `pos`; `Truncated` if fewer than nine
    /// bytes remain.
    pub fn read_from_bin(bytes: &[u8], pos: usize) -> (r: Result<ByteCode, CodecError>)
        ensures
            match r {
                Ok(rec) => {
                    &&& pos + 9 <= bytes@.len()
                    &&& rec.opcode == bytes@[pos as int]
                    &&& rec.value == spec_u64_from_le_bytes(
                        bytes@.subrange(pos + 1, pos + 9),
                    )
                },
                Err(e) => e == CodecError::Truncated && pos + 9 > bytes@.len(),
            },
    {
        if pos >= bytes.len() || bytes.len() - pos < 9 {
            return Err(CodecError::Truncated);
        }
        let opcode = bytes[pos];
        let vslice = vstd::slice::slice_subrange(bytes, pos + 1, pos + 9);
        let value = u64_from_le_bytes(vslice);
        Ok(ByteCode { opcode, value })
    }
}

/// Encodes a program as its file image.
pub fn encode_program(bin: &Vec<ByteCode>) -> (out: Vec<u8>)
    ensures
        out@ == program_bytes(bin@),
{
    let mut out = u64_to_le_bytes(bin.len() as u64);
    let mut i: usize = 0;
    while i < bin.len()
        invariant
            0 <= i <= bin@.len(),
            out@ == spec_u64_to_le_bytes(bin@.len() as u64) + records_bytes(bin@.take(i as int)),
        decreases bin@.len() - i,
    {
        let ghost pre = bin@.take(i as int);
        bin[i].write_to_bin(&mut out);
        proof {
            lemma_records_bytes_push(pre, bin@[i as int]);
            assert(bin@.take(i + 1) =~= pre.push(bin@[i as int]));
            assert(out@ =~= spec_u64_to_le_bytes(bin@.len() as u64) + records_bytes(
                bin@.take(i + 1),
            ));
        }
        i = i + 1;
    }
    assert(bin@.take(i as int) =~= bin@);
    out
}

/// Decodes a program file image; `Truncated` when the stream ends before the
/// promised count of records. Trailing bytes are ignored.
pub fn decode_program(bytes: &[u8]) -> (r: Result<Vec<ByteCode>, CodecError>)
    ensures
        match r {
            Ok(v) => decode_program_spec(bytes@) == Some(v@),
            Err(e) => e == CodecError::Truncated && decode_program_spec(bytes@) is None,
        },
{
    if bytes.len() < 8 {
        return Err(CodecError::Truncated);
    }
    let cslice = vstd::slice::slice_subrange(bytes, 0, 8);
    let count = u64_from_le_bytes(cslice);
    assert(cslice@ =~= bytes@.take(8));
    let mut out: Vec<ByteCode> = Vec::new();
    let mut pos: usize = 8;
    let mut i: u64 = 0;
    while i < count
        invariant
            0 <= i <= count,
            8 <= pos <= bytes@.len(),
            bytes@.len() <= usize::MAX,
            out@.len() == i,
            count == spec_u64_from_le_bytes(bytes@.take(8)),
            decode_program_spec(bytes@) == match decode_records(
                bytes@.skip(pos as int),
                (count - i) as nat,
            ) {
                Some(rest) => Some(out@ + rest),
                None => None::<Seq<ByteCode>>,
            },
        decreases count - i,
    {
        let ghost rem = bytes@.skip(pos as int);
        let rec = match ByteCode::read_from_bin(bytes, pos) {
            Ok(rec) => rec,
            Err(e) => {
                proof {
                    assert(rem.len() < 9);
                    assert(decode_records(rem, (count - i) as nat) is None);
                }
                return Err(e);
            },
        };
        proof {
            assert(rem.len() >= 9);
            assert(rem[0] == bytes@[pos as int]);
            assert(rem.subrange(1, 9) =~= bytes@.subrange(pos + 1, pos + 9));
            assert(rem.skip(9) =~= bytes@.skip(pos + 9));
            let r0 = ByteCode { opcode: rem[0], value: spec_u64_from_le_bytes(rem.subrange(1, 9)) };
            assert(r0 == rec);
        }
        let ghost out_pre = out@;
        out.push(rec);
        proof {
            let rest2 = decode_records(bytes@.skip(pos + 9), (count - i - 1) as nat);
            match rest2 {
                Some(rs) => {
                    assert(decode_records(rem, (count - i) as nat) == Some(seq![rec] + rs));
                    assert(out@ + rs =~= out_pre + (seq![rec] + rs));
                },
                None => {},
            }
        }
        assert(pos + 9 <= bytes@.len());
        pos = pos + 9;
        i = i + 1;
    }
    proof {
        assert(decode_records(bytes@.skip(pos as int), 0) == Some(Seq::<ByteCode>::empty()));
        assert(out@ + Seq::<ByteCode>::empty() =~= out@);
    }
    Ok(out)
}

} // verus!
