use vstd::prelude::*;
use vstd::bytes::{spec_u64_to_le_bytes, u64_to_le_bytes};
use crate::codec::ByteCode;
use crate::isa::{TokenType, kind_of_opcode};

verus! {

/// A failure of the native-code path. Only `UnsupportedInJit` arises in
/// compilation; the two map errors belong to the installer that places the
/// code in executable memory.
#[derive(Clone, Copy, Debug, PartialEq, Eq, Structural)]
pub enum JitError {
    /// The procedure body holds an instruction outside the native subset.
    UnsupportedInJit,
    /// Executable memory could not be allocated.
    MapAllocFailed,
    /// The memory could not be turned executable.
    MapProtectFailed,
}

/// The x86-64 bytes one record lowers to, or `None` outside the supported
/// subset.
///
/// `Push v` is `mov rax, v; push rax`; `Pop` is `pop rcx`; `Swap k` moves
/// the top into `rax`, exchanges it with the word `8*k` bytes up the native
/// stack through `rcx`, and writes it back; `Uadd64` is
/// `pop rax; pop rbx; add rax, rbx; push rax`; `Ret` is `pop rax; ret`.
pub open spec fn jit_record_bytes(r: ByteCode) -> Option<Seq<u8>> {
    let k = kind_of_opcode(r.opcode);
    if k == TokenType::Push {
        Some(seq![0x48u8, 0xb8u8] + spec_u64_to_le_bytes(r.value) + seq![0x50u8])
    } else if k == TokenType::Pop {
        Some(seq![0x59u8])
    } else if k == TokenType::Swap {
        let dist = ((r.value * 8) % 0x1_0000_0000_0000_0000) as u64;
        Some(
            seq![0x48u8, 0x8bu8, 0x04u8, 0x24u8, 0x48u8, 0xb9u8] + spec_u64_to_le_bytes(dist)
                + seq![0x48u8, 0x87u8, 0x04u8, 0x0cu8, 0x48u8, 0x89u8, 0x04u8, 0x24u8],
        )
    } else if k == TokenType::Uadd64 {
        Some(seq![0x58u8, 0x5bu8, 0x48u8, 0x01u8, 0xd8u8, 0x50u8])
    } else if k == TokenType::Ret {
        Some(seq![0x58u8, 0xc3u8])
    } else {
        None
    }
}

/// The native code of a whole procedure body: the lowerings of its records
/// in order, or `None` if any record is unsupported.
pub open spec fn jit_bytes(p: Seq<ByteCode>) -> Option<Seq<u8>>
    decreases p.len(),
{
    if p.len() == 0 {
        Some(seq![])
    } else {
        match (jit_bytes(p.drop_last()), jit_record_bytes(p.last())) {
            (Some(front), Some(rec)) => Some(front + rec),
            _ => None,
        }
    }
}

/// Compiles a procedure body to native x86-64 code, record by record;
/// `UnsupportedInJit` as soon as a record falls outside the native subset.
pub fn jit_compile(bin: &[ByteCode]) -> (r: Result<Vec<u8>, JitError>)
    ensures
        match r {
            Ok(v) => jit_bytes(bin@) == Some(v@),
            Err(e) => e == JitError::UnsupportedInJit && jit_bytes(bin@) is None,
        },
{
    let mut out: Vec<u8> = Vec::new();
    let mut i: usize = 0;
    proof {
        assert(bin@.take(0) =~= Seq::<ByteCode>::empty());
    }
    while i < bin.len()
        invariant
            0 <= i <= bin@.len(),
            jit_bytes(bin@.take(i as int)) == Some(out@),
        decreases bin@.len() - i,
    {
        let rec = bin[i];
        let ghost pre = out@;
        proof {
            assert(bin@.take(i + 1).drop_last() =~= bin@.take(i as int));
            assert(bin@.take(i + 1).last() == rec);
        }
        match TokenType::from(rec.opcode) {
            TokenType::Push => {
                out.push(0x48);
                out.push(0xb8);
                let mut imm = u64_to_le_bytes(rec.value);
                out.append(&mut imm);
                out.push(0x50);
                assert(out@ =~= pre + jit_record_bytes(rec)->0);
            },
            TokenType::Pop => {
                out.push(0x59);
                assert(out@ =~= pre + jit_record_bytes(rec)->0);
            },
            TokenType::Swap => {
                let wide: u128 = (rec.value as u128) * 8;
                let dist: u64 = (wide % 0x1_0000_0000_0000_0000u128) as u64;
                out.push(0x48);
                out.push(0x8b);
                out.push(0x04);
                out.push(0x24);
                out.push(0x48);
                out.push(0xb9);
                let mut imm = u64_to_le_bytes(dist);
                out.append(&mut imm);
                out.push(0x48);
                out.push(0x87);
                out.push(0x04);
                out.push(0x0c);
                out.push(0x48);
                out.push(0x89);
                out.push(0x04);
                out.push(0x24);
                assert(out@ =~= pre + jit_record_bytes(rec)->0);
            },
            TokenType::Uadd64 => {
                out.push(0x58);
                out.push(0x5b);
                out.push(0x48);
                out.push(0x01);
                out.push(0xd8);
                out.push(0x50);
                assert(out@ =~= pre + jit_record_bytes(rec)->0);
            },
            TokenType::Ret => {
                out.push(0x58);
                out.push(0xc3);
                assert(out@ =~= pre + jit_record_bytes(rec)->0);
            },
            _ => {
                assert(jit_record_bytes(rec) is None);
                assert(jit_bytes(bin@.take(i + 1)) is None);
                proof {
                    lemma_jit_bytes_prefix_none(bin@, i + 1);
                }
                return Err(JitError::UnsupportedInJit);
            },
        }
        i = i + 1;
    }
    assert(bin@.take(i as int) =~= bin@);
    Ok(out)
}

/// A body with an unsupported prefix is itself unsupported.
proof fn lemma_jit_bytes_prefix_none(p: Seq<ByteCode>, i: int)
    requires
        0 <= i <= p.len(),
        jit_bytes(p.take(i)) is None,
    ensures
        jit_bytes(p) is None,
    decreases p.len() - i,
{
    if i < p.len() {
        assert(p.take(i + 1).drop_last() =~= p.take(i));
        lemma_jit_bytes_prefix_none(p, i + 1);
    } else {
        assert(p.take(i) =~= p);
    }
}

} // verus!
