//! One machine instruction, as the disassembler reads it.

use iced_x86::{Decoder, DecoderOptions, Mnemonic, Register};
use vstd::prelude::*;

verus! {

/// An operand that is a register.
pub const REGISTER: u32 = 0;

/// An operand that is a 16-bit branch target.
pub const NEAR_BRANCH_16: u32 = 1;

/// An operand that is a 32-bit branch target.
pub const NEAR_BRANCH_32: u32 = 2;

/// An operand that is a 64-bit branch target.
pub const NEAR_BRANCH_64: u32 = 3;

/// An operand that is a 32-bit literal.
pub const IMMEDIATE_32: u32 = 9;

/// An operand that is a place in memory.
pub const MEMORY: u32 = 24;

/// What the signature logic reads of an instruction.
#[derive(Debug, Clone, Copy)]
pub struct Instruction {
    /// The bytes are no instruction.
    pub invalid: bool,
    pub length: usize,
    /// Address of the byte after the instruction.
    pub next_ip: u64,
    /// Displacement of the memory operand.
    pub displacement: u64,
    /// The memory operand has no base register.
    pub base_free: bool,
    /// The memory operand has no index register.
    pub index_free: bool,
    /// The memory operand is relative to the instruction pointer.
    pub ip_relative: bool,
    /// Address of the memory operand, where it is relative to the instruction pointer.
    pub ip_target: u64,
    /// Target of a near branch; zero for any other instruction.
    pub branch_target: u64,
    pub immediate32: u32,
    pub is_mov: bool,
    pub op_count: u32,
    /// The kinds of the operands, of which the first `op_count` are there, by
    /// the numbers that the disassembler gives them.
    pub operands: [u32; 5],
}

/// The instruction at the start of `code`, where the first byte of `code` has address `ip`.
pub uninterp spec fn decoded(bitness: u32, code: Seq<u8>, ip: u64) -> Instruction;

/// `iced_x86::Decoder::decode` on a decoder made by `Decoder::with_ip`, which
/// accepts these three bitnesses only. The instruction is a function of the
/// bitness, the bytes and the address; its length is no more than the bytes
/// that were there and no more than fifteen; it has at most five operands; and
/// `next_ip` is the address
/// moved on by the length, modulo `2^64`.
#[verifier::external_body]
pub(crate) fn decode_instruction(bitness: u32, code: &[u8], ip: u64) -> (r: Instruction)
    requires
        bitness == 16 || bitness == 32 || bitness == 64,
    ensures
        r == decoded(bitness, code@, ip),
        r.length <= code@.len(),
        r.length <= 15,
        r.op_count <= 5,
        r.next_ip == (if ip + r.length <= u64::MAX {
            ip + r.length
        } else {
            ip + r.length - 0x1_0000_0000_0000_0000
        }),
{
    let i = Decoder::with_ip(bitness, code, ip, DecoderOptions::NONE).decode();
    Instruction {
        invalid: i.is_invalid(), length: i.len(), next_ip: i.next_ip(),
        displacement: i.memory_displacement64(),
        base_free: i.memory_base() == Register::None, index_free: i.memory_index() == Register::None,
        ip_relative: i.is_ip_rel_memory_operand(), ip_target: i.ip_rel_memory_address(),
        branch_target: i.near_branch_target(), immediate32: i.immediate32(),
        is_mov: i.mnemonic() == Mnemonic::Mov, op_count: i.op_count(),
        operands: [i.op0_kind() as u32, i.op1_kind() as u32, i.op2_kind() as u32,
            i.op3_kind() as u32, i.op4_kind() as u32],
    }
}

} // verus!
