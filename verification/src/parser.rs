//! The instruction decoder: a 16-bit word, read big-endian from two memory
//! cells, becomes one of the 36 operations or a decode failure.
//!
//! [`spec_decode`] is the decode table itself, nibble by nibble;
//! [`instr_bits`] realizes it and is total on all 65536 words.

use vstd::prelude::*;

use crate::eval::Instruction;
use crate::types::Address;
use crate::types::Register;

verus! {

/// An unrecognized bit pattern, carrying the offending word. Execution
/// cannot continue meaningfully without a valid operation.
#[derive(Clone, Copy, Debug, PartialEq, Eq, Structural)]
pub struct DecodeError(pub u16);

/// The decode table. The word is read as four nibbles N1 N2 N3 N4, N1
/// most significant; dispatch is primarily on N1. Every word decodes to
/// exactly one operation or to a failure.
pub open spec fn spec_decode(word: u16) -> Result<Instruction, DecodeError> {
    let n1 = word >> 12u16;
    let x = Register::spec_from_nibble(((word >> 8u16) & 0xF) as u8);
    let y = Register::spec_from_nibble(((word >> 4u16) & 0xF) as u8);
    let nnn = Address(word & 0xFFF);
    let nn = (word & 0xFF) as u8;
    let n4 = (word & 0xF) as u8;
    if word == 0x00E0 {
        Ok(Instruction::ClearDisplay)
    } else if word == 0x00EE {
        Ok(Instruction::Return)
    } else if n1 == 0x0 {
        Ok(Instruction::RcaCall(nnn))
    } else if n1 == 0x1 {
        Ok(Instruction::Goto(nnn))
    } else if n1 == 0x2 {
        Ok(Instruction::Call(nnn))
    } else if n1 == 0x3 {
        Ok(Instruction::SkipEqImm(x, nn))
    } else if n1 == 0x4 {
        Ok(Instruction::SkipNeqImm(x, nn))
    } else if n1 == 0x5 && n4 == 0x0 {
        Ok(Instruction::SkipEqReg(x, y))
    } else if n1 == 0x6 {
        Ok(Instruction::SetImm(x, nn))
    } else if n1 == 0x7 {
        Ok(Instruction::AddImm(x, nn))
    } else if n1 == 0x8 && n4 == 0x0 {
        Ok(Instruction::SetReg(x, y))
    } else if n1 == 0x8 && n4 == 0x1 {
        Ok(Instruction::OrReg(x, y))
    } else if n1 == 0x8 && n4 == 0x2 {
        Ok(Instruction::AndReg(x, y))
    } else if n1 == 0x8 && n4 == 0x3 {
        Ok(Instruction::XorReg(x, y))
    } else if n1 == 0x8 && n4 == 0x4 {
        Ok(Instruction::AddReg(x, y))
    } else if n1 == 0x8 && n4 == 0x5 {
        Ok(Instruction::SubReg(x, y))
    } else if n1 == 0x8 && n4 == 0x6 {
        Ok(Instruction::RShiftReg(x, y))
    } else if n1 == 0x8 && n4 == 0x7 {
        Ok(Instruction::RevSubReg(x, y))
    } else if n1 == 0x8 && n4 == 0xE {
        Ok(Instruction::LShiftReg(x, y))
    } else if n1 == 0x9 && n4 == 0x0 {
        Ok(Instruction::SkipNeqReg(x, y))
    } else if n1 == 0xA {
        Ok(Instruction::SetAddr(nnn))
    } else if n1 == 0xB {
        Ok(Instruction::IndexedJump(nnn))
    } else if n1 == 0xC {
        Ok(Instruction::Rand(x, nn))
    } else if n1 == 0xD {
        Ok(Instruction::Draw(x, y, n4))
    } else if n1 == 0xE && nn == 0x9E {
        Ok(Instruction::SkipPressed(x))
    } else if n1 == 0xE && nn == 0xA1 {
        Ok(Instruction::SkipUnpressed(x))
    } else if n1 == 0xF && nn == 0x07 {
        Ok(Instruction::GetTimer(x))
    } else if n1 == 0xF && nn == 0x0A {
        Ok(Instruction::WaitPress(x))
    } else if n1 == 0xF && nn == 0x15 {
        Ok(Instruction::SetTimer(x))
    } else if n1 == 0xF && nn == 0x18 {
        Ok(Instruction::SetSoundTimer(x))
    } else if n1 == 0xF && nn == 0x1E {
        Ok(Instruction::AddAddr(x))
    } else if n1 == 0xF && nn == 0x29 {
        Ok(Instruction::SpriteAddr(x))
    } else if n1 == 0xF && nn == 0x33 {
        Ok(Instruction::BCD(x))
    } else if n1 == 0xF && nn == 0x55 {
        Ok(Instruction::RegDump(x))
    } else if n1 == 0xF && nn == 0x65 {
        Ok(Instruction::RegLoad(x))
    } else {
        Err(DecodeError(word))
    }
}

/// The low twelve bits of the word, as an address operand.
pub fn addr_bits(word: u16) -> (a: Address)
    ensures
        a == (Address(word & 0xFFF)),
        a.0 < 0x1000,
{
    proof {
        assert(word & 0xFFF < 0x1000) by (bit_vector);
    }
    Address(word & 0xFFF)
}

/// The register named by a nibble of the word.
pub fn register_bits(n: u8) -> (r: Register)
    requires
        n < 16,
    ensures
        r == Register::spec_from_nibble(n),
{
    Register::from_nibble(n)
}

/// Decodes one 16-bit word. Total and deterministic: every word yields
/// exactly what the decode table says.
pub fn instr_bits(word: u16) -> (r: Result<Instruction, DecodeError>)
    ensures
        r == spec_decode(word),
{
    let n1 = word >> 12u16;
    let xn = ((word >> 8u16) & 0xF) as u8;
    let yn = ((word >> 4u16) & 0xF) as u8;
    proof {
        assert((word >> 8u16) & 0xF < 16 && (word >> 4u16) & 0xF < 16) by (bit_vector);
    }
    let x = Register::from_nibble(xn);
    let y = Register::from_nibble(yn);
    let nnn = Address(word & 0xFFF);
    let nn = (word & 0xFF) as u8;
    let n4 = (word & 0xF) as u8;
    if word == 0x00E0 {
        Ok(Instruction::ClearDisplay)
    } else if word == 0x00EE {
        Ok(Instruction::Return)
    } else if n1 == 0x0 {
        Ok(Instruction::RcaCall(nnn))
    } else if n1 == 0x1 {
        Ok(Instruction::Goto(nnn))
    } else if n1 == 0x2 {
        Ok(Instruction::Call(nnn))
    } else if n1 == 0x3 {
        Ok(Instruction::SkipEqImm(x, nn))
    } else if n1 == 0x4 {
        Ok(Instruction::SkipNeqImm(x, nn))
    } else if n1 == 0x5 && n4 == 0x0 {
        Ok(Instruction::SkipEqReg(x, y))
    } else if n1 == 0x6 {
        Ok(Instruction::SetImm(x, nn))
    } else if n1 == 0x7 {
        Ok(Instruction::AddImm(x, nn))
    } else if n1 == 0x8 && n4 == 0x0 {
        Ok(Instruction::SetReg(x, y))
    } else if n1 == 0x8 && n4 == 0x1 {
        Ok(Instruction::OrReg(x, y))
    } else if n1 == 0x8 && n4 == 0x2 {
        Ok(Instruction::AndReg(x, y))
    } else if n1 == 0x8 && n4 == 0x3 {
        Ok(Instruction::XorReg(x, y))
    } else if n1 == 0x8 && n4 == 0x4 {
        Ok(Instruction::AddReg(x, y))
    } else if n1 == 0x8 && n4 == 0x5 {
        Ok(Instruction::SubReg(x, y))
    } else if n1 == 0x8 && n4 == 0x6 {
        Ok(Instruction::RShiftReg(x, y))
    } else if n1 == 0x8 && n4 == 0x7 {
        Ok(Instruction::RevSubReg(x, y))
    } else if n1 == 0x8 && n4 == 0xE {
        Ok(Instruction::LShiftReg(x, y))
    } else if n1 == 0x9 && n4 == 0x0 {
        Ok(Instruction::SkipNeqReg(x, y))
    } else if n1 == 0xA {
        Ok(Instruction::SetAddr(nnn))
    } else if n1 == 0xB {
        Ok(Instruction::IndexedJump(nnn))
    } else if n1 == 0xC {
        Ok(Instruction::Rand(x, nn))
    } else if n1 == 0xD {
        Ok(Instruction::Draw(x, y, n4))
    } else if n1 == 0xE && nn == 0x9E {
        Ok(Instruction::SkipPressed(x))
    } else if n1 == 0xE && nn == 0xA1 {
        Ok(Instruction::SkipUnpressed(x))
    } else if n1 == 0xF && nn == 0x07 {
        Ok(Instruction::GetTimer(x))
    } else if n1 == 0xF && nn == 0x0A {
        Ok(Instruction::WaitPress(x))
    } else if n1 == 0xF && nn == 0x15 {
        Ok(Instruction::SetTimer(x))
    } else if n1 == 0xF && nn == 0x18 {
        Ok(Instruction::SetSoundTimer(x))
    } else if n1 == 0xF && nn == 0x1E {
        Ok(Instruction::AddAddr(x))
    } else if n1 == 0xF && nn == 0x29 {
        Ok(Instruction::SpriteAddr(x))
    } else if n1 == 0xF && nn == 0x33 {
        Ok(Instruction::BCD(x))
    } else if n1 == 0xF && nn == 0x55 {
        Ok(Instruction::RegDump(x))
    } else if n1 == 0xF && nn == 0x65 {
        Ok(Instruction::RegLoad(x))
    } else {
        Err(DecodeError(word))
    }
}

/// Decodes the instruction at the head of `input`: two bytes, the wire
/// format being one big-endian 16-bit word per instruction.
pub fn instr(input: &[u8]) -> (r: Result<Instruction, DecodeError>)
    requires
        input@.len() >= 2,
    ensures
        r == spec_decode((input@[0] * 256 + input@[1]) as u16),
{
    let hi = input[0];
    let lo = input[1];
    let word = ((hi as u16) << 8u16) | (lo as u16);
    proof {
        assert(((hi as u16) << 8u16) | (lo as u16) == hi * 256 + lo) by (bit_vector);
    }
    instr_bits(word)
}

} // verus!
