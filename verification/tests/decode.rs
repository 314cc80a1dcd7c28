use chip8::eval::Instruction;
use chip8::parser::{addr_bits, instr, instr_bits, register_bits, DecodeError};
use chip8::types::{Address, Register};

#[test]
fn decode_clear_and_return() {
    assert_eq!(instr_bits(0x00E0), Ok(Instruction::ClearDisplay));
    assert_eq!(instr_bits(0x00EE), Ok(Instruction::Return));
}

#[test]
fn decode_rca_call() {
    assert_eq!(instr_bits(0x0123), Ok(Instruction::RcaCall(Address(0x123))));
    assert_eq!(instr_bits(0x0000), Ok(Instruction::RcaCall(Address(0x000))));
}

#[test]
fn decode_jumps_and_calls() {
    assert_eq!(instr_bits(0x1ABC), Ok(Instruction::Goto(Address(0xABC))));
    assert_eq!(instr_bits(0x2F00), Ok(Instruction::Call(Address(0xF00))));
    assert_eq!(
        instr_bits(0xB123),
        Ok(Instruction::IndexedJump(Address(0x123)))
    );
}

#[test]
fn decode_immediate_skips() {
    assert_eq!(
        instr_bits(0x3A42),
        Ok(Instruction::SkipEqImm(Register::VA, 0x42))
    );
    assert_eq!(
        instr_bits(0x40FF),
        Ok(Instruction::SkipNeqImm(Register::V0, 0xFF))
    );
}

#[test]
fn decode_register_skips() {
    assert_eq!(
        instr_bits(0x5120),
        Ok(Instruction::SkipEqReg(Register::V1, Register::V2))
    );
    assert_eq!(
        instr_bits(0x9340),
        Ok(Instruction::SkipNeqReg(Register::V3, Register::V4))
    );
}

#[test]
fn decode_register_skips_need_zero_nibble() {
    assert_eq!(instr_bits(0x5121), Err(DecodeError(0x5121)));
    assert_eq!(instr_bits(0x934F), Err(DecodeError(0x934F)));
}

#[test]
fn decode_loads() {
    assert_eq!(
        instr_bits(0x6B7F),
        Ok(Instruction::SetImm(Register::VB, 0x7F))
    );
    assert_eq!(
        instr_bits(0x7C01),
        Ok(Instruction::AddImm(Register::VC, 0x01))
    );
    assert_eq!(instr_bits(0xA321), Ok(Instruction::SetAddr(Address(0x321))));
}

#[test]
fn decode_alu_family() {
    assert_eq!(
        instr_bits(0x8120),
        Ok(Instruction::SetReg(Register::V1, Register::V2))
    );
    assert_eq!(
        instr_bits(0x8121),
        Ok(Instruction::OrReg(Register::V1, Register::V2))
    );
    assert_eq!(
        instr_bits(0x8122),
        Ok(Instruction::AndReg(Register::V1, Register::V2))
    );
    assert_eq!(
        instr_bits(0x8123),
        Ok(Instruction::XorReg(Register::V1, Register::V2))
    );
    assert_eq!(
        instr_bits(0x8124),
        Ok(Instruction::AddReg(Register::V1, Register::V2))
    );
    assert_eq!(
        instr_bits(0x8125),
        Ok(Instruction::SubReg(Register::V1, Register::V2))
    );
    assert_eq!(
        instr_bits(0x8126),
        Ok(Instruction::RShiftReg(Register::V1, Register::V2))
    );
    assert_eq!(
        instr_bits(0x8127),
        Ok(Instruction::RevSubReg(Register::V1, Register::V2))
    );
    assert_eq!(
        instr_bits(0x812E),
        Ok(Instruction::LShiftReg(Register::V1, Register::V2))
    );
}

#[test]
fn decode_alu_family_rejects_unused_selectors() {
    assert_eq!(instr_bits(0x8128), Err(DecodeError(0x8128)));
    assert_eq!(instr_bits(0x812F), Err(DecodeError(0x812F)));
}

#[test]
fn decode_rand_and_draw() {
    assert_eq!(instr_bits(0xC70F), Ok(Instruction::Rand(Register::V7, 0x0F)));
    assert_eq!(
        instr_bits(0xD125),
        Ok(Instruction::Draw(Register::V1, Register::V2, 5))
    );
}

#[test]
fn decode_button_skips() {
    assert_eq!(
        instr_bits(0xE09E),
        Ok(Instruction::SkipPressed(Register::V0))
    );
    assert_eq!(
        instr_bits(0xEFA1),
        Ok(Instruction::SkipUnpressed(Register::VF))
    );
    assert_eq!(instr_bits(0xE0A2), Err(DecodeError(0xE0A2)));
    assert_eq!(instr_bits(0xE09F), Err(DecodeError(0xE09F)));
}

#[test]
fn decode_single_register_family() {
    assert_eq!(instr_bits(0xF107), Ok(Instruction::GetTimer(Register::V1)));
    assert_eq!(instr_bits(0xF20A), Ok(Instruction::WaitPress(Register::V2)));
    assert_eq!(instr_bits(0xF315), Ok(Instruction::SetTimer(Register::V3)));
    assert_eq!(
        instr_bits(0xF418),
        Ok(Instruction::SetSoundTimer(Register::V4))
    );
    assert_eq!(instr_bits(0xF51E), Ok(Instruction::AddAddr(Register::V5)));
    assert_eq!(instr_bits(0xF629), Ok(Instruction::SpriteAddr(Register::V6)));
    assert_eq!(instr_bits(0xF733), Ok(Instruction::BCD(Register::V7)));
    assert_eq!(instr_bits(0xF855), Ok(Instruction::RegDump(Register::V8)));
    assert_eq!(instr_bits(0xF965), Ok(Instruction::RegLoad(Register::V9)));
}

#[test]
fn decode_single_register_family_rejects_unused_selectors() {
    assert_eq!(instr_bits(0xF000), Err(DecodeError(0xF000)));
    assert_eq!(instr_bits(0xF108), Err(DecodeError(0xF108)));
    assert_eq!(instr_bits(0xF156), Err(DecodeError(0xF156)));
    assert_eq!(instr_bits(0xFFFF), Err(DecodeError(0xFFFF)));
}

#[test]
fn decode_is_total() {
    for word in 0u32..=0xFFFFu32 {
        let _ = instr_bits(word as u16);
    }
}

#[test]
fn decode_from_bytes_is_big_endian() {
    let bytes = [0x6Au8, 0x02u8, 0x00u8];
    assert_eq!(instr(&bytes), Ok(Instruction::SetImm(Register::VA, 0x02)));
}

#[test]
fn address_operand_is_low_twelve_bits() {
    assert_eq!(addr_bits(0xFABC), Address(0xABC));
    assert_eq!(addr_bits(0x0001), Address(0x001));
}

#[test]
fn register_operand_by_nibble() {
    assert_eq!(register_bits(0x0), Register::V0);
    assert_eq!(register_bits(0xA), Register::VA);
    assert_eq!(register_bits(0xF), Register::VF);
}
