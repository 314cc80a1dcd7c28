use chip8::eval::Instruction;
use chip8::types::{Address, Button, Fault, Register, State};

fn fresh() -> State {
    State::default()
}

#[test]
fn initial_state() {
    let s = fresh();
    assert_eq!(s.pc, Address(0x200));
    assert_eq!(s.i_reg, Address(0));
    assert_eq!(s.memory.len(), 4096);
    assert!(s.memory.iter().all(|&b| b == 0));
    assert_eq!(s.registers.len(), 16);
    assert!(s.registers.iter().all(|&v| v == 0));
    assert_eq!(s.bit_gfx.len(), 2048);
    assert!(s.bit_gfx.iter().all(|&p| !p));
    assert_eq!(s.buttons.len(), 16);
    assert!(s.call_stack.is_empty());
    assert_eq!(s.timer, 0);
    assert_eq!(s.sound_timer, 0);
}

#[test]
fn set_imm_and_set_reg() {
    let mut s = fresh();
    Instruction::SetImm(Register::V3, 0x42).eval(&mut s).unwrap();
    assert_eq!(s.registers[3], 0x42);
    assert_eq!(s.pc, Address(0x202));
    Instruction::SetReg(Register::V7, Register::V3).eval(&mut s).unwrap();
    assert_eq!(s.registers[7], 0x42);
    assert_eq!(s.pc, Address(0x204));
}

#[test]
fn add_imm_wraps_and_sets_carry() {
    let mut s = fresh();
    s.registers[0] = 0xFF;
    Instruction::AddImm(Register::V0, 0x02).eval(&mut s).unwrap();
    assert_eq!(s.registers[0], 0x01);
    assert_eq!(s.registers[15], 1);
    Instruction::AddImm(Register::V0, 0x02).eval(&mut s).unwrap();
    assert_eq!(s.registers[0], 0x03);
    assert_eq!(s.registers[15], 0);
}

#[test]
fn add_reg_wraps_and_sets_carry() {
    let mut s = fresh();
    s.registers[0] = 0xFF;
    s.registers[1] = 0x02;
    Instruction::AddReg(Register::V0, Register::V1).eval(&mut s).unwrap();
    assert_eq!(s.registers[0], 0x01);
    assert_eq!(s.registers[15], 1);
    s.registers[2] = 0x10;
    s.registers[3] = 0x20;
    Instruction::AddReg(Register::V2, Register::V3).eval(&mut s).unwrap();
    assert_eq!(s.registers[2], 0x30);
    assert_eq!(s.registers[15], 0);
}

#[test]
fn sub_reg_without_borrow() {
    let mut s = fresh();
    s.registers[0] = 0x05;
    s.registers[1] = 0x03;
    Instruction::SubReg(Register::V0, Register::V1).eval(&mut s).unwrap();
    assert_eq!(s.registers[0], 0x02);
    assert_eq!(s.registers[15], 1);
}

#[test]
fn sub_reg_with_borrow() {
    let mut s = fresh();
    s.registers[0] = 0x03;
    s.registers[1] = 0x05;
    Instruction::SubReg(Register::V0, Register::V1).eval(&mut s).unwrap();
    assert_eq!(s.registers[0], 0xFE);
    assert_eq!(s.registers[15], 0);
}

#[test]
fn rev_sub_reg() {
    let mut s = fresh();
    s.registers[0] = 0x03;
    s.registers[1] = 0x05;
    Instruction::RevSubReg(Register::V0, Register::V1).eval(&mut s).unwrap();
    assert_eq!(s.registers[0], 0x02);
    assert_eq!(s.registers[15], 1);
    s.registers[2] = 0x05;
    s.registers[3] = 0x03;
    Instruction::RevSubReg(Register::V2, Register::V3).eval(&mut s).unwrap();
    assert_eq!(s.registers[2], 0xFE);
    assert_eq!(s.registers[15], 0);
}

#[test]
fn bitwise_ops() {
    let mut s = fresh();
    s.registers[0] = 0b1100;
    s.registers[1] = 0b1010;
    Instruction::OrReg(Register::V0, Register::V1).eval(&mut s).unwrap();
    assert_eq!(s.registers[0], 0b1110);
    s.registers[0] = 0b1100;
    Instruction::AndReg(Register::V0, Register::V1).eval(&mut s).unwrap();
    assert_eq!(s.registers[0], 0b1000);
    s.registers[0] = 0b1100;
    Instruction::XorReg(Register::V0, Register::V1).eval(&mut s).unwrap();
    assert_eq!(s.registers[0], 0b0110);
}

#[test]
fn shifts_write_second_register_and_flag() {
    let mut s = fresh();
    s.registers[1] = 0b1000_0011;
    Instruction::RShiftReg(Register::V1, Register::V2).eval(&mut s).unwrap();
    assert_eq!(s.registers[2], 0b0100_0001);
    assert_eq!(s.registers[15], 1);
    s.registers[1] = 0b1000_0010;
    Instruction::LShiftReg(Register::V1, Register::V2).eval(&mut s).unwrap();
    assert_eq!(s.registers[2], 0b0000_0100);
    assert_eq!(s.registers[15], 1);
    s.registers[1] = 0b0000_0010;
    Instruction::RShiftReg(Register::V1, Register::V1).eval(&mut s).unwrap();
    assert_eq!(s.registers[1], 0b0000_0001);
    assert_eq!(s.registers[15], 0);
}

#[test]
fn skips_on_immediate() {
    let mut s = fresh();
    s.registers[4] = 0x33;
    Instruction::SkipEqImm(Register::V4, 0x33).eval(&mut s).unwrap();
    assert_eq!(s.pc, Address(0x204));
    Instruction::SkipEqImm(Register::V4, 0x34).eval(&mut s).unwrap();
    assert_eq!(s.pc, Address(0x206));
    Instruction::SkipNeqImm(Register::V4, 0x34).eval(&mut s).unwrap();
    assert_eq!(s.pc, Address(0x20A));
}

#[test]
fn skips_on_registers() {
    let mut s = fresh();
    s.registers[0] = 7;
    s.registers[1] = 7;
    s.registers[2] = 9;
    Instruction::SkipEqReg(Register::V0, Register::V1).eval(&mut s).unwrap();
    assert_eq!(s.pc, Address(0x204));
    Instruction::SkipEqReg(Register::V0, Register::V2).eval(&mut s).unwrap();
    assert_eq!(s.pc, Address(0x206));
    Instruction::SkipNeqReg(Register::V0, Register::V2).eval(&mut s).unwrap();
    assert_eq!(s.pc, Address(0x20A));
    Instruction::SkipNeqReg(Register::V0, Register::V1).eval(&mut s).unwrap();
    assert_eq!(s.pc, Address(0x20C));
}

#[test]
fn goto_and_indexed_jump() {
    let mut s = fresh();
    Instruction::Goto(Address(0x400)).eval(&mut s).unwrap();
    assert_eq!(s.pc, Address(0x400));
    s.registers[0] = 0x10;
    Instruction::IndexedJump(Address(0x300)).eval(&mut s).unwrap();
    assert_eq!(s.pc, Address(0x310));
}

#[test]
fn call_then_return_restores_pc() {
    let mut s = fresh();
    Instruction::Call(Address(0x400)).eval(&mut s).unwrap();
    assert_eq!(s.pc, Address(0x400));
    assert_eq!(s.call_stack, vec![Address(0x202)]);
    Instruction::Return.eval(&mut s).unwrap();
    assert_eq!(s.pc, Address(0x202));
    assert!(s.call_stack.is_empty());
}

#[test]
fn return_on_empty_stack_faults() {
    let mut s = fresh();
    assert_eq!(Instruction::Return.eval(&mut s), Err(Fault::EmptyCallStack));
    assert_eq!(s.pc, Address(0x200));
}

#[test]
fn rca_call_faults() {
    let mut s = fresh();
    assert_eq!(
        Instruction::RcaCall(Address(0x123)).eval(&mut s),
        Err(Fault::UnsupportedSystemCall)
    );
    assert_eq!(s.pc, Address(0x200));
}

#[test]
fn set_addr_and_add_addr() {
    let mut s = fresh();
    Instruction::SetAddr(Address(0x123)).eval(&mut s).unwrap();
    assert_eq!(s.i_reg, Address(0x123));
    s.registers[5] = 0x10;
    Instruction::AddAddr(Register::V5).eval(&mut s).unwrap();
    assert_eq!(s.i_reg, Address(0x133));
}

#[test]
fn sprite_addr_points_at_glyph() {
    let mut s = fresh();
    s.registers[2] = 0xA;
    Instruction::SpriteAddr(Register::V2).eval(&mut s).unwrap();
    assert_eq!(s.i_reg, Address(50));
}

#[test]
fn sprite_addr_faults_past_the_font() {
    let mut s = fresh();
    s.registers[2] = 0x10;
    assert_eq!(
        Instruction::SpriteAddr(Register::V2).eval(&mut s),
        Err(Fault::NoSuchGlyph)
    );
    assert_eq!(s.pc, Address(0x200));
}

#[test]
fn bcd_stores_decimal_digits() {
    let mut s = fresh();
    s.registers[0] = 0xFF;
    s.i_reg = Address(0x300);
    Instruction::BCD(Register::V0).eval(&mut s).unwrap();
    assert_eq!(s.memory[0x300], 2);
    assert_eq!(s.memory[0x301], 5);
    assert_eq!(s.memory[0x302], 5);
}

#[test]
fn bcd_of_small_values() {
    let mut s = fresh();
    s.registers[0] = 42;
    s.i_reg = Address(0x300);
    Instruction::BCD(Register::V0).eval(&mut s).unwrap();
    assert_eq!(&s.memory[0x300..0x303], &[0, 4, 2]);
    s.registers[0] = 0;
    Instruction::BCD(Register::V0).eval(&mut s).unwrap();
    assert_eq!(&s.memory[0x300..0x303], &[0, 0, 0]);
}

#[test]
fn reg_dump_and_load_round_trip() {
    let mut s = fresh();
    for i in 0..16 {
        s.registers[i] = (i as u8) * 3 + 1;
    }
    let saved = s.registers.clone();
    s.i_reg = Address(0x500);
    Instruction::RegDump(Register::VF).eval(&mut s).unwrap();
    for i in 0..16 {
        assert_eq!(s.memory[0x500 + i], saved[i]);
    }
    for i in 0..16 {
        s.registers[i] = 0;
    }
    Instruction::RegLoad(Register::VF).eval(&mut s).unwrap();
    assert_eq!(s.registers, saved);
}

#[test]
fn reg_dump_partial_leaves_rest_of_memory() {
    let mut s = fresh();
    s.registers[0] = 0xAA;
    s.registers[1] = 0xBB;
    s.registers[2] = 0xCC;
    s.i_reg = Address(0x600);
    Instruction::RegDump(Register::V1).eval(&mut s).unwrap();
    assert_eq!(s.memory[0x600], 0xAA);
    assert_eq!(s.memory[0x601], 0xBB);
    assert_eq!(s.memory[0x602], 0);
}

#[test]
fn reg_load_partial_leaves_upper_registers() {
    let mut s = fresh();
    s.memory[0x600] = 0x11;
    s.memory[0x601] = 0x22;
    s.registers[2] = 0x99;
    s.i_reg = Address(0x600);
    Instruction::RegLoad(Register::V1).eval(&mut s).unwrap();
    assert_eq!(s.registers[0], 0x11);
    assert_eq!(s.registers[1], 0x22);
    assert_eq!(s.registers[2], 0x99);
}

#[test]
fn timers() {
    let mut s = fresh();
    s.registers[0] = 2;
    Instruction::SetTimer(Register::V0).eval(&mut s).unwrap();
    Instruction::SetSoundTimer(Register::V0).eval(&mut s).unwrap();
    assert_eq!(s.timer, 2);
    assert_eq!(s.sound_timer, 2);
    assert!(s.sound_active());
    s.tick();
    s.tick();
    assert_eq!(s.timer, 0);
    assert_eq!(s.sound_timer, 0);
    assert!(!s.sound_active());
    s.tick();
    assert_eq!(s.timer, 0);
    assert_eq!(s.sound_timer, 0);
    Instruction::GetTimer(Register::V3).eval(&mut s).unwrap();
    assert_eq!(s.registers[3], 0);
}

#[test]
fn rand_respects_mask() {
    let mut s = fresh();
    Instruction::Rand(Register::V0, 0x00).eval(&mut s).unwrap();
    assert_eq!(s.registers[0], 0);
    for _ in 0..32 {
        Instruction::Rand(Register::V1, 0x0F).eval(&mut s).unwrap();
        assert_eq!(s.registers[1] & 0xF0, 0);
    }
}

#[test]
fn skip_pressed_and_unpressed() {
    let mut s = fresh();
    s.registers[0] = 0x5;
    s.buttons[5] = true;
    Instruction::SkipPressed(Register::V0).eval(&mut s).unwrap();
    assert_eq!(s.pc, Address(0x204));
    Instruction::SkipUnpressed(Register::V0).eval(&mut s).unwrap();
    assert_eq!(s.pc, Address(0x206));
    s.buttons[5] = false;
    Instruction::SkipPressed(Register::V0).eval(&mut s).unwrap();
    assert_eq!(s.pc, Address(0x208));
    Instruction::SkipUnpressed(Register::V0).eval(&mut s).unwrap();
    assert_eq!(s.pc, Address(0x20C));
}

#[test]
fn skip_pressed_faults_on_bad_button() {
    let mut s = fresh();
    s.registers[0] = 0x10;
    assert_eq!(
        Instruction::SkipPressed(Register::V0).eval(&mut s),
        Err(Fault::NoSuchButton)
    );
    assert_eq!(
        Instruction::SkipUnpressed(Register::V0).eval(&mut s),
        Err(Fault::NoSuchButton)
    );
    assert_eq!(s.pc, Address(0x200));
}

#[test]
fn wait_press_blocks_until_a_button_is_held() {
    let mut s = fresh();
    Instruction::WaitPress(Register::V0).eval(&mut s).unwrap();
    assert_eq!(s.pc, Address(0x200));
    Instruction::WaitPress(Register::V0).eval(&mut s).unwrap();
    assert_eq!(s.pc, Address(0x200));
    s.buttons[9] = true;
    Instruction::WaitPress(Register::V0).eval(&mut s).unwrap();
    assert_eq!(s.pc, Address(0x202));
    assert_eq!(s.registers[0], 9);
}

#[test]
fn wait_press_takes_the_lowest_held_button() {
    let mut s = fresh();
    s.buttons[12] = true;
    s.buttons[3] = true;
    Instruction::WaitPress(Register::V7).eval(&mut s).unwrap();
    assert_eq!(s.registers[7], 3);
}

#[test]
fn clear_display() {
    let mut s = fresh();
    s.bit_gfx[0] = true;
    s.bit_gfx[2047] = true;
    Instruction::ClearDisplay.eval(&mut s).unwrap();
    assert!(s.bit_gfx.iter().all(|&p| !p));
    assert_eq!(s.pc, Address(0x202));
}

#[test]
fn draw_sets_pixels_and_reports_no_collision() {
    let mut s = fresh();
    s.memory[0x300] = 0b1100_0000;
    s.memory[0x301] = 0b0000_0001;
    s.i_reg = Address(0x300);
    s.registers[0] = 4;
    s.registers[1] = 2;
    Instruction::Draw(Register::V0, Register::V1, 2).eval(&mut s).unwrap();
    assert_eq!(s.registers[15], 0);
    assert!(s.pixel(4, 2));
    assert!(s.pixel(5, 2));
    assert!(!s.pixel(6, 2));
    assert!(s.pixel(11, 3));
    assert!(!s.pixel(4, 3));
}

#[test]
fn draw_twice_clears_and_reports_collision() {
    let mut s = fresh();
    s.memory[0x300] = 0xFF;
    s.memory[0x301] = 0x81;
    s.i_reg = Address(0x300);
    s.registers[0] = 10;
    s.registers[1] = 5;
    Instruction::Draw(Register::V0, Register::V1, 2).eval(&mut s).unwrap();
    assert_eq!(s.registers[15], 0);
    Instruction::Draw(Register::V0, Register::V1, 2).eval(&mut s).unwrap();
    assert_eq!(s.registers[15], 1);
    assert!(s.bit_gfx.iter().all(|&p| !p));
}

#[test]
fn draw_all_zero_sprite_never_collides() {
    let mut s = fresh();
    s.i_reg = Address(0x300);
    s.registers[0] = 0;
    s.registers[1] = 0;
    Instruction::Draw(Register::V0, Register::V1, 15).eval(&mut s).unwrap();
    assert_eq!(s.registers[15], 0);
    Instruction::Draw(Register::V0, Register::V1, 15).eval(&mut s).unwrap();
    assert_eq!(s.registers[15], 0);
    assert!(s.bit_gfx.iter().all(|&p| !p));
}

#[test]
fn draw_wraps_toroidally() {
    let mut s = fresh();
    s.memory[0x300] = 0b1000_0001;
    s.i_reg = Address(0x300);
    s.registers[0] = 60;
    s.registers[1] = 31;
    Instruction::Draw(Register::V0, Register::V1, 1).eval(&mut s).unwrap();
    assert!(s.pixel(60, 31));
    assert!(s.pixel(3, 31));
    s.registers[1] = 33;
    Instruction::Draw(Register::V0, Register::V1, 1).eval(&mut s).unwrap();
    assert!(s.pixel(60, 1));
    assert!(s.pixel(3, 1));
}

#[test]
fn draw_partial_collision_clears_only_overlap() {
    let mut s = fresh();
    s.memory[0x300] = 0b1100_0000;
    s.i_reg = Address(0x300);
    s.registers[0] = 0;
    s.registers[1] = 0;
    Instruction::Draw(Register::V0, Register::V1, 1).eval(&mut s).unwrap();
    s.registers[0] = 1;
    Instruction::Draw(Register::V0, Register::V1, 1).eval(&mut s).unwrap();
    assert_eq!(s.registers[15], 1);
    assert!(s.pixel(0, 0));
    assert!(!s.pixel(1, 0));
    assert!(s.pixel(2, 0));
}

#[test]
fn pc_and_index_arithmetic_wrap() {
    let mut s = fresh();
    Instruction::Goto(Address(0xFFFE)).eval(&mut s).unwrap();
    assert_eq!(s.pc, Address(0xFFFE));
    Instruction::SetImm(Register::V0, 1).eval(&mut s).unwrap();
    assert_eq!(s.pc, Address(0x0000));
    s.registers[1] = 0xFF;
    s.i_reg = Address(0xFFFF);
    Instruction::AddAddr(Register::V1).eval(&mut s).unwrap();
    assert_eq!(s.i_reg, Address(0x00FE));
}

#[test]
fn button_numbering() {
    assert_eq!(Button::from_index(0), Some(Button::B0));
    assert_eq!(Button::from_index(0xF), Some(Button::BF));
    assert_eq!(Button::from_index(16), None);
    assert_eq!(Button::BA.index(), 10);
    assert_eq!(Register::VF.index(), 15);
}
