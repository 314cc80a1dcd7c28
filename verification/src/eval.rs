//! The execution engine: the operation set and the application of one
//! operation to the machine state.
//!
//! [`step`] is the mathematical account of what executing one operation
//! does; [`Instruction::eval`] is the engine itself, proved to realize it.

use vstd::prelude::*;

use vstd::arithmetic::div_mod::{
    lemma_add_mod_noop, lemma_fundamental_div_mod, lemma_mod_bound, lemma_mod_multiples_vanish,
    lemma_small_mod,
};

use crate::types::filled;
use crate::types::Address;
use crate::types::Button;
use crate::types::Fault;
use crate::types::Register;
use crate::types::State;
use crate::types::StateModel;

verus! {

/// One operation of the machine, tagged with the operands carried by its
/// opcode. The comments give the bit layout, nibble by nibble.
#[derive(Clone, Copy, Debug, PartialEq, Eq, Structural)]
pub enum Instruction {
    /// 0NNN: a call into the legacy host system; always a fault here.
    RcaCall(Address),
    /// 00E0: clear the framebuffer.
    ClearDisplay,
    /// 00EE: return from a subroutine.
    Return,
    /// 1NNN: jump.
    Goto(Address),
    /// 2NNN: call a subroutine.
    Call(Address),
    /// 3XNN: skip the next instruction if VX equals the immediate.
    SkipEqImm(Register, u8),
    /// 4XNN: skip the next instruction if VX differs from the immediate.
    SkipNeqImm(Register, u8),
    /// 5XY0: skip the next instruction if VX equals VY.
    SkipEqReg(Register, Register),
    /// 6XNN: load the immediate into VX.
    SetImm(Register, u8),
    /// 7XNN: add the immediate to VX, wrapping; VF holds the carry.
    AddImm(Register, u8),
    /// 8XY0: copy VY into VX.
    SetReg(Register, Register),
    /// 8XY1: VX |= VY.
    OrReg(Register, Register),
    /// 8XY2: VX &= VY.
    AndReg(Register, Register),
    /// 8XY3: VX ^= VY.
    XorReg(Register, Register),
    /// 8XY4: VX += VY, wrapping; VF = 1 exactly on unsigned overflow.
    AddReg(Register, Register),
    /// 8XY5: VX -= VY, wrapping; VF = 1 exactly when no borrow occurred.
    SubReg(Register, Register),
    /// 8XY6: VY = VX >> 1; VF holds the bit shifted out.
    RShiftReg(Register, Register),
    /// 8XY7: VX = VY - VX, wrapping; VF = 1 exactly when no borrow occurred.
    RevSubReg(Register, Register),
    /// 8XYE: VY = VX << 1; VF holds the bit shifted out.
    LShiftReg(Register, Register),
    /// 9XY0: skip the next instruction if VX differs from VY.
    SkipNeqReg(Register, Register),
    /// ANNN: load the address into the index register.
    SetAddr(Address),
    /// BNNN: jump to the address plus V0.
    IndexedJump(Address),
    /// CXNN: load a random byte masked by the immediate into VX.
    Rand(Register, u8),
    /// DXYN: draw an N-row sprite at the pixel position (VX, VY);
    /// VF reports a collision.
    Draw(Register, Register, u8),
    /// EX9E: skip the next instruction if the button numbered by VX is held.
    SkipPressed(Register),
    /// EXA1: skip the next instruction if that button is not held.
    SkipUnpressed(Register),
    /// FX07: copy the delay timer into VX.
    GetTimer(Register),
    /// FX0A: wait for a button; the program counter is rolled back until
    /// one is held.
    WaitPress(Register),
    /// FX15: copy VX into the delay timer.
    SetTimer(Register),
    /// FX18: copy VX into the sound timer.
    SetSoundTimer(Register),
    /// FX1E: add VX to the index register, wrapping.
    AddAddr(Register),
    /// FX29: point the index register at the font glyph for VX's value.
    SpriteAddr(Register),
    /// FX33: store VX's value as three decimal digits at the index register.
    BCD(Register),
    /// FX55: copy V0 through VX into memory at the index register.
    RegDump(Register),
    /// FX65: load V0 through VX from memory at the index register.
    RegLoad(Register),
}

/// A value reduced to 16 bits.
pub open spec fn wrap16(n: int) -> u16 {
    (n % 0x10000) as u16
}

/// A value reduced to 8 bits.
pub open spec fn wrap8(n: int) -> u8 {
    (n % 256) as u8
}

/// The program counter after the universal advance by one instruction
/// width (two memory cells).
pub open spec fn next_pc(pre: StateModel) -> u16 {
    wrap16(pre.pc + 2)
}

/// The program counter after the universal advance plus one skipped
/// instruction.
pub open spec fn skip_pc(pre: StateModel) -> u16 {
    wrap16(pre.pc + 4)
}

/// Bit `xi` of a sprite row, counting from the most significant bit:
/// bit 0 is the leftmost pixel of the row.
pub open spec fn row_bit(row: u8, xi: int) -> bool {
    (row >> ((7 - xi) as u8)) & 1 == 1
}

/// Bit `k` of a sprite, cells counted row-major, eight per row.
pub open spec fn cell_bit(sprite: Seq<u8>, k: int) -> bool {
    row_bit(sprite[k / 8], k % 8)
}

/// The framebuffer index that sprite cell `k` lands on when the sprite is
/// drawn at pixel position `(x, y)`: coordinates wrap toroidally.
pub open spec fn cell_target(x: int, y: int, k: int) -> int {
    (x + k % 8) % 64 + ((y + k / 8) % 32) * 64
}

/// Whether one of the first `n` sprite cells is set and lands on pixel `p`.
pub open spec fn covered_upto(sprite: Seq<u8>, x: int, y: int, p: int, n: int) -> bool {
    exists|k: int| 0 <= k < n && cell_bit(sprite, k) && cell_target(x, y, k) == p
}

/// Whether drawing the sprite at `(x, y)` flips pixel `p`.
pub open spec fn draw_covers(sprite: Seq<u8>, x: int, y: int, p: int) -> bool {
    covered_upto(sprite, x, y, p, 8 * sprite.len() as int)
}

/// Whether one of the first `n` sprite cells is set and lands on a pixel
/// already set in `fb`.
pub open spec fn collides_upto(fb: Seq<bool>, sprite: Seq<u8>, x: int, y: int, n: int) -> bool {
    exists|k: int| 0 <= k < n && cell_bit(sprite, k) && fb[cell_target(x, y, k)]
}

/// Whether drawing the sprite at `(x, y)` clears some pixel set in `fb`:
/// the collision reported in VF.
pub open spec fn draw_collides(fb: Seq<bool>, sprite: Seq<u8>, x: int, y: int) -> bool {
    collides_upto(fb, sprite, x, y, 8 * sprite.len() as int)
}

/// The memory accesses of the operation stay within the 4096 cells.
/// Keeping them there is the caller's responsibility.
pub open spec fn in_bounds(op: Instruction, pre: StateModel) -> bool {
    match op {
        Instruction::Draw(_, _, h) => h <= 15 && pre.i_reg + h <= 4096,
        Instruction::BCD(_) => pre.i_reg + 3 <= 4096,
        Instruction::RegDump(x) => pre.i_reg + x.index_spec() < 4096,
        Instruction::RegLoad(x) => pre.i_reg + x.index_spec() < 4096,
        _ => true,
    }
}

/// What executing `op` on `pre` does: the state it leaves and the result
/// it returns. The program counter is advanced by one instruction width
/// before the operation's own effect, so control flow simply overwrites
/// it. On a fault the state is left as it was.
pub open spec fn step(op: Instruction, pre: StateModel, post: StateModel, r: Result<
    (),
    Fault,
>) -> bool {
    match op {
        Instruction::RcaCall(_) => r == Result::<(), Fault>::Err(Fault::UnsupportedSystemCall)
            && post == pre,
        Instruction::ClearDisplay => r is Ok && post == (StateModel {
            pc: next_pc(pre),
            bit_gfx: Seq::new(2048, |p: int| false),
            ..pre
        }),
        Instruction::Return => if pre.call_stack.len() == 0 {
            r == Result::<(), Fault>::Err(Fault::EmptyCallStack) && post == pre
        } else {
            r is Ok && post == (StateModel {
                pc: pre.call_stack.last(),
                call_stack: pre.call_stack.drop_last(),
                ..pre
            })
        },
        Instruction::Goto(a) => r is Ok && post == (StateModel { pc: a.0, ..pre }),
        Instruction::Call(a) => r is Ok && post == (StateModel {
            pc: a.0,
            call_stack: pre.call_stack.push(next_pc(pre)),
            ..pre
        }),
        Instruction::SkipEqImm(x, n) => r is Ok && post == (StateModel {
            pc: if pre.registers[x.index_spec()] == n {
                skip_pc(pre)
            } else {
                next_pc(pre)
            },
            ..pre
        }),
        Instruction::SkipNeqImm(x, n) => r is Ok && post == (StateModel {
            pc: if pre.registers[x.index_spec()] != n {
                skip_pc(pre)
            } else {
                next_pc(pre)
            },
            ..pre
        }),
        Instruction::SkipEqReg(x, y) => r is Ok && post == (StateModel {
            pc: if pre.registers[x.index_spec()] == pre.registers[y.index_spec()] {
                skip_pc(pre)
            } else {
                next_pc(pre)
            },
            ..pre
        }),
        Instruction::SkipNeqReg(x, y) => r is Ok && post == (StateModel {
            pc: if pre.registers[x.index_spec()] != pre.registers[y.index_spec()] {
                skip_pc(pre)
            } else {
                next_pc(pre)
            },
            ..pre
        }),
        Instruction::SetImm(x, n) => r is Ok && post == (StateModel {
            pc: next_pc(pre),
            registers: pre.registers.update(x.index_spec(), n),
            ..pre
        }),
        Instruction::AddImm(x, n) => {
            let a = pre.registers[x.index_spec()];
            r is Ok && post == (StateModel {
                pc: next_pc(pre),
                registers: pre.registers.update(x.index_spec(), wrap8(a + n)).update(
                    15,
                    if a + n > 255 {
                        1u8
                    } else {
                        0u8
                    },
                ),
                ..pre
            })
        },
        Instruction::SetReg(x, y) => r is Ok && post == (StateModel {
            pc: next_pc(pre),
            registers: pre.registers.update(x.index_spec(), pre.registers[y.index_spec()]),
            ..pre
        }),
        Instruction::OrReg(x, y) => r is Ok && post == (StateModel {
            pc: next_pc(pre),
            registers: pre.registers.update(
                x.index_spec(),
                pre.registers[x.index_spec()] | pre.registers[y.index_spec()],
            ),
            ..pre
        }),
        Instruction::AndReg(x, y) => r is Ok && post == (StateModel {
            pc: next_pc(pre),
            registers: pre.registers.update(
                x.index_spec(),
                pre.registers[x.index_spec()] & pre.registers[y.index_spec()],
            ),
            ..pre
        }),
        Instruction::XorReg(x, y) => r is Ok && post == (StateModel {
            pc: next_pc(pre),
            registers: pre.registers.update(
                x.index_spec(),
                pre.registers[x.index_spec()] ^ pre.registers[y.index_spec()],
            ),
            ..pre
        }),
        Instruction::AddReg(x, y) => {
            let a = pre.registers[x.index_spec()];
            let b = pre.registers[y.index_spec()];
            r is Ok && post == (StateModel {
                pc: next_pc(pre),
                registers: pre.registers.update(x.index_spec(), wrap8(a + b)).update(
                    15,
                    if a + b > 255 {
                        1u8
                    } else {
                        0u8
                    },
                ),
                ..pre
            })
        },
        Instruction::SubReg(x, y) => {
            let a = pre.registers[x.index_spec()];
            let b = pre.registers[y.index_spec()];
            r is Ok && post == (StateModel {
                pc: next_pc(pre),
                registers: pre.registers.update(x.index_spec(), wrap8(a - b)).update(
                    15,
                    if a >= b {
                        1u8
                    } else {
                        0u8
                    },
                ),
                ..pre
            })
        },
        Instruction::RevSubReg(x, y) => {
            let a = pre.registers[x.index_spec()];
            let b = pre.registers[y.index_spec()];
            r is Ok && post == (StateModel {
                pc: next_pc(pre),
                registers: pre.registers.update(x.index_spec(), wrap8(b - a)).update(
                    15,
                    if b >= a {
                        1u8
                    } else {
                        0u8
                    },
                ),
                ..pre
            })
        },
        Instruction::RShiftReg(x, y) => {
            let a = pre.registers[x.index_spec()];
            r is Ok && post == (StateModel {
                pc: next_pc(pre),
                registers: pre.registers.update(y.index_spec(), a >> 1u8).update(15, a & 1),
                ..pre
            })
        },
        Instruction::LShiftReg(x, y) => {
            let a = pre.registers[x.index_spec()];
            r is Ok && post == (StateModel {
                pc: next_pc(pre),
                registers: pre.registers.update(y.index_spec(), a << 1u8).update(15, a >> 7u8),
                ..pre
            })
        },
        Instruction::SetAddr(a) => r is Ok && post == (StateModel {
            pc: next_pc(pre),
            i_reg: a.0,
            ..pre
        }),
        Instruction::IndexedJump(a) => r is Ok && post == (StateModel {
            pc: wrap16(a.0 + pre.registers[0]),
            ..pre
        }),
        Instruction::Rand(x, mask) => r is Ok && exists|b: u8|
            post == (StateModel {
                pc: next_pc(pre),
                registers: pre.registers.update(x.index_spec(), b & mask),
                ..pre
            }),
        Instruction::Draw(xr, yr, h) => {
            let sprite = pre.memory.subrange(pre.i_reg as int, pre.i_reg + h);
            let sx = pre.registers[xr.index_spec()] as int;
            let sy = pre.registers[yr.index_spec()] as int;
            &&& r is Ok
            &&& post.bit_gfx.len() == 2048
            &&& forall|p: int|
                0 <= p < 2048 ==> post.bit_gfx[p] == (pre.bit_gfx[p] != draw_covers(
                    sprite,
                    sx,
                    sy,
                    p,
                ))
            &&& post == (StateModel {
                pc: next_pc(pre),
                registers: pre.registers.update(
                    15,
                    if draw_collides(pre.bit_gfx, sprite, sx, sy) {
                        1u8
                    } else {
                        0u8
                    },
                ),
                bit_gfx: post.bit_gfx,
                ..pre
            })
        },
        Instruction::SkipPressed(x) => {
            let v = pre.registers[x.index_spec()];
            if v >= 16 {
                r == Result::<(), Fault>::Err(Fault::NoSuchButton) && post == pre
            } else {
                r is Ok && post == (StateModel {
                    pc: if pre.buttons[v as int] {
                        skip_pc(pre)
                    } else {
                        next_pc(pre)
                    },
                    ..pre
                })
            }
        },
        Instruction::SkipUnpressed(x) => {
            let v = pre.registers[x.index_spec()];
            if v >= 16 {
                r == Result::<(), Fault>::Err(Fault::NoSuchButton) && post == pre
            } else {
                r is Ok && post == (StateModel {
                    pc: if !pre.buttons[v as int] {
                        skip_pc(pre)
                    } else {
                        next_pc(pre)
                    },
                    ..pre
                })
            }
        },
        Instruction::GetTimer(x) => r is Ok && post == (StateModel {
            pc: next_pc(pre),
            registers: pre.registers.update(x.index_spec(), pre.timer),
            ..pre
        }),
        Instruction::WaitPress(x) => r is Ok && if exists|b: int| 0 <= b < 16 && pre.buttons[b] {
            exists|b: int|
                0 <= b < 16 && pre.buttons[b] && (forall|j: int| 0 <= j < b ==> !pre.buttons[j])
                    && post == (StateModel {
                    pc: next_pc(pre),
                    registers: pre.registers.update(x.index_spec(), b as u8),
                    ..pre
                })
        } else {
            post == pre
        },
        Instruction::SetTimer(x) => r is Ok && post == (StateModel {
            pc: next_pc(pre),
            timer: pre.registers[x.index_spec()],
            ..pre
        }),
        Instruction::SetSoundTimer(x) => r is Ok && post == (StateModel {
            pc: next_pc(pre),
            sound_timer: pre.registers[x.index_spec()],
            ..pre
        }),
        Instruction::AddAddr(x) => r is Ok && post == (StateModel {
            pc: next_pc(pre),
            i_reg: wrap16(pre.i_reg + pre.registers[x.index_spec()]),
            ..pre
        }),
        Instruction::SpriteAddr(x) => {
            let v = pre.registers[x.index_spec()];
            if v > 15 {
                r == Result::<(), Fault>::Err(Fault::NoSuchGlyph) && post == pre
            } else {
                r is Ok && post == (StateModel {
                    pc: next_pc(pre),
                    i_reg: (5 * v) as u16,
                    ..pre
                })
            }
        },
        Instruction::BCD(x) => {
            let v = pre.registers[x.index_spec()];
            let i = pre.i_reg as int;
            r is Ok && post == (StateModel {
                pc: next_pc(pre),
                memory: pre.memory.update(i, (v / 100) as u8).update(
                    i + 1,
                    ((v / 10) % 10) as u8,
                ).update(i + 2, (v % 10) as u8),
                ..pre
            })
        },
        Instruction::RegDump(x) => {
            let k = x.index_spec();
            let i = pre.i_reg as int;
            r is Ok && post == (StateModel {
                pc: next_pc(pre),
                memory: Seq::new(
                    4096,
                    |j: int|
                        if i <= j <= i + k {
                            pre.registers[j - i]
                        } else {
                            pre.memory[j]
                        },
                ),
                ..pre
            })
        },
        Instruction::RegLoad(x) => {
            let k = x.index_spec();
            let i = pre.i_reg as int;
            r is Ok && post == (StateModel {
                pc: next_pc(pre),
                registers: Seq::new(
                    16,
                    |j: int|
                        if 0 <= j <= k {
                            pre.memory[i + j]
                        } else {
                            pre.registers[j]
                        },
                ),
                ..pre
            })
        },
    }
}

/// Relies on rand::random: one uniformly drawn byte. Nothing is assumed
/// of the value; callers state what holds of every outcome.
#[verifier::external_body]
fn random_byte() -> u8 {
    rand::random::<u8>()
}

/// The program counter advanced by one instruction width, wrapping.
fn advanced(pc: Address) -> (r: Address)
    ensures
        r.0 == wrap16(pc.0 + 2),
{
    proof {
        if pc.0 + 2 > 0xFFFF {
            lemma_mod_multiples_vanish(1, pc.0 + 2 - 0x10000, 0x10000);
            lemma_small_mod((pc.0 + 2 - 0x10000) as nat, 0x10000);
        } else {
            lemma_small_mod((pc.0 + 2) as nat, 0x10000);
        }
    }
    Address(pc.0.wrapping_add(2))
}

/// The program counter advanced by two instruction widths, wrapping: the
/// target of a taken skip.
fn skip_target(pc: Address) -> (r: Address)
    ensures
        r.0 == wrap16(pc.0 + 4),
{
    let stepped = advanced(pc);
    let r = advanced(stepped);
    proof {
        lemma_mod_bound(pc.0 + 2, 0x10000);
        lemma_small_mod(2, 0x10000);
        lemma_add_mod_noop(pc.0 + 2, 2, 0x10000);
    }
    r
}

/// No two cells of a sprite of at most 15 rows land on the same pixel.
proof fn lemma_mod_shift_ne(base: int, d1: int, d2: int, m: int)
    requires
        0 <= base,
        0 <= d1 < d2,
        d2 - d1 < m,
        0 < m,
    ensures
        (base + d1) % m != (base + d2) % m,
{
    let a = base + d1;
    let b = base + d2;
    lemma_fundamental_div_mod(a, m);
    lemma_fundamental_div_mod(b, m);
    lemma_mod_bound(a, m);
    lemma_mod_bound(b, m);
    if a % m == b % m {
        let qa = a / m;
        let qb = b / m;
        assert(b - a == m * qb - m * qa);
        assert(m * qb - m * qa == m * (qb - qa)) by (nonlinear_arith);
        assert(qb - qa >= 1 ==> m * (qb - qa) >= m) by (nonlinear_arith)
            requires
                0 < m,
        ;
        assert(qb - qa <= 0 ==> m * (qb - qa) <= 0) by (nonlinear_arith)
            requires
                0 < m,
        ;
        assert(false);
    }
}

proof fn lemma_cell_target_injective(x: int, y: int, k1: int, k2: int)
    requires
        0 <= x,
        0 <= y,
        0 <= k1 < 120,
        0 <= k2 < 120,
        k1 != k2,
    ensures
        cell_target(x, y, k1) != cell_target(x, y, k2),
{
    let c1 = (x + k1 % 8) % 64;
    let r1 = (y + k1 / 8) % 32;
    let c2 = (x + k2 % 8) % 64;
    let r2 = (y + k2 / 8) % 32;
    lemma_mod_bound(k1, 8);
    lemma_mod_bound(k2, 8);
    lemma_mod_bound(x + k1 % 8, 64);
    lemma_mod_bound(x + k2 % 8, 64);
    lemma_mod_bound(y + k1 / 8, 32);
    lemma_mod_bound(y + k2 / 8, 32);
    lemma_fundamental_div_mod(k1, 8);
    lemma_fundamental_div_mod(k2, 8);
    if cell_target(x, y, k1) == cell_target(x, y, k2) {
        assert(c1 - c2 == 64 * (r2 - r1));
        assert(c1 == c2 && r1 == r2);
        if k1 % 8 != k2 % 8 {
            if k1 % 8 < k2 % 8 {
                lemma_mod_shift_ne(x, k1 % 8, k2 % 8, 64);
            } else {
                lemma_mod_shift_ne(x, k2 % 8, k1 % 8, 64);
            }
        } else {
            assert(k1 / 8 != k2 / 8);
            assert(0 <= k1 / 8 < 15 && 0 <= k2 / 8 < 15);
            if k1 / 8 < k2 / 8 {
                lemma_mod_shift_ne(y, k1 / 8, k2 / 8, 32);
            } else {
                lemma_mod_shift_ne(y, k2 / 8, k1 / 8, 32);
            }
        }
        assert(false);
    }
}

/// XOR-composites an `h`-row sprite, read from `memory` at `base` on, onto
/// the framebuffer at pixel position `(x, y)`, each row eight pixels wide,
/// coordinates wrapping toroidally. Returns whether any previously-set
/// pixel was cleared.
fn draw_sprite(
    fb: &mut Vec<bool>,
    memory: &Vec<u8>,
    base: usize,
    h: usize,
    x: usize,
    y: usize,
) -> (collision: bool)
    requires
        old(fb).len() == 2048,
        memory.len() == 4096,
        base + h <= 4096,
        h <= 15,
        x <= 255,
        y <= 255,
    ensures
        final(fb).len() == 2048,
        forall|p: int|
            0 <= p < 2048 ==> final(fb)@[p] == (old(fb)@[p] != draw_covers(
                memory@.subrange(base as int, base + h),
                x as int,
                y as int,
                p,
            )),
        collision == draw_collides(
            old(fb)@,
            memory@.subrange(base as int, base + h),
            x as int,
            y as int,
        ),
{
    let ghost sprite = memory@.subrange(base as int, base + h);
    let ghost xi_ = x as int;
    let ghost yi_ = y as int;
    let total = 8 * h;
    let mut collision = false;
    let mut k: usize = 0;
    while k < total
        invariant
            fb.len() == 2048,
            memory.len() == 4096,
            base + h <= 4096,
            h <= 15,
            x <= 255,
            y <= 255,
            total == 8 * h,
            k <= total,
            sprite == memory@.subrange(base as int, base + h),
            xi_ == x as int,
            yi_ == y as int,
            forall|p: int|
                0 <= p < 2048 ==> fb@[p] == (old(fb)@[p] != covered_upto(
                    sprite,
                    xi_,
                    yi_,
                    p,
                    k as int,
                )),
            collision == collides_upto(old(fb)@, sprite, xi_, yi_, k as int),
        decreases total - k,
    {
        let yi = k / 8;
        let xi = k % 8;
        let row = memory[base + yi];
        proof {
            assert(sprite[k as int / 8] == memory@[base + k as int / 8]);
        }
        if (row >> ((7 - xi) as u8)) & 1 == 1 {
            let px = (x + xi) % 64;
            let py = (y + yi) % 32;
            let p = px + py * 64;
            proof {
                assert(cell_bit(sprite, k as int));
                assert(cell_target(xi_, yi_, k as int) == p as int);
                assert forall|k2: int| 0 <= k2 < k as int implies cell_target(xi_, yi_, k2)
                    != p as int by {
                    lemma_cell_target_injective(xi_, yi_, k2, k as int);
                }
                if covered_upto(sprite, xi_, yi_, p as int, k as int) {
                    let k2 = choose|k2: int|
                        0 <= k2 < k as int && cell_bit(sprite, k2) && cell_target(xi_, yi_, k2)
                            == p as int;
                    assert(false);
                }
                assert(fb@[p as int] == old(fb)@[p as int]);
            }
            let was_set = fb[p];
            if was_set {
                collision = true;
                fb.set(p, false);
            } else {
                fb.set(p, true);
            }
            proof {
                let ki = k as int;
                let pi = p as int;
                assert(covered_upto(sprite, xi_, yi_, pi, ki + 1));
                assert forall|q: int| 0 <= q < 2048 implies fb@[q] == (old(fb)@[q]
                    != covered_upto(sprite, xi_, yi_, q, ki + 1)) by {
                    if q != pi {
                        if covered_upto(sprite, xi_, yi_, q, ki + 1) {
                            let k2 = choose|k2: int|
                                0 <= k2 < ki + 1 && cell_bit(sprite, k2) && cell_target(
                                    xi_,
                                    yi_,
                                    k2,
                                ) == q;
                            assert(k2 != ki);
                            assert(covered_upto(sprite, xi_, yi_, q, ki));
                        }
                        if covered_upto(sprite, xi_, yi_, q, ki) {
                            let k2 = choose|k2: int|
                                0 <= k2 < ki && cell_bit(sprite, k2) && cell_target(xi_, yi_, k2)
                                    == q;
                            assert(covered_upto(sprite, xi_, yi_, q, ki + 1));
                        }
                    }
                }
                if was_set {
                    assert(old(fb)@[pi]);
                    assert(collides_upto(old(fb)@, sprite, xi_, yi_, ki + 1));
                } else {
                    if collides_upto(old(fb)@, sprite, xi_, yi_, ki + 1) {
                        let k2 = choose|k2: int|
                            0 <= k2 < ki + 1 && cell_bit(sprite, k2) && old(fb)@[cell_target(
                                xi_,
                                yi_,
                                k2,
                            )];
                        assert(k2 != ki);
                        assert(collides_upto(old(fb)@, sprite, xi_, yi_, ki));
                    }
                    if collides_upto(old(fb)@, sprite, xi_, yi_, ki) {
                        let k2 = choose|k2: int|
                            0 <= k2 < ki && cell_bit(sprite, k2) && old(fb)@[cell_target(
                                xi_,
                                yi_,
                                k2,
                            )];
                        assert(collides_upto(old(fb)@, sprite, xi_, yi_, ki + 1));
                    }
                }
            }
        } else {
            proof {
                let ki = k as int;
                assert(!cell_bit(sprite, ki));
                assert forall|q: int| 0 <= q < 2048 implies fb@[q] == (old(fb)@[q]
                    != covered_upto(sprite, xi_, yi_, q, ki + 1)) by {
                    if covered_upto(sprite, xi_, yi_, q, ki + 1) {
                        let k2 = choose|k2: int|
                            0 <= k2 < ki + 1 && cell_bit(sprite, k2) && cell_target(xi_, yi_, k2)
                                == q;
                        assert(k2 != ki);
                        assert(covered_upto(sprite, xi_, yi_, q, ki));
                    }
                    if covered_upto(sprite, xi_, yi_, q, ki) {
                        let k2 = choose|k2: int|
                            0 <= k2 < ki && cell_bit(sprite, k2) && cell_target(xi_, yi_, k2) == q;
                        assert(covered_upto(sprite, xi_, yi_, q, ki + 1));
                    }
                }
                if collides_upto(old(fb)@, sprite, xi_, yi_, ki + 1) {
                    let k2 = choose|k2: int|
                        0 <= k2 < ki + 1 && cell_bit(sprite, k2) && old(fb)@[cell_target(
                            xi_,
                            yi_,
                            k2,
                        )];
                    assert(k2 != ki);
                    assert(collides_upto(old(fb)@, sprite, xi_, yi_, ki));
                }
                if collides_upto(old(fb)@, sprite, xi_, yi_, ki) {
                    let k2 = choose|k2: int|
                        0 <= k2 < ki && cell_bit(sprite, k2) && old(fb)@[cell_target(xi_, yi_, k2)];
                    assert(collides_upto(old(fb)@, sprite, xi_, yi_, ki + 1));
                }
            }
        }
        k = k + 1;
    }
    proof {
        assert(8 * sprite.len() == total as int);
    }
    collision
}

/// Copies registers 0 through `k` into memory at `base` on.
fn dump_registers(memory: &mut Vec<u8>, registers: &Vec<u8>, base: usize, k: usize)
    requires
        old(memory).len() == 4096,
        registers.len() == 16,
        k < 16,
        base + k < 4096,
    ensures
        final(memory)@ == Seq::new(
            4096,
            |j: int|
                if base <= j <= base + k {
                    registers@[j - base]
                } else {
                    old(memory)@[j]
                },
        ),
{
    let mut t: usize = 0;
    while t < k + 1
        invariant
            memory.len() == 4096,
            registers.len() == 16,
            k < 16,
            base + k < 4096,
            t <= k + 1,
            forall|j: int| base <= j < base + t ==> memory@[j] == registers@[j - base],
            forall|j: int|
                0 <= j < 4096 && !(base <= j < base + t) ==> memory@[j] == old(memory)@[j],
        decreases k + 1 - t,
    {
        memory.set(base + t, registers[t]);
        t = t + 1;
    }
    proof {
        assert(memory@ =~= Seq::new(
            4096,
            |j: int|
                if base <= j <= base + k {
                    registers@[j - base]
                } else {
                    old(memory)@[j]
                },
        ));
    }
}

/// Loads registers 0 through `k` from memory at `base` on.
fn load_registers(registers: &mut Vec<u8>, memory: &Vec<u8>, base: usize, k: usize)
    requires
        old(registers).len() == 16,
        memory.len() == 4096,
        k < 16,
        base + k < 4096,
    ensures
        final(registers)@ == Seq::new(
            16,
            |j: int|
                if 0 <= j <= k {
                    memory@[base + j]
                } else {
                    old(registers)@[j]
                },
        ),
{
    let mut t: usize = 0;
    while t < k + 1
        invariant
            registers.len() == 16,
            memory.len() == 4096,
            k < 16,
            base + k < 4096,
            t <= k + 1,
            forall|j: int| 0 <= j < t ==> registers@[j] == memory@[base + j],
            forall|j: int| t <= j < 16 ==> registers@[j] == old(registers)@[j],
        decreases k + 1 - t,
    {
        registers.set(t, memory[base + t]);
        t = t + 1;
    }
    proof {
        assert(registers@ =~= Seq::new(
            16,
            |j: int|
                if 0 <= j <= k {
                    memory@[base + j]
                } else {
                    old(registers)@[j]
                },
        ));
    }
}

/// The lowest-numbered held button, if any is held.
fn first_pressed(buttons: &Vec<bool>) -> (r: Option<u8>)
    requires
        buttons.len() == 16,
    ensures
        match r {
            Some(b) => b < 16 && buttons@[b as int] && forall|j: int| 0 <= j < b ==> !buttons@[j],
            None => forall|j: int| 0 <= j < 16 ==> !buttons@[j],
        },
{
    let mut k: usize = 0;
    while k < 16
        invariant
            buttons.len() == 16,
            k <= 16,
            forall|j: int| 0 <= j < k ==> !buttons@[j],
        decreases 16 - k,
    {
        if buttons[k] {
            return Some(k as u8);
        }
        k = k + 1;
    }
    None
}

/// The value wrapped to 8 bits after a subtraction agrees with the
/// branch-wise form the engine computes.
proof fn lemma_wrap8_sub(a: u8, b: u8)
    ensures
        wrap8(a - b) == if a >= b {
            (a - b) as u8
        } else {
            (a + 256 - b) as u8
        },
{
    if a >= b {
        lemma_small_mod((a - b) as nat, 256);
    } else {
        lemma_mod_multiples_vanish(1, a - b, 256);
        lemma_small_mod((a + 256 - b) as nat, 256);
    }
}

/// The control-flow operations: jumps, calls, returns and skips.
fn eval_control(op: Instruction, state: &mut State) -> (r: Result<(), Fault>)
    requires
        old(state).wf(),
        in_bounds(op, old(state)@),
        op is RcaCall
            || op is ClearDisplay
            || op is Return
            || op is Goto
            || op is Call
            || op is SkipEqImm
            || op is SkipNeqImm
            || op is SkipEqReg
            || op is SkipNeqReg,
    ensures
        final(state).wf(),
        step(op, old(state)@, final(state)@, r),
{
    let ghost pre = state@;
    let next = advanced(state.pc);
    match op {
        Instruction::RcaCall(_) => Err(Fault::UnsupportedSystemCall),
        Instruction::ClearDisplay => {
            state.pc = next;
            state.bit_gfx = filled(false, 2048);
            proof {
                assert(state@.bit_gfx =~= Seq::new(2048, |p: int| false));
                assert(state@ =~= (StateModel {
                    pc: next_pc(pre),
                    bit_gfx: Seq::new(2048, |p: int| false),
                    ..pre
                }));
            }
            Ok(())
        },
        Instruction::Return => {
            if state.call_stack.len() == 0 {
                Err(Fault::EmptyCallStack)
            } else {
                let a = state.call_stack.pop().unwrap();
                state.pc = a;
                proof {
                    assert(state@.call_stack =~= pre.call_stack.drop_last());
                    assert(a.0 == pre.call_stack.last());
                    assert(state@ =~= (StateModel {
                        pc: pre.call_stack.last(),
                        call_stack: pre.call_stack.drop_last(),
                        ..pre
                    }));
                }
                Ok(())
            }
        },
        Instruction::Goto(a) => {
            state.pc = a;
            proof {
                assert(state@ =~= (StateModel { pc: a.0, ..pre }));
            }
            Ok(())
        },
        Instruction::Call(a) => {
            state.call_stack.push(next);
            state.pc = a;
            proof {
                assert(state@.call_stack =~= pre.call_stack.push(next_pc(pre)));
                assert(state@ =~= (StateModel {
                    pc: a.0,
                    call_stack: pre.call_stack.push(next_pc(pre)),
                    ..pre
                }));
            }
            Ok(())
        },
        Instruction::SkipEqImm(x, n) => {
            let taken = state.registers[x.index()] == n;
            state.pc = if taken {
                skip_target(state.pc)
            } else {
                next
            };
            proof {
                assert(state@ =~= (StateModel {
                    pc: if pre.registers[x.index_spec()] == n {
                        skip_pc(pre)
                    } else {
                        next_pc(pre)
                    },
                    ..pre
                }));
            }
            Ok(())
        },
        Instruction::SkipNeqImm(x, n) => {
            let taken = state.registers[x.index()] != n;
            state.pc = if taken {
                skip_target(state.pc)
            } else {
                next
            };
            proof {
                assert(state@ =~= (StateModel {
                    pc: if pre.registers[x.index_spec()] != n {
                        skip_pc(pre)
                    } else {
                        next_pc(pre)
                    },
                    ..pre
                }));
            }
            Ok(())
        },
        Instruction::SkipEqReg(x, y) => {
            let taken = state.registers[x.index()] == state.registers[y.index()];
            state.pc = if taken {
                skip_target(state.pc)
            } else {
                next
            };
            proof {
                assert(state@ =~= (StateModel {
                    pc: if pre.registers[x.index_spec()] == pre.registers[y.index_spec()] {
                        skip_pc(pre)
                    } else {
                        next_pc(pre)
                    },
                    ..pre
                }));
            }
            Ok(())
        },
        Instruction::SkipNeqReg(x, y) => {
            let taken = state.registers[x.index()] != state.registers[y.index()];
            state.pc = if taken {
                skip_target(state.pc)
            } else {
                next
            };
            proof {
                assert(state@ =~= (StateModel {
                    pc: if pre.registers[x.index_spec()] != pre.registers[y.index_spec()] {
                        skip_pc(pre)
                    } else {
                        next_pc(pre)
                    },
                    ..pre
                }));
            }
            Ok(())
        },
        _ => unreached(),
    }
}

/// The register-to-register operations: loads, arithmetic and shifts.
fn eval_alu(op: Instruction, state: &mut State) -> (r: Result<(), Fault>)
    requires
        old(state).wf(),
        in_bounds(op, old(state)@),
        op is SetImm
            || op is AddImm
            || op is SetReg
            || op is OrReg
            || op is AndReg
            || op is XorReg
            || op is AddReg
            || op is SubReg
            || op is RevSubReg
            || op is RShiftReg
            || op is LShiftReg,
    ensures
        final(state).wf(),
        step(op, old(state)@, final(state)@, r),
{
    let ghost pre = state@;
    let next = advanced(state.pc);
    match op {
        Instruction::SetImm(x, n) => {
            state.pc = next;
            state.registers.set(x.index(), n);
            proof {
                assert(state@ =~= (StateModel {
                    pc: next_pc(pre),
                    registers: pre.registers.update(x.index_spec(), n),
                    ..pre
                }));
            }
            Ok(())
        },
        Instruction::AddImm(x, n) => {
            state.pc = next;
            let xi = x.index();
            let a = state.registers[xi];
            let sum = a as u16 + n as u16;
            proof {
                lemma_small_mod((sum % 256) as nat, 256);
            }
            state.registers.set(xi, (sum % 256) as u8);
            state.registers.set(
                15,
                if sum > 255 {
                    1
                } else {
                    0
                },
            );
            proof {
                assert(state@ =~= (StateModel {
                    pc: next_pc(pre),
                    registers: pre.registers.update(x.index_spec(), wrap8(a + n)).update(
                        15,
                        if a + n > 255 {
                            1u8
                        } else {
                            0u8
                        },
                    ),
                    ..pre
                }));
            }
            Ok(())
        },
        Instruction::SetReg(x, y) => {
            state.pc = next;
            let v = state.registers[y.index()];
            state.registers.set(x.index(), v);
            proof {
                assert(state@ =~= (StateModel {
                    pc: next_pc(pre),
                    registers: pre.registers.update(
                        x.index_spec(),
                        pre.registers[y.index_spec()],
                    ),
                    ..pre
                }));
            }
            Ok(())
        },
        Instruction::OrReg(x, y) => {
            state.pc = next;
            let v = state.registers[x.index()] | state.registers[y.index()];
            state.registers.set(x.index(), v);
            proof {
                assert(state@ =~= (StateModel {
                    pc: next_pc(pre),
                    registers: pre.registers.update(
                        x.index_spec(),
                        pre.registers[x.index_spec()] | pre.registers[y.index_spec()],
                    ),
                    ..pre
                }));
            }
            Ok(())
        },
        Instruction::AndReg(x, y) => {
            state.pc = next;
            let v = state.registers[x.index()] & state.registers[y.index()];
            state.registers.set(x.index(), v);
            proof {
                assert(state@ =~= (StateModel {
                    pc: next_pc(pre),
                    registers: pre.registers.update(
                        x.index_spec(),
                        pre.registers[x.index_spec()] & pre.registers[y.index_spec()],
                    ),
                    ..pre
                }));
            }
            Ok(())
        },
        Instruction::XorReg(x, y) => {
            state.pc = next;
            let v = state.registers[x.index()] ^ state.registers[y.index()];
            state.registers.set(x.index(), v);
            proof {
                assert(state@ =~= (StateModel {
                    pc: next_pc(pre),
                    registers: pre.registers.update(
                        x.index_spec(),
                        pre.registers[x.index_spec()] ^ pre.registers[y.index_spec()],
                    ),
                    ..pre
                }));
            }
            Ok(())
        },
        Instruction::AddReg(x, y) => {
            state.pc = next;
            let a = state.registers[x.index()];
            let b = state.registers[y.index()];
            let sum = a as u16 + b as u16;
            proof {
                lemma_small_mod((sum % 256) as nat, 256);
            }
            state.registers.set(x.index(), (sum % 256) as u8);
            state.registers.set(
                15,
                if sum > 255 {
                    1
                } else {
                    0
                },
            );
            proof {
                assert(state@ =~= (StateModel {
                    pc: next_pc(pre),
                    registers: pre.registers.update(x.index_spec(), wrap8(a + b)).update(
                        15,
                        if a + b > 255 {
                            1u8
                        } else {
                            0u8
                        },
                    ),
                    ..pre
                }));
            }
            Ok(())
        },
        Instruction::SubReg(x, y) => {
            state.pc = next;
            let a = state.registers[x.index()];
            let b = state.registers[y.index()];
            let val = if a >= b {
                a - b
            } else {
                (a as u16 + 256 - b as u16) as u8
            };
            proof {
                lemma_wrap8_sub(a, b);
            }
            state.registers.set(x.index(), val);
            state.registers.set(
                15,
                if a >= b {
                    1
                } else {
                    0
                },
            );
            proof {
                assert(state@ =~= (StateModel {
                    pc: next_pc(pre),
                    registers: pre.registers.update(x.index_spec(), wrap8(a - b)).update(
                        15,
                        if a >= b {
                            1u8
                        } else {
                            0u8
                        },
                    ),
                    ..pre
                }));
            }
            Ok(())
        },
        Instruction::RevSubReg(x, y) => {
            state.pc = next;
            let a = state.registers[x.index()];
            let b = state.registers[y.index()];
            let val = if b >= a {
                b - a
            } else {
                (b as u16 + 256 - a as u16) as u8
            };
            proof {
                lemma_wrap8_sub(b, a);
            }
            state.registers.set(x.index(), val);
            state.registers.set(
                15,
                if b >= a {
                    1
                } else {
                    0
                },
            );
            proof {
                assert(state@ =~= (StateModel {
                    pc: next_pc(pre),
                    registers: pre.registers.update(x.index_spec(), wrap8(b - a)).update(
                        15,
                        if b >= a {
                            1u8
                        } else {
                            0u8
                        },
                    ),
                    ..pre
                }));
            }
            Ok(())
        },
        Instruction::RShiftReg(x, y) => {
            state.pc = next;
            let a = state.registers[x.index()];
            state.registers.set(y.index(), a >> 1u8);
            state.registers.set(15, a & 1);
            proof {
                assert(state@ =~= (StateModel {
                    pc: next_pc(pre),
                    registers: pre.registers.update(y.index_spec(), a >> 1u8).update(
                        15,
                        a & 1,
                    ),
                    ..pre
                }));
            }
            Ok(())
        },
        Instruction::LShiftReg(x, y) => {
            state.pc = next;
            let a = state.registers[x.index()];
            state.registers.set(y.index(), a << 1u8);
            state.registers.set(15, a >> 7u8);
            proof {
                assert(state@ =~= (StateModel {
                    pc: next_pc(pre),
                    registers: pre.registers.update(y.index_spec(), a << 1u8).update(
                        15,
                        a >> 7u8,
                    ),
                    ..pre
                }));
            }
            Ok(())
        },
        _ => unreached(),
    }
}

/// The index, random, draw and button-skip operations.
fn eval_point(op: Instruction, state: &mut State) -> (r: Result<(), Fault>)
    requires
        old(state).wf(),
        in_bounds(op, old(state)@),
        op is SetAddr
            || op is IndexedJump
            || op is Rand
            || op is Draw
            || op is SkipPressed
            || op is SkipUnpressed,
    ensures
        final(state).wf(),
        step(op, old(state)@, final(state)@, r),
{
    let ghost pre = state@;
    let next = advanced(state.pc);
    match op {
        Instruction::SetAddr(a) => {
            state.pc = next;
            state.i_reg = a;
            proof {
                assert(state@ =~= (StateModel { pc: next_pc(pre), i_reg: a.0, ..pre }));
            }
            Ok(())
        },
        Instruction::IndexedJump(a) => {
            let v0 = state.registers[0];
            state.pc = Address(a.0.wrapping_add(v0 as u16));
            proof {
                if a.0 + v0 > 0xFFFF {
                    lemma_mod_multiples_vanish(1, a.0 + v0 - 0x10000, 0x10000);
                    lemma_small_mod((a.0 + v0 - 0x10000) as nat, 0x10000);
                } else {
                    lemma_small_mod((a.0 + v0) as nat, 0x10000);
                }
                assert(state@ =~= (StateModel { pc: wrap16(a.0 + pre.registers[0]), ..pre }));
            }
            Ok(())
        },
        Instruction::Rand(x, mask) => {
            state.pc = next;
            let byte = random_byte();
            state.registers.set(x.index(), byte & mask);
            proof {
                assert(state@ =~= (StateModel {
                    pc: next_pc(pre),
                    registers: pre.registers.update(x.index_spec(), byte & mask),
                    ..pre
                }));
            }
            Ok(())
        },
        Instruction::Draw(xr, yr, h) => {
            let x = state.registers[xr.index()] as usize;
            let y = state.registers[yr.index()] as usize;
            let base = state.i_reg.0 as usize;
            state.pc = next;
            let collision = draw_sprite(&mut state.bit_gfx, &state.memory, base, h as usize, x, y);
            state.registers.set(
                15,
                if collision {
                    1
                } else {
                    0
                },
            );
            proof {
                let sprite = pre.memory.subrange(pre.i_reg as int, pre.i_reg + h);
                assert(state@ =~= (StateModel {
                    pc: next_pc(pre),
                    registers: pre.registers.update(
                        15,
                        if draw_collides(
                            pre.bit_gfx,
                            sprite,
                            pre.registers[xr.index_spec()] as int,
                            pre.registers[yr.index_spec()] as int,
                        ) {
                            1u8
                        } else {
                            0u8
                        },
                    ),
                    bit_gfx: state@.bit_gfx,
                    ..pre
                }));
            }
            Ok(())
        },
        Instruction::SkipPressed(x) => {
            let v = state.registers[x.index()];
            match Button::from_index(v) {
                None => Err(Fault::NoSuchButton),
                Some(b) => {
                    let held = state.buttons[b.index()];
                    state.pc = if held {
                        skip_target(state.pc)
                    } else {
                        next
                    };
                    proof {
                        assert(state@ =~= (StateModel {
                            pc: if pre.buttons[pre.registers[x.index_spec()] as int] {
                                skip_pc(pre)
                            } else {
                                next_pc(pre)
                            },
                            ..pre
                        }));
                    }
                    Ok(())
                },
            }
        },
        Instruction::SkipUnpressed(x) => {
            let v = state.registers[x.index()];
            match Button::from_index(v) {
                None => Err(Fault::NoSuchButton),
                Some(b) => {
                    let held = state.buttons[b.index()];
                    state.pc = if !held {
                        skip_target(state.pc)
                    } else {
                        next
                    };
                    proof {
                        assert(state@ =~= (StateModel {
                            pc: if !pre.buttons[pre.registers[x.index_spec()] as int] {
                                skip_pc(pre)
                            } else {
                                next_pc(pre)
                            },
                            ..pre
                        }));
                    }
                    Ok(())
                },
            }
        },
        _ => unreached(),
    }
}

/// The timer, wait, index-arithmetic and memory-block operations.
fn eval_house(op: Instruction, state: &mut State) -> (r: Result<(), Fault>)
    requires
        old(state).wf(),
        in_bounds(op, old(state)@),
        op is GetTimer
            || op is WaitPress
            || op is SetTimer
            || op is SetSoundTimer
            || op is AddAddr
            || op is SpriteAddr
            || op is BCD
            || op is RegDump
            || op is RegLoad,
    ensures
        final(state).wf(),
        step(op, old(state)@, final(state)@, r),
{
    let ghost pre = state@;
    let next = advanced(state.pc);
    match op {
        Instruction::GetTimer(x) => {
            state.pc = next;
            let t = state.timer;
            state.registers.set(x.index(), t);
            proof {
                assert(state@ =~= (StateModel {
                    pc: next_pc(pre),
                    registers: pre.registers.update(x.index_spec(), pre.timer),
                    ..pre
                }));
            }
            Ok(())
        },
        Instruction::WaitPress(x) => {
            match first_pressed(&state.buttons) {
                Some(b) => {
                    state.pc = next;
                    state.registers.set(x.index(), b);
                    proof {
                        assert(pre.buttons[b as int]);
                        assert(state@ =~= (StateModel {
                            pc: next_pc(pre),
                            registers: pre.registers.update(x.index_spec(), b),
                            ..pre
                        }));
                    }
                    Ok(())
                },
                None => {
                    proof {
                        assert(forall|b: int| 0 <= b < 16 ==> !pre.buttons[b]);
                    }
                    Ok(())
                },
            }
        },
        Instruction::SetTimer(x) => {
            state.pc = next;
            state.timer = state.registers[x.index()];
            proof {
                assert(state@ =~= (StateModel {
                    pc: next_pc(pre),
                    timer: pre.registers[x.index_spec()],
                    ..pre
                }));
            }
            Ok(())
        },
        Instruction::SetSoundTimer(x) => {
            state.pc = next;
            state.sound_timer = state.registers[x.index()];
            proof {
                assert(state@ =~= (StateModel {
                    pc: next_pc(pre),
                    sound_timer: pre.registers[x.index_spec()],
                    ..pre
                }));
            }
            Ok(())
        },
        Instruction::AddAddr(x) => {
            state.pc = next;
            let v = state.registers[x.index()];
            let old_i = state.i_reg.0;
            state.i_reg = Address(old_i.wrapping_add(v as u16));
            proof {
                if old_i + v > 0xFFFF {
                    lemma_mod_multiples_vanish(1, old_i + v - 0x10000, 0x10000);
                    lemma_small_mod((old_i + v - 0x10000) as nat, 0x10000);
                } else {
                    lemma_small_mod((old_i + v) as nat, 0x10000);
                }
                assert(state@ =~= (StateModel {
                    pc: next_pc(pre),
                    i_reg: wrap16(pre.i_reg + pre.registers[x.index_spec()]),
                    ..pre
                }));
            }
            Ok(())
        },
        Instruction::SpriteAddr(x) => {
            let v = state.registers[x.index()];
            if v > 15 {
                Err(Fault::NoSuchGlyph)
            } else {
                state.pc = next;
                state.i_reg = Address(5 * v as u16);
                proof {
                    assert(state@ =~= (StateModel {
                        pc: next_pc(pre),
                        i_reg: (5 * pre.registers[x.index_spec()]) as u16,
                        ..pre
                    }));
                }
                Ok(())
            }
        },
        Instruction::BCD(x) => {
            state.pc = next;
            let v = state.registers[x.index()];
            let i = state.i_reg.0 as usize;
            state.memory.set(i, v / 100);
            state.memory.set(i + 1, (v / 10) % 10);
            state.memory.set(i + 2, v % 10);
            proof {
                assert(state@ =~= (StateModel {
                    pc: next_pc(pre),
                    memory: pre.memory.update(pre.i_reg as int, (v / 100) as u8).update(
                        pre.i_reg + 1,
                        ((v / 10) % 10) as u8,
                    ).update(pre.i_reg + 2, (v % 10) as u8),
                    ..pre
                }));
            }
            Ok(())
        },
        Instruction::RegDump(x) => {
            state.pc = next;
            let k = x.index();
            let base = state.i_reg.0 as usize;
            dump_registers(&mut state.memory, &state.registers, base, k);
            proof {
                assert(state@ =~= (StateModel {
                    pc: next_pc(pre),
                    memory: Seq::new(
                        4096,
                        |j: int|
                            if pre.i_reg <= j <= pre.i_reg + x.index_spec() {
                                pre.registers[j - pre.i_reg]
                            } else {
                                pre.memory[j]
                            },
                    ),
                    ..pre
                }));
            }
            Ok(())
        },
        Instruction::RegLoad(x) => {
            state.pc = next;
            let k = x.index();
            let base = state.i_reg.0 as usize;
            load_registers(&mut state.registers, &state.memory, base, k);
            proof {
                assert(state@ =~= (StateModel {
                    pc: next_pc(pre),
                    registers: Seq::new(
                        16,
                        |j: int|
                            if 0 <= j <= x.index_spec() {
                                pre.memory[pre.i_reg + j]
                            } else {
                                pre.registers[j]
                            },
                    ),
                    ..pre
                }));
            }
            Ok(())
        },
        _ => unreached(),
    }
}

impl Instruction {
    /// Applies this operation to the machine state.
    ///
    /// The program counter is advanced by one instruction width before the
    /// operation's own effect, so control flow simply overwrites it. A
    /// fault is reported without touching the state; there is no recovery.
    pub fn eval(&self, state: &mut State) -> (r: Result<(), Fault>)
        requires
            old(state).wf(),
            in_bounds(*self, old(state)@),
        ensures
            final(state).wf(),
            step(*self, old(state)@, final(state)@, r),
    {
        match *self {
            Instruction::RcaCall(_)
            | Instruction::ClearDisplay
            | Instruction::Return
            | Instruction::Goto(_)
            | Instruction::Call(_)
            | Instruction::SkipEqImm(..)
            | Instruction::SkipNeqImm(..)
            | Instruction::SkipEqReg(..)
            | Instruction::SkipNeqReg(..) => eval_control(*self, state),
            Instruction::SetImm(..)
            | Instruction::AddImm(..)
            | Instruction::SetReg(..)
            | Instruction::OrReg(..)
            | Instruction::AndReg(..)
            | Instruction::XorReg(..)
            | Instruction::AddReg(..)
            | Instruction::SubReg(..)
            | Instruction::RevSubReg(..)
            | Instruction::RShiftReg(..)
            | Instruction::LShiftReg(..) => eval_alu(*self, state),
            Instruction::SetAddr(_)
            | Instruction::IndexedJump(_)
            | Instruction::Rand(..)
            | Instruction::Draw(..)
            | Instruction::SkipPressed(_)
            | Instruction::SkipUnpressed(_) => eval_point(*self, state),
            Instruction::GetTimer(_)
            | Instruction::WaitPress(_)
            | Instruction::SetTimer(_)
            | Instruction::SetSoundTimer(_)
            | Instruction::AddAddr(_)
            | Instruction::SpriteAddr(_)
            | Instruction::BCD(_)
            | Instruction::RegDump(_)
            | Instruction::RegLoad(_) => eval_house(*self, state),
        }
    }
}

} // verus!
