//! The guarantees the machine gives across operations, each proved from
//! the step relation alone.

use vstd::prelude::*;

use vstd::arithmetic::div_mod::lemma_mod_bound;

use crate::eval::{
    cell_bit, cell_target, draw_collides, draw_covers, next_pc, step, wrap8, Instruction,
};
use crate::types::{Address, Fault, Register, StateModel};

verus! {

/// A register other than VF does not occupy the flag slot.
proof fn lemma_index_not_vf(x: Register)
    requires
        x != Register::VF,
    ensures
        0 <= x.index_spec() < 15,
{
    match x {
        Register::V0 => (),
        Register::V1 => (),
        Register::V2 => (),
        Register::V3 => (),
        Register::V4 => (),
        Register::V5 => (),
        Register::V6 => (),
        Register::V7 => (),
        Register::V8 => (),
        Register::V9 => (),
        Register::VA => (),
        Register::VB => (),
        Register::VC => (),
        Register::VD => (),
        Register::VE => (),
        Register::VF => (),
    }
}

/// Every sprite cell lands on one of the 2048 framebuffer pixels.
proof fn lemma_cell_target_in_range(x: int, y: int, k: int)
    requires
        0 <= x,
        0 <= y,
        0 <= k,
    ensures
        0 <= cell_target(x, y, k) < 2048,
{
    lemma_mod_bound(k, 8);
    lemma_mod_bound(x + k % 8, 64);
    lemma_mod_bound(y + k / 8, 32);
}

/// The sprite a draw executed on `pre` reads: `h` rows of memory at the
/// index register.
pub open spec fn drawn_sprite(pre: StateModel, h: u8) -> Seq<u8> {
    pre.memory.subrange(pre.i_reg as int, pre.i_reg + h)
}

/// Register addition wraps modulo 256 and VF reports the carry: the
/// destination receives (a + b) mod 256 and VF becomes 1 exactly when
/// a + b exceeds 255. The destination must not be VF itself, which the
/// flag overwrites.
pub proof fn lemma_add_reg_wraps(
    pre: StateModel,
    post: StateModel,
    x: Register,
    y: Register,
    r: Result<(), Fault>,
)
    requires
        pre.wf(),
        step(Instruction::AddReg(x, y), pre, post, r),
        x != Register::VF,
    ensures
        post.registers[x.index_spec()] == wrap8(
            pre.registers[x.index_spec()] + pre.registers[y.index_spec()],
        ),
        post.registers[15] == (if pre.registers[x.index_spec()] + pre.registers[y.index_spec()]
            > 255 {
            1u8
        } else {
            0u8
        }),
{
    lemma_index_not_vf(x);
}

/// Immediate addition wraps modulo 256 and VF reports the carry, exactly
/// as register addition does.
pub proof fn lemma_add_imm_wraps(
    pre: StateModel,
    post: StateModel,
    x: Register,
    n: u8,
    r: Result<(), Fault>,
)
    requires
        pre.wf(),
        step(Instruction::AddImm(x, n), pre, post, r),
        x != Register::VF,
    ensures
        post.registers[x.index_spec()] == wrap8(pre.registers[x.index_spec()] + n),
        post.registers[15] == (if pre.registers[x.index_spec()] + n > 255 {
            1u8
        } else {
            0u8
        }),
{
    lemma_index_not_vf(x);
}

/// Drawing the same sprite twice at the same location restores the
/// framebuffer: the second draw clears every pixel the first set and
/// re-sets every pixel the first cleared. The coordinate registers must
/// not be VF, which the first draw's flag overwrites.
pub proof fn lemma_draw_twice_restores(
    pre: StateModel,
    mid: StateModel,
    post: StateModel,
    x: Register,
    y: Register,
    h: u8,
    r1: Result<(), Fault>,
    r2: Result<(), Fault>,
)
    requires
        pre.wf(),
        step(Instruction::Draw(x, y, h), pre, mid, r1),
        step(Instruction::Draw(x, y, h), mid, post, r2),
        x != Register::VF,
        y != Register::VF,
    ensures
        post.bit_gfx == pre.bit_gfx,
{
    lemma_index_not_vf(x);
    lemma_index_not_vf(y);
    let sprite = drawn_sprite(pre, h);
    assert(drawn_sprite(mid, h) == sprite);
    let sx = pre.registers[x.index_spec()] as int;
    let sy = pre.registers[y.index_spec()] as int;
    assert(mid.registers[x.index_spec()] == pre.registers[x.index_spec()]);
    assert(mid.registers[y.index_spec()] == pre.registers[y.index_spec()]);
    assert forall|p: int| 0 <= p < 2048 implies post.bit_gfx[p] == pre.bit_gfx[p] by {
        assert(mid.bit_gfx[p] == (pre.bit_gfx[p] != draw_covers(sprite, sx, sy, p)));
        assert(post.bit_gfx[p] == (mid.bit_gfx[p] != draw_covers(sprite, sx, sy, p)));
    }
    assert(post.bit_gfx =~= pre.bit_gfx);
}

/// After the second of two identical draws, VF is 1 exactly when the
/// first draw set some pixel that had been clear: a full self-collision.
pub proof fn lemma_draw_twice_collides(
    pre: StateModel,
    mid: StateModel,
    post: StateModel,
    x: Register,
    y: Register,
    h: u8,
    r1: Result<(), Fault>,
    r2: Result<(), Fault>,
)
    requires
        pre.wf(),
        pre.i_reg + h <= 4096,
        step(Instruction::Draw(x, y, h), pre, mid, r1),
        step(Instruction::Draw(x, y, h), mid, post, r2),
        x != Register::VF,
        y != Register::VF,
    ensures
        post.registers[15] == (if exists|k: int|
            0 <= k < 8 * (h as int) && cell_bit(drawn_sprite(pre, h), k) && !pre.bit_gfx[cell_target(
                pre.registers[x.index_spec()] as int,
                pre.registers[y.index_spec()] as int,
                k,
            )] {
            1u8
        } else {
            0u8
        }),
{
    lemma_index_not_vf(x);
    lemma_index_not_vf(y);
    let sprite = drawn_sprite(pre, h);
    assert(drawn_sprite(mid, h) == sprite);
    let sx = pre.registers[x.index_spec()] as int;
    let sy = pre.registers[y.index_spec()] as int;
    assert(mid.registers[x.index_spec()] == pre.registers[x.index_spec()]);
    assert(mid.registers[y.index_spec()] == pre.registers[y.index_spec()]);
    assert(sprite.len() == h);
    if exists|k: int|
        0 <= k < 8 * (h as int) && cell_bit(sprite, k) && !pre.bit_gfx[cell_target(sx, sy, k)] {
        let k = choose|k: int|
            0 <= k < 8 * (h as int) && cell_bit(sprite, k) && !pre.bit_gfx[cell_target(
                sx,
                sy,
                k,
            )];
        lemma_cell_target_in_range(sx, sy, k);
        let t = cell_target(sx, sy, k);
        assert(draw_covers(sprite, sx, sy, t));
        assert(mid.bit_gfx[t] == (pre.bit_gfx[t] != draw_covers(sprite, sx, sy, t)));
        assert(mid.bit_gfx[t]);
        assert(draw_collides(mid.bit_gfx, sprite, sx, sy));
        assert(post.registers[15] == 1);
    } else {
        if draw_collides(mid.bit_gfx, sprite, sx, sy) {
            let k = choose|k: int|
                0 <= k < 8 * sprite.len() && cell_bit(sprite, k) && mid.bit_gfx[cell_target(
                    sx,
                    sy,
                    k,
                )];
            lemma_cell_target_in_range(sx, sy, k);
            let t = cell_target(sx, sy, k);
            assert(draw_covers(sprite, sx, sy, t));
            assert(mid.bit_gfx[t] == (pre.bit_gfx[t] != draw_covers(sprite, sx, sy, t)));
            assert(!pre.bit_gfx[t]);
            assert(false);
        }
        assert(post.registers[15] == 0);
    }
}

/// Drawing a sprite whose rows are all zero never sets VF and leaves the
/// framebuffer untouched.
pub proof fn lemma_draw_blank_sprite(
    pre: StateModel,
    post: StateModel,
    x: Register,
    y: Register,
    h: u8,
    r: Result<(), Fault>,
)
    requires
        pre.wf(),
        pre.i_reg + h <= 4096,
        step(Instruction::Draw(x, y, h), pre, post, r),
        forall|t: int| 0 <= t < h ==> drawn_sprite(pre, h)[t] == 0,
    ensures
        post.registers[15] == 0,
        post.bit_gfx == pre.bit_gfx,
{
    let sprite = drawn_sprite(pre, h);
    let sx = pre.registers[x.index_spec()] as int;
    let sy = pre.registers[y.index_spec()] as int;
    assert(sprite.len() == h);
    assert(forall|s: u8| #[trigger] ((0u8 >> s) & 1) == 0) by (bit_vector);
    assert forall|k: int| 0 <= k < 8 * (h as int) implies !cell_bit(sprite, k) by {
        lemma_mod_bound(k, 8);
        assert(sprite[k / 8] == 0);
    }
    if draw_collides(pre.bit_gfx, sprite, sx, sy) {
        let k = choose|k: int|
            0 <= k < 8 * sprite.len() && cell_bit(sprite, k) && pre.bit_gfx[cell_target(
                sx,
                sy,
                k,
            )];
        assert(false);
    }
    assert forall|p: int| 0 <= p < 2048 implies post.bit_gfx[p] == pre.bit_gfx[p] by {
        if draw_covers(sprite, sx, sy, p) {
            let k = choose|k: int|
                0 <= k < 8 * sprite.len() && cell_bit(sprite, k) && cell_target(sx, sy, k) == p;
            assert(false);
        }
    }
    assert(post.bit_gfx =~= pre.bit_gfx);
}

/// Dumping V0 through VF to memory and then loading V0 through VF back
/// from the same index register restores identical register values.
pub proof fn lemma_dump_load_round_trip(
    pre: StateModel,
    mid: StateModel,
    post: StateModel,
    r1: Result<(), Fault>,
    r2: Result<(), Fault>,
)
    requires
        pre.wf(),
        pre.i_reg + 15 < 4096,
        step(Instruction::RegDump(Register::VF), pre, mid, r1),
        step(Instruction::RegLoad(Register::VF), mid, post, r2),
    ensures
        post.registers == pre.registers,
{
    assert(mid.i_reg == pre.i_reg);
    assert forall|j: int| 0 <= j < 16 implies post.registers[j] == pre.registers[j] by {
        assert(mid.memory[pre.i_reg + j] == pre.registers[j]);
    }
    assert(post.registers =~= pre.registers);
}

/// With no button held, a wait leaves the machine exactly as it was: the
/// program counter is rolled back, so the operation re-executes next
/// cycle.
pub proof fn lemma_wait_press_blocks(
    pre: StateModel,
    post: StateModel,
    x: Register,
    r: Result<(), Fault>,
)
    requires
        step(Instruction::WaitPress(x), pre, post, r),
        forall|b: int| 0 <= b < 16 ==> !pre.buttons[b],
    ensures
        post == pre,
{
}

/// With some button held, a wait advances the program counter and loads
/// the lowest held button's number into the register; nothing else
/// changes.
pub proof fn lemma_wait_press_proceeds(
    pre: StateModel,
    post: StateModel,
    x: Register,
    held: int,
    r: Result<(), Fault>,
)
    requires
        pre.wf(),
        step(Instruction::WaitPress(x), pre, post, r),
        0 <= held < 16,
        pre.buttons[held],
    ensures
        post.pc == next_pc(pre),
        pre.buttons[post.registers[x.index_spec()] as int],
        forall|j: int| 0 <= j < post.registers[x.index_spec()] ==> !pre.buttons[j],
        exists|w: int|
            0 <= w < 16 && post.registers == #[trigger] pre.registers.update(
                x.index_spec(),
                w as u8,
            ),
{
    assert(exists|b: int| 0 <= b < 16 && pre.buttons[b]);
    let w = choose|w: int|
        0 <= w < 16 && pre.buttons[w] && (forall|j: int| 0 <= j < w ==> !pre.buttons[j]) && post
            == (StateModel {
            pc: next_pc(pre),
            registers: pre.registers.update(x.index_spec(), w as u8),
            ..pre
        });
    assert(0 <= x.index_spec() < 16);
    assert(post.registers[x.index_spec()] == w as u8);
}

/// A call followed immediately by a return leaves the program counter at
/// the instruction after the call, with the call stack as it was.
pub proof fn lemma_call_return(
    pre: StateModel,
    mid: StateModel,
    post: StateModel,
    target: Address,
    r1: Result<(), Fault>,
    r2: Result<(), Fault>,
)
    requires
        step(Instruction::Call(target), pre, mid, r1),
        step(Instruction::Return, mid, post, r2),
    ensures
        r2 is Ok,
        post.pc == next_pc(pre),
        post.call_stack == pre.call_stack,
{
    assert(mid.call_stack.len() == pre.call_stack.len() + 1);
    assert(post.call_stack =~= pre.call_stack);
}

} // verus!
