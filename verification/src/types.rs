//! The data model of the machine: addresses, registers, buttons, faults and
//! the machine state itself, together with its mathematical view.

use vstd::prelude::*;

pub use crate::eval::Instruction;

verus! {

/// A 16-bit machine address. Memory-touching operations use it as an index
/// into the 4096 memory cells; address arithmetic wraps at 16 bits.
#[derive(Clone, Copy, Debug, PartialEq, Eq, Structural)]
pub struct Address(pub u16);

/// One of the sixteen general-purpose registers. `VF` doubles as the flag
/// output of arithmetic, shift and draw operations: any operation that
/// reports a carry, borrow or collision overwrites it.
#[derive(Clone, Copy, Debug, PartialEq, Eq, Structural)]
pub enum Register {
    V0,
    V1,
    V2,
    V3,
    V4,
    V5,
    V6,
    V7,
    V8,
    V9,
    VA,
    VB,
    VC,
    VD,
    VE,
    VF,
}

impl Register {
    /// The register's number, 0 through 15.
    pub open spec fn index_spec(self) -> int {
        match self {
            Register::V0 => 0,
            Register::V1 => 1,
            Register::V2 => 2,
            Register::V3 => 3,
            Register::V4 => 4,
            Register::V5 => 5,
            Register::V6 => 6,
            Register::V7 => 7,
            Register::V8 => 8,
            Register::V9 => 9,
            Register::VA => 10,
            Register::VB => 11,
            Register::VC => 12,
            Register::VD => 13,
            Register::VE => 14,
            Register::VF => 15,
        }
    }

    /// The register named by a nibble.
    pub open spec fn spec_from_nibble(n: u8) -> Register {
        match n {
            0 => Register::V0,
            1 => Register::V1,
            2 => Register::V2,
            3 => Register::V3,
            4 => Register::V4,
            5 => Register::V5,
            6 => Register::V6,
            7 => Register::V7,
            8 => Register::V8,
            9 => Register::V9,
            10 => Register::VA,
            11 => Register::VB,
            12 => Register::VC,
            13 => Register::VD,
            14 => Register::VE,
            _ => Register::VF,
        }
    }

    pub fn index(self) -> (i: usize)
        ensures
            i == self.index_spec(),
    {
        match self {
            Register::V0 => 0,
            Register::V1 => 1,
            Register::V2 => 2,
            Register::V3 => 3,
            Register::V4 => 4,
            Register::V5 => 5,
            Register::V6 => 6,
            Register::V7 => 7,
            Register::V8 => 8,
            Register::V9 => 9,
            Register::VA => 10,
            Register::VB => 11,
            Register::VC => 12,
            Register::VD => 13,
            Register::VE => 14,
            Register::VF => 15,
        }
    }

    pub fn from_nibble(n: u8) -> (r: Register)
        requires
            n < 16,
        ensures
            r == Register::spec_from_nibble(n),
            r.index_spec() == n,
    {
        match n {
            0 => Register::V0,
            1 => Register::V1,
            2 => Register::V2,
            3 => Register::V3,
            4 => Register::V4,
            5 => Register::V5,
            6 => Register::V6,
            7 => Register::V7,
            8 => Register::V8,
            9 => Register::V9,
            10 => Register::VA,
            11 => Register::VB,
            12 => Register::VC,
            13 => Register::VD,
            14 => Register::VE,
            _ => Register::VF,
        }
    }
}

/// One of the sixteen logical buttons of the pad.
#[derive(Clone, Copy, Debug, PartialEq, Eq, Structural)]
pub enum Button {
    B0,
    B1,
    B2,
    B3,
    B4,
    B5,
    B6,
    B7,
    B8,
    B9,
    BA,
    BB,
    BC,
    BD,
    BE,
    BF,
}

impl Button {
    /// The button's number, 0 through 15.
    pub open spec fn index_spec(self) -> int {
        match self {
            Button::B0 => 0,
            Button::B1 => 1,
            Button::B2 => 2,
            Button::B3 => 3,
            Button::B4 => 4,
            Button::B5 => 5,
            Button::B6 => 6,
            Button::B7 => 7,
            Button::B8 => 8,
            Button::B9 => 9,
            Button::BA => 10,
            Button::BB => 11,
            Button::BC => 12,
            Button::BD => 13,
            Button::BE => 14,
            Button::BF => 15,
        }
    }

    pub fn index(self) -> (i: usize)
        ensures
            i == self.index_spec(),
    {
        match self {
            Button::B0 => 0,
            Button::B1 => 1,
            Button::B2 => 2,
            Button::B3 => 3,
            Button::B4 => 4,
            Button::B5 => 5,
            Button::B6 => 6,
            Button::B7 => 7,
            Button::B8 => 8,
            Button::B9 => 9,
            Button::BA => 10,
            Button::BB => 11,
            Button::BC => 12,
            Button::BD => 13,
            Button::BE => 14,
            Button::BF => 15,
        }
    }

    /// The button numbered `n`, if there is one.
    pub fn from_index(n: u8) -> (r: Option<Button>)
        ensures
            r is Some <==> n < 16,
            r is Some ==> r->Some_0.index_spec() == n,
    {
        match n {
            0 => Some(Button::B0),
            1 => Some(Button::B1),
            2 => Some(Button::B2),
            3 => Some(Button::B3),
            4 => Some(Button::B4),
            5 => Some(Button::B5),
            6 => Some(Button::B6),
            7 => Some(Button::B7),
            8 => Some(Button::B8),
            9 => Some(Button::B9),
            10 => Some(Button::BA),
            11 => Some(Button::BB),
            12 => Some(Button::BC),
            13 => Some(Button::BD),
            14 => Some(Button::BE),
            15 => Some(Button::BF),
            _ => None,
        }
    }
}

/// A fatal execution fault. A program that raises one is malformed or uses
/// an unsupported feature; the driver stops the run.
#[derive(Clone, Copy, Debug, PartialEq, Eq, Structural)]
pub enum Fault {
    /// `Return` executed with an empty call stack.
    EmptyCallStack,
    /// The legacy system-call operation, for which no system exists.
    UnsupportedSystemCall,
    /// A skip-on-button operation named a value with no corresponding button.
    NoSuchButton,
    /// A font-sprite lookup named a value with no corresponding glyph.
    NoSuchGlyph,
}

/// The mathematical view of a [`State`]: every component as a plain sequence
/// or integer.
#[verifier::ext_equal]
pub ghost struct StateModel {
    pub memory: Seq<u8>,
    pub registers: Seq<u8>,
    pub i_reg: u16,
    pub pc: u16,
    pub call_stack: Seq<u16>,
    pub timer: u8,
    pub sound_timer: u8,
    pub bit_gfx: Seq<bool>,
    pub buttons: Seq<bool>,
}

impl StateModel {
    /// Every component has its fixed size: 4096 memory cells, 16 registers,
    /// 64 * 32 framebuffer pixels and 16 buttons.
    pub open spec fn wf(self) -> bool {
        &&& self.memory.len() == 4096
        &&& self.registers.len() == 16
        &&& self.bit_gfx.len() == 2048
        &&& self.buttons.len() == 16
    }

    /// The state a machine starts in: everything zero, the program counter
    /// at 0x200, where programs are loaded.
    pub open spec fn initial() -> StateModel {
        StateModel {
            memory: Seq::new(4096, |i: int| 0u8),
            registers: Seq::new(16, |i: int| 0u8),
            i_reg: 0u16,
            pc: 0x200u16,
            call_stack: Seq::empty(),
            timer: 0u8,
            sound_timer: 0u8,
            bit_gfx: Seq::new(2048, |i: int| false),
            buttons: Seq::new(16, |i: int| false),
        }
    }
}

/// The whole machine state: memory, registers, index register, program
/// counter, call stack, the two timers, the framebuffer and the pad.
///
/// It is mutated only by the execution engine, one operation at a time, and
/// by the timer tick.
pub struct State {
    /// 4096 byte cells. Programs are loaded from offset 0x200 on; the cells
    /// below are reserved for font data, populated by the loader.
    pub memory: Vec<u8>,
    /// The 16 registers V0 through VF, indexed by register number.
    pub registers: Vec<u8>,
    /// The index register, used by memory-touching operations.
    pub i_reg: Address,
    /// The program counter.
    pub pc: Address,
    /// Return addresses pushed by `Call` and popped by `Return`.
    pub call_stack: Vec<Address>,
    /// The delay timer, decremented at 60 Hz.
    pub timer: u8,
    /// The sound timer, decremented at 60 Hz; the tone is on while it is
    /// non-zero.
    pub sound_timer: u8,
    /// The framebuffer: 64 * 32 pixels, row-major, one entry per pixel.
    pub bit_gfx: Vec<bool>,
    /// The pad: one entry per button, true while the button is held.
    pub buttons: Vec<bool>,
}

impl View for State {
    type V = StateModel;

    open spec fn view(&self) -> StateModel {
        StateModel {
            memory: self.memory@,
            registers: self.registers@,
            i_reg: self.i_reg.0,
            pc: self.pc.0,
            call_stack: self.call_stack@.map_values(|a: Address| a.0),
            timer: self.timer,
            sound_timer: self.sound_timer,
            bit_gfx: self.bit_gfx@,
            buttons: self.buttons@,
        }
    }
}

/// A vector of `n` copies of `value`.
pub(crate) fn filled<T: Copy>(value: T, n: usize) -> (v: Vec<T>)
    ensures
        v.len() == n,
        forall|i: int| 0 <= i < n ==> v@[i] == value,
{
    let mut v: Vec<T> = Vec::new();
    let mut k: usize = 0;
    while k < n
        invariant
            k <= n,
            v.len() == k,
            forall|i: int| 0 <= i < k ==> v@[i] == value,
        decreases n - k,
    {
        v.push(value);
        k = k + 1;
    }
    v
}

impl State {
    pub open spec fn wf(self) -> bool {
        self@.wf()
    }

    /// Whether the tone should sound: exactly while the sound timer is
    /// non-zero.
    pub fn sound_active(&self) -> (active: bool)
        ensures
            active == (self.sound_timer > 0),
    {
        self.sound_timer > 0
    }

    /// The pixel at column `x`, row `y` of the framebuffer.
    pub fn pixel(&self, x: usize, y: usize) -> (on: bool)
        requires
            self.wf(),
            x < 64,
            y < 32,
        ensures
            on == self@.bit_gfx[x + y * 64],
    {
        self.bit_gfx[x + y * 64]
    }

    /// One 60 Hz timer tick: both timers decrement by one, never below zero.
    /// Nothing else changes.
    pub fn tick(&mut self)
        ensures
            final(self)@ == (StateModel {
                timer: if old(self).timer > 0 { (old(self).timer - 1) as u8 } else { 0u8 },
                sound_timer: if old(self).sound_timer > 0 {
                    (old(self).sound_timer - 1) as u8
                } else {
                    0u8
                },
                ..old(self)@
            }),
    {
        if self.timer > 0 {
            self.timer = self.timer - 1;
        }
        if self.sound_timer > 0 {
            self.sound_timer = self.sound_timer - 1;
        }
        proof {
            assert(self@ =~= (StateModel {
                timer: self.timer,
                sound_timer: self.sound_timer,
                ..old(self)@
            }));
        }
    }
}

impl Default for State {
    /// The machine as it is at start: all-zero memory, registers and
    /// framebuffer, no buttons held, and the program counter at 0x200.
    fn default() -> (s: Self)
        ensures
            s@ == StateModel::initial(),
    {
        let s = State {
            memory: filled(0u8, 4096),
            registers: filled(0u8, 16),
            i_reg: Address(0),
            pc: Address(0x200),
            call_stack: Vec::new(),
            timer: 0,
            sound_timer: 0,
            bit_gfx: filled(false, 2048),
            buttons: filled(false, 16),
        };
        proof {
            assert(s@.memory =~= StateModel::initial().memory);
            assert(s@.registers =~= StateModel::initial().registers);
            assert(s@.bit_gfx =~= StateModel::initial().bit_gfx);
            assert(s@.buttons =~= StateModel::initial().buttons);
            assert(s@.call_stack =~= StateModel::initial().call_stack);
            assert(s@ =~= StateModel::initial());
        }
        s
    }
}

} // verus!
