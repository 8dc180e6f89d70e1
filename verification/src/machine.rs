//! The machine state of the virtual machine: memory with its font table,
//! registers, index register, program counter, call stack, timers, and the
//! framebuffer and keypad it owns; together with construction and program
//! loading.

use vstd::prelude::*;
use crate::display::Display;
use crate::keypad::Keypad;

verus! {

/// A terminal error raised by the engine or the program loader.
#[derive(Clone, Copy, Debug, PartialEq, Eq, Structural)]
pub enum Chip8Error {
    /// The program counter, index register or an address derived from them
    /// points outside the 4096-byte memory.
    MemoryOutOfBounds,
    /// A call was made with all 16 stack slots in use.
    StackOverflow,
    /// A return was executed with an empty call stack.
    StackUnderflow,
    /// A program image larger than the 3584 bytes of memory available from
    /// address 0x200 was offered to the loader.
    RomTooLarge,
}

/// The mathematical model of the whole machine: every component as a plain
/// value or a sequence.
#[verifier::ext_equal]
pub struct Chip8View {
    /// The 4096 memory bytes, addresses 0x000-0xFFF.
    pub mem: Seq<u8>,
    /// The program counter.
    pub pc: u16,
    /// The index register I.
    pub i: u16,
    /// The 16 call-stack slots of return addresses.
    pub stack: Seq<u16>,
    /// The stack pointer: number of stack slots in use.
    pub sp: u8,
    /// The delay timer.
    pub delay_timer: u8,
    /// The sound timer.
    pub sound_timer: u8,
    /// The 16 general-purpose registers V0-VF.
    pub regs: Seq<u8>,
    /// The 2048 framebuffer cells, row-major; `true` is on.
    pub screen: Seq<bool>,
    /// The 16 key states; `true` is pressed.
    pub keys: Seq<bool>,
}

impl Chip8View {
    /// Well-formedness: every component has its fixed size and the stack
    /// pointer stays within the 16 slots.
    pub open spec fn wf(self) -> bool {
        &&& self.mem.len() == 4096
        &&& self.stack.len() == 16
        &&& self.sp <= 16
        &&& self.regs.len() == 16
        &&& self.screen.len() == 2048
        &&& self.keys.len() == 16
    }
}

/// Byte `a` of the 80-byte font table: 16 glyphs of 5 rows each, one glyph
/// per hexadecimal digit, each byte an 8-pixel-wide bitmap row.
pub open spec fn spec_font_byte(a: int) -> u8 {
    if a == 0 { 0xF0 }
    else if a == 1 { 0x90 }
    else if a == 2 { 0x90 }
    else if a == 3 { 0x90 }
    else if a == 4 { 0xF0 }
    else if a == 5 { 0x20 }
    else if a == 6 { 0x60 }
    else if a == 7 { 0x20 }
    else if a == 8 { 0x20 }
    else if a == 9 { 0x70 }
    else if a == 10 { 0xF0 }
    else if a == 11 { 0x10 }
    else if a == 12 { 0xF0 }
    else if a == 13 { 0x80 }
    else if a == 14 { 0xF0 }
    else if a == 15 { 0xF0 }
    else if a == 16 { 0x10 }
    else if a == 17 { 0xF0 }
    else if a == 18 { 0x10 }
    else if a == 19 { 0xF0 }
    else if a == 20 { 0x90 }
    else if a == 21 { 0x90 }
    else if a == 22 { 0xF0 }
    else if a == 23 { 0x10 }
    else if a == 24 { 0x10 }
    else if a == 25 { 0xF0 }
    else if a == 26 { 0x80 }
    else if a == 27 { 0xF0 }
    else if a == 28 { 0x10 }
    else if a == 29 { 0xF0 }
    else if a == 30 { 0xF0 }
    else if a == 31 { 0x80 }
    else if a == 32 { 0xF0 }
    else if a == 33 { 0x90 }
    else if a == 34 { 0xF0 }
    else if a == 35 { 0xF0 }
    else if a == 36 { 0x10 }
    else if a == 37 { 0x20 }
    else if a == 38 { 0x40 }
    else if a == 39 { 0x40 }
    else if a == 40 { 0xF0 }
    else if a == 41 { 0x90 }
    else if a == 42 { 0xF0 }
    else if a == 43 { 0x90 }
    else if a == 44 { 0xF0 }
    else if a == 45 { 0xF0 }
    else if a == 46 { 0x90 }
    else if a == 47 { 0xF0 }
    else if a == 48 { 0x10 }
    else if a == 49 { 0xF0 }
    else if a == 50 { 0xF0 }
    else if a == 51 { 0x90 }
    else if a == 52 { 0xF0 }
    else if a == 53 { 0x90 }
    else if a == 54 { 0x90 }
    else if a == 55 { 0xE0 }
    else if a == 56 { 0x90 }
    else if a == 57 { 0xE0 }
    else if a == 58 { 0x90 }
    else if a == 59 { 0xE0 }
    else if a == 60 { 0xF0 }
    else if a == 61 { 0x80 }
    else if a == 62 { 0x80 }
    else if a == 63 { 0x80 }
    else if a == 64 { 0xF0 }
    else if a == 65 { 0xE0 }
    else if a == 66 { 0x90 }
    else if a == 67 { 0x90 }
    else if a == 68 { 0x90 }
    else if a == 69 { 0xE0 }
    else if a == 70 { 0xF0 }
    else if a == 71 { 0x80 }
    else if a == 72 { 0xF0 }
    else if a == 73 { 0x80 }
    else if a == 74 { 0xF0 }
    else if a == 75 { 0xF0 }
    else if a == 76 { 0x80 }
    else if a == 77 { 0xF0 }
    else if a == 78 { 0x80 }
    else if a == 79 { 0x80 }
    else { 0x00 }
}

/// Memory at startup: the font table in bytes 0-79, zero everywhere else.
pub open spec fn spec_initial_memory() -> Seq<u8> {
    Seq::new(4096, |a: int| if 0 <= a < 80 { spec_font_byte(a) } else { 0u8 })
}

/// The machine at startup: font loaded, program counter at 0x200, everything
/// else zeroed, screen blank, no key pressed.
pub open spec fn spec_initial_state() -> Chip8View {
    Chip8View {
        mem: spec_initial_memory(),
        pc: 0x200,
        i: 0,
        stack: Seq::new(16, |t: int| 0u16),
        sp: 0,
        delay_timer: 0,
        sound_timer: 0,
        regs: Seq::new(16, |t: int| 0u8),
        screen: Seq::new(2048, |c: int| false),
        keys: Seq::new(16, |t: int| false),
    }
}

/// Memory after loading `prog` at address 0x200: the program bytes replace
/// that region, everything else is unchanged.
pub open spec fn spec_load(mem: Seq<u8>, prog: Seq<u8>) -> Seq<u8> {
    Seq::new(4096, |a: int| if 0x200 <= a < 0x200 + prog.len() { prog[a - 0x200] } else { mem[a] })
}

/// Byte `a` of the font table.
fn font_byte(a: usize) -> (r: u8)
    requires
        a < 80,
    ensures
        r == spec_font_byte(a as int),
{
    match a {
        0 => 0xF0,
        1 => 0x90,
        2 => 0x90,
        3 => 0x90,
        4 => 0xF0,
        5 => 0x20,
        6 => 0x60,
        7 => 0x20,
        8 => 0x20,
        9 => 0x70,
        10 => 0xF0,
        11 => 0x10,
        12 => 0xF0,
        13 => 0x80,
        14 => 0xF0,
        15 => 0xF0,
        16 => 0x10,
        17 => 0xF0,
        18 => 0x10,
        19 => 0xF0,
        20 => 0x90,
        21 => 0x90,
        22 => 0xF0,
        23 => 0x10,
        24 => 0x10,
        25 => 0xF0,
        26 => 0x80,
        27 => 0xF0,
        28 => 0x10,
        29 => 0xF0,
        30 => 0xF0,
        31 => 0x80,
        32 => 0xF0,
        33 => 0x90,
        34 => 0xF0,
        35 => 0xF0,
        36 => 0x10,
        37 => 0x20,
        38 => 0x40,
        39 => 0x40,
        40 => 0xF0,
        41 => 0x90,
        42 => 0xF0,
        43 => 0x90,
        44 => 0xF0,
        45 => 0xF0,
        46 => 0x90,
        47 => 0xF0,
        48 => 0x10,
        49 => 0xF0,
        50 => 0xF0,
        51 => 0x90,
        52 => 0xF0,
        53 => 0x90,
        54 => 0x90,
        55 => 0xE0,
        56 => 0x90,
        57 => 0xE0,
        58 => 0x90,
        59 => 0xE0,
        60 => 0xF0,
        61 => 0x80,
        62 => 0x80,
        63 => 0x80,
        64 => 0xF0,
        65 => 0xE0,
        66 => 0x90,
        67 => 0x90,
        68 => 0x90,
        69 => 0xE0,
        70 => 0xF0,
        71 => 0x80,
        72 => 0xF0,
        73 => 0x80,
        74 => 0xF0,
        75 => 0xF0,
        76 => 0x80,
        77 => 0xF0,
        78 => 0x80,
        79 => 0x80,
        _ => 0x00,
    }
}

/// The complete machine state.  The engine mutates it one instruction at a
/// time; the surrounding program may read any part of it between cycles.
pub struct Chip8 {
    /// 4096 bytes of memory; the font table lives at 0x000-0x04F and loaded
    /// programs start at 0x200.
    pub memory: Vec<u8>,
    /// The program counter.
    pub pc: u16,
    /// The index register I.
    pub i: u16,
    /// The 16 call-stack slots of return addresses.
    pub stack: Vec<u16>,
    /// The stack pointer: number of stack slots in use.
    pub sp: u8,
    /// The delay timer; counts down to 0, one step per cycle.
    pub delay_timer: u8,
    /// The sound timer; counts down to 0, one step per cycle, signalling a
    /// sound tick on its final step.
    pub sound_timer: u8,
    /// The 16 general-purpose registers V0-VF; VF doubles as the
    /// carry/borrow/collision flag.
    pub registers: Vec<u8>,
    /// The framebuffer.
    pub display: Display,
    /// The keypad state.
    pub keypad: Keypad,
}

impl View for Chip8 {
    type V = Chip8View;

    open spec fn view(&self) -> Chip8View {
        Chip8View {
            mem: self.memory@,
            pc: self.pc,
            i: self.i,
            stack: self.stack@,
            sp: self.sp,
            delay_timer: self.delay_timer,
            sound_timer: self.sound_timer,
            regs: self.registers@,
            screen: self.display@,
            keys: self.keypad@,
        }
    }
}

impl Chip8 {
    /// A fresh machine: font table in place, program counter at 0x200, all
    /// registers, timers and the stack zeroed, screen blank, no key pressed.
    pub fn new() -> (c: Chip8)
        ensures
            c@ == spec_initial_state(),
            c@.wf(),
    {
        let mut memory: Vec<u8> = vec![0u8; 4096];
        proof {
            assert forall|t: int| 0 <= t < 4096 implies #[trigger] memory@[t] == 0u8 by {
                assert(cloned(0u8, memory@[t]));
            }
        }
        let mut a: usize = 0;
        while a < 80
            invariant
                a <= 80,
                memory@.len() == 4096,
                forall|t: int| 0 <= t < a ==> memory@[t] == spec_font_byte(t),
                forall|t: int| a <= t < 4096 ==> memory@[t] == 0u8,
            decreases 80 - a,
        {
            let b = font_byte(a);
            memory[a] = b;
            a = a + 1;
        }
        let stack: Vec<u16> = vec![0u16; 16];
        let registers: Vec<u8> = vec![0u8; 16];
        proof {
            assert forall|t: int| 0 <= t < 16 implies #[trigger] stack@[t] == 0u16 by {
                assert(cloned(0u16, stack@[t]));
            }
            assert forall|t: int| 0 <= t < 16 implies #[trigger] registers@[t] == 0u8 by {
                assert(cloned(0u8, registers@[t]));
            }
        }
        let c = Chip8 {
            memory,
            pc: 0x200,
            i: 0,
            stack,
            sp: 0,
            delay_timer: 0,
            sound_timer: 0,
            registers,
            display: Display::new(),
            keypad: Keypad::new(),
        };
        proof {
            assert(c@ =~= spec_initial_state());
        }
        c
    }

    /// Copy a program image into memory starting at address 0x200.  An image
    /// larger than the 3584 bytes available there is rejected untouched.
    pub fn load_game(&mut self, program: &[u8]) -> (r: Result<(), Chip8Error>)
        requires
            old(self)@.wf(),
        ensures
            final(self)@.wf(),
            program@.len() <= 3584 ==> r == Ok::<(), Chip8Error>(())
                && final(self)@ == (Chip8View { mem: spec_load(old(self)@.mem, program@), ..old(self)@ }),
            program@.len() > 3584 ==> r == Err::<(), Chip8Error>(Chip8Error::RomTooLarge)
                && final(self)@ == old(self)@,
    {
        if program.len() > 3584 {
            return Err(Chip8Error::RomTooLarge);
        }
        let n = program.len();
        let mut k: usize = 0;
        while k < n
            invariant
                n == program@.len(),
                n <= 3584,
                k <= n,
                self@.wf(),
                self@.pc == old(self)@.pc,
                self@.i == old(self)@.i,
                self@.stack == old(self)@.stack,
                self@.sp == old(self)@.sp,
                self@.delay_timer == old(self)@.delay_timer,
                self@.sound_timer == old(self)@.sound_timer,
                self@.regs == old(self)@.regs,
                self@.screen == old(self)@.screen,
                self@.keys == old(self)@.keys,
                forall|a: int| 0x200 <= a < 0x200 + k ==> self@.mem[a] == program@[a - 0x200],
                forall|a: int| 0 <= a < 4096 && !(0x200 <= a < 0x200 + k) ==> self@.mem[a] == old(self)@.mem[a],
            decreases n - k,
        {
            let b = program[k];
            self.memory[0x200 + k] = b;
            k = k + 1;
        }
        proof {
            assert(self@.mem =~= spec_load(old(self)@.mem, program@));
            assert(self@ =~= (Chip8View { mem: spec_load(old(self)@.mem, program@), ..old(self)@ }));
        }
        Ok(())
    }
}

} // verus!
