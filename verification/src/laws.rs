//! Engine-level laws: properties that relate several operations or whole
//! cycles, stated over the specification functions and proved once for every
//! input.  Laws about the framebuffer alone live next to its specification.

use vstd::prelude::*;
use crate::cycle::advance_pc;
use crate::cycle::spec_execute;
use crate::cycle::spec_fetch;
use crate::cycle::spec_step;
use crate::instr::Instr;
use crate::instr::spec_decode;
use crate::keypad::lemma_lowest_pressed;
use crate::keypad::lowest_pressed;
use crate::machine::Chip8View;

verus! {

/// 7xnn wraps modulo 256 and never raises a flag: for any destination other
/// than VF itself, the flag register is left untouched, carry or not.
pub proof fn lemma_add_imm_no_flag(s: Chip8View, x: u8, nn: u8, rb: u8)
    requires
        s.wf(),
        x < 15,
    ensures
        spec_execute(s, Instr::AddImm { x, nn }, rb) matches Ok(s1)
            && s1.regs[x as int] == ((s.regs[x as int] + nn) % 256) as u8
            && s1.regs[15] == s.regs[15]
            && s1.pc == s.pc,
{
}

/// 2nnn followed by 00EE: the call pushes the already-advanced program
/// counter, the return pops it back, so control resumes at the instruction
/// immediately following the call, whatever the program counter was moved to
/// in between, and the stack pointer is balanced.
pub proof fn lemma_call_then_ret(s: Chip8View, nnn: u16, pc2: u16, rb1: u8, rb2: u8)
    requires
        s.wf(),
        s.sp < 16,
    ensures
        ({
            let r1 = spec_execute(s, Instr::Call { nnn }, rb1);
            r1 matches Ok(s1) && s1.pc == nnn && {
                let s2 = Chip8View { pc: pc2, ..s1 };
                let r2 = spec_execute(s2, Instr::Ret, rb2);
                r2 matches Ok(s3) && s3.pc == s.pc && s3.sp == s.sp
            }
        }),
{
}

/// Fx0A blocks: a cycle that fetches it with no key pressed leaves the
/// program counter and the registers exactly where they were, so the same
/// instruction is fetched again next cycle; once some key is pressed the
/// cycle stores the lowest pressed key in Vx and advances normally.
pub proof fn lemma_wait_key(s: Chip8View, x: u8, rb: u8)
    requires
        s.wf(),
        s.pc + 1 < 4096,
        spec_decode(spec_fetch(s)) == (Instr::WaitKey { x }),
    ensures
        ({
            let r = spec_step(s, rb);
            r matches Ok((s2, out)) && match lowest_pressed(s.keys) {
                None => s2.pc == s.pc && s2.regs == s.regs
                    && (forall|t: int| 0 <= t < 16 ==> !s.keys[t]),
                Some(k) => s2.pc == (s.pc + 2) as u16
                    && s2.regs == s.regs.update(x as int, k)
                    && k < 16 && s.keys[k as int]
                    && (forall|t: int| 0 <= t < k ==> !s.keys[t]),
            }
        }),
{
    lemma_lowest_pressed(s.keys);
}

/// A sound timer standing at 1 is on its final tick: the next completed cycle
/// reports a sound tick and leaves the timer at 0 — unless the fetched
/// instruction itself rewrites the sound timer (Fx18).
pub proof fn lemma_sound_tick(s: Chip8View, rb: u8)
    requires
        s.wf(),
        s.sound_timer == 1,
        spec_step(s, rb) is Ok,
        !(spec_decode(spec_fetch(s)) matches Instr::SetSound { .. }),
    ensures
        spec_step(s, rb) matches Ok((s2, out)) && out.sound_tick && s2.sound_timer == 0,
{
    let instr = spec_decode(spec_fetch(s));
    let ex = spec_execute(advance_pc(s), instr, rb);
    assert(ex matches Ok(s1) && s1.sound_timer == 1);
}

} // verus!
