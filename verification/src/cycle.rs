//! The fetch-decode-execute engine: one call advances the machine by exactly
//! one instruction and then steps both timers.
//!
//! The whole state transition is given by the spec functions `spec_execute`
//! (the effect of one decoded instruction on a machine whose program counter
//! has already been advanced past it) and `spec_step` (fetch, decode, execute
//! and timer tick, or the error that stops the run).  The executable engine
//! is proved to implement them exactly.

use vstd::prelude::*;
use crate::display::spec_draw_collision;
use crate::display::spec_draw_screen;
use crate::instr::Instr;
use crate::instr::decode;
use crate::instr::instr_wf;
use crate::instr::spec_decode;
use crate::keypad::lowest_pressed;
use crate::machine::Chip8;
use crate::machine::Chip8Error;
use crate::machine::Chip8View;

verus! {

/// The per-cycle signals reported to the caller besides the mutated state.
#[derive(Clone, Copy, Debug, PartialEq, Eq, Structural)]
pub struct CycleOutcome {
    /// The sound timer stepped from 1 to 0 this cycle: the audio cue.
    pub sound_tick: bool,
    /// The fetched opcode matched none of the defined patterns and was
    /// treated as a no-op beyond the program-counter advance.
    pub unknown_opcode: bool,
}

/// The state with the program counter advanced past the fetched instruction.
pub open spec fn advance_pc(s: Chip8View) -> Chip8View {
    Chip8View { pc: (s.pc + 2) as u16, ..s }
}

/// The state after a conditional skip: the (already advanced) program counter
/// moves over one more instruction when the condition holds.
pub open spec fn skip_if(s: Chip8View, cond: bool) -> Chip8View {
    if cond {
        advance_pc(s)
    } else {
        s
    }
}

/// The big-endian 16-bit opcode word at the program counter.
pub open spec fn spec_fetch(s: Chip8View) -> u16 {
    ((s.mem[s.pc as int] as u16) << 8) | (s.mem[s.pc as int + 1] as u16)
}

/// Commit an arithmetic result together with its VF flag: operands are read
/// before either write, the flag is written first, and the destination write
/// wins when the destination is VF itself.
pub open spec fn flag_write(regs: Seq<u8>, x: int, val: u8, flag: u8) -> Seq<u8> {
    regs.update(15, flag).update(x, val)
}

/// Whether register value `k` names a pressed key: values outside the 16 key
/// codes never match a pressed key.
pub open spec fn key_down(keys: Seq<bool>, k: u8) -> bool {
    k < 16 && keys[k as int]
}

/// Both timers after one cycle: each steps down by one until it reaches 0.
pub open spec fn tick_timers(s: Chip8View) -> Chip8View {
    Chip8View {
        delay_timer: if s.delay_timer > 0 { (s.delay_timer - 1) as u8 } else { 0 },
        sound_timer: if s.sound_timer > 0 { (s.sound_timer - 1) as u8 } else { 0 },
        ..s
    }
}

/// The effect of one decoded instruction on state `s`, whose program counter
/// has already been advanced past the instruction; `rb` is the byte drawn for
/// the random-mask instruction.  Subtraction flags use the conventional
/// encoding: VF = 1 exactly when no borrow occurs.
pub open spec fn spec_execute(s: Chip8View, instr: Instr, rb: u8) -> Result<Chip8View, Chip8Error> {
    match instr {
        Instr::ClearScreen => Ok(Chip8View { screen: Seq::new(2048, |c: int| false), ..s }),
        Instr::Ret => if s.sp == 0 {
            Err(Chip8Error::StackUnderflow)
        } else {
            Ok(Chip8View { pc: s.stack[s.sp - 1], sp: (s.sp - 1) as u8, ..s })
        },
        Instr::Jump { nnn } => Ok(Chip8View { pc: nnn, ..s }),
        Instr::Call { nnn } => if s.sp >= 16 {
            Err(Chip8Error::StackOverflow)
        } else {
            Ok(Chip8View {
                stack: s.stack.update(s.sp as int, s.pc),
                sp: (s.sp + 1) as u8,
                pc: nnn,
                ..s
            })
        },
        Instr::SkipEqImm { x, nn } => Ok(skip_if(s, s.regs[x as int] == nn)),
        Instr::SkipNeImm { x, nn } => Ok(skip_if(s, s.regs[x as int] != nn)),
        Instr::SkipEqReg { x, y } => Ok(skip_if(s, s.regs[x as int] == s.regs[y as int])),
        Instr::SetImm { x, nn } => Ok(Chip8View { regs: s.regs.update(x as int, nn), ..s }),
        Instr::AddImm { x, nn } => Ok(Chip8View {
            regs: s.regs.update(x as int, ((s.regs[x as int] + nn) % 256) as u8),
            ..s
        }),
        Instr::Assign { x, y } => Ok(Chip8View {
            regs: s.regs.update(x as int, s.regs[y as int]),
            ..s
        }),
        Instr::OrReg { x, y } => Ok(Chip8View {
            regs: s.regs.update(x as int, s.regs[x as int] | s.regs[y as int]),
            ..s
        }),
        Instr::AndReg { x, y } => Ok(Chip8View {
            regs: s.regs.update(x as int, s.regs[x as int] & s.regs[y as int]),
            ..s
        }),
        Instr::XorReg { x, y } => Ok(Chip8View {
            regs: s.regs.update(x as int, s.regs[x as int] ^ s.regs[y as int]),
            ..s
        }),
        Instr::AddReg { x, y } => Ok(Chip8View {
            regs: flag_write(
                s.regs,
                x as int,
                ((s.regs[x as int] + s.regs[y as int]) % 256) as u8,
                if s.regs[x as int] + s.regs[y as int] > 255 { 1u8 } else { 0u8 },
            ),
            ..s
        }),
        Instr::SubReg { x, y } => Ok(Chip8View {
            regs: flag_write(
                s.regs,
                x as int,
                ((s.regs[x as int] + 256 - s.regs[y as int]) % 256) as u8,
                if s.regs[x as int] >= s.regs[y as int] { 1u8 } else { 0u8 },
            ),
            ..s
        }),
        Instr::ShrReg { x } => Ok(Chip8View {
            regs: flag_write(s.regs, x as int, s.regs[x as int] >> 1, s.regs[x as int] & 1),
            ..s
        }),
        Instr::SubFrom { x, y } => Ok(Chip8View {
            regs: flag_write(
                s.regs,
                x as int,
                ((s.regs[y as int] + 256 - s.regs[x as int]) % 256) as u8,
                if s.regs[y as int] >= s.regs[x as int] { 1u8 } else { 0u8 },
            ),
            ..s
        }),
        Instr::ShlReg { x } => Ok(Chip8View {
            regs: flag_write(s.regs, x as int, s.regs[x as int] << 1, s.regs[x as int] >> 7),
            ..s
        }),
        Instr::SkipNeReg { x, y } => Ok(skip_if(s, s.regs[x as int] != s.regs[y as int])),
        Instr::SetIndex { nnn } => Ok(Chip8View { i: nnn, ..s }),
        Instr::JumpV0 { nnn } => Ok(Chip8View { pc: (nnn + s.regs[0]) as u16, ..s }),
        Instr::RandMask { x, nn } => Ok(Chip8View {
            regs: s.regs.update(x as int, rb & nn),
            ..s
        }),
        Instr::Draw { x, y, n } => if s.i + n > 4096 {
            Err(Chip8Error::MemoryOutOfBounds)
        } else {
            let sprite = s.mem.subrange(s.i as int, s.i + n);
            let vx = s.regs[x as int];
            let vy = s.regs[y as int];
            let coll = spec_draw_collision(s.screen, vx as int, vy as int, sprite);
            Ok(Chip8View {
                screen: spec_draw_screen(s.screen, vx as int, vy as int, sprite),
                regs: s.regs.update(15, if coll { 1u8 } else { 0u8 }),
                ..s
            })
        },
        Instr::SkipKey { x } => Ok(skip_if(s, key_down(s.keys, s.regs[x as int]))),
        Instr::SkipNoKey { x } => Ok(skip_if(s, !key_down(s.keys, s.regs[x as int]))),
        Instr::GetDelay { x } => Ok(Chip8View {
            regs: s.regs.update(x as int, s.delay_timer),
            ..s
        }),
        Instr::WaitKey { x } => match lowest_pressed(s.keys) {
            None => Ok(Chip8View { pc: (s.pc - 2) as u16, ..s }),
            Some(k) => Ok(Chip8View { regs: s.regs.update(x as int, k), ..s }),
        },
        Instr::SetDelay { x } => Ok(Chip8View { delay_timer: s.regs[x as int], ..s }),
        Instr::SetSound { x } => Ok(Chip8View { sound_timer: s.regs[x as int], ..s }),
        Instr::AddIndex { x } => Ok(Chip8View {
            i: ((s.i + s.regs[x as int]) % 0x10000) as u16,
            ..s
        }),
        Instr::FontChar { x } => Ok(Chip8View { i: (s.regs[x as int] * 5) as u16, ..s }),
        Instr::StoreBcd { x } => if s.i + 2 > 4095 {
            Err(Chip8Error::MemoryOutOfBounds)
        } else {
            let vx = s.regs[x as int];
            Ok(Chip8View {
                mem: s.mem
                    .update(s.i as int, (vx / 100) as u8)
                    .update(s.i + 1, ((vx / 10) % 10) as u8)
                    .update(s.i + 2, (vx % 10) as u8),
                ..s
            })
        },
        Instr::StoreRegs { x } => if s.i + x > 4095 {
            Err(Chip8Error::MemoryOutOfBounds)
        } else {
            Ok(Chip8View {
                mem: Seq::new(4096, |a: int| if s.i <= a <= s.i + x { s.regs[a - s.i] } else { s.mem[a] }),
                ..s
            })
        },
        Instr::LoadRegs { x } => if s.i + x > 4095 {
            Err(Chip8Error::MemoryOutOfBounds)
        } else {
            Ok(Chip8View {
                regs: Seq::new(16, |t: int| if t <= x { s.mem[s.i + t] } else { s.regs[t] }),
                ..s
            })
        },
        Instr::Unknown => Ok(s),
    }
}

/// One whole cycle on state `s` with random byte `rb`: fetch (after checking
/// that the program counter and its successor lie in memory), decode, advance
/// the program counter, execute, then step the timers.  On an error the state
/// is left exactly as it was.
pub open spec fn spec_step(s: Chip8View, rb: u8) -> Result<(Chip8View, CycleOutcome), Chip8Error> {
    if s.pc + 1 >= 4096 {
        Err(Chip8Error::MemoryOutOfBounds)
    } else {
        let instr = spec_decode(spec_fetch(s));
        match spec_execute(advance_pc(s), instr, rb) {
            Ok(s1) => Ok((
                tick_timers(s1),
                CycleOutcome {
                    sound_tick: s1.sound_timer == 1,
                    unknown_opcode: instr is Unknown,
                },
            )),
            Err(e) => Err(e),
        }
    }
}

/// How one executed cycle relates the state `s1` and result `r` that came out
/// of it to the state `s0` it started from, for random byte `rb`.
pub open spec fn spec_step_relation(
    s0: Chip8View,
    rb: u8,
    s1: Chip8View,
    r: Result<CycleOutcome, Chip8Error>,
) -> bool {
    match spec_step(s0, rb) {
        Ok((s2, out)) => r == Ok::<CycleOutcome, Chip8Error>(out) && s1 == s2,
        Err(e) => r == Err::<CycleOutcome, Chip8Error>(e) && s1 == s0,
    }
}

/// Relies on rand::random: one sampled byte.  Nothing is assumed about its
/// value.
#[verifier::external_body]
fn random_byte() -> u8 {
    rand::random::<u8>()
}

impl Chip8 {
    /// Execute the decoded instruction `instr` against this machine, whose
    /// program counter has not yet been advanced; `rand_byte` feeds the
    /// random-mask instruction.  On an error nothing is changed.
    fn exec_instr(&mut self, instr: Instr, rand_byte: u8) -> (r: Result<(), Chip8Error>)
        requires
            old(self)@.wf(),
            instr_wf(instr),
            old(self).pc <= 4094,
        ensures
            final(self)@.wf(),
            ({
                let ex = spec_execute(advance_pc(old(self)@), instr, rand_byte);
                match ex {
                    Ok(s1) => r == Ok::<(), Chip8Error>(()) && final(self)@ == s1,
                    Err(e) => r == Err::<(), Chip8Error>(e) && final(self)@ == old(self)@,
                }
            }),
    {
        if matches!(instr,
            Instr::ClearScreen | Instr::Ret | Instr::Jump { .. } | Instr::Call { .. }
            | Instr::SkipEqImm { .. } | Instr::SkipNeImm { .. } | Instr::SkipEqReg { .. }
            | Instr::SetImm { .. } | Instr::AddImm { .. } | Instr::Assign { .. }
            | Instr::OrReg { .. } | Instr::AndReg { .. } | Instr::XorReg { .. }
            | Instr::AddReg { .. } | Instr::SubReg { .. } | Instr::ShrReg { .. }
            | Instr::SubFrom { .. } | Instr::ShlReg { .. }) {
            self.exec_instr_low(instr, rand_byte)
        } else {
            self.exec_instr_high(instr, rand_byte)
        }
    }

    /// Execute the instructions of the opcode groups 0 through 8: screen
    /// clear, return, jumps and calls, immediate skips and loads, and the
    /// register-to-register arithmetic with its VF flags.
    #[verifier::rlimit(100)]
    fn exec_instr_low(&mut self, instr: Instr, rand_byte: u8) -> (r: Result<(), Chip8Error>)
        requires
            old(self)@.wf(),
            instr_wf(instr),
            old(self).pc <= 4094,
            matches!(instr,
                Instr::ClearScreen | Instr::Ret | Instr::Jump { .. } | Instr::Call { .. }
                | Instr::SkipEqImm { .. } | Instr::SkipNeImm { .. } | Instr::SkipEqReg { .. }
                | Instr::SetImm { .. } | Instr::AddImm { .. } | Instr::Assign { .. }
                | Instr::OrReg { .. } | Instr::AndReg { .. } | Instr::XorReg { .. }
                | Instr::AddReg { .. } | Instr::SubReg { .. } | Instr::ShrReg { .. }
                | Instr::SubFrom { .. } | Instr::ShlReg { .. }),
        ensures
            final(self)@.wf(),
            ({
                let ex = spec_execute(advance_pc(old(self)@), instr, rand_byte);
                match ex {
                    Ok(s1) => r == Ok::<(), Chip8Error>(()) && final(self)@ == s1,
                    Err(e) => r == Err::<(), Chip8Error>(e) && final(self)@ == old(self)@,
                }
            }),
    {
        let ghost s = advance_pc(old(self)@);
        let next_pc = self.pc + 2;
        match instr {
            Instr::ClearScreen => {
                self.display.clear();
                self.pc = next_pc;
                proof {
                    assert(self@ =~= (Chip8View { screen: Seq::new(2048, |c: int| false), ..s }));
                }
            }
            Instr::Ret => {
                if self.sp == 0 {
                    return Err(Chip8Error::StackUnderflow);
                }
                self.sp = self.sp - 1;
                self.pc = self.stack[self.sp as usize];
                proof {
                    assert(self@ =~= (Chip8View { pc: s.stack[s.sp - 1], sp: (s.sp - 1) as u8, ..s }));
                }
            }
            Instr::Jump { nnn } => {
                self.pc = nnn;
                proof {
                    assert(self@ =~= (Chip8View { pc: nnn, ..s }));
                }
            }
            Instr::Call { nnn } => {
                if self.sp >= 16 {
                    return Err(Chip8Error::StackOverflow);
                }
                self.stack[self.sp as usize] = next_pc;
                self.sp = self.sp + 1;
                self.pc = nnn;
                proof {
                    assert(self@ =~= (Chip8View {
                        stack: s.stack.update(s.sp as int, s.pc),
                        sp: (s.sp + 1) as u8,
                        pc: nnn,
                        ..s
                    }));
                }
            }
            Instr::SkipEqImm { x, nn } => {
                let vx = self.registers[x as usize];
                self.pc = if vx == nn { next_pc + 2 } else { next_pc };
                proof {
                    assert(self@ =~= skip_if(s, s.regs[x as int] == nn));
                }
            }
            Instr::SkipNeImm { x, nn } => {
                let vx = self.registers[x as usize];
                self.pc = if vx != nn { next_pc + 2 } else { next_pc };
                proof {
                    assert(self@ =~= skip_if(s, s.regs[x as int] != nn));
                }
            }
            Instr::SkipEqReg { x, y } => {
                let vx = self.registers[x as usize];
                let vy = self.registers[y as usize];
                self.pc = if vx == vy { next_pc + 2 } else { next_pc };
                proof {
                    assert(self@ =~= skip_if(s, s.regs[x as int] == s.regs[y as int]));
                }
            }
            Instr::SetImm { x, nn } => {
                self.registers[x as usize] = nn;
                self.pc = next_pc;
                proof {
                    assert(self@ =~= (Chip8View { regs: s.regs.update(x as int, nn), ..s }));
                }
            }
            Instr::AddImm { x, nn } => {
                let vx = self.registers[x as usize];
                self.registers[x as usize] = vx.wrapping_add(nn);
                self.pc = next_pc;
                proof {
                    assert(vx.wrapping_add(nn) == ((s.regs[x as int] + nn) % 256) as u8);
                    assert(self@ =~= (Chip8View {
                        regs: s.regs.update(x as int, ((s.regs[x as int] + nn) % 256) as u8),
                        ..s
                    }));
                }
            }
            Instr::Assign { x, y } => {
                let vy = self.registers[y as usize];
                self.registers[x as usize] = vy;
                self.pc = next_pc;
                proof {
                    assert(self@ =~= (Chip8View { regs: s.regs.update(x as int, s.regs[y as int]), ..s }));
                }
            }
            Instr::OrReg { x, y } => {
                let vx = self.registers[x as usize];
                let vy = self.registers[y as usize];
                self.registers[x as usize] = vx | vy;
                self.pc = next_pc;
                proof {
                    assert(self@ =~= (Chip8View {
                        regs: s.regs.update(x as int, s.regs[x as int] | s.regs[y as int]),
                        ..s
                    }));
                }
            }
            Instr::AndReg { x, y } => {
                let vx = self.registers[x as usize];
                let vy = self.registers[y as usize];
                self.registers[x as usize] = vx & vy;
                self.pc = next_pc;
                proof {
                    assert(self@ =~= (Chip8View {
                        regs: s.regs.update(x as int, s.regs[x as int] & s.regs[y as int]),
                        ..s
                    }));
                }
            }
            Instr::XorReg { x, y } => {
                let vx = self.registers[x as usize];
                let vy = self.registers[y as usize];
                self.registers[x as usize] = vx ^ vy;
                self.pc = next_pc;
                proof {
                    assert(self@ =~= (Chip8View {
                        regs: s.regs.update(x as int, s.regs[x as int] ^ s.regs[y as int]),
                        ..s
                    }));
                }
            }
            Instr::AddReg { x, y } => {
                let vx = self.registers[x as usize];
                let vy = self.registers[y as usize];
                let flag: u8 = if vx as u16 + vy as u16 > 255 { 1 } else { 0 };
                let val = vx.wrapping_add(vy);
                self.registers[15] = flag;
                self.registers[x as usize] = val;
                self.pc = next_pc;
                proof {
                    assert(val == ((s.regs[x as int] + s.regs[y as int]) % 256) as u8);
                    assert(self@ =~= (Chip8View {
                        regs: flag_write(
                            s.regs,
                            x as int,
                            ((s.regs[x as int] + s.regs[y as int]) % 256) as u8,
                            if s.regs[x as int] + s.regs[y as int] > 255 { 1u8 } else { 0u8 },
                        ),
                        ..s
                    }));
                }
            }
            Instr::SubReg { x, y } => {
                let vx = self.registers[x as usize];
                let vy = self.registers[y as usize];
                let flag: u8 = if vx >= vy { 1 } else { 0 };
                let val = vx.wrapping_sub(vy);
                self.registers[15] = flag;
                self.registers[x as usize] = val;
                self.pc = next_pc;
                proof {
                    assert(val == ((s.regs[x as int] + 256 - s.regs[y as int]) % 256) as u8);
                    assert(self@ =~= (Chip8View {
                        regs: flag_write(
                            s.regs,
                            x as int,
                            ((s.regs[x as int] + 256 - s.regs[y as int]) % 256) as u8,
                            if s.regs[x as int] >= s.regs[y as int] { 1u8 } else { 0u8 },
                        ),
                        ..s
                    }));
                }
            }
            Instr::ShrReg { x } => {
                let vx = self.registers[x as usize];
                let flag = vx & 1;
                let val = vx >> 1;
                self.registers[15] = flag;
                self.registers[x as usize] = val;
                self.pc = next_pc;
                proof {
                    assert(self@ =~= (Chip8View {
                        regs: flag_write(s.regs, x as int, s.regs[x as int] >> 1, s.regs[x as int] & 1),
                        ..s
                    }));
                }
            }
            Instr::SubFrom { x, y } => {
                let vx = self.registers[x as usize];
                let vy = self.registers[y as usize];
                let flag: u8 = if vy >= vx { 1 } else { 0 };
                let val = vy.wrapping_sub(vx);
                self.registers[15] = flag;
                self.registers[x as usize] = val;
                self.pc = next_pc;
                proof {
                    assert(val == ((s.regs[y as int] + 256 - s.regs[x as int]) % 256) as u8);
                    assert(self@ =~= (Chip8View {
                        regs: flag_write(
                            s.regs,
                            x as int,
                            ((s.regs[y as int] + 256 - s.regs[x as int]) % 256) as u8,
                            if s.regs[y as int] >= s.regs[x as int] { 1u8 } else { 0u8 },
                        ),
                        ..s
                    }));
                }
            }
            Instr::ShlReg { x } => {
                let vx = self.registers[x as usize];
                let flag = vx >> 7;
                let val = vx << 1;
                self.registers[15] = flag;
                self.registers[x as usize] = val;
                self.pc = next_pc;
                proof {
                    assert(self@ =~= (Chip8View {
                        regs: flag_write(s.regs, x as int, s.regs[x as int] << 1, s.regs[x as int] >> 7),
                        ..s
                    }));
                }
            }
            _ => {
                assert(false);
            }
        }
        Ok(())
    }

    /// Execute the instructions of the opcode groups 9 through F: the
    /// register-to-register skip, index register and jump-through-V0 ops,
    /// random mask, drawing, keypad queries, timers, BCD and the register
    /// block transfers, and the unknown-opcode no-op.
    #[verifier::rlimit(100)]
    fn exec_instr_high(&mut self, instr: Instr, rand_byte: u8) -> (r: Result<(), Chip8Error>)
        requires
            old(self)@.wf(),
            instr_wf(instr),
            old(self).pc <= 4094,
            matches!(instr,
                Instr::SkipNeReg { .. } | Instr::SetIndex { .. } | Instr::JumpV0 { .. }
                | Instr::RandMask { .. } | Instr::Draw { .. } | Instr::SkipKey { .. }
                | Instr::SkipNoKey { .. } | Instr::GetDelay { .. } | Instr::WaitKey { .. }
                | Instr::SetDelay { .. } | Instr::SetSound { .. } | Instr::AddIndex { .. }
                | Instr::FontChar { .. } | Instr::StoreBcd { .. } | Instr::StoreRegs { .. }
                | Instr::LoadRegs { .. } | Instr::Unknown),
        ensures
            final(self)@.wf(),
            ({
                let ex = spec_execute(advance_pc(old(self)@), instr, rand_byte);
                match ex {
                    Ok(s1) => r == Ok::<(), Chip8Error>(()) && final(self)@ == s1,
                    Err(e) => r == Err::<(), Chip8Error>(e) && final(self)@ == old(self)@,
                }
            }),
    {
        let ghost s = advance_pc(old(self)@);
        let next_pc = self.pc + 2;
        match instr {
            Instr::SkipNeReg { x, y } => {
                let vx = self.registers[x as usize];
                let vy = self.registers[y as usize];
                self.pc = if vx != vy { next_pc + 2 } else { next_pc };
                proof {
                    assert(self@ =~= skip_if(s, s.regs[x as int] != s.regs[y as int]));
                }
            }
            Instr::SetIndex { nnn } => {
                self.i = nnn;
                self.pc = next_pc;
                proof {
                    assert(self@ =~= (Chip8View { i: nnn, ..s }));
                }
            }
            Instr::JumpV0 { nnn } => {
                let v0 = self.registers[0];
                self.pc = nnn + v0 as u16;
                proof {
                    assert(self@ =~= (Chip8View { pc: (nnn + s.regs[0]) as u16, ..s }));
                }
            }
            Instr::RandMask { x, nn } => {
                self.registers[x as usize] = rand_byte & nn;
                self.pc = next_pc;
                proof {
                    assert(self@ =~= (Chip8View { regs: s.regs.update(x as int, rand_byte & nn), ..s }));
                }
            }
            Instr::Draw { x, y, n } => {
                let i0 = self.i;
                if i0 as usize + n as usize > 4096 {
                    return Err(Chip8Error::MemoryOutOfBounds);
                }
                let vx = self.registers[x as usize];
                let vy = self.registers[y as usize];
                let mut sprite: Vec<u8> = Vec::new();
                let mut k: usize = 0;
                while k < n as usize
                    invariant
                        *self == *old(self),
                        self@.wf(),
                        k <= n as usize,
                        n < 16,
                        i0 == self.i,
                        i0 as usize + n as usize <= 4096,
                        sprite@.len() == k,
                        forall|t: int| 0 <= t < k ==> sprite@[t] == self@.mem[i0 + t],
                    decreases n as usize - k,
                {
                    let b = self.memory[i0 as usize + k];
                    sprite.push(b);
                    k = k + 1;
                }
                proof {
                    assert(sprite@ =~= s.mem.subrange(s.i as int, s.i + n));
                }
                let collision = self.display.draw(vx as usize, vy as usize, sprite.as_slice());
                let flag: u8 = if collision { 1 } else { 0 };
                self.registers[15] = flag;
                self.pc = next_pc;
                proof {
                    let gsprite = s.mem.subrange(s.i as int, s.i + n);
                    let coll = spec_draw_collision(s.screen, s.regs[x as int] as int, s.regs[y as int] as int, gsprite);
                    assert(collision == coll);
                    assert(self@ =~= (Chip8View {
                        screen: spec_draw_screen(s.screen, s.regs[x as int] as int, s.regs[y as int] as int, gsprite),
                        regs: s.regs.update(15, if coll { 1u8 } else { 0u8 }),
                        ..s
                    }));
                }
            }
            Instr::SkipKey { x } => {
                let vx = self.registers[x as usize];
                let down = if vx < 16 { self.keypad.is_down(vx) } else { false };
                self.pc = if down { next_pc + 2 } else { next_pc };
                proof {
                    assert(down == key_down(s.keys, s.regs[x as int]));
                    assert(self@ =~= skip_if(s, key_down(s.keys, s.regs[x as int])));
                }
            }
            Instr::SkipNoKey { x } => {
                let vx = self.registers[x as usize];
                let down = if vx < 16 { self.keypad.is_down(vx) } else { false };
                self.pc = if down { next_pc } else { next_pc + 2 };
                proof {
                    assert(down == key_down(s.keys, s.regs[x as int]));
                    assert(self@ =~= skip_if(s, !key_down(s.keys, s.regs[x as int])));
                }
            }
            Instr::GetDelay { x } => {
                let dt = self.delay_timer;
                self.registers[x as usize] = dt;
                self.pc = next_pc;
                proof {
                    assert(self@ =~= (Chip8View { regs: s.regs.update(x as int, s.delay_timer), ..s }));
                }
            }
            Instr::WaitKey { x } => {
                match self.keypad.any_pressed() {
                    None => {
                        self.pc = next_pc - 2;
                        proof {
                            assert(self@ =~= (Chip8View { pc: (s.pc - 2) as u16, ..s }));
                        }
                    }
                    Some(k) => {
                        self.registers[x as usize] = k;
                        self.pc = next_pc;
                        proof {
                            assert(lowest_pressed(s.keys) == Some(k));
                            assert(self@ =~= (Chip8View { regs: s.regs.update(x as int, k), ..s }));
                        }
                    }
                }
            }
            Instr::SetDelay { x } => {
                let vx = self.registers[x as usize];
                self.delay_timer = vx;
                self.pc = next_pc;
                proof {
                    assert(self@ =~= (Chip8View { delay_timer: s.regs[x as int], ..s }));
                }
            }
            Instr::SetSound { x } => {
                let vx = self.registers[x as usize];
                self.sound_timer = vx;
                self.pc = next_pc;
                proof {
                    assert(self@ =~= (Chip8View { sound_timer: s.regs[x as int], ..s }));
                }
            }
            Instr::AddIndex { x } => {
                let vx = self.registers[x as usize];
                self.i = self.i.wrapping_add(vx as u16);
                self.pc = next_pc;
                proof {
                    assert(self@.i == ((s.i + s.regs[x as int]) % 0x10000) as u16);
                    assert(self@ =~= (Chip8View { i: ((s.i + s.regs[x as int]) % 0x10000) as u16, ..s }));
                }
            }
            Instr::FontChar { x } => {
                let vx = self.registers[x as usize];
                self.i = vx as u16 * 5;
                self.pc = next_pc;
                proof {
                    assert(self@ =~= (Chip8View { i: (s.regs[x as int] * 5) as u16, ..s }));
                }
            }
            Instr::StoreBcd { x } => {
                let i0 = self.i;
                if i0 > 4093 {
                    return Err(Chip8Error::MemoryOutOfBounds);
                }
                let vx = self.registers[x as usize];
                self.memory[i0 as usize] = vx / 100;
                self.memory[i0 as usize + 1] = (vx / 10) % 10;
                self.memory[i0 as usize + 2] = vx % 10;
                self.pc = next_pc;
                proof {
                    let gvx = s.regs[x as int];
                    assert(self@ =~= (Chip8View {
                        mem: s.mem
                            .update(s.i as int, (gvx / 100) as u8)
                            .update(s.i + 1, ((gvx / 10) % 10) as u8)
                            .update(s.i + 2, (gvx % 10) as u8),
                        ..s
                    }));
                }
            }
            Instr::StoreRegs { x } => {
                let i0 = self.i;
                if i0 as usize + x as usize > 4095 {
                    return Err(Chip8Error::MemoryOutOfBounds);
                }
                let mut k: usize = 0;
                while k <= x as usize
                    invariant
                        k <= x as usize + 1,
                        x < 16,
                        i0 == self.i,
                        i0 as usize + x as usize <= 4095,
                        self@.wf(),
                        self@.pc == old(self)@.pc,
                        self@.i == old(self)@.i,
                        self@.stack == old(self)@.stack,
                        self@.sp == old(self)@.sp,
                        self@.delay_timer == old(self)@.delay_timer,
                        self@.sound_timer == old(self)@.sound_timer,
                        self@.regs == old(self)@.regs,
                        self@.screen == old(self)@.screen,
                        self@.keys == old(self)@.keys,
                        forall|a: int| i0 <= a < i0 + k ==> self@.mem[a] == old(self)@.regs[a - i0],
                        forall|a: int| 0 <= a < 4096 && !(i0 <= a < i0 + k) ==> self@.mem[a] == old(self)@.mem[a],
                    decreases x as usize + 1 - k,
                {
                    let b = self.registers[k];
                    self.memory[i0 as usize + k] = b;
                    k = k + 1;
                }
                self.pc = next_pc;
                proof {
                    assert(self@.mem =~= Seq::new(4096, |a: int| if s.i <= a <= s.i + x { s.regs[a - s.i] } else { s.mem[a] }));
                    assert(self@ =~= (Chip8View {
                        mem: Seq::new(4096, |a: int| if s.i <= a <= s.i + x { s.regs[a - s.i] } else { s.mem[a] }),
                        ..s
                    }));
                }
            }
            Instr::LoadRegs { x } => {
                let i0 = self.i;
                if i0 as usize + x as usize > 4095 {
                    return Err(Chip8Error::MemoryOutOfBounds);
                }
                let mut k: usize = 0;
                while k <= x as usize
                    invariant
                        k <= x as usize + 1,
                        x < 16,
                        i0 == self.i,
                        i0 as usize + x as usize <= 4095,
                        self@.wf(),
                        self@.pc == old(self)@.pc,
                        self@.i == old(self)@.i,
                        self@.stack == old(self)@.stack,
                        self@.sp == old(self)@.sp,
                        self@.delay_timer == old(self)@.delay_timer,
                        self@.sound_timer == old(self)@.sound_timer,
                        self@.mem == old(self)@.mem,
                        self@.screen == old(self)@.screen,
                        self@.keys == old(self)@.keys,
                        forall|t: int| 0 <= t < k ==> self@.regs[t] == old(self)@.mem[i0 + t],
                        forall|t: int| 0 <= t < 16 && !(0 <= t < k) ==> self@.regs[t] == old(self)@.regs[t],
                    decreases x as usize + 1 - k,
                {
                    let b = self.memory[i0 as usize + k];
                    self.registers[k] = b;
                    k = k + 1;
                }
                self.pc = next_pc;
                proof {
                    assert(self@.regs =~= Seq::new(16, |t: int| if t <= x { s.mem[s.i + t] } else { s.regs[t] }));
                    assert(self@ =~= (Chip8View {
                        regs: Seq::new(16, |t: int| if t <= x { s.mem[s.i + t] } else { s.regs[t] }),
                        ..s
                    }));
                }
            }
            Instr::Unknown => {
                self.pc = next_pc;
                proof {
                    assert(self@ =~= s);
                }
            }
            _ => {
                assert(false);
            }
        }
        Ok(())
    }

    /// Run one cycle with the given random byte: fetch the opcode at the
    /// program counter, decode it, execute it, and step both timers.  The
    /// result and the new state are exactly those of `spec_step`; on an error
    /// the machine is left untouched.
    pub fn step(&mut self, rand_byte: u8) -> (r: Result<CycleOutcome, Chip8Error>)
        requires
            old(self)@.wf(),
        ensures
            final(self)@.wf(),
            spec_step_relation(old(self)@, rand_byte, final(self)@, r),
    {
        let pc = self.pc;
        if pc > 4094 {
            return Err(Chip8Error::MemoryOutOfBounds);
        }
        let hi = self.memory[pc as usize];
        let lo = self.memory[pc as usize + 1];
        let op = ((hi as u16) << 8) | (lo as u16);
        proof {
            assert(op == spec_fetch(old(self)@));
        }
        let instr = decode(op);
        match self.exec_instr(instr, rand_byte) {
            Err(e) => {
                return Err(e);
            }
            Ok(()) => {}
        }
        let ghost s1 = self@;
        let sound_tick = self.sound_timer == 1;
        let unknown_opcode = matches!(instr, Instr::Unknown);
        if self.delay_timer > 0 {
            self.delay_timer = self.delay_timer - 1;
        }
        if self.sound_timer > 0 {
            self.sound_timer = self.sound_timer - 1;
        }
        proof {
            assert(self@ =~= tick_timers(s1));
        }
        Ok(CycleOutcome { sound_tick, unknown_opcode })
    }

    /// Run one cycle with a freshly drawn random byte.  The relation to the
    /// starting state is that of `step` for some byte value.
    pub fn emulate_cycle(&mut self) -> (r: Result<CycleOutcome, Chip8Error>)
        requires
            old(self)@.wf(),
        ensures
            final(self)@.wf(),
            exists|rb: u8| spec_step_relation(old(self)@, rb, final(self)@, r),
    {
        let rb = random_byte();
        let r = self.step(rb);
        proof {
            assert(spec_step_relation(old(self)@, rb, self@, r));
        }
        r
    }
}

} // verus!
