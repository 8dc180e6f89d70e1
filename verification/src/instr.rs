//! Instruction decoding: each fetched 16-bit opcode word is turned into one
//! variant of a closed instruction enum, so that decode and execute can be
//! specified and tested independently.
//!
//! Operand fields follow the usual nibble layout: `x` is bits 8-11, `y` is
//! bits 4-7, `n` is bits 0-3, `nn` is bits 0-7 and `nnn` is bits 0-11.

use vstd::prelude::*;

verus! {

/// One decoded instruction.  `Unknown` stands for every opcode word that
/// matches none of the 35 defined patterns; it has no effect beyond the
/// program-counter advance.
#[derive(Clone, Copy, Debug, PartialEq, Eq, Structural)]
pub enum Instr {
    /// 00E0: clear the framebuffer.
    ClearScreen,
    /// 00EE: return from a subroutine.
    Ret,
    /// 1nnn: jump to address nnn.
    Jump { nnn: u16 },
    /// 2nnn: call the subroutine at address nnn.
    Call { nnn: u16 },
    /// 3xnn: skip the next instruction if Vx == nn.
    SkipEqImm { x: u8, nn: u8 },
    /// 4xnn: skip the next instruction if Vx != nn.
    SkipNeImm { x: u8, nn: u8 },
    /// 5xy0: skip the next instruction if Vx == Vy.
    SkipEqReg { x: u8, y: u8 },
    /// 6xnn: Vx = nn.
    SetImm { x: u8, nn: u8 },
    /// 7xnn: Vx = Vx + nn, wrapping, with no flag change.
    AddImm { x: u8, nn: u8 },
    /// 8xy0: Vx = Vy.
    Assign { x: u8, y: u8 },
    /// 8xy1: Vx |= Vy.
    OrReg { x: u8, y: u8 },
    /// 8xy2: Vx &= Vy.
    AndReg { x: u8, y: u8 },
    /// 8xy3: Vx ^= Vy.
    XorReg { x: u8, y: u8 },
    /// 8xy4: Vx = Vx + Vy wrapping; VF = 1 on carry, else 0.
    AddReg { x: u8, y: u8 },
    /// 8xy5: Vx = Vx - Vy wrapping; VF = 1 when no borrow, else 0.
    SubReg { x: u8, y: u8 },
    /// 8xy6: VF = Vx & 1; Vx >>= 1.
    ShrReg { x: u8 },
    /// 8xy7: Vx = Vy - Vx wrapping; VF = 1 when no borrow, else 0.
    SubFrom { x: u8, y: u8 },
    /// 8xyE: VF = Vx >> 7; Vx <<= 1, wrapping.
    ShlReg { x: u8 },
    /// 9xy0: skip the next instruction if Vx != Vy.
    SkipNeReg { x: u8, y: u8 },
    /// Annn: I = nnn.
    SetIndex { nnn: u16 },
    /// Bnnn: jump to nnn + V0.
    JumpV0 { nnn: u16 },
    /// Cxnn: Vx = random byte & nn.
    RandMask { x: u8, nn: u8 },
    /// Dxyn: draw the n-row sprite at memory[I..] at (Vx, Vy); VF = collision.
    Draw { x: u8, y: u8, n: u8 },
    /// Ex9E: skip the next instruction if key Vx is pressed.
    SkipKey { x: u8 },
    /// ExA1: skip the next instruction if key Vx is not pressed.
    SkipNoKey { x: u8 },
    /// Fx07: Vx = delay timer.
    GetDelay { x: u8 },
    /// Fx0A: block until some key is pressed, then Vx = that key.
    WaitKey { x: u8 },
    /// Fx15: delay timer = Vx.
    SetDelay { x: u8 },
    /// Fx18: sound timer = Vx.
    SetSound { x: u8 },
    /// Fx1E: I += Vx, wrapping.
    AddIndex { x: u8 },
    /// Fx29: I = Vx * 5, the font glyph base address of digit Vx.
    FontChar { x: u8 },
    /// Fx33: store the BCD digits of Vx at memory[I], memory[I+1], memory[I+2].
    StoreBcd { x: u8 },
    /// Fx55: copy registers V0..=Vx into memory[I..].
    StoreRegs { x: u8 },
    /// Fx65: copy memory[I..] into registers V0..=Vx.
    LoadRegs { x: u8 },
    /// Any opcode word matching none of the defined patterns.
    Unknown,
}

/// Every operand field of a decoded instruction is in range: register indexes
/// and the row count below 16, addresses below 4096.
pub open spec fn instr_wf(instr: Instr) -> bool {
    match instr {
        Instr::Jump { nnn } => nnn < 4096,
        Instr::Call { nnn } => nnn < 4096,
        Instr::SkipEqImm { x, nn } => x < 16,
        Instr::SkipNeImm { x, nn } => x < 16,
        Instr::SkipEqReg { x, y } => x < 16 && y < 16,
        Instr::SetImm { x, nn } => x < 16,
        Instr::AddImm { x, nn } => x < 16,
        Instr::Assign { x, y } => x < 16 && y < 16,
        Instr::OrReg { x, y } => x < 16 && y < 16,
        Instr::AndReg { x, y } => x < 16 && y < 16,
        Instr::XorReg { x, y } => x < 16 && y < 16,
        Instr::AddReg { x, y } => x < 16 && y < 16,
        Instr::SubReg { x, y } => x < 16 && y < 16,
        Instr::ShrReg { x } => x < 16,
        Instr::SubFrom { x, y } => x < 16 && y < 16,
        Instr::ShlReg { x } => x < 16,
        Instr::SkipNeReg { x, y } => x < 16 && y < 16,
        Instr::SetIndex { nnn } => nnn < 4096,
        Instr::JumpV0 { nnn } => nnn < 4096,
        Instr::RandMask { x, nn } => x < 16,
        Instr::Draw { x, y, n } => x < 16 && y < 16 && n < 16,
        Instr::SkipKey { x } => x < 16,
        Instr::SkipNoKey { x } => x < 16,
        Instr::GetDelay { x } => x < 16,
        Instr::WaitKey { x } => x < 16,
        Instr::SetDelay { x } => x < 16,
        Instr::SetSound { x } => x < 16,
        Instr::AddIndex { x } => x < 16,
        Instr::FontChar { x } => x < 16,
        Instr::StoreBcd { x } => x < 16,
        Instr::StoreRegs { x } => x < 16,
        Instr::LoadRegs { x } => x < 16,
        _ => true,
    }
}

/// The instruction denoted by opcode word `op`.
pub open spec fn spec_decode(op: u16) -> Instr {
    let x = ((op >> 8) & 0xF) as u8;
    let y = ((op >> 4) & 0xF) as u8;
    let n = (op & 0xF) as u8;
    let nn = (op & 0xFF) as u8;
    let nnn = op & 0xFFF;
    if op == 0x00E0 {
        Instr::ClearScreen
    } else if op == 0x00EE {
        Instr::Ret
    } else if op & 0xF000 == 0x1000 {
        Instr::Jump { nnn }
    } else if op & 0xF000 == 0x2000 {
        Instr::Call { nnn }
    } else if op & 0xF000 == 0x3000 {
        Instr::SkipEqImm { x, nn }
    } else if op & 0xF000 == 0x4000 {
        Instr::SkipNeImm { x, nn }
    } else if op & 0xF00F == 0x5000 {
        Instr::SkipEqReg { x, y }
    } else if op & 0xF000 == 0x6000 {
        Instr::SetImm { x, nn }
    } else if op & 0xF000 == 0x7000 {
        Instr::AddImm { x, nn }
    } else if op & 0xF00F == 0x8000 {
        Instr::Assign { x, y }
    } else if op & 0xF00F == 0x8001 {
        Instr::OrReg { x, y }
    } else if op & 0xF00F == 0x8002 {
        Instr::AndReg { x, y }
    } else if op & 0xF00F == 0x8003 {
        Instr::XorReg { x, y }
    } else if op & 0xF00F == 0x8004 {
        Instr::AddReg { x, y }
    } else if op & 0xF00F == 0x8005 {
        Instr::SubReg { x, y }
    } else if op & 0xF00F == 0x8006 {
        Instr::ShrReg { x }
    } else if op & 0xF00F == 0x8007 {
        Instr::SubFrom { x, y }
    } else if op & 0xF00F == 0x800E {
        Instr::ShlReg { x }
    } else if op & 0xF00F == 0x9000 {
        Instr::SkipNeReg { x, y }
    } else if op & 0xF000 == 0xA000 {
        Instr::SetIndex { nnn }
    } else if op & 0xF000 == 0xB000 {
        Instr::JumpV0 { nnn }
    } else if op & 0xF000 == 0xC000 {
        Instr::RandMask { x, nn }
    } else if op & 0xF000 == 0xD000 {
        Instr::Draw { x, y, n }
    } else if op & 0xF0FF == 0xE09E {
        Instr::SkipKey { x }
    } else if op & 0xF0FF == 0xE0A1 {
        Instr::SkipNoKey { x }
    } else if op & 0xF0FF == 0xF007 {
        Instr::GetDelay { x }
    } else if op & 0xF0FF == 0xF00A {
        Instr::WaitKey { x }
    } else if op & 0xF0FF == 0xF015 {
        Instr::SetDelay { x }
    } else if op & 0xF0FF == 0xF018 {
        Instr::SetSound { x }
    } else if op & 0xF0FF == 0xF01E {
        Instr::AddIndex { x }
    } else if op & 0xF0FF == 0xF029 {
        Instr::FontChar { x }
    } else if op & 0xF0FF == 0xF033 {
        Instr::StoreBcd { x }
    } else if op & 0xF0FF == 0xF055 {
        Instr::StoreRegs { x }
    } else if op & 0xF0FF == 0xF065 {
        Instr::LoadRegs { x }
    } else {
        Instr::Unknown
    }
}

/// Decode one opcode word.
pub fn decode(op: u16) -> (instr: Instr)
    ensures
        instr == spec_decode(op),
        instr_wf(instr),
{
    let x = ((op >> 8) & 0xF) as u8;
    let y = ((op >> 4) & 0xF) as u8;
    let n = (op & 0xF) as u8;
    let nn = (op & 0xFF) as u8;
    let nnn = op & 0xFFF;
    proof {
        assert((op >> 8) & 0xF < 16 && (op >> 4) & 0xF < 16 && op & 0xF < 16 && op & 0xFFF < 4096)
            by (bit_vector);
    }
    if op == 0x00E0 {
        Instr::ClearScreen
    } else if op == 0x00EE {
        Instr::Ret
    } else if op & 0xF000 == 0x1000 {
        Instr::Jump { nnn }
    } else if op & 0xF000 == 0x2000 {
        Instr::Call { nnn }
    } else if op & 0xF000 == 0x3000 {
        Instr::SkipEqImm { x, nn }
    } else if op & 0xF000 == 0x4000 {
        Instr::SkipNeImm { x, nn }
    } else if op & 0xF00F == 0x5000 {
        Instr::SkipEqReg { x, y }
    } else if op & 0xF000 == 0x6000 {
        Instr::SetImm { x, nn }
    } else if op & 0xF000 == 0x7000 {
        Instr::AddImm { x, nn }
    } else if op & 0xF00F == 0x8000 {
        Instr::Assign { x, y }
    } else if op & 0xF00F == 0x8001 {
        Instr::OrReg { x, y }
    } else if op & 0xF00F == 0x8002 {
        Instr::AndReg { x, y }
    } else if op & 0xF00F == 0x8003 {
        Instr::XorReg { x, y }
    } else if op & 0xF00F == 0x8004 {
        Instr::AddReg { x, y }
    } else if op & 0xF00F == 0x8005 {
        Instr::SubReg { x, y }
    } else if op & 0xF00F == 0x8006 {
        Instr::ShrReg { x }
    } else if op & 0xF00F == 0x8007 {
        Instr::SubFrom { x, y }
    } else if op & 0xF00F == 0x800E {
        Instr::ShlReg { x }
    } else if op & 0xF00F == 0x9000 {
        Instr::SkipNeReg { x, y }
    } else if op & 0xF000 == 0xA000 {
        Instr::SetIndex { nnn }
    } else if op & 0xF000 == 0xB000 {
        Instr::JumpV0 { nnn }
    } else if op & 0xF000 == 0xC000 {
        Instr::RandMask { x, nn }
    } else if op & 0xF000 == 0xD000 {
        Instr::Draw { x, y, n }
    } else if op & 0xF0FF == 0xE09E {
        Instr::SkipKey { x }
    } else if op & 0xF0FF == 0xE0A1 {
        Instr::SkipNoKey { x }
    } else if op & 0xF0FF == 0xF007 {
        Instr::GetDelay { x }
    } else if op & 0xF0FF == 0xF00A {
        Instr::WaitKey { x }
    } else if op & 0xF0FF == 0xF015 {
        Instr::SetDelay { x }
    } else if op & 0xF0FF == 0xF018 {
        Instr::SetSound { x }
    } else if op & 0xF0FF == 0xF01E {
        Instr::AddIndex { x }
    } else if op & 0xF0FF == 0xF029 {
        Instr::FontChar { x }
    } else if op & 0xF0FF == 0xF033 {
        Instr::StoreBcd { x }
    } else if op & 0xF0FF == 0xF055 {
        Instr::StoreRegs { x }
    } else if op & 0xF0FF == 0xF065 {
        Instr::LoadRegs { x }
    } else {
        Instr::Unknown
    }
}

} // verus!
