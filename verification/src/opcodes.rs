//! Instruction decoding: a 16-bit instruction word is translated into a
//! tagged opcode value carrying its operands (register indices, immediates,
//! or 12-bit addresses). Decoding is a pure function of the word; a word
//! that matches no documented pattern decodes to `None`.

use vstd::prelude::*;

verus! {

/// A decoded instruction. Register operands are 4-bit indices (0-15),
/// immediates are the low byte, addresses the low 12 bits of the word.
#[derive(Clone, Copy, Debug, PartialEq, Eq, Structural)]
pub enum Opcode {
    /// Call a machine-language routine at the address (legacy; kept for
    /// architecture completeness, executed as a plain jump).
    CallProgram(u16),
    /// Clear the screen.
    Cls,
    /// Return from a subroutine.
    Ret,
    /// Jump to the address.
    Jmp(u16),
    /// Call a subroutine at the address.
    Call(u16),
    /// Skip the next instruction if the register equals the immediate.
    SkipEq(u8, u8),
    /// Skip the next instruction if the register differs from the immediate.
    SkipNeq(u8, u8),
    /// Skip the next instruction if the two registers are equal.
    SkipEqR(u8, u8),
    /// Skip the next instruction if the two registers differ.
    SkipNeqR(u8, u8),
    /// Set the register to the immediate.
    Mv(u8, u8),
    /// Add the immediate to the register, wrapping modulo 256, no flag.
    Add(u8, u8),
    /// Copy the second register into the first.
    MvR(u8, u8),
    /// Bitwise-or the second register into the first.
    MvOr(u8, u8),
    /// Bitwise-and the second register into the first.
    MvAnd(u8, u8),
    /// Bitwise-xor the second register into the first.
    MvXor(u8, u8),
    /// Add the second register into the first; the flag register gets the carry.
    AddC(u8, u8),
    /// Subtract the second register from the first; the flag register gets
    /// 1 when no borrow occurred.
    SubC(u8, u8),
    /// First register = second register shifted right once; the flag register
    /// gets the bit shifted out.
    Shr(u8, u8),
    /// First register = second register minus first; the flag register gets
    /// 1 when no borrow occurred.
    SubIC(u8, u8),
    /// Both registers = second register shifted left once; the flag register
    /// gets the bit shifted out.
    Shl(u8, u8),
    /// Set the index register to the address.
    SetI(u16),
    /// Jump to the address plus register 0.
    JmpV0(u16),
    /// Set the register to a random byte masked with the immediate.
    SetRnd(u8, u8),
    /// Draw an 8-wide sprite of the given height at the coordinates held in
    /// the two registers; sprite rows are read from memory at the index
    /// register. The flag register reports collisions.
    Draw(u8, u8, u8),
    /// Skip the next instruction if the key named by the register is pressed.
    SkipKeyPrssd(u8),
    /// Skip the next instruction if the key named by the register is not pressed.
    SkipKeyNPrssd(u8),
    /// Set the register to the delay timer.
    DelayTimer(u8),
    /// Wait for a key press and store the key index in the register
    /// (a polling spin-wait: the instruction re-executes until a key is down).
    GetKey(u8),
    /// Set the delay timer from the register.
    SetDelay(u8),
    /// Set the sound timer from the register.
    SetSound(u8),
    /// Add the register into the index register.
    AddVToI(u8),
    /// Set the index register to the font glyph address for the digit in
    /// the register.
    SetIChr(u8),
    /// Store the decimal digits of the register at the index register.
    BCD(u8),
    /// Dump registers 0..=reg to memory at the index register, advancing it.
    RegDump(u8),
    /// Load registers 0..=reg from memory at the index register, advancing it.
    RegLoad(u8),
}

/// The top nibble of an instruction word: the primary family selector.
pub open spec fn op_fam(w: u16) -> u16 {
    w >> 12
}

/// The second nibble: the first register operand.
pub open spec fn op_x(w: u16) -> u8 {
    ((w >> 8) & 0xF) as u8
}

/// The third nibble: the second register operand.
pub open spec fn op_y(w: u16) -> u8 {
    ((w >> 4) & 0xF) as u8
}

/// The low nibble.
pub open spec fn op_n(w: u16) -> u8 {
    (w & 0xF) as u8
}

/// The low byte.
pub open spec fn op_nn(w: u16) -> u8 {
    (w & 0xFF) as u8
}

/// The low 12 bits: an address operand.
pub open spec fn op_nnn(w: u16) -> u16 {
    w & 0xFFF
}

/// Every operand of a decoded opcode lies in its documented range:
/// register indices below 16, addresses below 4096, heights below 16.
pub open spec fn op_wf(op: Opcode) -> bool {
    match op {
        Opcode::CallProgram(a) => a < 4096,
        Opcode::Cls => true,
        Opcode::Ret => true,
        Opcode::Jmp(a) => a < 4096,
        Opcode::Call(a) => a < 4096,
        Opcode::SkipEq(x, _) => x < 16,
        Opcode::SkipNeq(x, _) => x < 16,
        Opcode::SkipEqR(x, y) => x < 16 && y < 16,
        Opcode::SkipNeqR(x, y) => x < 16 && y < 16,
        Opcode::Mv(x, _) => x < 16,
        Opcode::Add(x, _) => x < 16,
        Opcode::MvR(x, y) => x < 16 && y < 16,
        Opcode::MvOr(x, y) => x < 16 && y < 16,
        Opcode::MvAnd(x, y) => x < 16 && y < 16,
        Opcode::MvXor(x, y) => x < 16 && y < 16,
        Opcode::AddC(x, y) => x < 16 && y < 16,
        Opcode::SubC(x, y) => x < 16 && y < 16,
        Opcode::Shr(x, y) => x < 16 && y < 16,
        Opcode::SubIC(x, y) => x < 16 && y < 16,
        Opcode::Shl(x, y) => x < 16 && y < 16,
        Opcode::SetI(a) => a < 4096,
        Opcode::JmpV0(a) => a < 4096,
        Opcode::SetRnd(x, _) => x < 16,
        Opcode::Draw(x, y, n) => x < 16 && y < 16 && n < 16,
        Opcode::SkipKeyPrssd(x) => x < 16,
        Opcode::SkipKeyNPrssd(x) => x < 16,
        Opcode::DelayTimer(x) => x < 16,
        Opcode::GetKey(x) => x < 16,
        Opcode::SetDelay(x) => x < 16,
        Opcode::SetSound(x) => x < 16,
        Opcode::AddVToI(x) => x < 16,
        Opcode::SetIChr(x) => x < 16,
        Opcode::BCD(x) => x < 16,
        Opcode::RegDump(x) => x < 16,
        Opcode::RegLoad(x) => x < 16,
    }
}

impl Opcode {
    /// The decode table: family selector in the top nibble, then a
    /// sub-dispatch on the low 12 bits, the low nibble or the low byte,
    /// exactly as the architecture documents it.
    pub open spec fn spec_decode(w: u16) -> Option<Opcode> {
        let x = op_x(w);
        let y = op_y(w);
        let n = op_n(w);
        let nn = op_nn(w);
        let nnn = op_nnn(w);
        if op_fam(w) == 0x0 {
            if nnn == 0x0E0 {
                Some(Opcode::Cls)
            } else if nnn == 0x0EE {
                Some(Opcode::Ret)
            } else {
                Some(Opcode::CallProgram(nnn))
            }
        } else if op_fam(w) == 0x1 {
            Some(Opcode::Jmp(nnn))
        } else if op_fam(w) == 0x2 {
            Some(Opcode::Call(nnn))
        } else if op_fam(w) == 0x3 {
            Some(Opcode::SkipEq(x, nn))
        } else if op_fam(w) == 0x4 {
            Some(Opcode::SkipNeq(x, nn))
        } else if op_fam(w) == 0x5 {
            Some(Opcode::SkipEqR(x, y))
        } else if op_fam(w) == 0x6 {
            Some(Opcode::Mv(x, nn))
        } else if op_fam(w) == 0x7 {
            Some(Opcode::Add(x, nn))
        } else if op_fam(w) == 0x8 {
            if n == 0x0 {
                Some(Opcode::MvR(x, y))
            } else if n == 0x1 {
                Some(Opcode::MvOr(x, y))
            } else if n == 0x2 {
                Some(Opcode::MvAnd(x, y))
            } else if n == 0x3 {
                Some(Opcode::MvXor(x, y))
            } else if n == 0x4 {
                Some(Opcode::AddC(x, y))
            } else if n == 0x5 {
                Some(Opcode::SubC(x, y))
            } else if n == 0x6 {
                Some(Opcode::Shr(x, y))
            } else if n == 0x7 {
                Some(Opcode::SubIC(x, y))
            } else if n == 0xE {
                Some(Opcode::Shl(x, y))
            } else {
                None
            }
        } else if op_fam(w) == 0x9 {
            Some(Opcode::SkipNeqR(x, y))
        } else if op_fam(w) == 0xA {
            Some(Opcode::SetI(nnn))
        } else if op_fam(w) == 0xB {
            Some(Opcode::JmpV0(nnn))
        } else if op_fam(w) == 0xC {
            Some(Opcode::SetRnd(x, nn))
        } else if op_fam(w) == 0xD {
            Some(Opcode::Draw(x, y, n))
        } else if op_fam(w) == 0xE {
            if nn == 0x9E {
                Some(Opcode::SkipKeyPrssd(x))
            } else if nn == 0xA1 {
                Some(Opcode::SkipKeyNPrssd(x))
            } else {
                None
            }
        } else {
            if nn == 0x07 {
                Some(Opcode::DelayTimer(x))
            } else if nn == 0x0A {
                Some(Opcode::GetKey(x))
            } else if nn == 0x15 {
                Some(Opcode::SetDelay(x))
            } else if nn == 0x18 {
                Some(Opcode::SetSound(x))
            } else if nn == 0x1E {
                Some(Opcode::AddVToI(x))
            } else if nn == 0x29 {
                Some(Opcode::SetIChr(x))
            } else if nn == 0x33 {
                Some(Opcode::BCD(x))
            } else if nn == 0x55 {
                Some(Opcode::RegDump(x))
            } else if nn == 0x65 {
                Some(Opcode::RegLoad(x))
            } else {
                None
            }
        }
    }

    /// Decode one instruction word. Returns exactly the variant the decode
    /// table gives, or `None` on an unmatched bit pattern (never a silently
    /// wrong variant).
    pub fn from_u16(inst: u16) -> (r: Option<Opcode>)
        ensures
            r == Opcode::spec_decode(inst),
    {
        let x = ((inst >> 8) & 0xF) as u8;
        let y = ((inst >> 4) & 0xF) as u8;
        let n = (inst & 0xF) as u8;
        let nn = (inst & 0xFF) as u8;
        let nnn = inst & 0xFFF;
        proof {
            assert(inst >> 12 <= 0xF) by (bit_vector);
        }
        match inst >> 12 {
            0x0 => {
                if nnn == 0x0E0 {
                    Some(Opcode::Cls)
                } else if nnn == 0x0EE {
                    Some(Opcode::Ret)
                } else {
                    Some(Opcode::CallProgram(nnn))
                }
            },
            0x1 => Some(Opcode::Jmp(nnn)),
            0x2 => Some(Opcode::Call(nnn)),
            0x3 => Some(Opcode::SkipEq(x, nn)),
            0x4 => Some(Opcode::SkipNeq(x, nn)),
            0x5 => Some(Opcode::SkipEqR(x, y)),
            0x6 => Some(Opcode::Mv(x, nn)),
            0x7 => Some(Opcode::Add(x, nn)),
            0x8 => {
                match n {
                    0x0 => Some(Opcode::MvR(x, y)),
                    0x1 => Some(Opcode::MvOr(x, y)),
                    0x2 => Some(Opcode::MvAnd(x, y)),
                    0x3 => Some(Opcode::MvXor(x, y)),
                    0x4 => Some(Opcode::AddC(x, y)),
                    0x5 => Some(Opcode::SubC(x, y)),
                    0x6 => Some(Opcode::Shr(x, y)),
                    0x7 => Some(Opcode::SubIC(x, y)),
                    0xE => Some(Opcode::Shl(x, y)),
                    _ => None,
                }
            },
            0x9 => Some(Opcode::SkipNeqR(x, y)),
            0xA => Some(Opcode::SetI(nnn)),
            0xB => Some(Opcode::JmpV0(nnn)),
            0xC => Some(Opcode::SetRnd(x, nn)),
            0xD => Some(Opcode::Draw(x, y, n)),
            0xE => {
                match nn {
                    0x9E => Some(Opcode::SkipKeyPrssd(x)),
                    0xA1 => Some(Opcode::SkipKeyNPrssd(x)),
                    _ => None,
                }
            },
            _ => {
                match nn {
                    0x07 => Some(Opcode::DelayTimer(x)),
                    0x0A => Some(Opcode::GetKey(x)),
                    0x15 => Some(Opcode::SetDelay(x)),
                    0x18 => Some(Opcode::SetSound(x)),
                    0x1E => Some(Opcode::AddVToI(x)),
                    0x29 => Some(Opcode::SetIChr(x)),
                    0x33 => Some(Opcode::BCD(x)),
                    0x55 => Some(Opcode::RegDump(x)),
                    0x65 => Some(Opcode::RegLoad(x)),
                    _ => None,
                }
            },
        }
    }
}

/// Every decoded opcode carries operands in their documented ranges.
pub proof fn lemma_decode_operands(w: u16)
    ensures
        Opcode::spec_decode(w) matches Some(op) ==> op_wf(op),
{
    assert((w >> 8) & 0xF < 16) by (bit_vector);
    assert((w >> 4) & 0xF < 16) by (bit_vector);
    assert(w & 0xF < 16) by (bit_vector);
    assert(w & 0xFFF < 4096) by (bit_vector);
}

/// A word inside the 0x8, 0xE or 0xF families whose sub-selector matches no
/// documented pattern decodes to a reported failure, and only such a word does.
pub proof fn lemma_decode_failure(w: u16)
    ensures
        Opcode::spec_decode(w) is None <==> {
            ||| op_fam(w) == 0x8 && !(op_n(w) <= 0x7 || op_n(w) == 0xE)
            ||| op_fam(w) == 0xE && !(op_nn(w) == 0x9E || op_nn(w) == 0xA1)
            ||| op_fam(w) == 0xF && !(op_nn(w) == 0x07 || op_nn(w) == 0x0A || op_nn(w) == 0x15
                    || op_nn(w) == 0x18 || op_nn(w) == 0x1E || op_nn(w) == 0x29
                    || op_nn(w) == 0x33 || op_nn(w) == 0x55 || op_nn(w) == 0x65)
        },
{
    assert(w >> 12 <= 0xF) by (bit_vector);
}

} // verus!
