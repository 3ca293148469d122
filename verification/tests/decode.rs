//! Table-driven decoder tests: every documented bit pattern maps to its
//! exact opcode and operands, and every unmatched pattern is reported.

use chor::Opcode;

#[test]
fn decodes_family_0() {
    assert_eq!(Opcode::from_u16(0x00E0), Some(Opcode::Cls));
    assert_eq!(Opcode::from_u16(0x00EE), Some(Opcode::Ret));
    assert_eq!(Opcode::from_u16(0x0123), Some(Opcode::CallProgram(0x123)));
    assert_eq!(Opcode::from_u16(0x0000), Some(Opcode::CallProgram(0x000)));
}

#[test]
fn decodes_jumps_and_calls() {
    assert_eq!(Opcode::from_u16(0x1ABC), Some(Opcode::Jmp(0xABC)));
    assert_eq!(Opcode::from_u16(0x2ABC), Some(Opcode::Call(0xABC)));
    assert_eq!(Opcode::from_u16(0xBABC), Some(Opcode::JmpV0(0xABC)));
}

#[test]
fn decodes_immediate_skips_and_moves() {
    assert_eq!(Opcode::from_u16(0x3A42), Some(Opcode::SkipEq(0xA, 0x42)));
    assert_eq!(Opcode::from_u16(0x4A42), Some(Opcode::SkipNeq(0xA, 0x42)));
    assert_eq!(Opcode::from_u16(0x6A42), Some(Opcode::Mv(0xA, 0x42)));
    assert_eq!(Opcode::from_u16(0x7A42), Some(Opcode::Add(0xA, 0x42)));
    assert_eq!(Opcode::from_u16(0xCA42), Some(Opcode::SetRnd(0xA, 0x42)));
}

#[test]
fn decodes_register_skips() {
    assert_eq!(Opcode::from_u16(0x5AB0), Some(Opcode::SkipEqR(0xA, 0xB)));
    // the low nibble is expected to be 0 but is not validated
    assert_eq!(Opcode::from_u16(0x5AB7), Some(Opcode::SkipEqR(0xA, 0xB)));
    assert_eq!(Opcode::from_u16(0x9AB0), Some(Opcode::SkipNeqR(0xA, 0xB)));
}

#[test]
fn decodes_alu_family() {
    assert_eq!(Opcode::from_u16(0x8AB0), Some(Opcode::MvR(0xA, 0xB)));
    assert_eq!(Opcode::from_u16(0x8AB1), Some(Opcode::MvOr(0xA, 0xB)));
    assert_eq!(Opcode::from_u16(0x8AB2), Some(Opcode::MvAnd(0xA, 0xB)));
    assert_eq!(Opcode::from_u16(0x8AB3), Some(Opcode::MvXor(0xA, 0xB)));
    assert_eq!(Opcode::from_u16(0x8AB4), Some(Opcode::AddC(0xA, 0xB)));
    assert_eq!(Opcode::from_u16(0x8AB5), Some(Opcode::SubC(0xA, 0xB)));
    assert_eq!(Opcode::from_u16(0x8AB6), Some(Opcode::Shr(0xA, 0xB)));
    assert_eq!(Opcode::from_u16(0x8AB7), Some(Opcode::SubIC(0xA, 0xB)));
    assert_eq!(Opcode::from_u16(0x8ABE), Some(Opcode::Shl(0xA, 0xB)));
}

#[test]
fn decodes_index_and_draw() {
    assert_eq!(Opcode::from_u16(0xAABC), Some(Opcode::SetI(0xABC)));
    assert_eq!(Opcode::from_u16(0xDAB5), Some(Opcode::Draw(0xA, 0xB, 0x5)));
}

#[test]
fn decodes_key_family() {
    assert_eq!(Opcode::from_u16(0xEA9E), Some(Opcode::SkipKeyPrssd(0xA)));
    assert_eq!(Opcode::from_u16(0xEAA1), Some(Opcode::SkipKeyNPrssd(0xA)));
}

#[test]
fn decodes_misc_family() {
    assert_eq!(Opcode::from_u16(0xFA07), Some(Opcode::DelayTimer(0xA)));
    assert_eq!(Opcode::from_u16(0xFA0A), Some(Opcode::GetKey(0xA)));
    assert_eq!(Opcode::from_u16(0xFA15), Some(Opcode::SetDelay(0xA)));
    assert_eq!(Opcode::from_u16(0xFA18), Some(Opcode::SetSound(0xA)));
    assert_eq!(Opcode::from_u16(0xFA1E), Some(Opcode::AddVToI(0xA)));
    assert_eq!(Opcode::from_u16(0xFA29), Some(Opcode::SetIChr(0xA)));
    assert_eq!(Opcode::from_u16(0xFA33), Some(Opcode::BCD(0xA)));
    assert_eq!(Opcode::from_u16(0xFA55), Some(Opcode::RegDump(0xA)));
    assert_eq!(Opcode::from_u16(0xFA65), Some(Opcode::RegLoad(0xA)));
}

#[test]
fn reports_unmatched_patterns_exhaustively() {
    // Walk the whole 16-bit word space: decoding fails exactly on the
    // unmatched sub-selectors of families 0x8, 0xE and 0xF.
    for w in 0..=0xFFFFu16 {
        let fam = w >> 12;
        let n = w & 0xF;
        let nn = w & 0xFF;
        let should_fail = match fam {
            0x8 => !(n <= 0x7 || n == 0xE),
            0xE => !(nn == 0x9E || nn == 0xA1),
            0xF => !matches!(nn, 0x07 | 0x0A | 0x15 | 0x18 | 0x1E | 0x29 | 0x33 | 0x55 | 0x65),
            _ => false,
        };
        assert_eq!(Opcode::from_u16(w).is_none(), should_fail, "word {w:#06X}");
    }
}
