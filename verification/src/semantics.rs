//! The mathematical model of the machine and the meaning of every opcode:
//! a ghost `State` mirroring all mutable machine state, and one relation
//! per instruction saying exactly how a step transforms it.
//!
//! Addresses computed by program-controlled arithmetic (index-register
//! increments, sprite rows, jump offsets) wrap into the 4096-byte address
//! space; key indices and font digits taken from a register wrap into their
//! 16-element ranges. This one clipping/wrapping policy is applied uniformly.

use vstd::prelude::*;

use crate::opcodes::Opcode;

verus! {

/// Everything `step` can report instead of completing an instruction.
#[derive(Clone, Copy, Debug, PartialEq, Eq, Structural)]
pub enum Chip8Error {
    /// A program image larger than the memory left above the load address.
    ProgramTooLarge,
    /// An instruction word matching no documented opcode pattern; the word
    /// is carried so the host can report it. The program counter has already
    /// advanced past the word, so the host may halt or skip, explicitly.
    DecodeFailure(u16),
    /// A seventeenth nested call: the call stack holds at most 16 frames.
    StackOverflow,
    /// A return with no active call frame.
    StackUnderflow,
}

/// The model of the whole machine.
#[verifier::ext_equal]
pub ghost struct State {
    /// 4096 bytes of memory; the font lives at 0..80, programs at 0x200.
    pub mem: Seq<u8>,
    /// 16 general-purpose 8-bit registers; register 15 is the flag register.
    pub regs: Seq<u8>,
    /// The index register, always inside the address space.
    pub index: int,
    /// The program counter, always inside the address space.
    pub pc: int,
    /// The 64x32 framebuffer, row-major.
    pub gfx: Seq<bool>,
    /// The delay timer.
    pub delay: u8,
    /// The sound timer.
    pub sound: u8,
    /// The call stack of saved return addresses, at most 16 deep.
    pub stack: Seq<u16>,
    /// One flag per key of the 16-key input device.
    pub keys: Seq<bool>,
    /// Whether the framebuffer gained a lit pixel since last consumed.
    pub draw: bool,
}

/// Validity of a machine state: the sizes of every component and the
/// address-space bounds on the program counter, the index register and
/// every saved return address.
pub open spec fn wf(s: State) -> bool {
    &&& s.mem.len() == 4096
    &&& s.regs.len() == 16
    &&& s.gfx.len() == 2048
    &&& s.keys.len() == 16
    &&& s.stack.len() <= 16
    &&& 0 <= s.index < 4096
    &&& 0 <= s.pc < 4096
    &&& forall|k: int| 0 <= k < s.stack.len() ==> #[trigger] s.stack[k] < 4096
}

/// An address-space sum wrapped back into range; sound for sums below 8192,
/// which covers every address computation the machine makes.
pub open spec fn wrap_addr(a: int) -> int {
    if a < 4096 {
        a
    } else {
        a - 4096
    }
}

/// The program counter after the unconditional advance of a fetch, or
/// after a skip.
pub open spec fn next_pc(pc: int) -> int {
    wrap_addr(pc + 2)
}

/// The program counter rewound by one instruction, for the key-wait
/// spin-wait.
pub open spec fn back_pc(pc: int) -> int {
    if pc >= 2 {
        pc - 2
    } else {
        pc + 4094
    }
}

/// The big-endian instruction word at the program counter.
pub open spec fn word_at(s: State) -> u16 {
    ((s.mem[s.pc] as u16) << 8) | (s.mem[wrap_addr(s.pc + 1)] as u16)
}

/// The state with only the program counter replaced.
pub open spec fn with_pc(s: State, pc: int) -> State {
    State { pc, ..s }
}

/// The state with one register replaced.
pub open spec fn upd_reg(s: State, r: int, v: u8) -> State {
    State { regs: s.regs.update(r, v), ..s }
}

/// Add-with-carry: the destination register gets the sum modulo 256 and
/// the flag register gets 1 exactly when the mathematical sum exceeded 255.
pub open spec fn spec_add_carry(s: State, x: int, y: int) -> State {
    let sum = s.regs[x] + s.regs[y];
    State {
        regs: s.regs.update(x, (sum % 256) as u8).update(15, if sum > 255 { 1u8 } else { 0u8 }),
        ..s
    }
}

/// Subtract-with-borrow, destination minus source: the flag register gets
/// 1 exactly when no borrow occurred (minuend at least the subtrahend).
pub open spec fn spec_sub_borrow(s: State, x: int, y: int) -> State {
    let a = s.regs[x];
    let b = s.regs[y];
    let res = if a >= b { (a - b) as u8 } else { (a - b + 256) as u8 };
    State {
        regs: s.regs.update(x, res).update(15, if a >= b { 1u8 } else { 0u8 }),
        ..s
    }
}

/// Reversed subtract-with-borrow: destination = source minus destination,
/// with the same flag polarity.
pub open spec fn spec_sub_rev(s: State, x: int, y: int) -> State {
    let a = s.regs[x];
    let b = s.regs[y];
    let res = if b >= a { (b - a) as u8 } else { (b - a + 256) as u8 };
    State {
        regs: s.regs.update(x, res).update(15, if b >= a { 1u8 } else { 0u8 }),
        ..s
    }
}

/// Shift right: the destination gets the *source* register shifted right
/// once, and the flag register gets the bit shifted out.
pub open spec fn spec_shr(s: State, x: int, y: int) -> State {
    let v = s.regs[y];
    State {
        regs: s.regs.update(x, v >> 1).update(15, v & 1),
        ..s
    }
}

/// Shift left: *both* registers get the source shifted left once (modulo
/// 256), and the flag register gets the high bit shifted out. The dual
/// write is intentional.
pub open spec fn spec_shl(s: State, x: int, y: int) -> State {
    let v = s.regs[y];
    State {
        regs: s.regs.update(x, v << 1).update(y, v << 1).update(15, v >> 7),
        ..s
    }
}

/// The sprite row byte for a given row, read from memory at the index
/// register plus the row, wrapped into the address space.
pub open spec fn sprite_row(s: State, row: int) -> u8 {
    s.mem[wrap_addr(s.index + row)]
}

/// Whether a sprite row byte has its bit for a given column set; columns
/// count from the most significant bit.
pub open spec fn sprite_bit(b: u8, col: int) -> bool {
    b & (0x80u8 >> (col as u8)) != 0
}

/// Whether the sprite pixel at (row, col) is set and lands on the grid:
/// coordinates that fall outside the 64x32 grid are skipped, not wrapped.
pub open spec fn covered(s: State, xv: int, yv: int, row: int, col: int) -> bool {
    sprite_bit(sprite_row(s, row), col) && xv + col < 64 && yv + row < 32
}

/// The framebuffer cell a sprite pixel lands on.
pub open spec fn cell(xv: int, yv: int, row: int, col: int) -> int {
    (yv + row) * 64 + (xv + col)
}

/// Whether some sprite pixel strictly before (row_lim, col_lim) in
/// drawing order lands on cell `p`. With col_lim = 0 this is "in some row
/// before row_lim": the coverage of a whole sprite prefix.
pub open spec fn covers_before(s: State, xv: int, yv: int, row_lim: int, col_lim: int, p: int) -> bool {
    exists|r: int, c: int|
        0 <= r && 0 <= c < 8
        && (r < row_lim || (r == row_lim && c < col_lim))
        && #[trigger] covered(s, xv, yv, r, c)
        && p == cell(xv, yv, r, c)
}

/// Whether some pixel of the full sprite of height `h` lands on cell `p`.
pub open spec fn covers(s: State, xv: int, yv: int, h: int, p: int) -> bool {
    covers_before(s, xv, yv, h, 0, p)
}

/// Whether some sprite pixel before (row_lim, col_lim) toggles a lit cell
/// off: the collision signal, over a prefix of the drawing order.
pub open spec fn hits_before(s: State, xv: int, yv: int, row_lim: int, col_lim: int) -> bool {
    exists|p: int| 0 <= p < 2048 && #[trigger] covers_before(s, xv, yv, row_lim, col_lim, p)
        && s.gfx[p]
}

/// Whether some sprite pixel before (row_lim, col_lim) lights an unlit
/// cell: the redraw signal, over a prefix of the drawing order.
pub open spec fn lights_before(s: State, xv: int, yv: int, row_lim: int, col_lim: int) -> bool {
    exists|p: int| 0 <= p < 2048 && #[trigger] covers_before(s, xv, yv, row_lim, col_lim, p)
        && !s.gfx[p]
}

/// Whether the sprite toggles some lit cell off: the collision signal.
pub open spec fn hits(s: State, xv: int, yv: int, h: int) -> bool {
    hits_before(s, xv, yv, h, 0)
}

/// Whether the sprite lights some unlit cell: the redraw signal.
pub open spec fn lights(s: State, xv: int, yv: int, h: int) -> bool {
    lights_before(s, xv, yv, h, 0)
}

/// Sprite drawing: every covered framebuffer cell is toggled, the flag
/// register reports a collision, and the redraw flag reports a newly lit
/// pixel. The coordinates are the values of the two named registers.
pub open spec fn draw_rel(s: State, t: State, rx: int, ry: int, h: int) -> bool {
    let xv = s.regs[rx] as int;
    let yv = s.regs[ry] as int;
    &&& t.gfx.len() == 2048
    &&& forall|p: int| 0 <= p < 2048 ==> #[trigger] t.gfx[p] == (s.gfx[p] != covers(s, xv, yv, h, p))
    &&& t.regs == s.regs.update(15, if hits(s, xv, yv, h) { 1u8 } else { 0u8 })
    &&& t.draw == lights(s, xv, yv, h)
    &&& t.mem == s.mem
    &&& t.index == s.index
    &&& t.pc == s.pc
    &&& t.stack == s.stack
    &&& t.keys == s.keys
    &&& t.delay == s.delay
    &&& t.sound == s.sound
}

/// Memory after registers 0..n have been dumped starting at address `i`,
/// one byte per register, wrapping into the address space.
pub open spec fn dump_mem(mem: Seq<u8>, regs: Seq<u8>, i: int, n: int) -> Seq<u8>
    decreases n,
{
    if n <= 0 {
        mem
    } else {
        dump_mem(mem, regs, i, n - 1).update(wrap_addr(i + (n - 1)), regs[n - 1])
    }
}

/// Registers after registers 0..n have been filled from memory starting at
/// address `i`, wrapping into the address space.
pub open spec fn load_regs(regs: Seq<u8>, mem: Seq<u8>, i: int, n: int) -> Seq<u8>
    decreases n,
{
    if n <= 0 {
        regs
    } else {
        load_regs(regs, mem, i, n - 1).update(n - 1, mem[wrap_addr(i + (n - 1))])
    }
}

/// Register dump: registers 0..=x go to memory at the index register,
/// which advances by x + 1 as an observable side effect.
pub open spec fn spec_reg_dump(s: State, x: int) -> State {
    State {
        mem: dump_mem(s.mem, s.regs, s.index, x + 1),
        index: wrap_addr(s.index + x + 1),
        ..s
    }
}

/// Register load: registers 0..=x are filled from memory at the index
/// register, which advances by x + 1 as an observable side effect.
pub open spec fn spec_reg_load(s: State, x: int) -> State {
    State {
        regs: load_regs(s.regs, s.mem, s.index, x + 1),
        index: wrap_addr(s.index + x + 1),
        ..s
    }
}

/// Binary-coded decimal: the register's hundreds, tens and ones digits go
/// to memory at the index register and the two following addresses.
pub open spec fn spec_bcd(s: State, x: int) -> State {
    let v = s.regs[x] as int;
    State {
        mem: s.mem
            .update(s.index, (v / 100) as u8)
            .update(wrap_addr(s.index + 1), ((v / 10) % 10) as u8)
            .update(wrap_addr(s.index + 2), (v % 10) as u8),
        ..s
    }
}

/// The highest pressed key index below n, or -1 when none is pressed.
/// The key-wait instruction resolves simultaneous presses deterministically
/// to the highest index, the last one a scan of the key flags writes.
pub open spec fn highest_key(keys: Seq<bool>, n: int) -> int
    decreases n,
{
    if n <= 0 {
        -1
    } else if keys[n - 1] {
        n - 1
    } else {
        highest_key(keys, n - 1)
    }
}

/// Key wait: when some key is pressed its index goes to the register;
/// otherwise the program counter rewinds by one instruction so the same
/// instruction re-executes on the next step. Never blocks.
pub open spec fn key_wait_rel(s: State, t: State, x: int) -> bool {
    if highest_key(s.keys, 16) >= 0 {
        t == upd_reg(s, x, highest_key(s.keys, 16) as u8)
    } else {
        t == with_pc(s, back_pc(s.pc))
    }
}

/// What executing one decoded opcode does, relating the state after the
/// fetch's unconditional advance to the state after execution. Call and
/// return surface stack overflow and underflow as errors, leaving the
/// state untouched; every other opcode succeeds.
pub open spec fn step_rel(op: Opcode, s: State, t: State, r: Result<(), Chip8Error>) -> bool {
    match op {
        Opcode::CallProgram(a) => r is Ok && t == with_pc(s, a as int),
        Opcode::Cls => r is Ok && t == (State { gfx: Seq::new(2048, |p: int| false), ..s }),
        Opcode::Ret => if s.stack.len() == 0 {
            &&& r == Err::<(), Chip8Error>(Chip8Error::StackUnderflow)
            &&& t == s
        } else {
            &&& r is Ok
            &&& t == (State { pc: s.stack.last() as int, stack: s.stack.drop_last(), ..s })
        },
        Opcode::Jmp(a) => r is Ok && t == with_pc(s, a as int),
        Opcode::Call(a) => if s.stack.len() == 16 {
            &&& r == Err::<(), Chip8Error>(Chip8Error::StackOverflow)
            &&& t == s
        } else {
            &&& r is Ok
            &&& t == (State { pc: a as int, stack: s.stack.push(s.pc as u16), ..s })
        },
        Opcode::SkipEq(x, nn) => r is Ok && t == (if s.regs[x as int] == nn {
            with_pc(s, next_pc(s.pc))
        } else {
            s
        }),
        Opcode::SkipNeq(x, nn) => r is Ok && t == (if s.regs[x as int] != nn {
            with_pc(s, next_pc(s.pc))
        } else {
            s
        }),
        Opcode::SkipEqR(x, y) => r is Ok && t == (if s.regs[x as int] == s.regs[y as int] {
            with_pc(s, next_pc(s.pc))
        } else {
            s
        }),
        Opcode::SkipNeqR(x, y) => r is Ok && t == (if s.regs[x as int] != s.regs[y as int] {
            with_pc(s, next_pc(s.pc))
        } else {
            s
        }),
        Opcode::Mv(x, nn) => r is Ok && t == upd_reg(s, x as int, nn),
        Opcode::Add(x, nn) => r is Ok && t == upd_reg(
            s,
            x as int,
            ((s.regs[x as int] + nn) % 256) as u8,
        ),
        Opcode::MvR(x, y) => r is Ok && t == upd_reg(s, x as int, s.regs[y as int]),
        Opcode::MvOr(x, y) => r is Ok && t == upd_reg(
            s,
            x as int,
            s.regs[x as int] | s.regs[y as int],
        ),
        Opcode::MvAnd(x, y) => r is Ok && t == upd_reg(
            s,
            x as int,
            s.regs[x as int] & s.regs[y as int],
        ),
        Opcode::MvXor(x, y) => r is Ok && t == upd_reg(
            s,
            x as int,
            s.regs[x as int] ^ s.regs[y as int],
        ),
        Opcode::AddC(x, y) => r is Ok && t == spec_add_carry(s, x as int, y as int),
        Opcode::SubC(x, y) => r is Ok && t == spec_sub_borrow(s, x as int, y as int),
        Opcode::Shr(x, y) => r is Ok && t == spec_shr(s, x as int, y as int),
        Opcode::SubIC(x, y) => r is Ok && t == spec_sub_rev(s, x as int, y as int),
        Opcode::Shl(x, y) => r is Ok && t == spec_shl(s, x as int, y as int),
        Opcode::SetI(a) => r is Ok && t == (State { index: a as int, ..s }),
        Opcode::JmpV0(a) => r is Ok && t == with_pc(s, wrap_addr(a + s.regs[0])),
        Opcode::SetRnd(x, m) => r is Ok && (exists|b: u8| t == upd_reg(s, x as int, #[trigger] (b & m))),
        Opcode::Draw(x, y, h) => r is Ok && draw_rel(s, t, x as int, y as int, h as int),
        Opcode::SkipKeyPrssd(x) => r is Ok && t == (if s.keys[s.regs[x as int] as int % 16] {
            with_pc(s, next_pc(s.pc))
        } else {
            s
        }),
        Opcode::SkipKeyNPrssd(x) => r is Ok && t == (if !s.keys[s.regs[x as int] as int % 16] {
            with_pc(s, next_pc(s.pc))
        } else {
            s
        }),
        Opcode::DelayTimer(x) => r is Ok && t == upd_reg(s, x as int, s.delay),
        Opcode::GetKey(x) => r is Ok && key_wait_rel(s, t, x as int),
        Opcode::SetDelay(x) => r is Ok && t == (State { delay: s.regs[x as int], ..s }),
        Opcode::SetSound(x) => r is Ok && t == (State { sound: s.regs[x as int], ..s }),
        Opcode::AddVToI(x) => r is Ok && t == (State {
            index: wrap_addr(s.index + s.regs[x as int]),
            ..s
        }),
        Opcode::SetIChr(x) => r is Ok && t == (State {
            index: (s.regs[x as int] as int % 16) * 5,
            ..s
        }),
        Opcode::BCD(x) => r is Ok && t == spec_bcd(s, x as int),
        Opcode::RegDump(x) => r is Ok && t == spec_reg_dump(s, x as int),
        Opcode::RegLoad(x) => r is Ok && t == spec_reg_load(s, x as int),
    }
}

/// One whole step: fetch the word at the program counter, advance it by 2
/// unconditionally, then either report a decode failure (the word matched
/// no pattern) or execute the opcode per `step_rel`.
pub open spec fn cycle_rel(s: State, t: State, r: Result<(), Chip8Error>) -> bool {
    let w = word_at(s);
    let fetched = with_pc(s, next_pc(s.pc));
    match Opcode::spec_decode(w) {
        None => r == Err::<(), Chip8Error>(Chip8Error::DecodeFailure(w)) && t == fetched,
        Some(op) => step_rel(op, fetched, t, r),
    }
}

/// The byte at position k of the built-in font: 16 glyphs of 5 bytes each,
/// one glyph per hexadecimal digit, preloaded at the bottom of memory.
pub open spec fn font_byte_spec(k: int) -> u8 {
    glyph_byte(k / 5, k % 5)
}

/// Row `r` of the glyph for hexadecimal digit `g`.
pub open spec fn glyph_byte(g: int, r: int) -> u8 {
    if g == 0x0 {
        if r == 0 { 0xF0 } else if r == 1 { 0x90 } else if r == 2 { 0x90 } else if r == 3 { 0x90 } else { 0xF0 }
    } else if g == 0x1 {
        if r == 0 { 0x20 } else if r == 1 { 0x60 } else if r == 2 { 0x20 } else if r == 3 { 0x20 } else { 0x70 }
    } else if g == 0x2 {
        if r == 0 { 0xF0 } else if r == 1 { 0x10 } else if r == 2 { 0xF0 } else if r == 3 { 0x80 } else { 0xF0 }
    } else if g == 0x3 {
        if r == 0 { 0xF0 } else if r == 1 { 0x10 } else if r == 2 { 0xF0 } else if r == 3 { 0x10 } else { 0xF0 }
    } else if g == 0x4 {
        if r == 0 { 0x90 } else if r == 1 { 0x90 } else if r == 2 { 0xF0 } else if r == 3 { 0x10 } else { 0x10 }
    } else if g == 0x5 {
        if r == 0 { 0xF0 } else if r == 1 { 0x80 } else if r == 2 { 0xF0 } else if r == 3 { 0x10 } else { 0xF0 }
    } else if g == 0x6 {
        if r == 0 { 0xF0 } else if r == 1 { 0x80 } else if r == 2 { 0xF0 } else if r == 3 { 0x90 } else { 0xF0 }
    } else if g == 0x7 {
        if r == 0 { 0xF0 } else if r == 1 { 0x10 } else if r == 2 { 0x20 } else if r == 3 { 0x40 } else { 0x40 }
    } else if g == 0x8 {
        if r == 0 { 0xF0 } else if r == 1 { 0x90 } else if r == 2 { 0xF0 } else if r == 3 { 0x90 } else { 0xF0 }
    } else if g == 0x9 {
        if r == 0 { 0xF0 } else if r == 1 { 0x90 } else if r == 2 { 0xF0 } else if r == 3 { 0x10 } else { 0xF0 }
    } else if g == 0xA {
        if r == 0 { 0xF0 } else if r == 1 { 0x90 } else if r == 2 { 0xF0 } else if r == 3 { 0x90 } else { 0x90 }
    } else if g == 0xB {
        if r == 0 { 0xE0 } else if r == 1 { 0x90 } else if r == 2 { 0xE0 } else if r == 3 { 0x90 } else { 0xE0 }
    } else if g == 0xC {
        if r == 0 { 0xF0 } else if r == 1 { 0x80 } else if r == 2 { 0x80 } else if r == 3 { 0x80 } else { 0xF0 }
    } else if g == 0xD {
        if r == 0 { 0xE0 } else if r == 1 { 0x90 } else if r == 2 { 0x90 } else if r == 3 { 0x90 } else { 0xE0 }
    } else if g == 0xE {
        if r == 0 { 0xF0 } else if r == 1 { 0x80 } else if r == 2 { 0xF0 } else if r == 3 { 0x80 } else { 0xF0 }
    } else {
        if r == 0 { 0xF0 } else if r == 1 { 0x80 } else if r == 2 { 0xF0 } else if r == 3 { 0x80 } else { 0x80 }
    }
}

/// One timer tick: each countdown timer loses at most 1, floored at 0.
pub open spec fn spec_tick(s: State) -> State {
    State {
        delay: if s.delay > 0 { (s.delay - 1) as u8 } else { 0u8 },
        sound: if s.sound > 0 { (s.sound - 1) as u8 } else { 0u8 },
        ..s
    }
}

/// The state a freshly constructed machine is in: font preloaded, program
/// counter at 0x200, everything else zeroed.
pub open spec fn init_state() -> State {
    State {
        mem: Seq::new(4096, |k: int| if k < 80 { font_byte_spec(k) } else { 0u8 }),
        regs: Seq::new(16, |k: int| 0u8),
        index: 0,
        pc: 0x200,
        gfx: Seq::new(2048, |k: int| false),
        delay: 0,
        sound: 0,
        stack: Seq::empty(),
        keys: Seq::new(16, |k: int| false),
        draw: false,
    }
}

/// Dumping registers to memory never changes the memory's size.
pub proof fn lemma_dump_mem_len(mem: Seq<u8>, regs: Seq<u8>, i: int, n: int)
    requires
        mem.len() == 4096,
        0 <= i < 4096,
        n <= 16,
    ensures
        dump_mem(mem, regs, i, n).len() == mem.len(),
    decreases n,
{
    if n > 0 {
        lemma_dump_mem_len(mem, regs, i, n - 1);
        assert(0 <= wrap_addr(i + (n - 1)) < 4096);
    }
}

/// Loading registers from memory never changes the register file's size.
pub proof fn lemma_load_regs_len(regs: Seq<u8>, mem: Seq<u8>, i: int, n: int)
    requires
        regs.len() == 16,
        n <= 16,
    ensures
        load_regs(regs, mem, i, n).len() == regs.len(),
    decreases n,
{
    if n > 0 {
        lemma_load_regs_len(regs, mem, i, n - 1);
    }
}

/// One drawing-order step: the sprite pixel at (row, col) lands on a cell
/// no earlier pixel touched (each cell is toggled at most once), and the
/// coverage, collision and redraw signals of the prefix grow by exactly
/// that pixel.
pub proof fn lemma_draw_step(s: State, xv: int, yv: int, row: int, col: int)
    requires
        0 <= xv,
        0 <= yv,
        0 <= row,
        0 <= col < 8,
    ensures
        covered(s, xv, yv, row, col) ==> 0 <= cell(xv, yv, row, col) < 2048,
        covered(s, xv, yv, row, col) ==> !covers_before(s, xv, yv, row, col, cell(xv, yv, row, col)),
        forall|q: int|
            #[trigger] covers_before(s, xv, yv, row, col + 1, q) == (covers_before(s, xv, yv, row, col, q)
                || (covered(s, xv, yv, row, col) && q == cell(xv, yv, row, col))),
        hits_before(s, xv, yv, row, col + 1) == (hits_before(s, xv, yv, row, col)
            || (covered(s, xv, yv, row, col) && s.gfx[cell(xv, yv, row, col)])),
        lights_before(s, xv, yv, row, col + 1) == (lights_before(s, xv, yv, row, col)
            || (covered(s, xv, yv, row, col) && !s.gfx[cell(xv, yv, row, col)])),
{
    let p0 = cell(xv, yv, row, col);
    if covered(s, xv, yv, row, col) {
        assert(xv + col < 64 && yv + row < 32);
        assert((yv + row) * 64 <= 31 * 64) by (nonlinear_arith)
            requires yv + row <= 31;
        assert(0 <= p0 < 2048);
        assert forall|r: int, c: int|
            0 <= r && 0 <= c < 8 && (r < row || (r == row && c < col))
                && #[trigger] covered(s, xv, yv, r, c) implies cell(xv, yv, r, c) != p0 by {
            assert(xv + c < 64 && yv + r < 32);
            if r < row {
                assert((yv + r) * 64 + 64 <= (yv + row) * 64) by (nonlinear_arith)
                    requires r < row;
            }
        }
        if covers_before(s, xv, yv, row, col, p0) {
            let (r, c) = choose|r: int, c: int|
                0 <= r && 0 <= c < 8 && (r < row || (r == row && c < col))
                    && #[trigger] covered(s, xv, yv, r, c) && p0 == cell(xv, yv, r, c);
            assert(false);
        }
    }
    assert forall|q: int|
        #[trigger] covers_before(s, xv, yv, row, col + 1, q) == (covers_before(s, xv, yv, row, col, q)
            || (covered(s, xv, yv, row, col) && q == cell(xv, yv, row, col))) by {
        if covers_before(s, xv, yv, row, col + 1, q) {
            let (r, c) = choose|r: int, c: int|
                0 <= r && 0 <= c < 8 && (r < row || (r == row && c < col + 1))
                    && #[trigger] covered(s, xv, yv, r, c) && q == cell(xv, yv, r, c);
            if !(r == row && c == col) {
                assert(r < row || (r == row && c < col));
                assert(covers_before(s, xv, yv, row, col, q));
            }
        }
        if covers_before(s, xv, yv, row, col, q) {
            let (r, c) = choose|r: int, c: int|
                0 <= r && 0 <= c < 8 && (r < row || (r == row && c < col))
                    && #[trigger] covered(s, xv, yv, r, c) && q == cell(xv, yv, r, c);
            assert(covers_before(s, xv, yv, row, col + 1, q));
        }
        if covered(s, xv, yv, row, col) && q == cell(xv, yv, row, col) {
            assert(covers_before(s, xv, yv, row, col + 1, q));
        }
    }
    assert(hits_before(s, xv, yv, row, col + 1) == (hits_before(s, xv, yv, row, col)
        || (covered(s, xv, yv, row, col) && s.gfx[p0]))) by {
        if hits_before(s, xv, yv, row, col + 1) {
            let q = choose|q: int|
                0 <= q < 2048 && #[trigger] covers_before(s, xv, yv, row, col + 1, q) && s.gfx[q];
            if covers_before(s, xv, yv, row, col, q) {
                assert(hits_before(s, xv, yv, row, col));
            }
        }
        if hits_before(s, xv, yv, row, col) {
            let q = choose|q: int|
                0 <= q < 2048 && #[trigger] covers_before(s, xv, yv, row, col, q) && s.gfx[q];
            assert(covers_before(s, xv, yv, row, col + 1, q));
        }
        if covered(s, xv, yv, row, col) && s.gfx[p0] {
            assert(covers_before(s, xv, yv, row, col + 1, p0));
        }
    }
    assert(lights_before(s, xv, yv, row, col + 1) == (lights_before(s, xv, yv, row, col)
        || (covered(s, xv, yv, row, col) && !s.gfx[p0]))) by {
        if lights_before(s, xv, yv, row, col + 1) {
            let q = choose|q: int|
                0 <= q < 2048 && #[trigger] covers_before(s, xv, yv, row, col + 1, q) && !s.gfx[q];
            if covers_before(s, xv, yv, row, col, q) {
                assert(lights_before(s, xv, yv, row, col));
            }
        }
        if lights_before(s, xv, yv, row, col) {
            let q = choose|q: int|
                0 <= q < 2048 && #[trigger] covers_before(s, xv, yv, row, col, q) && !s.gfx[q];
            assert(covers_before(s, xv, yv, row, col + 1, q));
        }
        if covered(s, xv, yv, row, col) && !s.gfx[p0] {
            assert(covers_before(s, xv, yv, row, col + 1, p0));
        }
    }
}

/// Finishing a sprite row: coverage up to column 8 of one row is coverage
/// up to column 0 of the next, and likewise for the two signals.
pub proof fn lemma_draw_row_end(s: State, xv: int, yv: int, row: int)
    requires
        0 <= row,
    ensures
        forall|q: int|
            #[trigger] covers_before(s, xv, yv, row, 8, q) == covers_before(s, xv, yv, row + 1, 0, q),
        hits_before(s, xv, yv, row, 8) == hits_before(s, xv, yv, row + 1, 0),
        lights_before(s, xv, yv, row, 8) == lights_before(s, xv, yv, row + 1, 0),
{
    assert forall|q: int|
        #[trigger] covers_before(s, xv, yv, row, 8, q) == covers_before(s, xv, yv, row + 1, 0, q) by {
        if covers_before(s, xv, yv, row, 8, q) {
            let (r, c) = choose|r: int, c: int|
                0 <= r && 0 <= c < 8 && (r < row || (r == row && c < 8))
                    && #[trigger] covered(s, xv, yv, r, c) && q == cell(xv, yv, r, c);
            assert(r < row + 1);
            assert(covers_before(s, xv, yv, row + 1, 0, q));
        }
        if covers_before(s, xv, yv, row + 1, 0, q) {
            let (r, c) = choose|r: int, c: int|
                0 <= r && 0 <= c < 8 && r < row + 1
                    && #[trigger] covered(s, xv, yv, r, c) && q == cell(xv, yv, r, c);
            assert(r < row || (r == row && c < 8));
            assert(covers_before(s, xv, yv, row, 8, q));
        }
    }
    assert(hits_before(s, xv, yv, row, 8) == hits_before(s, xv, yv, row + 1, 0)) by {
        if hits_before(s, xv, yv, row, 8) {
            let q = choose|q: int|
                0 <= q < 2048 && #[trigger] covers_before(s, xv, yv, row, 8, q) && s.gfx[q];
            assert(covers_before(s, xv, yv, row + 1, 0, q));
        }
        if hits_before(s, xv, yv, row + 1, 0) {
            let q = choose|q: int|
                0 <= q < 2048 && #[trigger] covers_before(s, xv, yv, row + 1, 0, q) && s.gfx[q];
            assert(covers_before(s, xv, yv, row, 8, q));
        }
    }
    assert(lights_before(s, xv, yv, row, 8) == lights_before(s, xv, yv, row + 1, 0)) by {
        if lights_before(s, xv, yv, row, 8) {
            let q = choose|q: int|
                0 <= q < 2048 && #[trigger] covers_before(s, xv, yv, row, 8, q) && !s.gfx[q];
            assert(covers_before(s, xv, yv, row + 1, 0, q));
        }
        if lights_before(s, xv, yv, row + 1, 0) {
            let q = choose|q: int|
                0 <= q < 2048 && #[trigger] covers_before(s, xv, yv, row + 1, 0, q) && !s.gfx[q];
            assert(covers_before(s, xv, yv, row, 8, q));
        }
    }
}

/// Nothing comes before drawing position (0, 0): empty coverage, no signals.
pub proof fn lemma_draw_start(s: State, xv: int, yv: int)
    ensures
        forall|q: int| !#[trigger] covers_before(s, xv, yv, 0, 0, q),
        !hits_before(s, xv, yv, 0, 0),
        !lights_before(s, xv, yv, 0, 0),
{
}

} // verus!
