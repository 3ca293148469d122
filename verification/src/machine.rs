//! The machine: all mutable state and one execution step per opcode,
//! proved against the relations in `semantics`.

use vstd::prelude::*;
use vstd::pervasive::VecAdditionalExecFns;

use crate::opcodes::Opcode;
use crate::opcodes::op_wf;
use crate::opcodes::lemma_decode_operands;
use crate::rng::random_byte;
use crate::semantics::Chip8Error;
use crate::semantics::State;
use crate::semantics::cell;
use crate::semantics::covered;
use crate::semantics::covers_before;
use crate::semantics::cycle_rel;
use crate::semantics::draw_rel;
use crate::semantics::dump_mem;
use crate::semantics::font_byte_spec;
use crate::semantics::highest_key;
use crate::semantics::hits_before;
use crate::semantics::init_state;
use crate::semantics::key_wait_rel;
use crate::semantics::lemma_draw_row_end;
use crate::semantics::lemma_draw_start;
use crate::semantics::lemma_draw_step;
use crate::semantics::lemma_dump_mem_len;
use crate::semantics::lemma_load_regs_len;
use crate::semantics::lights_before;
use crate::semantics::load_regs;
use crate::semantics::next_pc;
use crate::semantics::spec_add_carry;
use crate::semantics::spec_bcd;
use crate::semantics::spec_reg_dump;
use crate::semantics::spec_reg_load;
use crate::semantics::spec_shl;
use crate::semantics::spec_tick;
use crate::semantics::spec_shr;
use crate::semantics::spec_sub_borrow;
use crate::semantics::spec_sub_rev;
use crate::semantics::sprite_row;
use crate::semantics::step_rel;
use crate::semantics::upd_reg;
use crate::semantics::wf;
use crate::semantics::with_pc;
use crate::semantics::word_at;

verus! {

/// The virtual machine: memory, registers, index register, program
/// counter, framebuffer, timers, call stack, key flags and the redraw flag.
pub struct Chip8 {
    memory: Vec<u8>,
    regs: Vec<u8>,
    index: u16,
    pc: u16,
    gfx: Vec<bool>,
    delay_timer: u8,
    sound_timer: u8,
    stack: Vec<u16>,
    keys: Vec<bool>,
    draw_flag: bool,
}

impl View for Chip8 {
    type V = State;

    closed spec fn view(&self) -> State {
        State {
            mem: self.memory@,
            regs: self.regs@,
            index: self.index as int,
            pc: self.pc as int,
            gfx: self.gfx@,
            delay: self.delay_timer,
            sound: self.sound_timer,
            stack: self.stack@,
            keys: self.keys@,
            draw: self.draw_flag,
        }
    }
}

/// One byte of the built-in font table.
fn font_byte(k: usize) -> (r: u8)
    requires
        k < 80,
    ensures
        r == font_byte_spec(k as int),
{
    let g = k / 5;
    let row = k % 5;
    match g {
        0x0 => match row { 0 => 0xF0, 1 => 0x90, 2 => 0x90, 3 => 0x90, _ => 0xF0 },
        0x1 => match row { 0 => 0x20, 1 => 0x60, 2 => 0x20, 3 => 0x20, _ => 0x70 },
        0x2 => match row { 0 => 0xF0, 1 => 0x10, 2 => 0xF0, 3 => 0x80, _ => 0xF0 },
        0x3 => match row { 0 => 0xF0, 1 => 0x10, 2 => 0xF0, 3 => 0x10, _ => 0xF0 },
        0x4 => match row { 0 => 0x90, 1 => 0x90, 2 => 0xF0, 3 => 0x10, _ => 0x10 },
        0x5 => match row { 0 => 0xF0, 1 => 0x80, 2 => 0xF0, 3 => 0x10, _ => 0xF0 },
        0x6 => match row { 0 => 0xF0, 1 => 0x80, 2 => 0xF0, 3 => 0x90, _ => 0xF0 },
        0x7 => match row { 0 => 0xF0, 1 => 0x10, 2 => 0x20, 3 => 0x40, _ => 0x40 },
        0x8 => match row { 0 => 0xF0, 1 => 0x90, 2 => 0xF0, 3 => 0x90, _ => 0xF0 },
        0x9 => match row { 0 => 0xF0, 1 => 0x90, 2 => 0xF0, 3 => 0x10, _ => 0xF0 },
        0xA => match row { 0 => 0xF0, 1 => 0x90, 2 => 0xF0, 3 => 0x90, _ => 0x90 },
        0xB => match row { 0 => 0xE0, 1 => 0x90, 2 => 0xE0, 3 => 0x90, _ => 0xE0 },
        0xC => match row { 0 => 0xF0, 1 => 0x80, 2 => 0x80, 3 => 0x80, _ => 0xF0 },
        0xD => match row { 0 => 0xE0, 1 => 0x90, 2 => 0x90, 3 => 0x90, _ => 0xE0 },
        0xE => match row { 0 => 0xF0, 1 => 0x80, 2 => 0xF0, 3 => 0x80, _ => 0xF0 },
        _ => match row { 0 => 0xF0, 1 => 0x80, 2 => 0xF0, 3 => 0x80, _ => 0x80 },
    }
}

/// A vector of `n` cleared flags.
fn false_flags(n: usize) -> (v: Vec<bool>)
    ensures
        v@.len() == n,
        forall|j: int| 0 <= j < n ==> !(#[trigger] v@[j]),
{
    let mut v: Vec<bool> = Vec::new();
    let mut k: usize = 0;
    while k < n
        invariant
            k <= n,
            v@.len() == k,
            forall|j: int| 0 <= j < k ==> !(#[trigger] v@[j]),
        decreases n - k,
    {
        v.push(false);
        k += 1;
    }
    v
}

impl Chip8 {
    /// A fresh machine: font preloaded at the bottom of memory, program
    /// counter at 0x200, everything else zeroed.
    pub fn new() -> (c: Chip8)
        ensures
            c@ == init_state(),
            wf(c@),
    {
        let mut memory: Vec<u8> = Vec::new();
        let mut k: usize = 0;
        while k < 4096
            invariant
                k <= 4096,
                memory@.len() == k,
                forall|j: int| 0 <= j < k ==> #[trigger] memory@[j] == (if j < 80 {
                    font_byte_spec(j)
                } else {
                    0u8
                }),
            decreases 4096 - k,
        {
            if k < 80 {
                let b = font_byte(k);
                memory.push(b);
            } else {
                memory.push(0);
            }
            k += 1;
        }
        let mut regs: Vec<u8> = Vec::new();
        let mut j: usize = 0;
        while j < 16
            invariant
                j <= 16,
                regs@.len() == j,
                forall|i: int| 0 <= i < j ==> #[trigger] regs@[i] == 0u8,
            decreases 16 - j,
        {
            regs.push(0);
            j += 1;
        }
        let gfx = false_flags(2048);
        let keys = false_flags(16);
        let c = Chip8 {
            memory,
            regs,
            index: 0,
            pc: 0x200,
            gfx,
            delay_timer: 0,
            sound_timer: 0,
            stack: Vec::new(),
            keys,
            draw_flag: false,
        };
        proof {
            assert(c@.mem =~= init_state().mem);
            assert(c@.regs =~= init_state().regs);
            assert(c@.gfx =~= init_state().gfx);
            assert(c@.keys =~= init_state().keys);
            assert(c@.stack =~= init_state().stack);
            assert(c@ =~= init_state());
        }
        c
    }

    /// Copy a program image into memory starting at 0x200. An image larger
    /// than the 3584 bytes above the load address is rejected whole; nothing
    /// is partially loaded.
    pub fn load(&mut self, program: &[u8]) -> (r: Result<(), Chip8Error>)
        requires
            wf(old(self)@),
        ensures
            wf(final(self)@),
            program@.len() <= 3584 ==> r is Ok && final(self)@ == (State {
                mem: old(self)@.mem.subrange(0, 0x200) + program@ + old(self)@.mem.subrange(
                    0x200 + program@.len() as int,
                    4096,
                ),
                ..old(self)@
            }),
            program@.len() > 3584 ==> r == Err::<(), Chip8Error>(Chip8Error::ProgramTooLarge)
                && final(self)@ == old(self)@,
    {
        if program.len() > 3584 {
            return Err(Chip8Error::ProgramTooLarge);
        }
        let mut k: usize = 0;
        while k < program.len()
            invariant
                wf(old(self)@),
                program@.len() <= 3584,
                k <= program@.len(),
                self@.mem.len() == 4096,
                forall|j: int| 0 <= j < k ==> #[trigger] self@.mem[0x200 + j] == program@[j],
                forall|j: int| 0 <= j < 4096 && !(0x200 <= j < 0x200 + k) ==> #[trigger] self@.mem[j]
                    == old(self)@.mem[j],
                self@.regs == old(self)@.regs,
                self@.index == old(self)@.index,
                self@.pc == old(self)@.pc,
                self@.gfx == old(self)@.gfx,
                self@.delay == old(self)@.delay,
                self@.sound == old(self)@.sound,
                self@.stack == old(self)@.stack,
                self@.keys == old(self)@.keys,
                self@.draw == old(self)@.draw,
            decreases program@.len() - k,
        {
            let b = program[k];
            self.memory.set(0x200 + k, b);
            k += 1;
        }
        proof {
            let target = old(self)@.mem.subrange(0, 0x200) + program@ + old(self)@.mem.subrange(
                0x200 + program@.len() as int,
                4096,
            );
            assert forall|j: int| 0 <= j < 4096 implies self@.mem[j] == target[j] by {
                if 0x200 <= j < 0x200 + program@.len() {
                    assert(self@.mem[0x200 + (j - 0x200)] == program@[j - 0x200]);
                } else {
                    assert(self@.mem[j] == old(self)@.mem[j]);
                }
            }
            assert(self@.mem =~= old(self)@.mem.subrange(0, 0x200) + program@
                + old(self)@.mem.subrange(0x200 + program@.len() as int, 4096));
            assert(self@ =~= (State {
                mem: old(self)@.mem.subrange(0, 0x200) + program@ + old(self)@.mem.subrange(
                    0x200 + program@.len() as int,
                    4096,
                ),
                ..old(self)@
            }));
        }
        Ok(())
    }

    /// One whole step: fetch, decode, execute. A word matching no opcode
    /// pattern is reported, never silently skipped; the program counter has
    /// already advanced past it, so the host decides whether to halt.
    pub fn emulate_cycle(&mut self) -> (r: Result<(), Chip8Error>)
        requires
            wf(old(self)@),
        ensures
            wf(final(self)@),
            cycle_rel(old(self)@, final(self)@, r),
    {
        let w = self.fetch();
        match Opcode::from_u16(w) {
            None => Err(Chip8Error::DecodeFailure(w)),
            Some(op) => {
                proof {
                    lemma_decode_operands(w);
                }
                self.execute(op)
            },
        }
    }

    /// Read the big-endian instruction word at the program counter and
    /// advance the counter by 2, unconditionally.
    fn fetch(&mut self) -> (w: u16)
        requires
            wf(old(self)@),
        ensures
            wf(final(self)@),
            w == word_at(old(self)@),
            final(self)@ == with_pc(old(self)@, next_pc(old(self)@.pc)),
    {
        let hi = self.memory[self.pc as usize];
        let lo_at = if (self.pc as usize) + 1 < 4096 {
            self.pc as usize + 1
        } else {
            self.pc as usize + 1 - 4096
        };
        let lo = self.memory[lo_at];
        let w = ((hi as u16) << 8u16) | (lo as u16);
        self.pc = if self.pc + 2 < 4096 {
            self.pc + 2
        } else {
            self.pc + 2 - 4096
        };
        w
    }

    /// Advance the program counter by one more instruction: the skip.
    fn advance_pc(&mut self)
        requires
            wf(old(self)@),
        ensures
            wf(final(self)@),
            final(self)@ == with_pc(old(self)@, next_pc(old(self)@.pc)),
    {
        self.pc = if self.pc + 2 < 4096 {
            self.pc + 2
        } else {
            self.pc + 2 - 4096
        };
    }

    /// Execute one decoded opcode.
    fn execute(&mut self, op: Opcode) -> (r: Result<(), Chip8Error>)
        requires
            wf(old(self)@),
            op_wf(op),
        ensures
            wf(final(self)@),
            step_rel(op, old(self)@, final(self)@, r),
    {
        match op {
            Opcode::CallProgram(addr) => {
                self.pc = addr;
                Ok(())
            },
            Opcode::Cls => {
                let blank = false_flags(2048);
                self.gfx = blank;
                proof {
                    assert(self@.gfx =~= Seq::new(2048, |p: int| false));
                    assert(self@ =~= (State {
                        gfx: Seq::new(2048, |p: int| false),
                        ..old(self)@
                    }));
                }
                Ok(())
            },
            Opcode::Ret => self.ret(),
            Opcode::Jmp(addr) => {
                self.pc = addr;
                Ok(())
            },
            Opcode::Call(addr) => self.call(addr),
            Opcode::SkipEq(x, nn) => {
                if self.regs[x as usize] == nn {
                    self.advance_pc();
                }
                Ok(())
            },
            Opcode::SkipNeq(x, nn) => {
                if self.regs[x as usize] != nn {
                    self.advance_pc();
                }
                Ok(())
            },
            Opcode::SkipEqR(x, y) => {
                if self.regs[x as usize] == self.regs[y as usize] {
                    self.advance_pc();
                }
                Ok(())
            },
            Opcode::SkipNeqR(x, y) => {
                if self.regs[x as usize] != self.regs[y as usize] {
                    self.advance_pc();
                }
                Ok(())
            },
            Opcode::Mv(x, nn) => {
                self.regs.set(x as usize, nn);
                Ok(())
            },
            Opcode::Add(x, nn) => {
                let sum = self.regs[x as usize] as u16 + nn as u16;
                self.regs.set(x as usize, (sum % 256) as u8);
                Ok(())
            },
            Opcode::MvR(x, y) => {
                let v = self.regs[y as usize];
                self.regs.set(x as usize, v);
                Ok(())
            },
            Opcode::MvOr(x, y) => {
                let v = self.regs[x as usize] | self.regs[y as usize];
                self.regs.set(x as usize, v);
                Ok(())
            },
            Opcode::MvAnd(x, y) => {
                let v = self.regs[x as usize] & self.regs[y as usize];
                self.regs.set(x as usize, v);
                Ok(())
            },
            Opcode::MvXor(x, y) => {
                let v = self.regs[x as usize] ^ self.regs[y as usize];
                self.regs.set(x as usize, v);
                Ok(())
            },
            Opcode::AddC(x, y) => {
                self.add_with_carry(x, y);
                Ok(())
            },
            Opcode::SubC(x, y) => {
                self.sub_with_carry(x, y);
                Ok(())
            },
            Opcode::Shr(x, y) => {
                self.shr(x, y);
                Ok(())
            },
            Opcode::SubIC(x, y) => {
                self.sub_ic(x, y);
                Ok(())
            },
            Opcode::Shl(x, y) => {
                self.shl(x, y);
                Ok(())
            },
            Opcode::SetI(addr) => {
                self.index = addr;
                Ok(())
            },
            Opcode::JmpV0(addr) => {
                let t = addr as usize + self.regs[0] as usize;
                self.pc = if t < 4096 {
                    t as u16
                } else {
                    (t - 4096) as u16
                };
                Ok(())
            },
            Opcode::SetRnd(x, m) => {
                let b = random_byte();
                self.regs.set(x as usize, b & m);
                proof {
                    assert(self@ == upd_reg(old(self)@, x as int, b & m));
                }
                Ok(())
            },
            Opcode::Draw(x, y, h) => {
                self.draw(x, y, h);
                Ok(())
            },
            Opcode::SkipKeyPrssd(x) => {
                let key = self.regs[x as usize] % 16;
                if self.keys[key as usize] {
                    self.advance_pc();
                }
                Ok(())
            },
            Opcode::SkipKeyNPrssd(x) => {
                let key = self.regs[x as usize] % 16;
                if !self.keys[key as usize] {
                    self.advance_pc();
                }
                Ok(())
            },
            Opcode::DelayTimer(x) => {
                let v = self.delay_timer;
                self.regs.set(x as usize, v);
                Ok(())
            },
            Opcode::GetKey(x) => {
                self.get_key(x);
                Ok(())
            },
            Opcode::SetDelay(x) => {
                self.delay_timer = self.regs[x as usize];
                Ok(())
            },
            Opcode::SetSound(x) => {
                self.sound_timer = self.regs[x as usize];
                Ok(())
            },
            Opcode::AddVToI(x) => {
                let t = self.index as usize + self.regs[x as usize] as usize;
                self.index = if t < 4096 {
                    t as u16
                } else {
                    (t - 4096) as u16
                };
                Ok(())
            },
            Opcode::SetIChr(x) => {
                let digit = self.regs[x as usize] % 16;
                self.index = digit as u16 * 5;
                Ok(())
            },
            Opcode::BCD(x) => {
                self.bcd(x);
                Ok(())
            },
            Opcode::RegDump(x) => {
                self.reg_dump(x);
                Ok(())
            },
            Opcode::RegLoad(x) => {
                self.reg_load(x);
                Ok(())
            },
        }
    }

    /// Return from a subroutine; underflow (no active frame) is reported.
    fn ret(&mut self) -> (r: Result<(), Chip8Error>)
        requires
            wf(old(self)@),
        ensures
            wf(final(self)@),
            step_rel(Opcode::Ret, old(self)@, final(self)@, r),
    {
        match self.stack.pop() {
            None => Err(Chip8Error::StackUnderflow),
            Some(a) => {
                self.pc = a;
                proof {
                    assert(self@.stack =~= old(self)@.stack.drop_last());
                }
                Ok(())
            },
        }
    }

    /// Call a subroutine: push the return address, jump. A seventeenth
    /// nested call overflows the 16-frame stack and is reported.
    fn call(&mut self, addr: u16) -> (r: Result<(), Chip8Error>)
        requires
            wf(old(self)@),
            addr < 4096,
        ensures
            wf(final(self)@),
            step_rel(Opcode::Call(addr), old(self)@, final(self)@, r),
    {
        if self.stack.len() == 16 {
            Err(Chip8Error::StackOverflow)
        } else {
            let pc = self.pc;
            self.stack.push(pc);
            self.pc = addr;
            Ok(())
        }
    }

    /// Add-with-carry: destination gets the sum modulo 256, the flag
    /// register gets 1 exactly when the sum exceeded 255.
    fn add_with_carry(&mut self, x: u8, y: u8)
        requires
            wf(old(self)@),
            x < 16,
            y < 16,
        ensures
            wf(final(self)@),
            final(self)@ == spec_add_carry(old(self)@, x as int, y as int),
    {
        let sum = self.regs[x as usize] as u16 + self.regs[y as usize] as u16;
        self.regs.set(x as usize, (sum % 256) as u8);
        self.regs.set(15, if sum > 255 { 1 } else { 0 });
    }

    /// Subtract-with-borrow, destination minus source; the flag register
    /// gets 1 exactly when no borrow occurred.
    fn sub_with_carry(&mut self, x: u8, y: u8)
        requires
            wf(old(self)@),
            x < 16,
            y < 16,
        ensures
            wf(final(self)@),
            final(self)@ == spec_sub_borrow(old(self)@, x as int, y as int),
    {
        let a = self.regs[x as usize];
        let b = self.regs[y as usize];
        let res = if a >= b {
            a - b
        } else {
            (a as u16 + 256 - b as u16) as u8
        };
        self.regs.set(x as usize, res);
        self.regs.set(15, if a >= b { 1 } else { 0 });
    }

    /// Shift right, reading the *source* register: destination gets the
    /// source shifted right once, the flag register the bit shifted out.
    fn shr(&mut self, x: u8, y: u8)
        requires
            wf(old(self)@),
            x < 16,
            y < 16,
        ensures
            wf(final(self)@),
            final(self)@ == spec_shr(old(self)@, x as int, y as int),
    {
        let v = self.regs[y as usize];
        self.regs.set(x as usize, v >> 1u8);
        self.regs.set(15, v & 1);
    }

    /// Reversed subtract-with-borrow: destination = source minus
    /// destination, same flag polarity.
    fn sub_ic(&mut self, x: u8, y: u8)
        requires
            wf(old(self)@),
            x < 16,
            y < 16,
        ensures
            wf(final(self)@),
            final(self)@ == spec_sub_rev(old(self)@, x as int, y as int),
    {
        let a = self.regs[x as usize];
        let b = self.regs[y as usize];
        let res = if b >= a {
            b - a
        } else {
            (b as u16 + 256 - a as u16) as u8
        };
        self.regs.set(x as usize, res);
        self.regs.set(15, if b >= a { 1 } else { 0 });
    }

    /// Shift left: *both* registers get the source shifted left once, the
    /// flag register the high bit shifted out. The dual write is intentional.
    fn shl(&mut self, x: u8, y: u8)
        requires
            wf(old(self)@),
            x < 16,
            y < 16,
        ensures
            wf(final(self)@),
            final(self)@ == spec_shl(old(self)@, x as int, y as int),
    {
        let v = self.regs[y as usize];
        self.regs.set(x as usize, v << 1u8);
        self.regs.set(y as usize, v << 1u8);
        self.regs.set(15, v >> 7u8);
    }

    /// Draw a sprite: toggle every covered framebuffer cell, report a
    /// collision in the flag register and a newly lit pixel in the redraw
    /// flag. Off-grid pixels are skipped, not wrapped.
    #[verifier::loop_isolation(false)]
    fn draw(&mut self, rx: u8, ry: u8, h: u8)
        requires
            wf(old(self)@),
            rx < 16,
            ry < 16,
            h < 16,
        ensures
            wf(final(self)@),
            draw_rel(old(self)@, final(self)@, rx as int, ry as int, h as int),
    {
        let ghost s = old(self)@;
        let x = self.regs[rx as usize] as usize;
        let y = self.regs[ry as usize] as usize;
        let ghost xv = x as int;
        let ghost yv = y as int;
        let mut collision = false;
        let mut lit = false;
        proof {
            lemma_draw_start(s, xv, yv);
        }
        let mut row: usize = 0;
        while row < h as usize
            invariant
                row <= h as usize,
                self@.gfx.len() == 2048,
                forall|p: int| 0 <= p < 2048 ==> #[trigger] self@.gfx[p] == (s.gfx[p]
                    != covers_before(s, xv, yv, row as int, 0, p)),
                collision == hits_before(s, xv, yv, row as int, 0),
                lit == lights_before(s, xv, yv, row as int, 0),
                self@.mem == s.mem,
                self@.regs == s.regs,
                self@.index == s.index,
                self@.pc == s.pc,
                self@.stack == s.stack,
                self@.keys == s.keys,
                self@.delay == s.delay,
                self@.sound == s.sound,
                self@.draw == s.draw,
            decreases h as int - row,
        {
            let at = self.index as usize + row;
            let a = if at < 4096 {
                at
            } else {
                at - 4096
            };
            let byte = self.memory[a];
            let mut col: usize = 0;
            while col < 8
                invariant
                    row < h as usize,
                    col <= 8,
                    byte == sprite_row(s, row as int),
                    self@.gfx.len() == 2048,
                    forall|p: int| 0 <= p < 2048 ==> #[trigger] self@.gfx[p] == (s.gfx[p]
                        != covers_before(s, xv, yv, row as int, col as int, p)),
                    collision == hits_before(s, xv, yv, row as int, col as int),
                    lit == lights_before(s, xv, yv, row as int, col as int),
                    self@.mem == s.mem,
                    self@.regs == s.regs,
                    self@.index == s.index,
                    self@.pc == s.pc,
                    self@.stack == s.stack,
                    self@.keys == s.keys,
                    self@.delay == s.delay,
                    self@.sound == s.sound,
                    self@.draw == s.draw,
                decreases 8 - col,
            {
                proof {
                    lemma_draw_step(s, xv, yv, row as int, col as int);
                }
                let mask = 0x80u8 >> (col as u8);
                if byte & mask != 0 && x + col < 64 && y + row < 32 {
                    proof {
                        assert(covered(s, xv, yv, row as int, col as int));
                    }
                    let p = (y + row) * 64 + (x + col);
                    proof {
                        assert(p as int == cell(xv, yv, row as int, col as int));
                        assert(p < 2048);
                    }
                    let cur = self.gfx[p];
                    if cur {
                        collision = true;
                    } else {
                        lit = true;
                    }
                    self.gfx.set(p, !cur);
                } else {
                    proof {
                        assert(!covered(s, xv, yv, row as int, col as int));
                    }
                }
                col += 1;
            }
            proof {
                lemma_draw_row_end(s, xv, yv, row as int);
            }
            row += 1;
        }
        self.regs.set(15, if collision { 1 } else { 0 });
        self.draw_flag = lit;
    }

    /// The key-wait scan: write the highest pressed key's index to the
    /// register, or rewind the program counter so the instruction
    /// re-executes on the next step. Never blocks.
    #[verifier::loop_isolation(false)]
    fn get_key(&mut self, x: u8)
        requires
            wf(old(self)@),
            x < 16,
        ensures
            wf(final(self)@),
            key_wait_rel(old(self)@, final(self)@, x as int),
    {
        let mut found = false;
        let mut key: u8 = 0;
        let mut k: usize = 0;
        while k < 16
            invariant
                k <= 16,
                found == (highest_key(old(self)@.keys, k as int) >= 0),
                found ==> key as int == highest_key(old(self)@.keys, k as int),
            decreases 16 - k,
        {
            if self.keys[k] {
                found = true;
                key = k as u8;
            }
            k += 1;
        }
        if found {
            self.regs.set(x as usize, key);
        } else {
            self.pc = if self.pc >= 2 {
                self.pc - 2
            } else {
                self.pc + 4094
            };
        }
    }

    /// Store the register's hundreds, tens and ones digits at the index
    /// register and the two following addresses.
    fn bcd(&mut self, x: u8)
        requires
            wf(old(self)@),
            x < 16,
        ensures
            wf(final(self)@),
            final(self)@ == spec_bcd(old(self)@, x as int),
    {
        let v = self.regs[x as usize];
        let i0 = self.index as usize;
        let a1 = if i0 + 1 < 4096 {
            i0 + 1
        } else {
            i0 + 1 - 4096
        };
        let a2 = if i0 + 2 < 4096 {
            i0 + 2
        } else {
            i0 + 2 - 4096
        };
        self.memory.set(i0, v / 100);
        self.memory.set(a1, (v / 10) % 10);
        self.memory.set(a2, v % 10);
    }

    /// Dump registers 0..=x to memory at the index register, advancing it
    /// by x + 1; the advance is an observable side effect.
    #[verifier::loop_isolation(false)]
    fn reg_dump(&mut self, x: u8)
        requires
            wf(old(self)@),
            x < 16,
        ensures
            wf(final(self)@),
            final(self)@ == spec_reg_dump(old(self)@, x as int),
    {
        let base = self.index as usize;
        let mut j: usize = 0;
        while j <= x as usize
            invariant
                j <= x as usize + 1,
                self@.mem.len() == 4096,
                self@ == (State {
                    mem: dump_mem(old(self)@.mem, old(self)@.regs, old(self)@.index, j as int),
                    ..old(self)@
                }),
            decreases x as int + 1 - j,
        {
            let a = if base + j < 4096 {
                base + j
            } else {
                base + j - 4096
            };
            let v = self.regs[j];
            proof {
                lemma_dump_mem_len(old(self)@.mem, old(self)@.regs, old(self)@.index, j as int + 1);
            }
            self.memory.set(a, v);
            j += 1;
        }
        let t = base + x as usize + 1;
        self.index = if t < 4096 {
            t as u16
        } else {
            (t - 4096) as u16
        };
    }

    /// Fill registers 0..=x from memory at the index register, advancing it
    /// by x + 1; the advance is an observable side effect.
    #[verifier::loop_isolation(false)]
    fn reg_load(&mut self, x: u8)
        requires
            wf(old(self)@),
            x < 16,
        ensures
            wf(final(self)@),
            final(self)@ == spec_reg_load(old(self)@, x as int),
    {
        let base = self.index as usize;
        let mut j: usize = 0;
        while j <= x as usize
            invariant
                j <= x as usize + 1,
                self@.regs.len() == 16,
                self@ == (State {
                    regs: load_regs(old(self)@.regs, old(self)@.mem, old(self)@.index, j as int),
                    ..old(self)@
                }),
            decreases x as int + 1 - j,
        {
            let a = if base + j < 4096 {
                base + j
            } else {
                base + j - 4096
            };
            let v = self.memory[a];
            proof {
                lemma_load_regs_len(old(self)@.regs, old(self)@.mem, old(self)@.index, j as int + 1);
            }
            self.regs.set(j, v);
            j += 1;
        }
        let t = base + x as usize + 1;
        self.index = if t < 4096 {
            t as u16
        } else {
            (t - 4096) as u16
        };
    }

    /// Press one key of the 16-key input device.
    pub fn press_key(&mut self, key: usize)
        requires
            wf(old(self)@),
            key < 16,
        ensures
            wf(final(self)@),
            final(self)@ == (State { keys: old(self)@.keys.update(key as int, true), ..old(self)@ }),
    {
        self.keys.set(key, true);
    }

    /// Release one key of the 16-key input device.
    pub fn release_key(&mut self, key: usize)
        requires
            wf(old(self)@),
            key < 16,
        ensures
            wf(final(self)@),
            final(self)@ == (State { keys: old(self)@.keys.update(key as int, false), ..old(self)@ }),
    {
        self.keys.set(key, false);
    }

    /// Decrement each timer by at most one, floored at zero; intended to be
    /// called at 60 Hz independent of the instruction rate.
    pub fn decrease_timer(&mut self)
        requires
            wf(old(self)@),
        ensures
            wf(final(self)@),
            final(self)@ == spec_tick(old(self)@),
    {
        if self.delay_timer > 0 {
            self.delay_timer = self.delay_timer - 1;
        }
        if self.sound_timer > 0 {
            self.sound_timer = self.sound_timer - 1;
        }
    }

    /// Mark the framebuffer as needing a redraw.
    pub fn render(&mut self)
        requires
            wf(old(self)@),
        ensures
            wf(final(self)@),
            final(self)@ == (State { draw: true, ..old(self)@ }),
    {
        self.draw_flag = true;
    }

    /// Return and clear the redraw flag: whether the framebuffer gained a
    /// lit pixel since last consumed.
    pub fn consume_redraw_flag(&mut self) -> (r: bool)
        requires
            wf(old(self)@),
        ensures
            wf(final(self)@),
            r == old(self)@.draw,
            final(self)@ == (State { draw: false, ..old(self)@ }),
    {
        let r = self.draw_flag;
        self.draw_flag = false;
        r
    }

    /// A read-only view of the 64x32 framebuffer, row-major.
    pub fn framebuffer(&self) -> (v: &Vec<bool>)
        ensures
            v@ == self@.gfx,
    {
        &self.gfx
    }

    /// One general-purpose register.
    pub fn reg(&self, x: usize) -> (r: u8)
        requires
            wf(self@),
            x < 16,
        ensures
            r == self@.regs[x as int],
    {
        self.regs[x]
    }

    /// The program counter.
    pub fn pc(&self) -> (r: u16)
        ensures
            r == self@.pc,
    {
        self.pc
    }

    /// The index register.
    pub fn index_reg(&self) -> (r: u16)
        ensures
            r == self@.index,
    {
        self.index
    }

    /// The delay timer.
    pub fn delay_timer(&self) -> (r: u8)
        ensures
            r == self@.delay,
    {
        self.delay_timer
    }

    /// The sound timer.
    pub fn sound_timer(&self) -> (r: u8)
        ensures
            r == self@.sound,
    {
        self.sound_timer
    }

    /// How many call frames are active.
    pub fn stack_depth(&self) -> (r: usize)
        ensures
            r == self@.stack.len(),
    {
        self.stack.len()
    }

    /// One byte of memory.
    pub fn mem_byte(&self, addr: usize) -> (r: u8)
        requires
            wf(self@),
            addr < 4096,
        ensures
            r == self@.mem[addr as int],
    {
        self.memory[addr]
    }
}

} // verus!
