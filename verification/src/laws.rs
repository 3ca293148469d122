//! Laws relating several machine operations, proved from the relations
//! in `semantics` alone.

use vstd::prelude::*;

use crate::opcodes::Opcode;
use crate::semantics::Chip8Error;
use crate::semantics::State;
use crate::semantics::cell;
use crate::semantics::covered;
use crate::semantics::covers;
use crate::semantics::covers_before;
use crate::semantics::draw_rel;
use crate::semantics::dump_mem;
use crate::semantics::hits;
use crate::semantics::hits_before;
use crate::semantics::lights;
use crate::semantics::lights_before;
use crate::semantics::load_regs;
use crate::semantics::next_pc;
use crate::semantics::spec_reg_dump;
use crate::semantics::spec_reg_load;
use crate::semantics::spec_tick;
use crate::semantics::step_rel;
use crate::semantics::cycle_rel;
use crate::semantics::wf;
use crate::semantics::with_pc;
use crate::semantics::word_at;
use crate::semantics::wrap_addr;

verus! {

/// Sprite coverage depends only on memory and the index register, so two
/// states agreeing on those cover the same cells.
proof fn lemma_covers_same(s: State, t: State, xv: int, yv: int, h: int)
    requires
        t.mem == s.mem,
        t.index == s.index,
    ensures
        forall|p: int| #[trigger] covers(t, xv, yv, h, p) == covers(s, xv, yv, h, p),
{
    assert forall|p: int| #[trigger] covers(t, xv, yv, h, p) == covers(s, xv, yv, h, p) by {
        if covers_before(t, xv, yv, h, 0, p) {
            let (r, c) = choose|r: int, c: int|
                0 <= r && 0 <= c < 8 && (r < h || (r == h && c < 0))
                    && #[trigger] covered(t, xv, yv, r, c) && p == cell(xv, yv, r, c);
            assert(covered(s, xv, yv, r, c));
            assert(covers_before(s, xv, yv, h, 0, p));
        }
        if covers_before(s, xv, yv, h, 0, p) {
            let (r, c) = choose|r: int, c: int|
                0 <= r && 0 <= c < 8 && (r < h || (r == h && c < 0))
                    && #[trigger] covered(s, xv, yv, r, c) && p == cell(xv, yv, r, c);
            assert(covered(t, xv, yv, r, c));
            assert(covers_before(t, xv, yv, h, 0, p));
        }
    }
}

/// Drawing the identical sprite twice at the same coordinates returns the
/// framebuffer to its pre-draw state (toggling is an involution), and the
/// second draw reports a collision exactly when the first draw lit a pixel.
/// The coordinate registers must not be the flag register, which the first
/// draw overwrites.
pub proof fn lemma_draw_idempotent(s: State, t: State, u: State, rx: int, ry: int, h: int)
    requires
        wf(s),
        0 <= rx < 16,
        0 <= ry < 16,
        rx != 15,
        ry != 15,
        draw_rel(s, t, rx, ry, h),
        draw_rel(t, u, rx, ry, h),
    ensures
        u.gfx == s.gfx,
        (u.regs[15] == 1) <==> t.draw,
{
    let xv = s.regs[rx] as int;
    let yv = s.regs[ry] as int;
    assert(t.regs[rx] == s.regs[rx]);
    assert(t.regs[ry] == s.regs[ry]);
    lemma_covers_same(s, t, xv, yv, h);
    assert forall|p: int| 0 <= p < 2048 implies #[trigger] u.gfx[p] == s.gfx[p] by {
        assert(t.gfx[p] == (s.gfx[p] != covers(s, xv, yv, h, p)));
        assert(u.gfx[p] == (t.gfx[p] != covers(t, xv, yv, h, p)));
    }
    assert(u.gfx =~= s.gfx);
    assert(hits(t, xv, yv, h) <==> lights(s, xv, yv, h)) by {
        if hits_before(t, xv, yv, h, 0) {
            let p = choose|p: int|
                0 <= p < 2048 && #[trigger] covers_before(t, xv, yv, h, 0, p) && t.gfx[p];
            assert(covers(s, xv, yv, h, p));
            assert(!s.gfx[p]);
            assert(lights_before(s, xv, yv, h, 0));
        }
        if lights_before(s, xv, yv, h, 0) {
            let p = choose|p: int|
                0 <= p < 2048 && #[trigger] covers_before(s, xv, yv, h, 0, p) && !s.gfx[p];
            assert(covers(t, xv, yv, h, p));
            assert(t.gfx[p]);
            assert(hits_before(t, xv, yv, h, 0));
        }
    }
}

/// A skip instruction advances the program counter by 4 in all from the
/// instruction's own address when its condition holds, by 2 when it does
/// not: the unconditional fetch advance plus the conditional skip.
pub proof fn lemma_skip_eq_pc(s: State, t: State, r: Result<(), Chip8Error>, x: u8, nn: u8)
    requires
        wf(s),
        s.pc + 4 < 4096,
        Opcode::spec_decode(word_at(s)) == Some(Opcode::SkipEq(x, nn)),
        cycle_rel(s, t, r),
    ensures
        r is Ok,
        s.regs[x as int] == nn ==> t.pc == s.pc + 4,
        s.regs[x as int] != nn ==> t.pc == s.pc + 2,
{
    let fetched = with_pc(s, next_pc(s.pc));
    assert(step_rel(Opcode::SkipEq(x, nn), fetched, t, r));
}

/// A call followed by a return restores the program counter to the address
/// immediately after the call, and the stack to its pre-call frames. The
/// return may come from any machine state whose stack is the one the call
/// left behind.
pub proof fn lemma_call_return_round_trip(
    s: State,
    t: State,
    mid: State,
    u: State,
    addr: u16,
    r1: Result<(), Chip8Error>,
    r2: Result<(), Chip8Error>,
)
    requires
        wf(s),
        s.stack.len() < 16,
        step_rel(Opcode::Call(addr), s, t, r1),
        mid.stack == t.stack,
        step_rel(Opcode::Ret, mid, u, r2),
    ensures
        r1 is Ok,
        r2 is Ok,
        u.pc == s.pc,
        u.stack == s.stack,
{
    assert(t.stack == s.stack.push(s.pc as u16));
    assert(mid.stack.len() == s.stack.len() + 1);
    assert(u.pc == mid.stack.last() as int);
    assert(u.stack =~= s.stack);
}

/// Reading back what a dump wrote: position j of the dumped block holds
/// register j.
proof fn lemma_dump_mem_reads(mem: Seq<u8>, regs: Seq<u8>, i: int, n: int, j: int)
    requires
        mem.len() == 4096,
        regs.len() == 16,
        0 <= i < 4096,
        n <= 16,
        0 <= j < n,
    ensures
        dump_mem(mem, regs, i, n)[wrap_addr(i + j)] == regs[j],
    decreases n,
{
    crate::semantics::lemma_dump_mem_len(mem, regs, i, n - 1);
    if j < n - 1 {
        lemma_dump_mem_reads(mem, regs, i, n - 1, j);
        assert(wrap_addr(i + j) != wrap_addr(i + (n - 1)));
    }
}

/// What a load leaves in each register: the dumped block below n, the old
/// value at and above n.
proof fn lemma_load_regs_at(regs: Seq<u8>, mem: Seq<u8>, i: int, n: int, k: int)
    requires
        regs.len() == 16,
        n <= 16,
        0 <= k < 16,
    ensures
        load_regs(regs, mem, i, n)[k] == if 0 <= k < n {
            mem[wrap_addr(i + k)]
        } else {
            regs[k]
        },
    decreases n,
{
    crate::semantics::lemma_load_regs_len(regs, mem, i, n - 1);
    if n > 0 {
        lemma_load_regs_at(regs, mem, i, n - 1, k);
    }
}

/// Dumping registers 0..=x at an address and then loading registers 0..=x
/// from the same address reproduces the original register values, and each
/// of the two operations advances the index register by x + 1.
pub proof fn lemma_dump_load_round_trip(s: State, t: State, mid: State, u: State, x: int)
    requires
        wf(s),
        0 <= x < 16,
        t == spec_reg_dump(s, x),
        mid == (State { index: s.index, ..t }),
        u == spec_reg_load(mid, x),
    ensures
        u.regs == s.regs,
        t.index == wrap_addr(s.index + x + 1),
        u.index == wrap_addr(s.index + x + 1),
{
    assert forall|k: int| 0 <= k < 16 implies #[trigger] u.regs[k] == s.regs[k] by {
        lemma_load_regs_at(mid.regs, mid.mem, s.index, x + 1, k);
        if k < x + 1 {
            lemma_dump_mem_reads(s.mem, s.regs, s.index, x + 1, k);
        }
    }
    crate::semantics::lemma_load_regs_len(mid.regs, mid.mem, s.index, x + 1);
    assert(u.regs =~= s.regs);
}

/// Timer floor: however often the tick is applied, neither countdown
/// timer moves below zero; a timer at zero stays at zero, a running timer
/// loses exactly one.
pub proof fn lemma_timer_floor(s: State)
    ensures
        spec_tick(s).delay >= 0,
        spec_tick(s).sound >= 0,
        s.delay == 0 ==> spec_tick(s).delay == 0,
        s.sound == 0 ==> spec_tick(s).sound == 0,
        s.delay > 0 ==> spec_tick(s).delay == s.delay - 1,
        s.sound > 0 ==> spec_tick(s).sound == s.sound - 1,
{
}

/// Stack discipline: a call fails exactly when all 16 frames are in use
/// (so a seventeenth nested call overflows), a return fails exactly when
/// no frame is active, and the failing step leaves the machine untouched.
pub proof fn lemma_stack_conditions(s: State, t: State, addr: u16, r: Result<(), Chip8Error>)
    requires
        wf(s),
    ensures
        step_rel(Opcode::Call(addr), s, t, r) ==> ((r == Err::<(), Chip8Error>(
            Chip8Error::StackOverflow,
        )) <==> s.stack.len() == 16),
        step_rel(Opcode::Call(addr), s, t, r) && s.stack.len() == 16 ==> t == s,
        step_rel(Opcode::Ret, s, t, r) ==> ((r == Err::<(), Chip8Error>(Chip8Error::StackUnderflow))
            <==> s.stack.len() == 0),
        step_rel(Opcode::Ret, s, t, r) && s.stack.len() == 0 ==> t == s,
{
}

} // verus!

