//! Properties that relate several instructions or many ticks, stated over the
//! transition model and proved from it.
use crate::display::{blank, cells_binary, collides, drawn, hits, turned_off, CELLS};
use crate::machine::{
    address, family, fetched_regs, lemma_decode, lemma_memory_offset, low_byte, low_nibble, reg_x, reg_y, step,
    sprite_rows, step_draw, stored, tick, valid, wrap_addr, ExecutionError, Machine, FLAG,
    MEMORY_SIZE, STACK_DEPTH,
};
use vstd::arithmetic::div_mod::{
    lemma_add_mod_noop, lemma_fundamental_div_mod_converse, lemma_mod_bound, lemma_mod_twice,
    lemma_small_mod,
};
use vstd::prelude::*;

verus! {

/// The instruction with family `f`, first register `x` and low byte `kk`.
pub open spec fn instruction(f: int, x: int, kk: int) -> u16 {
    (f * 4096 + x * 256 + kk) as u16
}

/// The fields of an instruction put together by `instruction`.
proof fn lemma_fields(f: int, x: int, kk: int)
    requires
        0 <= f < 16,
        0 <= x < 16,
        0 <= kk < 256,
    ensures
        ({
            let op = instruction(f, x, kk);
            &&& family(op) == f
            &&& reg_x(op) == x
            &&& reg_y(op) == kk / 16
            &&& low_nibble(op) == kk % 16
            &&& low_byte(op) == kk
            &&& address(op) == x * 256 + kk
        }),
{
    let op = f * 4096 + x * 256 + kk;
    lemma_fundamental_div_mod_converse(op, 4096, f, x * 256 + kk);
    lemma_fundamental_div_mod_converse(op, 256, f * 16 + x, kk);
    lemma_fundamental_div_mod_converse(f * 16 + x, 16, f, x);
    lemma_fundamental_div_mod_converse(kk, 16, kk / 16, kk % 16);
    lemma_fundamental_div_mod_converse(op, 16, f * 256 + x * 16 + kk / 16, kk % 16);
    lemma_fundamental_div_mod_converse(f * 256 + x * 16 + kk / 16, 16, f * 16 + x, kk / 16);
}

/// What an instruction of family 7 does.
proof fn lemma_step_add(m: Machine, op: u16, rnd: u32)
    requires
        family(op) == 7,
    ensures
        step(m, op, rnd) == Ok::<Machine, ExecutionError>(
            Machine {
                regs: m.regs.update(reg_x(op), ((m.regs[reg_x(op)] + low_byte(op)) % 256) as u8),
                pc: (m.pc + 2) as u16,
                ..m
            },
        ),
{
    reveal(step);
}

/// Adding `b` twice modulo 256 is adding `2b` modulo 256 once.
proof fn lemma_add_wraps(v: int, b: int)
    requires
        0 <= v < 256,
        0 <= b < 256,
    ensures
        ((v + b) % 256 + b) % 256 == (v + 2 * b) % 256,
        (v + (2 * b) % 256) % 256 == (v + 2 * b) % 256,
{
    lemma_add_mod_noop(v + b, b, 256);
    lemma_add_mod_noop(v, 2 * b, 256);
    lemma_small_mod(b as nat, 256);
    lemma_small_mod(v as nat, 256);
    lemma_mod_twice(v + b, 256);
    lemma_mod_twice(2 * b, 256);
}

/// Adding the byte `b` to register `r` twice leaves the registers as adding
/// `2b` modulo 256 once does; the flag register is not touched.
pub proof fn law_add_twice(m: Machine, r: int, b: u8, rnd1: u32, rnd2: u32, rnd3: u32)
    requires
        valid(m),
        0 <= r < 16,
    ensures
        ({
            let first = step(m, instruction(7, r, b as int), rnd1);
            let second = step(first->Ok_0, instruction(7, r, b as int), rnd2);
            let once = step(m, instruction(7, r, (2 * b) % 256), rnd3);
            &&& first is Ok
            &&& second is Ok
            &&& once is Ok
            &&& second->Ok_0.regs == once->Ok_0.regs
            &&& once->Ok_0.regs == m.regs.update(r, ((m.regs[r] + 2 * b) % 256) as u8)
        }),
{
    let op1 = instruction(7, r, b as int);
    let op2 = instruction(7, r, (2 * b) % 256);
    lemma_fields(7, r, b as int);
    lemma_fields(7, r, (2 * b) % 256);
    lemma_step_add(m, op1, rnd1);
    let first = step(m, op1, rnd1)->Ok_0;
    lemma_step_add(first, op1, rnd2);
    lemma_step_add(m, op2, rnd3);
    let second = step(first, op1, rnd2)->Ok_0;
    let once = step(m, op2, rnd3)->Ok_0;
    lemma_add_wraps(m.regs[r] as int, b as int);
    assert(second.regs =~= once.regs);
}

/// Clearing the screen leaves every cell off and requests a redraw; nothing
/// but the program counter changes besides.
pub proof fn law_clear(m: Machine, rnd: u32)
    ensures
        step(m, 0x00E0, rnd) == Ok::<Machine, ExecutionError>(
            Machine { gfx: blank(), redraw: true, pc: (m.pc + 2) as u16, ..m },
        ),
        forall|c: int| 0 <= c < CELLS ==> #[trigger] blank()[c] == 0,
        blank().len() == CELLS,
{
    reveal(step);
    assert(family(0x00E0) == 0);
}

/// What an instruction of family D does.
proof fn lemma_step_draw(m: Machine, op: u16, rnd: u32)
    requires
        family(op) == 0xD,
    ensures
        step(m, op, rnd) == Ok::<Machine, ExecutionError>(step_draw(m, op)),
{
    reveal(step);
}

/// XOR-ing a sprite onto the screen twice at the same place restores every
/// cell, and the second draw collides if the first turned some cell on.
pub proof fn law_sprite_twice(cells: Seq<u8>, x0: int, y0: int, sprite: Seq<u8>)
    requires
        cells_binary(cells),
    ensures
        drawn(drawn(cells, x0, y0, sprite), x0, y0, sprite) == cells,
        (exists|c: int|
            0 <= c < cells.len() && cells[c] == 0 && #[trigger] drawn(cells, x0, y0, sprite)[c] == 1)
            ==> collides(drawn(cells, x0, y0, sprite), x0, y0, sprite),
{
    let once = drawn(cells, x0, y0, sprite);
    assert(drawn(once, x0, y0, sprite) =~= cells);
    if exists|c: int| 0 <= c < cells.len() && cells[c] == 0 && #[trigger] once[c] == 1 {
        let c = choose|c: int| 0 <= c < cells.len() && cells[c] == 0 && #[trigger] once[c] == 1;
        assert(turned_off(once[c], hits(x0, y0, sprite, c, sprite.len() as int) as int));
    }
}

/// Running the same draw instruction twice restores the framebuffer, and
/// the second sets the flag register if the first turned some cell on. The
/// coordinate registers must not be the flag register, which the first draw
/// overwrites.
pub proof fn law_draw_twice(m: Machine, op: u16, rnd1: u32, rnd2: u32)
    requires
        valid(m),
        family(op) == 0xD,
        reg_x(op) != FLAG,
        reg_y(op) != FLAG,
    ensures
        ({
            let first = step(m, op, rnd1);
            let second = step(first->Ok_0, op, rnd2);
            &&& first is Ok
            &&& second is Ok
            &&& second->Ok_0.gfx == m.gfx
            &&& (exists|c: int| 0 <= c < CELLS && m.gfx[c] == 0 && #[trigger] first->Ok_0.gfx[c] == 1)
                ==> second->Ok_0.regs[FLAG as int] == 1
        }),
{
    lemma_decode(op);
    lemma_step_draw(m, op, rnd1);
    let first = step(m, op, rnd1)->Ok_0;
    lemma_step_draw(first, op, rnd2);
    let x0 = m.regs[reg_x(op)] as int % 64;
    let y0 = m.regs[reg_y(op)] as int % 32;
    let sprite = sprite_rows(m.memory, m.index, low_nibble(op));
    assert(first.regs[reg_x(op)] == m.regs[reg_x(op)]);
    assert(first.regs[reg_y(op)] == m.regs[reg_y(op)]);
    law_sprite_twice(m.gfx, x0, y0, sprite);
}

/// What an instruction of family 2, and the return instruction, do.
proof fn lemma_step_call_return(m: Machine, op: u16, rnd: u32)
    ensures
        family(op) == 2 && m.sp < STACK_DEPTH ==> step(m, op, rnd) == Ok::<Machine, ExecutionError>(
            Machine {
                stack: m.stack.update(m.sp as int, m.pc),
                sp: (m.sp + 1) as u16,
                pc: address(op),
                ..m
            },
        ),
        op == 0x00EE && m.sp > 0 ==> step(m, op, rnd) == Ok::<Machine, ExecutionError>(
            Machine { sp: (m.sp - 1) as u16, pc: (m.stack[m.sp - 1] + 2) as u16, ..m },
        ),
{
    reveal(step);
    assert(family(0x00EE) == 0);
}

/// A call followed by a return resumes at the instruction after the call,
/// with the stack as deep as before. A full stack refuses the call.
pub proof fn law_call_return(m: Machine, target: u16, rnd1: u32, rnd2: u32)
    requires
        valid(m),
        m.sp < STACK_DEPTH,
        target < MEMORY_SIZE,
    ensures
        ({
            let call = step(m, (0x2000 + target) as u16, rnd1);
            let ret = step(call->Ok_0, 0x00EE, rnd2);
            &&& call is Ok
            &&& call->Ok_0.pc == target
            &&& ret is Ok
            &&& ret->Ok_0.pc == (m.pc + 2) as u16
            &&& ret->Ok_0.sp == m.sp
            &&& ret->Ok_0 == (Machine { pc: (m.pc + 2) as u16, stack: call->Ok_0.stack, ..m })
        }),
{
    let op = (0x2000 + target) as u16;
    lemma_fields(2, target as int / 256, target as int % 256);
    assert(op == instruction(2, target as int / 256, target as int % 256));
    lemma_step_call_return(m, op, rnd1);
    let call = step(m, op, rnd1)->Ok_0;
    lemma_step_call_return(call, 0x00EE, rnd2);
}

/// What the block store and load instructions do.
proof fn lemma_step_store_load(m: Machine, op: u16, rnd: u32)
    requires
        family(op) == 0xF,
    ensures
        low_byte(op) == 0x55 ==> step(m, op, rnd) == Ok::<Machine, ExecutionError>(
            Machine {
                memory: stored(m.memory, m.regs, m.index, reg_x(op) + 1),
                index: ((m.index + reg_x(op) + 1) % 65536) as u16,
                pc: (m.pc + 2) as u16,
                ..m
            },
        ),
        low_byte(op) == 0x65 ==> step(m, op, rnd) == Ok::<Machine, ExecutionError>(
            Machine {
                regs: fetched_regs(m.memory, m.regs, m.index, reg_x(op) + 1),
                index: ((m.index + reg_x(op) + 1) % 65536) as u16,
                pc: (m.pc + 2) as u16,
                ..m
            },
        ),
{
    reveal(step);
}

/// Storing registers 0 to `x` and loading them back from the same index
/// restores them, whatever the registers held in between: `later` is any
/// state with the memory the store left and the index it started from.
pub proof fn law_store_load(m: Machine, x: int, later: Machine, rnd1: u32, rnd2: u32)
    requires
        valid(m),
        valid(later),
        0 <= x < 16,
        later.memory == step(m, instruction(0xF, x, 0x55), rnd1)->Ok_0.memory,
        later.index == m.index,
    ensures
        ({
            let store = step(m, instruction(0xF, x, 0x55), rnd1);
            let load = step(later, instruction(0xF, x, 0x65), rnd2);
            &&& store is Ok
            &&& load is Ok
            &&& load->Ok_0.regs.subrange(0, x + 1) == m.regs.subrange(0, x + 1)
        }),
{
    lemma_fields(0xF, x, 0x55);
    lemma_fields(0xF, x, 0x65);
    lemma_step_store_load(m, instruction(0xF, x, 0x55), rnd1);
    lemma_step_store_load(later, instruction(0xF, x, 0x65), rnd2);
    let load = step(later, instruction(0xF, x, 0x65), rnd2)->Ok_0;
    assert forall|i: int| 0 <= i <= x implies #[trigger] load.regs[i] == m.regs[i] by {
        let a = wrap_addr(m.index as int, i);
        lemma_mod_bound(m.index + i, MEMORY_SIZE as int);
        lemma_memory_offset(a, m.index as int, i);
    }
    assert(load.regs.subrange(0, x + 1) =~= m.regs.subrange(0, x + 1));
}

/// The state after `n` timer ticks.
pub open spec fn ticks(m: Machine, n: nat) -> Machine
    decreases n,
{
    if n == 0 {
        m
    } else {
        tick(ticks(m, (n - 1) as nat))
    }
}

/// After any number of ticks each timer has counted down by that number,
/// stopping at zero: it never goes below.
pub proof fn law_timers_stop_at_zero(m: Machine, n: nat)
    ensures
        ticks(m, n).delay == if m.delay >= n { m.delay - n } else { 0 },
        ticks(m, n).sound == if m.sound >= n { m.sound - n } else { 0 },
    decreases n,
{
    if n > 0 {
        law_timers_stop_at_zero(m, (n - 1) as nat);
    }
}

} // verus!
