//! The state of the machine as a value, and the transition that one
//! instruction makes on it.
use crate::display::{blank, cells_binary, collides, drawn, CELLS, HEIGHT, WIDTH};
use vstd::arithmetic::div_mod::{lemma_fundamental_div_mod, lemma_fundamental_div_mod_converse};
use vstd::prelude::*;

verus! {

/// Bytes of addressable memory.
pub const MEMORY_SIZE: usize = 4096;

/// Where a program image is loaded, and where execution starts.
pub const PROGRAM_START: u16 = 0x200;

/// Bytes available to a program image.
pub const MAX_ROM_SIZE: usize = 3584;

/// Number of general-purpose registers.
pub const REGISTER_COUNT: usize = 16;

/// The register that arithmetic, shift and draw instructions use as a flag.
pub const FLAG: usize = 0xF;

/// Return addresses the call stack can hold.
pub const STACK_DEPTH: u16 = 16;

/// Number of logical keys.
pub const KEY_COUNT: usize = 16;

/// Bytes of one glyph in the built-in glyph table.
pub const GLYPH_SIZE: u16 = 5;

/// Why an instruction cycle failed.
#[derive(Debug, Clone, Copy, PartialEq, Eq, Structural)]
pub enum ExecutionError {
    /// The program counter was odd or past the end of memory before the fetch.
    InvalidProgramCounter(u16),
    /// The fetched instruction belongs to no known family or sub-mode.
    UnimplementedOpcode(u16),
    /// A call found the stack full.
    StackOverflow,
    /// A return found the stack empty.
    StackUnderflow,
}

/// Why a program image could not be loaded.
#[derive(Debug, Clone, Copy, PartialEq, Eq, Structural)]
pub enum RomError {
    /// The image could not be read from its source.
    LoadFailed,
    /// The image does not fit between the program start and the end of memory.
    TooLarge,
}

/// The whole machine as a value.
#[verifier::ext_equal]
pub struct Machine {
    pub memory: Seq<u8>,
    pub regs: Seq<u8>,
    pub index: u16,
    pub pc: u16,
    pub stack: Seq<u16>,
    pub sp: u16,
    pub delay: u8,
    pub sound: u8,
    pub keys: Seq<bool>,
    pub gfx: Seq<u8>,
    pub redraw: bool,
    pub loaded: bool,
    pub beep: bool,
    pub cycles_per_frame: u32,
}

/// The shape every reachable state has.
pub open spec fn valid(m: Machine) -> bool {
    &&& m.memory.len() == MEMORY_SIZE
    &&& m.regs.len() == REGISTER_COUNT
    &&& m.stack.len() == STACK_DEPTH
    &&& m.sp <= STACK_DEPTH
    &&& forall|i: int| 0 <= i < m.sp ==> #[trigger] m.stack[i] < MEMORY_SIZE
    &&& m.keys.len() == KEY_COUNT
    &&& m.gfx.len() == CELLS
    &&& cells_binary(m.gfx)
}

/// The built-in glyphs for the hexadecimal digits 0 to F, five rows each.
pub open spec fn glyphs() -> Seq<u8> {
    seq![
        0xF0u8, 0x90, 0x90, 0x90, 0xF0, 0x20, 0x60, 0x20, 0x20, 0x70, 0xF0, 0x10, 0xF0, 0x80, 0xF0,
        0xF0, 0x10, 0xF0, 0x10, 0xF0, 0x90, 0x90, 0xF0, 0x10, 0x10, 0xF0, 0x80, 0xF0, 0x10, 0xF0,
        0xF0, 0x80, 0xF0, 0x90, 0xF0, 0xF0, 0x10, 0x20, 0x40, 0x40, 0xF0, 0x90, 0xF0, 0x90, 0xF0,
        0xF0, 0x90, 0xF0, 0x10, 0xF0, 0xF0, 0x90, 0xF0, 0x90, 0x90, 0xE0, 0x90, 0xE0, 0x90, 0xE0,
        0xF0, 0x80, 0x80, 0x80, 0xF0, 0xE0, 0x90, 0x90, 0x90, 0xE0, 0xF0, 0x80, 0xF0, 0x80, 0xF0,
        0xF0, 0x80, 0xF0, 0x80, 0x80,
    ]
}

/// A machine just built: glyphs in low memory, everything else zero, no
/// program loaded, execution to start at the program start.
pub open spec fn initial(cycles_per_frame: u32) -> Machine {
    Machine {
        memory: Seq::new(
            MEMORY_SIZE as nat,
            |a: int|
                if a < glyphs().len() {
                    glyphs()[a]
                } else {
                    0u8
                },
        ),
        regs: Seq::new(REGISTER_COUNT as nat, |i: int| 0u8),
        index: 0,
        pc: PROGRAM_START,
        stack: Seq::new(STACK_DEPTH as nat, |i: int| 0u16),
        sp: 0,
        delay: 0,
        sound: 0,
        keys: Seq::new(KEY_COUNT as nat, |i: int| false),
        gfx: blank(),
        redraw: false,
        loaded: false,
        beep: false,
        cycles_per_frame,
    }
}

/// Memory with `rom` written from the program start on.
pub open spec fn with_rom(memory: Seq<u8>, rom: Seq<u8>) -> Seq<u8> {
    Seq::new(
        memory.len(),
        |a: int|
            if PROGRAM_START <= a < PROGRAM_START + rom.len() {
                rom[a - PROGRAM_START]
            } else {
                memory[a]
            },
    )
}

/// The instruction family: the top four bits.
pub open spec fn family(op: u16) -> int {
    op as int / 4096
}

/// The first register operand: bits 8 to 11.
pub open spec fn reg_x(op: u16) -> int {
    (op as int / 256) % 16
}

/// The second register operand: bits 4 to 7.
pub open spec fn reg_y(op: u16) -> int {
    (op as int / 16) % 16
}

/// The low four bits.
pub open spec fn low_nibble(op: u16) -> int {
    op as int % 16
}

/// The low byte, an immediate operand.
pub open spec fn low_byte(op: u16) -> u8 {
    (op as int % 256) as u8
}

/// The low twelve bits, an address operand.
pub open spec fn address(op: u16) -> u16 {
    (op as int % 4096) as u16
}

/// The address `offset` bytes past `base`, wrapping at the end of memory.
pub open spec fn wrap_addr(base: int, offset: int) -> int {
    (base + offset) % (MEMORY_SIZE as int)
}

/// A program counter from which an instruction can be fetched.
pub open spec fn pc_valid(pc: u16) -> bool {
    pc < MEMORY_SIZE && pc % 2 == 0
}

/// The big-endian instruction at the program counter.
pub open spec fn fetch(m: Machine) -> u16 {
    (m.memory[m.pc as int] as int * 256 + m.memory[m.pc + 1] as int) as u16
}

/// Whether `mode` selects one of the register-register operations.
pub open spec fn alu_known(mode: int) -> bool {
    0 <= mode <= 7 || mode == 0xE
}

/// What a register-register operation writes to its first operand.
pub open spec fn alu_value(mode: int, vx: u8, vy: u8) -> u8 {
    if mode == 0 {
        vy
    } else if mode == 1 {
        vx | vy
    } else if mode == 2 {
        vx & vy
    } else if mode == 3 {
        vx ^ vy
    } else if mode == 4 {
        ((vx + vy) % 256) as u8
    } else if mode == 5 {
        ((vx - vy) % 256) as u8
    } else if mode == 6 {
        vy >> 1u8
    } else if mode == 7 {
        ((vy - vx) % 256) as u8
    } else {
        vy << 1u8
    }
}

/// What a register-register operation writes to the flag register, if anything:
/// 0 after the bitwise operations, the carry of an addition, the absence of a
/// borrow of a subtraction, and the bit that a shift moves out.
pub open spec fn alu_flag(mode: int, vx: u8, vy: u8) -> Option<u8> {
    if mode == 0 {
        None
    } else if mode == 1 || mode == 2 || mode == 3 {
        Some(0u8)
    } else if mode == 4 {
        Some(if vx + vy > 255 { 1u8 } else { 0u8 })
    } else if mode == 5 {
        Some(if vx >= vy { 1u8 } else { 0u8 })
    } else if mode == 6 {
        Some(vy & 1u8)
    } else if mode == 7 {
        Some(if vy >= vx { 1u8 } else { 0u8 })
    } else {
        Some(vy >> 7u8)
    }
}

/// The registers after a register-register operation.
pub open spec fn alu_regs(regs: Seq<u8>, op: u16) -> Seq<u8> {
    let mode = low_nibble(op);
    let x = reg_x(op);
    let set = regs.update(x, alu_value(mode, regs[x], regs[reg_y(op)]));
    match alu_flag(mode, regs[x], regs[reg_y(op)]) {
        Some(f) => set.update(FLAG as int, f),
        None => set,
    }
}

/// The `rows` bytes of a sprite stored from `index` on.
pub open spec fn sprite_rows(memory: Seq<u8>, index: u16, rows: int) -> Seq<u8> {
    Seq::new(rows as nat, |i: int| memory[wrap_addr(index as int, i)])
}

/// Memory after registers 0 up to `count - 1` are stored from `index` on.
pub open spec fn stored(memory: Seq<u8>, regs: Seq<u8>, index: u16, count: int) -> Seq<u8> {
    Seq::new(
        memory.len(),
        |a: int|
            {
                let offset = (a - index) % (MEMORY_SIZE as int);
                if offset < count {
                    regs[offset]
                } else {
                    memory[a]
                }
            },
    )
}

/// Registers after 0 up to `count - 1` are read from memory at `index` on.
pub open spec fn fetched_regs(memory: Seq<u8>, regs: Seq<u8>, index: u16, count: int) -> Seq<u8> {
    Seq::new(
        regs.len(),
        |i: int|
            if i < count {
                memory[wrap_addr(index as int, i)]
            } else {
                regs[i]
            },
    )
}

/// The lowest-numbered key at or after `from` that is down.
pub open spec fn first_pressed(keys: Seq<bool>, from: int) -> Option<int>
    decreases keys.len() - from,
{
    if from < 0 || from >= keys.len() {
        None
    } else if keys[from] {
        Some(from)
    } else {
        first_pressed(keys, from + 1)
    }
}

/// Memory after the decimal digits of `v` are stored at `index` and the two
/// addresses after it.
pub open spec fn with_bcd(memory: Seq<u8>, index: u16, v: u8) -> Seq<u8> {
    memory.update(wrap_addr(index as int, 0), v / 100).update(
        wrap_addr(index as int, 1),
        (v / 10) % 10,
    ).update(wrap_addr(index as int, 2), v % 10)
}

/// The instructions of family 0: clear the screen, return from a call.
pub open spec fn step_system(m: Machine, op: u16) -> Result<Machine, ExecutionError> {
    if op == 0x00E0 {
        Ok(Machine { gfx: blank(), redraw: true, pc: (m.pc + 2) as u16, ..m })
    } else if op == 0x00EE {
        if m.sp == 0 {
            Err(ExecutionError::StackUnderflow)
        } else {
            Ok(
                Machine {
                    sp: (m.sp - 1) as u16,
                    pc: (m.stack[m.sp - 1] + 2) as u16,
                    ..m
                },
            )
        }
    } else {
        Err(ExecutionError::UnimplementedOpcode(op))
    }
}

/// Family 8: the register-register operations.
pub open spec fn step_alu(m: Machine, op: u16) -> Result<Machine, ExecutionError> {
    if alu_known(low_nibble(op)) {
        Ok(Machine { regs: alu_regs(m.regs, op), pc: (m.pc + 2) as u16, ..m })
    } else {
        Err(ExecutionError::UnimplementedOpcode(op))
    }
}

/// The sprite draw: XOR the sprite of `n` rows at the index register onto the
/// screen at the coordinates in registers x and y; the flag register tells
/// whether a cell that was on turned off.
pub open spec fn step_draw(m: Machine, op: u16) -> Machine {
    let x0 = m.regs[reg_x(op)] as int % (WIDTH as int);
    let y0 = m.regs[reg_y(op)] as int % (HEIGHT as int);
    let sprite = sprite_rows(m.memory, m.index, low_nibble(op));
    Machine {
        gfx: drawn(m.gfx, x0, y0, sprite),
        regs: m.regs.update(
            FLAG as int,
            if collides(m.gfx, x0, y0, sprite) {
                1u8
            } else {
                0u8
            },
        ),
        redraw: true,
        pc: (m.pc + 2) as u16,
        ..m
    }
}

/// The key skips: skip the next instruction if the key numbered by the low
/// four bits of register x is down (`9E`) or up (`A1`).
pub open spec fn step_key_skip(m: Machine, op: u16) -> Result<Machine, ExecutionError> {
    let down = m.keys[m.regs[reg_x(op)] as int % 16];
    if low_byte(op) == 0x9E {
        Ok(Machine { pc: (if down { m.pc + 4 } else { m.pc + 2 }) as u16, ..m })
    } else if low_byte(op) == 0xA1 {
        Ok(Machine { pc: (if down { m.pc + 2 } else { m.pc + 4 }) as u16, ..m })
    } else {
        Err(ExecutionError::UnimplementedOpcode(op))
    }
}

/// The instructions of family F, selected by the low byte.
pub open spec fn step_misc(m: Machine, op: u16) -> Result<Machine, ExecutionError> {
    let x = reg_x(op);
    let vx = m.regs[x];
    let next = (m.pc + 2) as u16;
    let mode = low_byte(op);
    if mode == 0x07 {
        Ok(Machine { regs: m.regs.update(x, m.delay), pc: next, ..m })
    } else if mode == 0x0A {
        match first_pressed(m.keys, 0) {
            Some(k) => Ok(Machine { regs: m.regs.update(x, k as u8), pc: next, ..m }),
            None => Ok(m),
        }
    } else if mode == 0x15 {
        Ok(Machine { delay: vx, pc: next, ..m })
    } else if mode == 0x18 {
        Ok(Machine { sound: vx, pc: next, ..m })
    } else if mode == 0x1E {
        Ok(Machine { index: ((m.index + vx) % 65536) as u16, pc: next, ..m })
    } else if mode == 0x29 {
        Ok(
            Machine {
                index: if vx < 16 {
                    (vx * GLYPH_SIZE) as u16
                } else {
                    m.index
                },
                pc: next,
                ..m
            },
        )
    } else if mode == 0x33 {
        Ok(Machine { memory: with_bcd(m.memory, m.index, vx), pc: next, ..m })
    } else if mode == 0x55 {
        Ok(
            Machine {
                memory: stored(m.memory, m.regs, m.index, x + 1),
                index: ((m.index + x + 1) % 65536) as u16,
                pc: next,
                ..m
            },
        )
    } else if mode == 0x65 {
        Ok(
            Machine {
                regs: fetched_regs(m.memory, m.regs, m.index, x + 1),
                index: ((m.index + x + 1) % 65536) as u16,
                pc: next,
                ..m
            },
        )
    } else {
        Err(ExecutionError::UnimplementedOpcode(op))
    }
}

/// The transition that instruction `op` makes on `m`, with `rnd` as the value
/// drawn from the random source (used by family C only).
#[verifier::opaque]
pub open spec fn step(m: Machine, op: u16, rnd: u32) -> Result<Machine, ExecutionError> {
    let x = reg_x(op);
    let vx = m.regs[x];
    let vy = m.regs[reg_y(op)];
    let kk = low_byte(op);
    let next = (m.pc + 2) as u16;
    let skip = (m.pc + 4) as u16;
    let f = family(op);
    if f == 0x0 {
        step_system(m, op)
    } else if f == 0x1 {
        Ok(Machine { pc: address(op), ..m })
    } else if f == 0x2 {
        if m.sp >= STACK_DEPTH {
            Err(ExecutionError::StackOverflow)
        } else {
            Ok(
                Machine {
                    stack: m.stack.update(m.sp as int, m.pc),
                    sp: (m.sp + 1) as u16,
                    pc: address(op),
                    ..m
                },
            )
        }
    } else if f == 0x3 {
        Ok(Machine { pc: if vx == kk { skip } else { next }, ..m })
    } else if f == 0x4 {
        Ok(Machine { pc: if vx != kk { skip } else { next }, ..m })
    } else if f == 0x5 {
        Ok(Machine { pc: if vx == vy { skip } else { next }, ..m })
    } else if f == 0x6 {
        Ok(Machine { regs: m.regs.update(x, kk), pc: next, ..m })
    } else if f == 0x7 {
        Ok(Machine { regs: m.regs.update(x, ((vx + kk) % 256) as u8), pc: next, ..m })
    } else if f == 0x8 {
        step_alu(m, op)
    } else if f == 0x9 {
        Ok(Machine { pc: if vx != vy { skip } else { next }, ..m })
    } else if f == 0xA {
        Ok(Machine { index: address(op), pc: next, ..m })
    } else if f == 0xB {
        Ok(Machine { pc: (address(op) + m.regs[0]) as u16, ..m })
    } else if f == 0xC {
        Ok(Machine { regs: m.regs.update(x, (rnd as u8) & kk), pc: next, ..m })
    } else if f == 0xD {
        Ok(step_draw(m, op))
    } else if f == 0xE {
        step_key_skip(m, op)
    } else {
        step_misc(m, op)
    }
}

/// One instruction cycle: nothing while no program is loaded; otherwise a
/// program counter that cannot be fetched from is an error, and else the
/// fetched instruction runs, with the redraw request of the previous cycle
/// withdrawn.
pub open spec fn cycle_step(m: Machine, rnd: u32) -> Result<Machine, ExecutionError> {
    if !m.loaded {
        Ok(m)
    } else if !pc_valid(m.pc) {
        Err(ExecutionError::InvalidProgramCounter(m.pc))
    } else {
        step(Machine { redraw: false, ..m }, fetch(m), rnd)
    }
}

/// Whether the cycle from `m` runs an instruction of family C, the one
/// instruction that reads the random source.
pub open spec fn uses_random(m: Machine) -> bool {
    m.loaded && pc_valid(m.pc) && family(fetch(m)) == 0xC
}

/// The state and result after running one cycle for each value of `rnds`, in
/// order, each drawing that value from the random source. The result tells
/// whether any cycle requested a redraw; the first error stops the run and
/// is the result, with the state it left.
pub open spec fn run_cycles(m: Machine, rnds: Seq<u32>) -> (Machine, Result<bool, ExecutionError>)
    decreases rnds.len(),
{
    if rnds.len() == 0 {
        (m, Ok(false))
    } else {
        let (prev, r) = run_cycles(m, rnds.drop_last());
        match r {
            Err(e) => (prev, Err(e)),
            Ok(drew) => match cycle_step(prev, rnds.last()) {
                Ok(next) => (next, Ok(drew || next.redraw)),
                Err(e) => (prev, Err(e)),
            },
        }
    }
}

/// `after` and the result `r` are what `expected` says, from `before`: its
/// state on success, and on an error that error with nothing changed.
pub open spec fn outcome(
    before: Machine,
    after: Machine,
    r: Result<(), ExecutionError>,
    expected: Result<Machine, ExecutionError>,
) -> bool {
    match expected {
        Ok(m) => r is Ok && after == m,
        Err(e) => r == Err::<(), ExecutionError>(e) && after == before,
    }
}

/// The fields of an instruction, as the shifts and masks that take them out.
pub proof fn lemma_decode(op: u16)
    ensures
        (op >> 12u16) as int == family(op),
        0 <= family(op) < 16,
        ((op >> 8u16) & 0xFu16) as int == reg_x(op),
        ((op >> 4u16) & 0xFu16) as int == reg_y(op),
        (op & 0xFu16) as int == low_nibble(op),
        (op & 0xFFu16) as int == low_byte(op) as int,
        (op & 0xFFFu16) == address(op),
        0 <= reg_x(op) < 16,
        0 <= reg_y(op) < 16,
        address(op) < MEMORY_SIZE,
{
    assert(op >> 12u16 == op / 4096u16) by (bit_vector);
    assert((op >> 8u16) & 0xFu16 == (op / 256u16) % 16u16) by (bit_vector);
    assert((op >> 4u16) & 0xFu16 == (op / 16u16) % 16u16) by (bit_vector);
    assert(op & 0xFu16 == op % 16u16) by (bit_vector);
    assert(op & 0xFFu16 == op % 256u16) by (bit_vector);
    assert(op & 0xFFFu16 == op % 4096u16) by (bit_vector);
}

/// The offset from `base` to address `a`, wrapping at the end of memory, is
/// `k` exactly when `a` is `k` bytes past `base`.
pub proof fn lemma_memory_offset(a: int, base: int, k: int)
    requires
        0 <= a < MEMORY_SIZE,
        0 <= base,
        0 <= k < MEMORY_SIZE,
    ensures
        ((a - base) % (MEMORY_SIZE as int) == k) <==> (a == wrap_addr(base, k)),
        0 <= (a - base) % (MEMORY_SIZE as int) < MEMORY_SIZE,
{
    let m = MEMORY_SIZE as int;
    lemma_fundamental_div_mod(base, m);
    let q = base / m;
    let b = base % m;
    assert(0 <= b < m);
    if a >= b {
        lemma_fundamental_div_mod_converse(a - base, m, -q, a - b);
    } else {
        lemma_fundamental_div_mod_converse(a - base, m, -q - 1, a - b + m);
    }
    if b + k < m {
        lemma_fundamental_div_mod_converse(base + k, m, q, b + k);
    } else {
        lemma_fundamental_div_mod_converse(base + k, m, q + 1, b + k - m);
    }
}

/// The timers after one tick: each counts down by one while above zero, and
/// the sound timer reaching zero raises the beep pulse.
pub open spec fn tick(m: Machine) -> Machine {
    Machine {
        delay: if m.delay > 0 { (m.delay - 1) as u8 } else { 0u8 },
        sound: if m.sound > 0 { (m.sound - 1) as u8 } else { 0u8 },
        beep: m.beep || m.sound == 1,
        ..m
    }
}

} // verus!
