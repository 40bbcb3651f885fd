//! The interpreter: the machine's state, instruction cycle, timers and input.

use crate::display::Display;
use crate::machine::{
    alu_flag, alu_known, alu_value, cycle_step, fetched_regs, first_pressed, glyphs, initial,
    lemma_decode, lemma_memory_offset, low_nibble, outcome, pc_valid, run_cycles, sprite_rows,
    step, step_alu, step_draw, step_key_skip, step_misc, step_system, stored, tick, uses_random,
    valid, with_bcd, with_rom, ExecutionError, Machine, RomError, FLAG, GLYPH_SIZE, KEY_COUNT,
    MAX_ROM_SIZE, MEMORY_SIZE, PROGRAM_START, REGISTER_COUNT, STACK_DEPTH,
};
use crate::random::seeded_generator;
use macroquad::rand::RandGenerator;
use vstd::prelude::*;

verus! {

/// The built-in glyph table, as bytes.
fn glyph_table() -> (t: [u8; 80])
    ensures
        t@ == glyphs(),
{
    let t: [u8; 80] = [
        0xF0, 0x90, 0x90, 0x90, 0xF0,  // 0
        0x20, 0x60, 0x20, 0x20, 0x70,  // 1
        0xF0, 0x10, 0xF0, 0x80, 0xF0,  // 2
        0xF0, 0x10, 0xF0, 0x10, 0xF0,  // 3
        0x90, 0x90, 0xF0, 0x10, 0x10,  // 4
        0xF0, 0x80, 0xF0, 0x10, 0xF0,  // 5
        0xF0, 0x80, 0xF0, 0x90, 0xF0,  // 6
        0xF0, 0x10, 0x20, 0x40, 0x40,  // 7
        0xF0, 0x90, 0xF0, 0x90, 0xF0,  // 8
        0xF0, 0x90, 0xF0, 0x10, 0xF0,  // 9
        0xF0, 0x90, 0xF0, 0x90, 0x90,  // A
        0xE0, 0x90, 0xE0, 0x90, 0xE0,  // B
        0xF0, 0x80, 0x80, 0x80, 0xF0,  // C
        0xE0, 0x90, 0x90, 0x90, 0xE0,  // D
        0xF0, 0x80, 0xF0, 0x80, 0xF0,  // E
        0xF0, 0x80, 0xF0, 0x80, 0x80,  // F
    ];
    assert(t@ =~= glyphs());
    t
}

/// A register-register operation on the operand values `vx` and `vy`: what it
/// writes to the first operand and to the flag register, or `None` for a mode
/// that selects no operation.
fn alu(mode: u16, vx: u8, vy: u8) -> (r: Option<(u8, Option<u8>)>)
    ensures
        alu_known(mode as int) ==> r == Some((alu_value(mode as int, vx, vy), alu_flag(mode as int, vx, vy))),
        !alu_known(mode as int) ==> r is None,
{
    match mode {
        0x0 => Some((vy, None)),
        0x1 => Some((vx | vy, Some(0))),
        0x2 => Some((vx & vy, Some(0))),
        0x3 => Some((vx ^ vy, Some(0))),
        0x4 => Some((vx.wrapping_add(vy), Some(
            if vx as u16 + vy as u16 > 255 {
                1
            } else {
                0
            },
        ))),
        0x5 => Some((vx.wrapping_sub(vy), Some(
            if vx >= vy {
                1
            } else {
                0
            },
        ))),
        0x6 => Some((vy >> 1, Some(vy & 1))),
        0x7 => Some((vy.wrapping_sub(vx), Some(
            if vy >= vx {
                1
            } else {
                0
            },
        ))),
        0xE => Some((vy << 1, Some(vy >> 7))),
        _ => None,
    }
}

/// The seed a machine built with `default` uses.
pub const DEFAULT_SEED: u64 = 0;

/// Instruction cycles per displayed frame unless set otherwise.
pub const DEFAULT_CYCLES_PER_FRAME: u32 = 10;

/// A CHIP-8 machine: memory, registers, stack, timers, keypad, framebuffer and
/// its own seeded random source.
pub struct CHIP8 {
    memory: [u8; 4096],
    regs: [u8; 16],
    index: u16,
    pc: u16,
    display: Display,
    d_timer: u8,
    s_timer: u8,
    stack: [u16; 16],
    sp: u16,
    keys: [bool; 16],
    is_rom_loaded: bool,
    did_beep: bool,
    cycles_per_frame: u32,
    rng: RandGenerator,
}

impl View for CHIP8 {
    type V = Machine;

    closed spec fn view(&self) -> Machine {
        Machine {
            memory: self.memory@,
            regs: self.regs@,
            index: self.index,
            pc: self.pc,
            stack: self.stack@,
            sp: self.sp,
            delay: self.d_timer,
            sound: self.s_timer,
            keys: self.keys@,
            gfx: self.display@.cells,
            redraw: self.display@.redraw,
            loaded: self.is_rom_loaded,
            beep: self.did_beep,
            cycles_per_frame: self.cycles_per_frame,
        }
    }
}

impl CHIP8 {
    /// The machine's invariant.
    pub open spec fn wf(&self) -> bool {
        valid(self@)
    }

    /// A machine in its initial state whose random source is seeded with `seed`.
    pub fn new(seed: u64) -> (c: CHIP8)
        ensures
            c.wf(),
            c@ == initial(DEFAULT_CYCLES_PER_FRAME),
    {
        let glyph_bytes = glyph_table();
        let mut memory = [0u8; 4096];
        let mut i: usize = 0;
        while i < 80
            invariant
                i <= 80,
                glyph_bytes@ == glyphs(),
                forall|a: int|
                    0 <= a < MEMORY_SIZE ==> #[trigger] memory@[a] == if a < i {
                        glyphs()[a]
                    } else {
                        0u8
                    },
            decreases 80 - i,
        {
            memory[i] = glyph_bytes[i];
            i += 1;
        }
        let c = CHIP8 {
            memory,
            regs: [0u8; 16],
            index: 0,
            pc: PROGRAM_START,
            display: Display::new(),
            d_timer: 0,
            s_timer: 0,
            stack: [0u16; 16],
            sp: 0,
            keys: [false; 16],
            is_rom_loaded: false,
            did_beep: false,
            cycles_per_frame: DEFAULT_CYCLES_PER_FRAME,
            rng: seeded_generator(seed),
        };
        assert(c@ =~= initial(DEFAULT_CYCLES_PER_FRAME));
        c
    }

    /// Writes the program image `rom` into memory from the program start on
    /// and marks a program as loaded. An image longer than the memory above
    /// the program start is refused, and nothing changes.
    pub fn load_rom(&mut self, rom: &[u8]) -> (r: Result<(), RomError>)
        requires
            old(self).wf(),
        ensures
            final(self).wf(),
            rom@.len() > MAX_ROM_SIZE ==> r == Err::<(), RomError>(RomError::TooLarge)
                && final(self)@ == old(self)@,
            rom@.len() <= MAX_ROM_SIZE ==> r is Ok && final(self)@ == (Machine {
                memory: with_rom(old(self)@.memory, rom@),
                loaded: true,
                ..old(self)@
            }),
    {
        if rom.len() > MAX_ROM_SIZE {
            return Err(RomError::TooLarge);
        }
        let ghost before = self@;
        let mut i: usize = 0;
        while i < rom.len()
            invariant
                i <= rom@.len() <= MAX_ROM_SIZE,
                self@ == (Machine { memory: self@.memory, ..before }),
                self@.memory.len() == MEMORY_SIZE,
                forall|a: int|
                    0 <= a < MEMORY_SIZE ==> #[trigger] self@.memory[a] == if PROGRAM_START <= a
                        < PROGRAM_START + i {
                        rom@[a - PROGRAM_START]
                    } else {
                        before.memory[a]
                    },
            decreases rom@.len() - i,
        {
            self.memory[PROGRAM_START as usize + i] = rom[i];
            i += 1;
        }
        self.is_rom_loaded = true;
        assert(self@ =~= (Machine {
            memory: with_rom(before.memory, rom@),
            loaded: true,
            ..before
        }));
        Ok(())
    }

    /// Family 0: clear the screen, or return from a call.
    fn exec_system(&mut self, opcode: u16) -> (r: Result<(), ExecutionError>)
        requires
            old(self).wf(),
            pc_valid(old(self)@.pc),
        ensures
            final(self).wf(),
            outcome(old(self)@, final(self)@, r, step_system(old(self)@, opcode)),
    {
        if opcode == 0x00E0 {
            self.display.clear();
            self.display.set_draw_flag(true);
            self.pc += 2;
            Ok(())
        } else if opcode == 0x00EE {
            if self.sp == 0 {
                return Err(ExecutionError::StackUnderflow);
            }
            self.sp -= 1;
            self.pc = self.stack[self.sp as usize] + 2;
            Ok(())
        } else {
            Err(ExecutionError::UnimplementedOpcode(opcode))
        }
    }

    /// Family 8: the register-register operations, selected by the low nibble.
    fn exec_alu(&mut self, opcode: u16) -> (r: Result<(), ExecutionError>)
        requires
            old(self).wf(),
            pc_valid(old(self)@.pc),
        ensures
            final(self).wf(),
            outcome(old(self)@, final(self)@, r, step_alu(old(self)@, opcode)),
    {
        proof {
            lemma_decode(opcode);
        }
        let x = ((opcode >> 8) & 0xF) as usize;
        let y = ((opcode >> 4) & 0xF) as usize;
        match alu(opcode & 0xF, self.regs[x], self.regs[y]) {
            Some((value, flag)) => {
                self.regs[x] = value;
                if let Some(f) = flag {
                    self.regs[FLAG] = f;
                }
                self.pc += 2;
                Ok(())
            },
            None => Err(ExecutionError::UnimplementedOpcode(opcode)),
        }
    }

    /// Family D: draws the sprite of `n` rows stored at the index register.
    fn exec_draw(&mut self, opcode: u16)
        requires
            old(self).wf(),
            pc_valid(old(self)@.pc),
        ensures
            final(self).wf(),
            final(self)@ == step_draw(old(self)@, opcode),
    {
        proof {
            lemma_decode(opcode);
        }
        let x = ((opcode >> 8) & 0xF) as usize;
        let y = ((opcode >> 4) & 0xF) as usize;
        let n = (opcode & 0xF) as usize;
        let mut rows: Vec<u8> = Vec::new();
        let mut i: usize = 0;
        while i < n
            invariant
                i <= n < 16,
                n == low_nibble(opcode),
                self@.memory.len() == MEMORY_SIZE,
                rows@ == sprite_rows(self@.memory, self@.index, i as int),
            decreases n - i,
        {
            rows.push(self.memory[(self.index as usize + i) % MEMORY_SIZE]);
            i += 1;
            assert(rows@ =~= sprite_rows(self@.memory, self@.index, i as int));
        }
        let collided = self.display.display_sprite(
            self.regs[x] as usize,
            self.regs[y] as usize,
            rows.as_slice(),
        );
        self.regs[FLAG] = if collided {
            1
        } else {
            0
        };
        self.pc += 2;
    }

    /// Family E: skips the next instruction on the state of the key numbered
    /// by the low four bits of register x.
    fn exec_key_skip(&mut self, opcode: u16) -> (r: Result<(), ExecutionError>)
        requires
            old(self).wf(),
            pc_valid(old(self)@.pc),
        ensures
            final(self).wf(),
            outcome(old(self)@, final(self)@, r, step_key_skip(old(self)@, opcode)),
    {
        proof {
            lemma_decode(opcode);
        }
        let x = ((opcode >> 8) & 0xF) as usize;
        let down = self.keys[(self.regs[x] % 16) as usize];
        match opcode & 0xFF {
            0x9E => {
                self.pc += if down {
                    4
                } else {
                    2
                };
                Ok(())
            },
            0xA1 => {
                self.pc += if down {
                    2
                } else {
                    4
                };
                Ok(())
            },
            _ => Err(ExecutionError::UnimplementedOpcode(opcode)),
        }
    }

    /// The lowest-numbered key that is down, if any.
    fn first_key_down(&self) -> (k: Option<usize>)
        requires
            self.wf(),
        ensures
            match k {
                Some(i) => first_pressed(self@.keys, 0) == Some(i as int),
                None => first_pressed(self@.keys, 0) is None,
            },
    {
        let mut i: usize = 0;
        while i < KEY_COUNT
            invariant
                i <= KEY_COUNT,
                self@.keys.len() == KEY_COUNT,
                first_pressed(self@.keys, 0) == first_pressed(self@.keys, i as int),
            decreases KEY_COUNT - i,
        {
            if self.keys[i] {
                return Some(i);
            }
            i += 1;
        }
        None
    }

    /// Stores registers 0 up to `count - 1` in memory from the index register on.
    fn store_registers(&mut self, count: usize)
        requires
            old(self).wf(),
            count <= 16,
        ensures
            final(self).wf(),
            final(self)@ == (Machine {
                memory: stored(old(self)@.memory, old(self)@.regs, old(self)@.index, count as int),
                ..old(self)@
            }),
    {
        let ghost before = self@;
        let mut i: usize = 0;
        while i < count
            invariant
                i <= count <= 16,
                self.wf(),
                self@ == (Machine { memory: self@.memory, ..before }),
                self@.memory == stored(before.memory, before.regs, before.index, i as int),
            decreases count - i,
        {
            let a = (self.index as usize + i) % MEMORY_SIZE;
            self.memory[a] = self.regs[i];
            i += 1;
            assert forall|b: int| 0 <= b < MEMORY_SIZE implies #[trigger] self@.memory[b] == stored(
                before.memory,
                before.regs,
                before.index,
                i as int,
            )[b] by {
                lemma_memory_offset(b, before.index as int, i - 1);
            }
            assert(self@.memory =~= stored(before.memory, before.regs, before.index, i as int));
        }
    }

    /// Loads registers 0 up to `count - 1` from memory at the index register on.
    fn load_registers(&mut self, count: usize)
        requires
            old(self).wf(),
            count <= 16,
        ensures
            final(self).wf(),
            final(self)@ == (Machine {
                regs: fetched_regs(old(self)@.memory, old(self)@.regs, old(self)@.index, count as int),
                ..old(self)@
            }),
    {
        let ghost before = self@;
        let mut i: usize = 0;
        while i < count
            invariant
                i <= count <= 16,
                self.wf(),
                self@ == (Machine { regs: self@.regs, ..before }),
                self@.regs == fetched_regs(before.memory, before.regs, before.index, i as int),
            decreases count - i,
        {
            self.regs[i] = self.memory[(self.index as usize + i) % MEMORY_SIZE];
            i += 1;
            assert(self@.regs =~= fetched_regs(before.memory, before.regs, before.index, i as int));
        }
    }

    /// Stores the decimal digits of `v` at the index register and the two
    /// addresses after it.
    fn store_bcd(&mut self, v: u8)
        requires
            old(self).wf(),
        ensures
            final(self).wf(),
            final(self)@ == (Machine {
                memory: with_bcd(old(self)@.memory, old(self)@.index, v),
                ..old(self)@
            }),
    {
        let i = self.index as usize;
        self.memory[i % MEMORY_SIZE] = v / 100;
        self.memory[(i + 1) % MEMORY_SIZE] = (v / 10) % 10;
        self.memory[(i + 2) % MEMORY_SIZE] = v % 10;
    }

    /// Family F: timers, key wait, index arithmetic, glyphs, decimal digits,
    /// and block register stores and loads.
    fn exec_misc(&mut self, opcode: u16) -> (r: Result<(), ExecutionError>)
        requires
            old(self).wf(),
            pc_valid(old(self)@.pc),
        ensures
            final(self).wf(),
            outcome(old(self)@, final(self)@, r, step_misc(old(self)@, opcode)),
    {
        proof {
            lemma_decode(opcode);
        }
        let x = ((opcode >> 8) & 0xF) as usize;
        let vx = self.regs[x];
        match opcode & 0xFF {
            0x07 => self.regs[x] = self.d_timer,
            0x0A => {
                match self.first_key_down() {
                    Some(k) => self.regs[x] = k as u8,
                    None => return Ok(()),
                }
            },
            0x15 => self.d_timer = vx,
            0x18 => self.s_timer = vx,
            0x1E => self.index = self.index.wrapping_add(vx as u16),
            0x29 => {
                if vx < 16 {
                    self.index = vx as u16 * GLYPH_SIZE;
                }
            },
            0x33 => self.store_bcd(vx),
            0x55 => {
                self.store_registers(x + 1);
                self.index = self.index.wrapping_add(x as u16 + 1);
            },
            0x65 => {
                self.load_registers(x + 1);
                self.index = self.index.wrapping_add(x as u16 + 1);
            },
            _ => return Err(ExecutionError::UnimplementedOpcode(opcode)),
        }
        self.pc += 2;
        Ok(())
    }

    /// Runs instruction `opcode`, fetched at the program counter, with `rnd`
    /// as the value drawn from the random source.
    #[verifier::rlimit(40)]
    #[verifier::spinoff_prover]
    fn execute(&mut self, opcode: u16, rnd: u32) -> (r: Result<(), ExecutionError>)
        requires
            old(self).wf(),
            pc_valid(old(self)@.pc),
        ensures
            final(self).wf(),
            outcome(old(self)@, final(self)@, r, step(old(self)@, opcode, rnd)),
    {
        proof {
            lemma_decode(opcode);
            reveal(step);
        }
        let x = ((opcode >> 8) & 0xF) as usize;
        let y = ((opcode >> 4) & 0xF) as usize;
        let kk = (opcode & 0xFF) as u8;
        let nnn = opcode & 0xFFF;
        match opcode >> 12 {
            0x0 => self.exec_system(opcode),
            0x1 => {
                self.pc = nnn;
                Ok(())
            },
            0x2 => {
                if self.sp >= STACK_DEPTH {
                    return Err(ExecutionError::StackOverflow);
                }
                self.stack[self.sp as usize] = self.pc;
                self.sp += 1;
                self.pc = nnn;
                Ok(())
            },
            0x3 => {
                self.pc += if self.regs[x] == kk {
                    4
                } else {
                    2
                };
                Ok(())
            },
            0x4 => {
                self.pc += if self.regs[x] != kk {
                    4
                } else {
                    2
                };
                Ok(())
            },
            0x5 => {
                self.pc += if self.regs[x] == self.regs[y] {
                    4
                } else {
                    2
                };
                Ok(())
            },
            0x6 => {
                self.regs[x] = kk;
                self.pc += 2;
                Ok(())
            },
            0x7 => {
                self.regs[x] = self.regs[x].wrapping_add(kk);
                self.pc += 2;
                Ok(())
            },
            0x8 => self.exec_alu(opcode),
            0x9 => {
                self.pc += if self.regs[x] != self.regs[y] {
                    4
                } else {
                    2
                };
                Ok(())
            },
            0xA => {
                self.index = nnn;
                self.pc += 2;
                Ok(())
            },
            0xB => {
                self.pc = nnn + self.regs[0] as u16;
                Ok(())
            },
            0xC => {
                self.regs[x] = (rnd as u8) & kk;
                self.pc += 2;
                Ok(())
            },
            0xD => {
                self.exec_draw(opcode);
                Ok(())
            },
            0xE => self.exec_key_skip(opcode),
            _ => self.exec_misc(opcode),
        }
    }

    /// One instruction cycle with `rnd` as the value of the random source:
    /// nothing while no program is loaded; an error if the program counter is
    /// odd or past the end of memory; otherwise fetches the big-endian
    /// instruction at the program counter and runs it, after withdrawing the
    /// previous cycle's redraw request. On an error nothing changes.
    pub fn cycle_with_random(&mut self, rnd: u32) -> (r: Result<(), ExecutionError>)
        requires
            old(self).wf(),
        ensures
            final(self).wf(),
            outcome(old(self)@, final(self)@, r, cycle_step(old(self)@, rnd)),
    {
        if !self.is_rom_loaded {
            return Ok(());
        }
        if self.pc >= MEMORY_SIZE as u16 || self.pc % 2 != 0 {
            return Err(ExecutionError::InvalidProgramCounter(self.pc));
        }
        let pc = self.pc as usize;
        let opcode = self.memory[pc] as u16 * 256 + self.memory[pc + 1] as u16;
        let pending = self.display.draw_happened();
        self.display.set_draw_flag(false);
        let r = self.execute(opcode, rnd);
        if r.is_err() {
            self.display.set_draw_flag(pending);
        }
        r
    }

    /// One instruction cycle, as `cycle_with_random` describes, drawing from
    /// the machine's random source when the instruction is of family C.
    pub fn cycle(&mut self) -> (r: Result<(), ExecutionError>)
        requires
            old(self).wf(),
        ensures
            final(self).wf(),
            exists|rnd: u32| outcome(old(self)@, final(self)@, r, cycle_step(old(self)@, rnd)),
            !uses_random(old(self)@) ==> outcome(old(self)@, final(self)@, r, cycle_step(old(self)@, 0)),
    {
        let draws = self.is_rom_loaded && self.pc < MEMORY_SIZE as u16 && self.pc % 2 == 0
            && self.memory[self.pc as usize] / 16 == 0xC;
        let rnd = if draws {
            self.rng.rand()
        } else {
            0
        };
        self.cycle_with_random(rnd)
    }

    /// Runs the configured number of cycles for one displayed frame, stopping
    /// at the first error. Returns whether any cycle requested a redraw.
    pub fn run(&mut self) -> (r: Result<bool, ExecutionError>)
        requires
            old(self).wf(),
        ensures
            final(self).wf(),
            exists|rnds: Seq<u32>|
                rnds.len() <= old(self)@.cycles_per_frame && run_cycles(old(self)@, rnds) == (
                final(self)@,
                r,
                ) && (r is Ok ==> rnds.len() == old(self)@.cycles_per_frame),
    {
        let ghost start = self@;
        let ghost mut rnds: Seq<u32> = Seq::empty();
        let n = self.cycles_per_frame;
        let mut drew = false;
        let mut i: u32 = 0;
        while i < n
            invariant
                self.wf(),
                i <= n,
                start == old(self)@,
                n == start.cycles_per_frame,
                rnds.len() == i,
                run_cycles(start, rnds) == (self@, Ok::<bool, ExecutionError>(drew)),
            decreases n - i,
        {
            let ghost before = self@;
            let r = self.cycle();
            let ghost rnd = choose|rnd: u32| outcome(before, self@, r, cycle_step(before, rnd));
            let ghost prev = rnds;
            proof {
                rnds = rnds.push(rnd);
                assert(rnds.drop_last() =~= prev);
            }
            match r {
                Err(e) => {
                    assert(run_cycles(start, rnds) == (self@, Err::<bool, ExecutionError>(e)));
                    assert(rnds.len() <= start.cycles_per_frame);
                    return Err(e);
                },
                Ok(()) => {
                    if self.display.draw_happened() {
                        drew = true;
                    }
                },
            }
            i += 1;
        }
        Ok(drew)
    }

    /// Counts each timer down by one while it is above zero; the sound timer
    /// reaching zero raises the beep pulse.
    pub fn advance_frame(&mut self)
        requires
            old(self).wf(),
        ensures
            final(self).wf(),
            final(self)@ == tick(old(self)@),
    {
        if self.d_timer > 0 {
            self.d_timer -= 1;
        }
        if self.s_timer > 0 {
            if self.s_timer == 1 {
                self.did_beep = true;
            }
            self.s_timer -= 1;
        }
    }

    /// Whether the beep pulse was raised since it was last read; reading it
    /// lowers it.
    pub fn did_beep(&mut self) -> (b: bool)
        requires
            old(self).wf(),
        ensures
            final(self).wf(),
            b == old(self)@.beep,
            final(self)@ == (Machine { beep: false, ..old(self)@ }),
    {
        let b = self.did_beep;
        self.did_beep = false;
        b
    }

    /// The framebuffer: 2048 cells of 0 or 1, row-major, the cell at column
    /// `x`, row `y` at `x + y * 64`.
    pub fn get_gfx(&self) -> (g: &[u8; 2048])
        requires
            self.wf(),
        ensures
            g@ == self@.gfx,
    {
        self.display.cells()
    }

    /// Whether the last cycle requested a redraw.
    pub fn needs_redraw(&self) -> (r: bool)
        ensures
            r == self@.redraw,
    {
        self.display.draw_happened()
    }

    /// Records whether logical key `idx` is down.
    pub fn set_key(&mut self, idx: usize, state: bool)
        requires
            old(self).wf(),
            idx < KEY_COUNT,
        ensures
            final(self).wf(),
            final(self)@ == (Machine { keys: old(self)@.keys.update(idx as int, state), ..old(self)@ }),
    {
        self.keys[idx] = state;
    }

    /// Sets how many instruction cycles `run` performs per frame.
    pub fn set_cycle_count(&mut self, num: u32)
        requires
            old(self).wf(),
        ensures
            final(self).wf(),
            final(self)@ == (Machine { cycles_per_frame: num, ..old(self)@ }),
    {
        self.cycles_per_frame = num;
    }

    /// The value of register `i`.
    pub fn register(&self, i: usize) -> (v: u8)
        requires
            i < REGISTER_COUNT,
        ensures
            v == self@.regs[i as int],
    {
        self.regs[i]
    }

    /// The index register.
    pub fn index_register(&self) -> (v: u16)
        ensures
            v == self@.index,
    {
        self.index
    }

    /// The program counter.
    pub fn program_counter(&self) -> (v: u16)
        ensures
            v == self@.pc,
    {
        self.pc
    }

    /// The byte at address `addr`.
    pub fn memory_at(&self, addr: usize) -> (v: u8)
        requires
            addr < MEMORY_SIZE,
        ensures
            v == self@.memory[addr as int],
    {
        self.memory[addr]
    }

    /// The delay timer.
    pub fn delay_timer(&self) -> (v: u8)
        ensures
            v == self@.delay,
    {
        self.d_timer
    }

    /// The sound timer.
    pub fn sound_timer(&self) -> (v: u8)
        ensures
            v == self@.sound,
    {
        self.s_timer
    }

    /// Return addresses on the call stack.
    pub fn stack_depth(&self) -> (v: u16)
        ensures
            v == self@.sp,
    {
        self.sp
    }
} // impl CHIP8

impl Default for CHIP8 {
    /// A machine in its initial state, seeded with `DEFAULT_SEED`.
    fn default() -> (c: CHIP8)
        ensures
            c.wf(),
            c@ == initial(DEFAULT_CYCLES_PER_FRAME),
    {
        CHIP8::new(DEFAULT_SEED)
    }
}

} // verus!
