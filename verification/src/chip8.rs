//! The executable CHIP-8 machine.  Every method is specified against the
//! mathematical model in `machine`: one `tick` performs exactly one
//! fetch-decode-execute cycle of `step_spec`.

use vstd::prelude::*;
use vstd::pervasive::VecAdditionalExecFns;
use nanorand::Rng;
use crate::decode::{decode, lemma_operand_bounds, op_nib1, op_nib2, op_nib3, op_nib4, Nibbles};
use crate::machine::{
    op_effect, wrap_add, wrap_sub,
    fetch_ok, initial_state, load_state, no_keys, reboot_state, step_spec, steps_to, timer_tick,
    word_at, zero_regs, Chip8Error, MachineState, lemma_steps_to, MEM_SIZE, PROG_OFFSET,
    SPRITES_START, STACK_END, STACK_START, CHIP8_FONT,
};
use crate::screen::{
    blank_screen_seq, draw_bits, draw_rows, lemma_draw_bits_wf, screen_wf, SCREEN_AREA,
};

verus! {

/// Relies on nanorand's thread-local generator (`nanorand::tls_rng`) for one
/// random byte; nothing is assumed about the value drawn.
#[verifier::external_body]
fn random_byte() -> u8 {
    nanorand::tls_rng().generate::<u8>()
}

/// A vector of `n` copies of `val`.
fn filled<T: Copy>(n: usize, val: T) -> (v: Vec<T>)
    ensures
        v@.len() == n,
        forall|j: int| 0 <= j < n ==> v@[j] == val,
{
    let mut v: Vec<T> = Vec::new();
    while v.len() < n
        invariant
            v@.len() <= n,
            forall|j: int| 0 <= j < v@.len() ==> v@[j] == val,
        decreases n - v@.len(),
    {
        v.push(val);
    }
    v
}

/// The CHIP-8 machine: memory, registers, timers, keypad and framebuffer.
///
/// The fields are public so a host can feed the keypad and read the
/// framebuffer; its abstract value is the `MachineState` view, and every
/// method says in its contract what it does to that view.
pub struct Chip8 {
    /// 4096 bytes: stack region, font table, then the loaded program.
    pub memory: Vec<u8>,
    /// One past the last loaded program byte.
    pub memory_end: usize,
    /// The sixteen registers V0..VF.
    pub v: Vec<u8>,
    /// The index register.
    pub i: u16,
    /// The program counter.
    pub pc: u16,
    /// The stack pointer.
    pub sp: u8,
    /// The delay timer.
    pub dt: u8,
    /// The sound timer.
    pub st: u8,
    /// Key state, set by the host on every input poll.
    pub keyboard: Vec<bool>,
    /// Index of the register awaiting a keypress, if any.
    pub waiting: Option<u8>,
    /// The 64x32 framebuffer, one byte per pixel.
    pub screen: Vec<u8>,
    /// Whether the framebuffer changed in the last cycle.
    pub screen_updated: bool,
    /// Fault on stack overflow or underflow instead of wrapping the stack
    /// pointer.
    pub strict_stack: bool,
}

impl View for Chip8 {
    type V = MachineState;

    open spec fn view(&self) -> MachineState {
        MachineState {
            memory: self.memory@,
            memory_end: self.memory_end as int,
            v: self.v@,
            i: self.i,
            pc: self.pc,
            sp: self.sp,
            dt: self.dt,
            st: self.st,
            keyboard: self.keyboard@,
            waiting: self.waiting,
            screen: self.screen@,
            screen_updated: self.screen_updated,
            strict_stack: self.strict_stack,
        }
    }
}

impl Chip8 {
    /// A fresh machine: font loaded, everything else zeroed, the program
    /// counter at the program offset.
    pub fn new() -> (c: Chip8)
        ensures
            c@ == initial_state(),
            c@.wf(),
    {
        let mut memory = filled(MEM_SIZE, 0u8);
        let mut k: usize = 0;
        while k < 80
            invariant
                memory@.len() == MEM_SIZE,
                k <= 80,
                forall|j: int|
                    0 <= j < MEM_SIZE && !(SPRITES_START <= j < SPRITES_START + k)
                        ==> memory@[j] == 0,
                forall|j: int|
                    SPRITES_START <= j < SPRITES_START + k ==> memory@[j] == CHIP8_FONT@[j
                        - SPRITES_START],
            decreases 80 - k,
        {
            memory.set(SPRITES_START + k, CHIP8_FONT[k]);
            k += 1;
        }
        let c = Chip8 {
            memory,
            memory_end: PROG_OFFSET,
            v: filled(16, 0u8),
            i: 0,
            pc: PROG_OFFSET as u16,
            sp: STACK_START,
            dt: 0,
            st: 0,
            keyboard: filled(16, false),
            waiting: None,
            screen: filled(SCREEN_AREA, 0u8),
            screen_updated: false,
            strict_stack: false,
        };
        proof {
            assert(c@.memory =~= initial_state().memory);
            assert(c@.v =~= zero_regs());
            assert(c@.keyboard =~= no_keys());
            assert(c@.screen =~= blank_screen_seq());
            assert(c@ =~= initial_state());
        }
        c
    }

    /// Copy a ROM image into memory at the program offset, truncating it to
    /// the space there, and record where it ends.
    pub fn load_rom(&mut self, rom: &[u8])
        requires
            old(self)@.wf(),
        ensures
            final(self)@ == load_state(old(self)@, rom@),
            final(self)@.wf(),
    {
        let max = MEM_SIZE - PROG_OFFSET;
        let n = if rom.len() > max {
            max
        } else {
            rom.len()
        };
        let mut k: usize = 0;
        while k < n
            invariant
                old(self)@.wf(),
                n <= max,
                n == crate::machine::rom_len(rom@),
                k <= n,
                self.memory@.len() == MEM_SIZE,
                forall|j: int|
                    0 <= j < MEM_SIZE && !(PROG_OFFSET <= j < PROG_OFFSET + k) ==> self.memory@[j]
                        == old(self)@.memory[j],
                forall|j: int|
                    PROG_OFFSET <= j < PROG_OFFSET + k ==> self.memory@[j] == rom@[j - PROG_OFFSET],
                self.memory_end == old(self).memory_end,
                self.v@ == old(self)@.v,
                self.i == old(self).i,
                self.pc == old(self).pc,
                self.sp == old(self).sp,
                self.dt == old(self).dt,
                self.st == old(self).st,
                self.keyboard@ == old(self)@.keyboard,
                self.waiting == old(self).waiting,
                self.screen@ == old(self)@.screen,
                self.screen_updated == old(self).screen_updated,
                self.strict_stack == old(self).strict_stack,
            decreases n - k,
        {
            self.memory.set(PROG_OFFSET + k, rom[k]);
            k += 1;
        }
        self.memory_end = PROG_OFFSET + n;
        proof {
            assert(self@.memory =~= load_state(old(self)@, rom@).memory);
            assert(self@ =~= load_state(old(self)@, rom@));
        }
    }

    /// Reset every mutable part of the machine — registers, timers, keypad,
    /// wait marker, framebuffer, the stack region and the bytes past the
    /// loaded program — leaving the font, the program and its recorded end in
    /// place.
    pub fn reboot(&mut self)
        requires
            old(self)@.wf(),
        ensures
            final(self)@ == reboot_state(old(self)@),
            final(self)@.wf(),
    {
        self.v = filled(16, 0u8);
        self.i = 0;
        self.dt = 0;
        self.st = 0;
        self.keyboard = filled(16, false);
        self.waiting = None;
        self.screen = filled(SCREEN_AREA, 0u8);
        self.screen_updated = false;
        let mut k: usize = 0;
        while k < STACK_END as usize
            invariant
                old(self)@.wf(),
                k <= STACK_END as usize,
                self.memory@.len() == MEM_SIZE,
                forall|j: int| 0 <= j < k ==> self.memory@[j] == 0,
                forall|j: int| k <= j < MEM_SIZE ==> self.memory@[j] == old(self)@.memory[j],
                self.memory_end == old(self).memory_end,
                self.v@ == zero_regs(),
                self.i == 0,
                self.pc == old(self).pc,
                self.sp == old(self).sp,
                self.dt == 0,
                self.st == 0,
                self.keyboard@ == no_keys(),
                self.waiting is None,
                self.screen@ == blank_screen_seq(),
                self.screen_updated == false,
                self.strict_stack == old(self).strict_stack,
            decreases STACK_END as usize - k,
        {
            self.memory.set(k, 0);
            k += 1;
        }
        self.sp = STACK_START;
        let mut k2: usize = self.memory_end;
        while k2 < MEM_SIZE
            invariant
                old(self)@.wf(),
                old(self).memory_end <= k2 <= MEM_SIZE,
                self.memory@.len() == MEM_SIZE,
                forall|j: int| 0 <= j < STACK_END as int ==> self.memory@[j] == 0,
                forall|j: int|
                    STACK_END as int <= j < old(self)@.memory_end ==> self.memory@[j] == old(self)@.memory[j],
                forall|j: int| old(self)@.memory_end <= j < k2 ==> self.memory@[j] == 0,
                forall|j: int| k2 <= j < MEM_SIZE ==> self.memory@[j] == old(self)@.memory[j],
                self.memory_end == old(self).memory_end,
                self.v@ == zero_regs(),
                self.i == 0,
                self.pc == old(self).pc,
                self.sp == 0,
                self.dt == 0,
                self.st == 0,
                self.keyboard@ == no_keys(),
                self.waiting is None,
                self.screen@ == blank_screen_seq(),
                self.screen_updated == false,
                self.strict_stack == old(self).strict_stack,
            decreases MEM_SIZE - k2,
        {
            self.memory.set(k2, 0);
            k2 += 1;
        }
        self.pc = PROG_OFFSET as u16;
        proof {
            assert(self@.memory =~= reboot_state(old(self)@).memory);
            assert(self@ =~= reboot_state(old(self)@));
        }
    }

    /// One 60 Hz timer tick: each timer counts down by one, stopping at zero.
    /// Reports whether a tone should play, which is exactly when the sound
    /// timer was still running.
    pub fn tick_timers(&mut self) -> (beep: bool)
        ensures
            final(self)@ == (MachineState {
                dt: timer_tick(old(self)@.dt),
                st: timer_tick(old(self)@.st),
                ..old(self)@
            }),
            beep == (old(self)@.st > 0),
    {
        if self.dt > 0 {
            self.dt = self.dt - 1;
        }
        if self.st > 0 {
            self.st = self.st - 1;
            return true;
        }
        false
    }

    /// Deliver the pressed key `key_pos` to a machine awaiting one: the
    /// recorded register receives the key index and the wait ends.  Without
    /// an active wait this does nothing.
    pub fn answer_key(&mut self, key_pos: u8)
        requires
            old(self)@.wf(),
        ensures
            final(self)@.wf(),
            old(self)@.waiting is None ==> final(self)@ == old(self)@,
            old(self)@.waiting matches Some(r) ==> final(self)@ == (MachineState {
                v: old(self)@.v.update(r as int, key_pos),
                waiting: None,
                ..old(self)@
            }),
    {
        if let Some(reg_index) = self.waiting {
            self.v.set(reg_index as usize, key_pos);
            self.waiting = None;
        }
    }

    /// Whether the program counter has walked exactly off the end of the
    /// loaded ROM; the host's signal to stop driving the machine.
    pub fn finished_running(&self) -> (done: bool)
        ensures
            done == (self@.pc == self@.memory_end),
    {
        self.pc as usize == self.memory_end
    }

    /// XOR the `n`-row sprite at address I onto the framebuffer at
    /// (`x_pos`, `y_pos`), clipping horizontally and wrapping vertically;
    /// reports whether any lit pixel was turned off.
    #[verifier::rlimit(100)]
    fn draw_sprite(&mut self, x_pos: usize, y_pos: usize, n: usize) -> (collided: bool)
        requires
            old(self)@.wf(),
            x_pos < 64,
            y_pos < 32,
            n <= 15,
            old(self)@.i as int + n <= MEM_SIZE,
        ensures
            final(self)@ == (MachineState {
                screen: draw_rows(
                    old(self)@.screen,
                    old(self)@.memory,
                    old(self)@.i as int,
                    x_pos as int,
                    y_pos as int,
                    n as int,
                ).0,
                ..old(self)@
            }),
            collided == draw_rows(
                old(self)@.screen,
                old(self)@.memory,
                old(self)@.i as int,
                x_pos as int,
                y_pos as int,
                n as int,
            ).1,
            final(self)@.wf(),
    {
        let ghost pre = self@;
        let mut collided = false;
        let mut row: usize = 0;
        let mut ypos = y_pos;
        while row < n
            invariant
                pre.wf(),
                x_pos < 64,
                y_pos < 32,
                n <= 15,
                pre.i as int + n <= MEM_SIZE,
                row <= n,
                ypos == (y_pos + row) % 32,
                self.memory@ == pre.memory,
                self.memory_end == pre.memory_end,
                self.v@ == pre.v,
                self.i == pre.i,
                self.pc == pre.pc,
                self.sp == pre.sp,
                self.dt == pre.dt,
                self.st == pre.st,
                self.keyboard@ == pre.keyboard,
                self.waiting == pre.waiting,
                self.screen_updated == pre.screen_updated,
                self.strict_stack == pre.strict_stack,
                screen_wf(self.screen@),
                (self.screen@, collided) == draw_rows(
                    pre.screen,
                    pre.memory,
                    pre.i as int,
                    x_pos as int,
                    y_pos as int,
                    row as int,
                ),
            decreases n - row,
        {
            let sprite_byte = self.memory[self.i as usize + row];
            let ghost srow = self.screen@;
            let ghost hit_before = collided;
            let mut bit: usize = 0;
            while bit < 8
                invariant
                    bit <= 8,
                    x_pos < 64,
                    ypos < 32,
                    screen_wf(srow),
                    screen_wf(self.screen@),
                    self.memory@ == pre.memory,
                    self.memory_end == pre.memory_end,
                    self.v@ == pre.v,
                    self.i == pre.i,
                    self.pc == pre.pc,
                    self.sp == pre.sp,
                    self.dt == pre.dt,
                    self.st == pre.st,
                    self.keyboard@ == pre.keyboard,
                    self.waiting == pre.waiting,
                    self.screen_updated == pre.screen_updated,
                    self.strict_stack == pre.strict_stack,
                    self.screen@ == draw_bits(
                        srow,
                        sprite_byte,
                        x_pos as int,
                        ypos as int,
                        bit as int,
                    ).0,
                    collided == (hit_before || draw_bits(
                        srow,
                        sprite_byte,
                        x_pos as int,
                        ypos as int,
                        bit as int,
                    ).1),
                decreases 8 - bit,
            {
                if x_pos + bit < 64 {
                    let p = ypos * 64 + x_pos + bit;
                    let px = self.screen[p];
                    let px_lit = px != 0;
                    let sbit = ((sprite_byte >> ((7 - bit) as u8)) & 1) == 1;
                    if px_lit && sbit {
                        collided = true;
                    }
                    self.screen.set(
                        p,
                        if px_lit != sbit {
                            255
                        } else {
                            0
                        },
                    );
                    proof {
                        lemma_draw_bits_wf(
                            srow,
                            sprite_byte,
                            x_pos as int,
                            ypos as int,
                            bit as int + 1,
                        );
                    }
                }
                bit += 1;
            }
            proof {
                assert((self.screen@, collided) == draw_rows(
                    pre.screen,
                    pre.memory,
                    pre.i as int,
                    x_pos as int,
                    y_pos as int,
                    row as int + 1,
                ));
            }
            ypos = (ypos + 1) % 32;
            row += 1;
        }
        proof {
            assert(self@ =~= (MachineState {
                screen: draw_rows(
                    pre.screen,
                    pre.memory,
                    pre.i as int,
                    x_pos as int,
                    y_pos as int,
                    n as int,
                ).0,
                ..pre
            }));
        }
        collided
    }

    /// Copy V0..=Vx into memory at I.
    fn store_regs(&mut self, x: usize) -> (new_i: u16)
        requires
            old(self)@.wf(),
            x < 16,
            old(self)@.i as int + x + 1 <= MEM_SIZE,
        ensures
            final(self)@ == (MachineState {
                memory: final(self)@.memory,
                i: new_i,
                ..old(self)@
            }),
            new_i == old(self)@.i + x + 1,
            final(self)@.memory.len() == MEM_SIZE,
            forall|j: int|
                old(self)@.i <= j <= old(self)@.i + x ==> final(self)@.memory[j] == old(self)@.v[j - old(self)@.i],
            forall|j: int|
                0 <= j < MEM_SIZE && !(old(self)@.i <= j <= old(self)@.i + x) ==> final(self)@.memory[j] == old(self)@.memory[j],
            final(self)@.wf(),
    {
        let ghost pre = self@;
        let iu = self.i as usize;
        let mut k: usize = 0;
        while k <= x
            invariant
                pre.wf(),
                x < 16,
                iu == pre.i as usize,
                iu + x + 1 <= MEM_SIZE,
                k <= x + 1,
                self.memory@.len() == MEM_SIZE,
                forall|j: int| iu <= j < iu + k ==> self.memory@[j] == pre.v[j - iu],
                forall|j: int|
                    0 <= j < MEM_SIZE && !(iu <= j < iu + k) ==> self.memory@[j] == pre.memory[j],
                self.memory_end == pre.memory_end,
                self.v@ == pre.v,
                self.i == pre.i,
                self.pc == pre.pc,
                self.sp == pre.sp,
                self.dt == pre.dt,
                self.st == pre.st,
                self.keyboard@ == pre.keyboard,
                self.waiting == pre.waiting,
                self.screen@ == pre.screen,
                self.screen_updated == pre.screen_updated,
                self.strict_stack == pre.strict_stack,
            decreases x + 1 - k,
        {
            self.memory.set(iu + k, self.v[k]);
            k += 1;
        }
        self.i = self.i + x as u16 + 1;
        self.i
    }

    /// Fill V0..=Vx from memory at I.
    fn load_regs(&mut self, x: usize) -> (new_i: u16)
        requires
            old(self)@.wf(),
            x < 16,
            old(self)@.i as int + x + 1 <= MEM_SIZE,
        ensures
            final(self)@ == (MachineState { v: final(self)@.v, i: new_i, ..old(self)@ }),
            new_i == old(self)@.i + x + 1,
            final(self)@.v.len() == 16,
            forall|j: int|
                0 <= j <= x ==> final(self)@.v[j] == old(self)@.memory[old(self)@.i + j],
            forall|j: int| x < j < 16 ==> final(self)@.v[j] == old(self)@.v[j],
            final(self)@.wf(),
    {
        let ghost pre = self@;
        let iu = self.i as usize;
        let mut k: usize = 0;
        while k <= x
            invariant
                pre.wf(),
                x < 16,
                iu == pre.i as usize,
                iu + x + 1 <= MEM_SIZE,
                k <= x + 1,
                self.v@.len() == 16,
                forall|j: int| 0 <= j < k ==> self.v@[j] == pre.memory[iu + j],
                forall|j: int| k <= j < 16 ==> self.v@[j] == pre.v[j],
                self.memory@ == pre.memory,
                self.memory_end == pre.memory_end,
                self.i == pre.i,
                self.pc == pre.pc,
                self.sp == pre.sp,
                self.dt == pre.dt,
                self.st == pre.st,
                self.keyboard@ == pre.keyboard,
                self.waiting == pre.waiting,
                self.screen@ == pre.screen,
                self.screen_updated == pre.screen_updated,
                self.strict_stack == pre.strict_stack,
            decreases x + 1 - k,
        {
            let b = self.memory[iu + k];
            self.v.set(k, b);
            k += 1;
        }
        self.i = self.i + x as u16 + 1;
        self.i
    }

    /// The instructions whose high nibble is 0 to 4: clear, return, jumps,
    /// calls and the immediate skips.
    fn exec_g0(&mut self, instruction: u16, nibbles: Nibbles) -> (res: Result<(), Chip8Error>)
        requires
            old(self)@.wf(),
            old(self)@.pc <= 4096,
            nibbles.0 == op_nib1(instruction) as usize,
            nibbles.1 == op_nib2(instruction) as usize,
            nibbles.2 == op_nib3(instruction) as usize,
            nibbles.3 == op_nib4(instruction) as usize,
            nibbles.0 <= 4,
        ensures
            final(self)@.wf(),
            exists|r: u8| #[trigger] op_effect(old(self)@, instruction, r) == (final(self)@, res),
    {
        let ghost pre = self@;
        proof {
            lemma_operand_bounds(instruction);
        }
        let address = instruction & 0x0FFF;
        let byte = (instruction & 0x00FF) as u8;
        let x = nibbles.1;
        match nibbles {
            (0x0, 0x0, 0xE, 0x0) => {
                // 00E0: clear the framebuffer
                self.screen = filled(SCREEN_AREA, 0u8);
                proof {
                    reveal(op_effect);
                    assert(self@.screen =~= blank_screen_seq());
                    assert(op_effect(pre, instruction, 0u8).0 =~= self@);
                    assert(op_effect(pre, instruction, 0u8) == (self@, Ok::<(), Chip8Error>(())));
                }
                Ok(())
            },
            (0x0, 0x0, 0xE, 0xE) => {
                // 00EE: pop the return address into the program counter
                if self.strict_stack && self.sp < 2 {
                    proof {
                        reveal(op_effect);
                        assert(op_effect(pre, instruction, 0u8) == (self@, Err::<(), Chip8Error>(
                            Chip8Error::MemoryFault(pre.sp as u16),
                        )));
                    }
                    Err(Chip8Error::MemoryFault(self.sp as u16))
                } else {
                    let sp2 = if self.sp >= 2 {
                        self.sp - 2
                    } else {
                        self.sp + 254
                    };
                    let a = sp2 as usize;
                    let pop_lo = self.memory[a];
                    let pop_hi = self.memory[a + 1];
                    self.pc = (pop_lo as u16) | ((pop_hi as u16) << 8u16);
                    self.sp = sp2;
                    proof {
                        reveal(op_effect);
                        assert(sp2 == wrap_sub(pre.sp, 2));
                        assert(op_effect(pre, instruction, 0u8) == (self@, Ok::<(), Chip8Error>(
                            (),
                        )));
                    }
                    Ok(())
                }
            },
            (0x1, _, _, _) => {
                // 1nnn: jump
                self.pc = address;
                proof {
                    reveal(op_effect);
                    assert(op_effect(pre, instruction, 0u8) == (self@, Ok::<(), Chip8Error>(())));
                }
                Ok(())
            },
            (0x2, _, _, _) => {
                // 2nnn: push the return address, then jump
                if self.strict_stack && self.sp > 0xFD {
                    proof {
                        reveal(op_effect);
                        assert(op_effect(pre, instruction, 0u8) == (self@, Err::<(), Chip8Error>(
                            Chip8Error::MemoryFault(pre.sp as u16),
                        )));
                    }
                    Err(Chip8Error::MemoryFault(self.sp as u16))
                } else {
                    let spu = self.sp as usize;
                    let retaddr = self.pc;
                    self.memory.set(spu, (retaddr & 0xFF) as u8);
                    self.memory.set(spu + 1, ((retaddr >> 8u16) & 0xFF) as u8);
                    self.sp = if self.sp <= 253 {
                        self.sp + 2
                    } else {
                        self.sp - 254
                    };
                    self.pc = address;
                    proof {
                        reveal(op_effect);
                        assert(self@.sp == wrap_add(pre.sp, 2));
                        assert(op_effect(pre, instruction, 0u8) == (self@, Ok::<(), Chip8Error>(
                            (),
                        )));
                    }
                    Ok(())
                }
            },
            (0x3, _, _, _) => {
                // 3xkk: skip if Vx == kk
                if self.v[x] == byte {
                    self.pc += 2;
                }
                proof {
                    reveal(op_effect);
                    assert(op_effect(pre, instruction, 0u8) == (self@, Ok::<(), Chip8Error>(())));
                }
                Ok(())
            },
            (0x4, _, _, _) => {
                // 4xkk: skip if Vx != kk
                if self.v[x] != byte {
                    self.pc += 2;
                }
                proof {
                    reveal(op_effect);
                    assert(op_effect(pre, instruction, 0u8) == (self@, Ok::<(), Chip8Error>(())));
                }
                Ok(())
            },
            _ => {
                proof {
                    reveal(op_effect);
                    assert(op_effect(pre, instruction, 0u8) == (self@, Err::<(), Chip8Error>(
                        Chip8Error::UnknownOpcode(instruction),
                    )));
                }
                Err(Chip8Error::UnknownOpcode(instruction))
            },
        }
    }

    /// The instructions whose high nibble is 5 to 7: the register skip and
    /// the immediate loads.
    fn exec_g5(&mut self, instruction: u16, nibbles: Nibbles) -> (res: Result<(), Chip8Error>)
        requires
            old(self)@.wf(),
            old(self)@.pc <= 4096,
            nibbles.0 == op_nib1(instruction) as usize,
            nibbles.1 == op_nib2(instruction) as usize,
            nibbles.2 == op_nib3(instruction) as usize,
            nibbles.3 == op_nib4(instruction) as usize,
            5 <= nibbles.0 <= 7,
        ensures
            final(self)@.wf(),
            exists|r: u8| #[trigger] op_effect(old(self)@, instruction, r) == (final(self)@, res),
    {
        let ghost pre = self@;
        proof {
            lemma_operand_bounds(instruction);
        }
        let byte = (instruction & 0x00FF) as u8;
        let y = nibbles.2;
        let x = nibbles.1;
        match nibbles {
            (0x5, _, _, 0x0) => {
                // 5xy0: skip if Vx == Vy
                if self.v[x] == self.v[y] {
                    self.pc += 2;
                }
                proof {
                    reveal(op_effect);
                    assert(op_effect(pre, instruction, 0u8) == (self@, Ok::<(), Chip8Error>(())));
                }
                Ok(())
            },
            (0x6, _, _, _) => {
                // 6xkk: Vx = kk
                self.v.set(x, byte);
                proof {
                    reveal(op_effect);
                    assert(op_effect(pre, instruction, 0u8) == (self@, Ok::<(), Chip8Error>(())));
                }
                Ok(())
            },
            (0x7, _, _, _) => {
                // 7xkk: Vx = Vx + kk wrapping, flag untouched
                let sum = self.v[x] as u16 + byte as u16;
                self.v.set(x, (sum % 256) as u8);
                proof {
                    reveal(op_effect);
                    assert(op_effect(pre, instruction, 0u8) == (self@, Ok::<(), Chip8Error>(())));
                }
                Ok(())
            },
            _ => {
                proof {
                    reveal(op_effect);
                    assert(op_effect(pre, instruction, 0u8) == (self@, Err::<(), Chip8Error>(
                        Chip8Error::UnknownOpcode(instruction),
                    )));
                }
                Err(Chip8Error::UnknownOpcode(instruction))
            },
        }
    }

    /// The instructions whose high nibble is 8: the arithmetic-logic group.
    #[verifier::rlimit(100)]
    fn exec_g8(&mut self, instruction: u16, nibbles: Nibbles) -> (res: Result<(), Chip8Error>)
        requires
            old(self)@.wf(),
            old(self)@.pc <= 4096,
            nibbles.0 == op_nib1(instruction) as usize,
            nibbles.1 == op_nib2(instruction) as usize,
            nibbles.2 == op_nib3(instruction) as usize,
            nibbles.3 == op_nib4(instruction) as usize,
            nibbles.0 == 8,
        ensures
            final(self)@.wf(),
            exists|r: u8| #[trigger] op_effect(old(self)@, instruction, r) == (final(self)@, res),
    {
        let ghost pre = self@;
        proof {
            lemma_operand_bounds(instruction);
        }
        let y = nibbles.2;
        let x = nibbles.1;
        match nibbles {
            (0x8, _, _, 0x0) => {
                // 8xy0: Vx = Vy
                let vy = self.v[y];
                self.v.set(x, vy);
                proof {
                    reveal(op_effect);
                    assert(op_effect(pre, instruction, 0u8) == (self@, Ok::<(), Chip8Error>(())));
                }
                Ok(())
            },
            (0x8, _, _, 0x1) => {
                // 8xy1: Vx = Vx | Vy
                let r = self.v[x] | self.v[y];
                self.v.set(x, r);
                proof {
                    reveal(op_effect);
                    assert(op_effect(pre, instruction, 0u8) == (self@, Ok::<(), Chip8Error>(())));
                }
                Ok(())
            },
            (0x8, _, _, 0x2) => {
                // 8xy2: Vx = Vx & Vy
                let r = self.v[x] & self.v[y];
                self.v.set(x, r);
                proof {
                    reveal(op_effect);
                    assert(op_effect(pre, instruction, 0u8) == (self@, Ok::<(), Chip8Error>(())));
                }
                Ok(())
            },
            (0x8, _, _, 0x3) => {
                // 8xy3: Vx = Vx ^ Vy
                let r = self.v[x] ^ self.v[y];
                self.v.set(x, r);
                proof {
                    reveal(op_effect);
                    assert(op_effect(pre, instruction, 0u8) == (self@, Ok::<(), Chip8Error>(())));
                }
                Ok(())
            },
            (0x8, _, _, 0x4) => {
                // 8xy4: Vx = Vx + Vy wrapping; VF = 1 exactly on overflow
                let sum = self.v[x] as u16 + self.v[y] as u16;
                self.v.set(x, (sum % 256) as u8);
                self.v.set(
                    15,
                    if sum > 255 {
                        1
                    } else {
                        0
                    },
                );
                proof {
                    reveal(op_effect);
                    assert(op_effect(pre, instruction, 0u8) == (self@, Ok::<(), Chip8Error>(())));
                }
                Ok(())
            },
            (0x8, _, _, 0x5) => {
                // 8xy5: Vx = Vx - Vy wrapping; VF = 1 exactly when no borrow
                let vx = self.v[x];
                let vy = self.v[y];
                let sub = if vx >= vy {
                    vx - vy
                } else {
                    ((vx as u16 + 256) - vy as u16) as u8
                };
                self.v.set(x, sub);
                self.v.set(
                    15,
                    if vx >= vy {
                        1
                    } else {
                        0
                    },
                );
                proof {
                    reveal(op_effect);
                    assert(sub == wrap_sub(pre.v[x as int], pre.v[y as int]));
                    assert(op_effect(pre, instruction, 0u8) == (self@, Ok::<(), Chip8Error>(())));
                }
                Ok(())
            },
            (0x8, _, _, 0x6) => {
                // 8xy6: Vx = Vx >> 1; VF = the bit shifted out
                let vx = self.v[x];
                self.v.set(x, vx >> 1u8);
                self.v.set(15, vx & 1);
                proof {
                    reveal(op_effect);
                    assert(op_effect(pre, instruction, 0u8) == (self@, Ok::<(), Chip8Error>(())));
                }
                Ok(())
            },
            (0x8, _, _, 0x7) => {
                // 8xy7: Vx = Vy - Vx wrapping; VF = 1 exactly when no borrow
                let vx = self.v[x];
                let vy = self.v[y];
                let sub = if vy >= vx {
                    vy - vx
                } else {
                    ((vy as u16 + 256) - vx as u16) as u8
                };
                self.v.set(x, sub);
                self.v.set(
                    15,
                    if vy >= vx {
                        1
                    } else {
                        0
                    },
                );
                proof {
                    reveal(op_effect);
                    assert(sub == wrap_sub(pre.v[y as int], pre.v[x as int]));
                    assert(op_effect(pre, instruction, 0u8) == (self@, Ok::<(), Chip8Error>(())));
                }
                Ok(())
            },
            (0x8, _, _, 0xE) => {
                // 8xyE: Vx = Vx << 1 truncated; VF = the bit shifted out
                let vx = self.v[x];
                self.v.set(x, vx << 1u8);
                self.v.set(15, (vx & 128) >> 7u8);
                proof {
                    reveal(op_effect);
                    assert(op_effect(pre, instruction, 0u8) == (self@, Ok::<(), Chip8Error>(())));
                }
                Ok(())
            },
            _ => {
                proof {
                    reveal(op_effect);
                    assert(op_effect(pre, instruction, 0u8) == (self@, Err::<(), Chip8Error>(
                        Chip8Error::UnknownOpcode(instruction),
                    )));
                }
                Err(Chip8Error::UnknownOpcode(instruction))
            },
        }
    }

    /// The instructions whose high nibble is 9 to C: the register skip, the
    /// index load, the offset jump and the random byte.
    fn exec_g9(&mut self, instruction: u16, nibbles: Nibbles) -> (res: Result<(), Chip8Error>)
        requires
            old(self)@.wf(),
            old(self)@.pc <= 4096,
            nibbles.0 == op_nib1(instruction) as usize,
            nibbles.1 == op_nib2(instruction) as usize,
            nibbles.2 == op_nib3(instruction) as usize,
            nibbles.3 == op_nib4(instruction) as usize,
            9 <= nibbles.0 <= 0xC,
        ensures
            final(self)@.wf(),
            exists|r: u8| #[trigger] op_effect(old(self)@, instruction, r) == (final(self)@, res),
    {
        let ghost pre = self@;
        proof {
            lemma_operand_bounds(instruction);
        }
        let address = instruction & 0x0FFF;
        let byte = (instruction & 0x00FF) as u8;
        let y = nibbles.2;
        let x = nibbles.1;
        match nibbles {
            (0x9, _, _, 0x0) => {
                // 9xy0: skip if Vx != Vy
                if self.v[x] != self.v[y] {
                    self.pc += 2;
                }
                proof {
                    reveal(op_effect);
                    assert(op_effect(pre, instruction, 0u8) == (self@, Ok::<(), Chip8Error>(())));
                }
                Ok(())
            },
            (0xA, _, _, _) => {
                // Annn: I = nnn
                self.i = address;
                proof {
                    reveal(op_effect);
                    assert(op_effect(pre, instruction, 0u8) == (self@, Ok::<(), Chip8Error>(())));
                }
                Ok(())
            },
            (0xB, _, _, _) => {
                // Bnnn: jump to nnn + V0
                self.pc = address + self.v[0] as u16;
                proof {
                    reveal(op_effect);
                    assert(op_effect(pre, instruction, 0u8) == (self@, Ok::<(), Chip8Error>(())));
                }
                Ok(())
            },
            (0xC, _, _, _) => {
                // Cxkk: Vx = random byte AND kk
                let rb = random_byte();
                self.v.set(x, rb & byte);
                proof {
                    reveal(op_effect);
                    assert(op_effect(pre, instruction, rb) == (self@, Ok::<(), Chip8Error>(())));
                }
                Ok(())
            },
            _ => {
                proof {
                    reveal(op_effect);
                    assert(op_effect(pre, instruction, 0u8) == (self@, Err::<(), Chip8Error>(
                        Chip8Error::UnknownOpcode(instruction),
                    )));
                }
                Err(Chip8Error::UnknownOpcode(instruction))
            },
        }
    }

    /// The instructions whose high nibble is D to F: the sprite draw, the key
    /// skips, the timer, keypad-wait, index and memory-block group.
    #[verifier::rlimit(100)]
    fn exec_gd(&mut self, instruction: u16, nibbles: Nibbles) -> (res: Result<(), Chip8Error>)
        requires
            old(self)@.wf(),
            old(self)@.pc <= 4096,
            nibbles.0 == op_nib1(instruction) as usize,
            nibbles.1 == op_nib2(instruction) as usize,
            nibbles.2 == op_nib3(instruction) as usize,
            nibbles.3 == op_nib4(instruction) as usize,
            0xD <= nibbles.0,
        ensures
            final(self)@.wf(),
            exists|r: u8| #[trigger] op_effect(old(self)@, instruction, r) == (final(self)@, res),
    {
        let ghost pre = self@;
        proof {
            lemma_operand_bounds(instruction);
        }
        let nibble = nibbles.3;
        let y = nibbles.2;
        let x = nibbles.1;
        match nibbles {
            (0xD, _, _, _) => {
                // Dxyn: draw the n-row sprite at I at (Vx mod 64, Vy mod 32)
                if (self.i as usize) + nibble > MEM_SIZE {
                    proof {
                        reveal(op_effect);
                        assert(op_effect(pre, instruction, 0u8) == (self@, Err::<(), Chip8Error>(
                            Chip8Error::MemoryFault(pre.i),
                        )));
                    }
                    Err(Chip8Error::MemoryFault(self.i))
                } else {
                    let x_pos = (self.v[x] as usize) % 64;
                    let y_pos = (self.v[y] as usize) % 32;
                    let collided = self.draw_sprite(x_pos, y_pos, nibble);
                    self.v.set(
                        15,
                        if collided {
                            1
                        } else {
                            0
                        },
                    );
                    self.screen_updated = true;
                    proof {
                        reveal(op_effect);
                        assert(op_effect(pre, instruction, 0u8).0 =~= self@);
                        assert(op_effect(pre, instruction, 0u8) == (self@, Ok::<(), Chip8Error>(
                            (),
                        )));
                    }
                    Ok(())
                }
            },
            (0xE, _, 0x9, 0xE) => {
                // Ex9E: skip if key Vx is down
                let vx = self.v[x];
                if vx >= 16 {
                    proof {
                        reveal(op_effect);
                        assert(op_effect(pre, instruction, 0u8) == (self@, Err::<(), Chip8Error>(
                            Chip8Error::MemoryFault(pre.v[x as int] as u16),
                        )));
                    }
                    Err(Chip8Error::MemoryFault(vx as u16))
                } else {
                    if self.keyboard[vx as usize] {
                        self.pc += 2;
                    }
                    proof {
                        reveal(op_effect);
                        assert(op_effect(pre, instruction, 0u8) == (self@, Ok::<(), Chip8Error>(
                            (),
                        )));
                    }
                    Ok(())
                }
            },
            (0xE, _, 0xA, 0x1) => {
                // ExA1: skip if key Vx is up
                let vx = self.v[x];
                if vx >= 16 {
                    proof {
                        reveal(op_effect);
                        assert(op_effect(pre, instruction, 0u8) == (self@, Err::<(), Chip8Error>(
                            Chip8Error::MemoryFault(pre.v[x as int] as u16),
                        )));
                    }
                    Err(Chip8Error::MemoryFault(vx as u16))
                } else {
                    if !self.keyboard[vx as usize] {
                        self.pc += 2;
                    }
                    proof {
                        reveal(op_effect);
                        assert(op_effect(pre, instruction, 0u8) == (self@, Ok::<(), Chip8Error>(
                            (),
                        )));
                    }
                    Ok(())
                }
            },
            (0xF, _, 0x0, 0x7) => {
                // Fx07: Vx = DT
                let d = self.dt;
                self.v.set(x, d);
                proof {
                    reveal(op_effect);
                    assert(op_effect(pre, instruction, 0u8) == (self@, Ok::<(), Chip8Error>(())));
                }
                Ok(())
            },
            (0xF, _, 0x0, 0xA) => {
                // Fx0A: clear the keys and await one for Vx
                self.keyboard = filled(16, false);
                self.waiting = Some(x as u8);
                proof {
                    reveal(op_effect);
                    assert(self@.keyboard =~= no_keys());
                    assert(op_effect(pre, instruction, 0u8).0 =~= self@);
                    assert(op_effect(pre, instruction, 0u8) == (self@, Ok::<(), Chip8Error>(())));
                }
                Ok(())
            },
            (0xF, _, 0x1, 0x5) => {
                // Fx15: DT = Vx
                self.dt = self.v[x];
                proof {
                    reveal(op_effect);
                    assert(op_effect(pre, instruction, 0u8) == (self@, Ok::<(), Chip8Error>(())));
                }
                Ok(())
            },
            (0xF, _, 0x1, 0x8) => {
                // Fx18: ST = Vx
                self.st = self.v[x];
                proof {
                    reveal(op_effect);
                    assert(op_effect(pre, instruction, 0u8) == (self@, Ok::<(), Chip8Error>(())));
                }
                Ok(())
            },
            (0xF, _, 0x1, 0xE) => {
                // Fx1E: I = I + Vx wrapping, flag untouched
                let sum = self.i as u32 + self.v[x] as u32;
                self.i = (sum % 0x10000) as u16;
                proof {
                    reveal(op_effect);
                    assert(op_effect(pre, instruction, 0u8) == (self@, Ok::<(), Chip8Error>(())));
                }
                Ok(())
            },
            (0xF, _, 0x2, 0x9) => {
                // Fx29: I = address of the font glyph for Vx
                let g = (self.v[x] as usize * 5) % 256;
                self.i = (SPRITES_START + g) as u16;
                proof {
                    reveal(op_effect);
                    assert(op_effect(pre, instruction, 0u8) == (self@, Ok::<(), Chip8Error>(())));
                }
                Ok(())
            },
            (0xF, _, 0x3, 0x3) => {
                // Fx33: memory[I..I+3] = the decimal digits of Vx
                if (self.i as usize) + 3 > MEM_SIZE {
                    proof {
                        reveal(op_effect);
                        assert(op_effect(pre, instruction, 0u8) == (self@, Err::<(), Chip8Error>(
                            Chip8Error::MemoryFault(pre.i),
                        )));
                    }
                    Err(Chip8Error::MemoryFault(self.i))
                } else {
                    let vx = self.v[x];
                    let iu = self.i as usize;
                    self.memory.set(iu, (vx / 100) % 10);
                    self.memory.set(iu + 1, (vx / 10) % 10);
                    self.memory.set(iu + 2, vx % 10);
                    proof {
                        reveal(op_effect);
                        assert(op_effect(pre, instruction, 0u8) == (self@, Ok::<(), Chip8Error>(
                            (),
                        )));
                    }
                    Ok(())
                }
            },
            (0xF, _, 0x5, 0x5) => {
                // Fx55: memory[I..=I+x] = V0..=Vx; I = I + x + 1
                if (self.i as usize) + x + 1 > MEM_SIZE {
                    proof {
                        reveal(op_effect);
                        assert(op_effect(pre, instruction, 0u8) == (self@, Err::<(), Chip8Error>(
                            Chip8Error::MemoryFault(pre.i),
                        )));
                    }
                    Err(Chip8Error::MemoryFault(self.i))
                } else {
                    self.store_regs(x);
                    proof {
                        reveal(op_effect);
                        assert(op_effect(pre, instruction, 0u8).0.memory =~= self@.memory);
                        assert(op_effect(pre, instruction, 0u8).0 =~= self@);
                        assert(op_effect(pre, instruction, 0u8) == (self@, Ok::<(), Chip8Error>(
                            (),
                        )));
                    }
                    Ok(())
                }
            },
            (0xF, _, 0x6, 0x5) => {
                // Fx65: V0..=Vx = memory[I..=I+x]; I = I + x + 1
                if (self.i as usize) + x + 1 > MEM_SIZE {
                    proof {
                        reveal(op_effect);
                        assert(op_effect(pre, instruction, 0u8) == (self@, Err::<(), Chip8Error>(
                            Chip8Error::MemoryFault(pre.i),
                        )));
                    }
                    Err(Chip8Error::MemoryFault(self.i))
                } else {
                    self.load_regs(x);
                    proof {
                        reveal(op_effect);
                        assert(op_effect(pre, instruction, 0u8).0.v =~= self@.v);
                        assert(op_effect(pre, instruction, 0u8).0 =~= self@);
                        assert(op_effect(pre, instruction, 0u8) == (self@, Ok::<(), Chip8Error>(
                            (),
                        )));
                    }
                    Ok(())
                }
            },
            _ => {
                proof {
                    reveal(op_effect);
                    assert(op_effect(pre, instruction, 0u8) == (self@, Err::<(), Chip8Error>(
                        Chip8Error::UnknownOpcode(instruction),
                    )));
                }
                Err(Chip8Error::UnknownOpcode(instruction))
            },
        }
    }

    /// One fetch-decode-execute cycle, exactly as `step_spec` describes it:
    /// the redraw flag drops; a machine awaiting a key does nothing more; a
    /// fetch outside the loaded program reports a memory fault; otherwise the
    /// fetched instruction takes its documented effect, and a pattern outside
    /// the instruction table reports an unknown opcode.
    pub fn tick(&mut self) -> (res: Result<(), Chip8Error>)
        requires
            old(self)@.wf(),
        ensures
            final(self)@.wf(),
            steps_to(old(self)@, final(self)@, res),
    {
        let ghost pre = self@;
        self.screen_updated = false;

        if self.waiting.is_some() {
            proof {
                lemma_steps_to(pre, self@, Ok(()), 0u8);
            }
            return Ok(());
        }

        if self.pc < PROG_OFFSET as u16 || self.memory_end <= self.pc as usize || MEM_SIZE < (
        self.pc as usize) + 2 {
            proof {
                assert(!fetch_ok(pre));
                lemma_steps_to(pre, self@, Err(Chip8Error::MemoryFault(pre.pc)), 0u8);
            }
            return Err(Chip8Error::MemoryFault(self.pc));
        }

        let pc_us = self.pc as usize;
        let hi = self.memory[pc_us];
        let lo = self.memory[pc_us + 1];
        let instruction: u16 = ((hi as u16) << 8u16) | (lo as u16);
        self.pc = self.pc + 2;
        let ghost s = self@;

        let nibbles = decode(instruction);
        proof {
            assert(instruction == word_at(pre.memory, pre.pc as int));
            assert(s == (MachineState { pc: (pre.pc + 2) as u16, screen_updated: false, ..pre }));
        }

        let res: Result<(), Chip8Error> = if nibbles.0 <= 4 {
            self.exec_g0(instruction, nibbles)
        } else if nibbles.0 <= 7 {
            self.exec_g5(instruction, nibbles)
        } else if nibbles.0 == 8 {
            self.exec_g8(instruction, nibbles)
        } else if nibbles.0 <= 0xC {
            self.exec_g9(instruction, nibbles)
        } else {
            self.exec_gd(instruction, nibbles)
        };
        proof {
            let r = choose|r: u8| op_effect(s, instruction, r) == (self@, res);
            assert(step_spec(pre, r) == (self@, res));
            lemma_steps_to(pre, self@, res, r);
        }
        res
    }
}

} // verus!
