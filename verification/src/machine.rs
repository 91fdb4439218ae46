//! The mathematical model of the CHIP-8 machine: its state, its invariant,
//! and `step_spec`, the exact effect of one fetch-decode-execute cycle for
//! every instruction of the documented table.

use vstd::prelude::*;
use crate::decode::{op_addr, op_byte, op_nib1, op_nib2, op_nib3, op_nib4, lemma_operand_bounds};
use crate::screen::{
    blank_screen_seq, draw_bits, draw_rows, lemma_draw_bits_at, lemma_draw_bits_frame,
    lemma_draw_bits_hit, lemma_draw_bits_wf, pixel_byte, pixel_lit, screen_wf, sprite_bit,
    SCREEN_AREA,
};

verus! {

/// Bytes of addressable memory.
pub const MEM_SIZE: usize = 4096;

/// Programs are loaded at this address and the program counter starts here.
pub const PROG_OFFSET: usize = 0x200;

/// First byte of the stack region.
pub const STACK_START: u8 = 0x000;

/// First byte past the stack region.
pub const STACK_END: u8 = 0xFF;

/// First byte of the built-in font sprite table.
pub const SPRITES_START: usize = 0x0FF;

/// First byte past the font sprite table.
pub const SPRITES_END: usize = 0x14F;

/// The built-in font: sixteen 5-byte sprites for the hexadecimal digits,
/// baked into memory at construction and never mutated afterwards.
pub const CHIP8_FONT: [u8; 80] = [
    0xF0, 0x90, 0x90, 0x90, 0xF0,  // 0
    0x20, 0x60, 0x20, 0x20, 0x70,  // 1
    0xF0, 0x10, 0xF0, 0x80, 0xF0,  // 2
    0xF0, 0x10, 0xF0, 0x10, 0xF0,  // 3
    0x90, 0x90, 0xF0, 0x10, 0x10,  // 4
    0xF0, 0x80, 0xF0, 0x10, 0xF0,  // 5
    0xF0, 0x80, 0xF0, 0x90, 0xF0,  // 6
    0xF0, 0x10, 0x20, 0x40, 0x40,  // 7
    0xF0, 0x90, 0xF0, 0x90, 0xF0,  // 8
    0xF0, 0x90, 0xF0, 0x10, 0xF0,  // 9
    0xF0, 0x90, 0xF0, 0x90, 0x90,  // a
    0xE0, 0x90, 0xE0, 0x90, 0xE0,  // b
    0xF0, 0x80, 0x80, 0x80, 0xF0,  // c
    0xE0, 0x90, 0x90, 0x90, 0xE0,  // d
    0xF0, 0x80, 0xF0, 0x80, 0xF0,  // e
    0xF0, 0x80, 0xF0, 0x80, 0x80,  // f
];

/// The failures one cycle can report.  A memory fault carries the offending
/// address (or stack pointer), an unknown opcode carries the raw instruction
/// word.
#[derive(Debug, Clone, Copy, PartialEq, Eq, Structural)]
pub enum Chip8Error {
    MemoryFault(u16),
    UnknownOpcode(u16),
}

/// The machine as mathematics: what every contract of this crate speaks of.
#[verifier::ext_equal]
pub ghost struct MachineState {
    /// 4096 bytes of memory: stack, font table, then the loaded program.
    pub memory: Seq<u8>,
    /// One past the last loaded program byte: `0x200` + the ROM's length.
    pub memory_end: int,
    /// The sixteen 8-bit registers V0..VF; VF doubles as the flag register.
    pub v: Seq<u8>,
    /// The 16-bit index register.
    pub i: u16,
    /// The program counter.
    pub pc: u16,
    /// The stack pointer: bytes pushed into the stack region.
    pub sp: u8,
    /// The delay timer.
    pub dt: u8,
    /// The sound timer.
    pub st: u8,
    /// One flag per hexadecimal key: true while held down.
    pub keyboard: Seq<bool>,
    /// When present, the machine is suspended until a key is delivered into
    /// the register with this index.
    pub waiting: Option<u8>,
    /// The 64x32 framebuffer, one byte per pixel, row-major.
    pub screen: Seq<u8>,
    /// Whether the last cycle redrew the framebuffer.
    pub screen_updated: bool,
    /// When true, calls and returns fault instead of letting the stack
    /// pointer leave the stack region.
    pub strict_stack: bool,
}

impl MachineState {
    /// Well-formedness: the sizes of the parts and the range of every index
    /// the machine keeps.
    pub open spec fn wf(self) -> bool {
        &&& self.memory.len() == MEM_SIZE
        &&& self.v.len() == 16
        &&& self.keyboard.len() == 16
        &&& screen_wf(self.screen)
        &&& PROG_OFFSET <= self.memory_end <= MEM_SIZE
        &&& match self.waiting {
            Some(r) => r < 16,
            None => true,
        }
    }
}

/// All sixteen registers zero.
pub open spec fn zero_regs() -> Seq<u8> {
    Seq::new(16, |k: int| 0u8)
}

/// All sixteen keys up.
pub open spec fn no_keys() -> Seq<bool> {
    Seq::new(16, |k: int| false)
}

/// Addition on a register, wrapping at 256.
pub open spec fn wrap_add(a: u8, b: u8) -> u8 {
    ((a + b) % 256) as u8
}

/// Subtraction on a register, wrapping at 256.
pub open spec fn wrap_sub(a: u8, b: u8) -> u8 {
    ((a - b + 256) % 256) as u8
}

/// The big-endian 16-bit word stored at address `a`.
pub open spec fn word_at(mem: Seq<u8>, a: int) -> u16 {
    ((mem[a] as u16) << 8u16) | (mem[a + 1] as u16)
}

/// The little-endian 16-bit word stored at address `a`; this is how return
/// addresses sit in the stack region.
pub open spec fn stack_word_at(mem: Seq<u8>, a: int) -> u16 {
    (mem[a] as u16) | ((mem[a + 1] as u16) << 8u16)
}

/// An instruction may be fetched only from within the loaded program, and
/// both of its bytes must lie inside memory.
pub open spec fn fetch_ok(s: MachineState) -> bool {
    &&& PROG_OFFSET <= s.pc < s.memory_end
    &&& s.pc + 2 <= MEM_SIZE
}

/// The effect of the already-fetched instruction `op` on the machine `s`,
/// whose program counter has advanced past `op`.  `rand` is the byte the
/// random-number opcode draws.  Returns the next state and whether the cycle
/// faulted.
#[verifier::opaque]
pub open spec fn op_effect(s: MachineState, op: u16, rand: u8) -> (
    MachineState,
    Result<(), Chip8Error>,
)
{
    let n1 = op_nib1(op);
    let n2 = op_nib2(op);
    let n3 = op_nib3(op);
    let n4 = op_nib4(op);
    let x = op_nib2(op) as int;
    let y = op_nib3(op) as int;
    let n = op_nib4(op) as int;
    let kk = op_byte(op);
    let nnn = op_addr(op);
    if n1 == 0 {
        if n2 == 0 && n3 == 0xE && n4 == 0 {
            // 00E0: clear the framebuffer
            (MachineState { screen: blank_screen_seq(), ..s }, Ok(()))
        } else if n2 == 0 && n3 == 0xE && n4 == 0xE {
            // 00EE: pop the return address into the program counter
            if s.strict_stack && s.sp < 2 {
                (s, Err(Chip8Error::MemoryFault(s.sp as u16)))
            } else {
                let sp2 = wrap_sub(s.sp, 2);
                (MachineState { sp: sp2, pc: stack_word_at(s.memory, sp2 as int), ..s }, Ok(()))
            }
        } else {
            (s, Err(Chip8Error::UnknownOpcode(op)))
        }
    } else if n1 == 1 {
        // 1nnn: jump
        (MachineState { pc: nnn, ..s }, Ok(()))
    } else if n1 == 2 {
        // 2nnn: push the return address little-endian, then jump
        if s.strict_stack && s.sp > 0xFD {
            (s, Err(Chip8Error::MemoryFault(s.sp as u16)))
        } else {
            (
                MachineState {
                    memory: s.memory.update(s.sp as int, (s.pc & 0xFF) as u8).update(
                        s.sp as int + 1,
                        ((s.pc >> 8u16) & 0xFF) as u8,
                    ),
                    sp: wrap_add(s.sp, 2),
                    pc: nnn,
                    ..s
                },
                Ok(()),
            )
        }
    } else if n1 == 3 {
        // 3xkk: skip next instruction if Vx == kk
        (MachineState { pc: if s.v[x] == kk { (s.pc + 2) as u16 } else { s.pc }, ..s }, Ok(()))
    } else if n1 == 4 {
        // 4xkk: skip next instruction if Vx != kk
        (MachineState { pc: if s.v[x] != kk { (s.pc + 2) as u16 } else { s.pc }, ..s }, Ok(()))
    } else if n1 == 5 {
        // 5xy0: skip next instruction if Vx == Vy; any other low nibble is
        // outside the instruction table
        if n4 == 0 {
            (
                MachineState { pc: if s.v[x] == s.v[y] { (s.pc + 2) as u16 } else { s.pc }, ..s },
                Ok(()),
            )
        } else {
            (s, Err(Chip8Error::UnknownOpcode(op)))
        }
    } else if n1 == 6 {
        // 6xkk: Vx = kk
        (MachineState { v: s.v.update(x, kk), ..s }, Ok(()))
    } else if n1 == 7 {
        // 7xkk: Vx = Vx + kk, wrapping, flag untouched
        (MachineState { v: s.v.update(x, wrap_add(s.v[x], kk)), ..s }, Ok(()))
    } else if n1 == 8 {
        if n4 == 0 {
            // 8xy0: Vx = Vy
            (MachineState { v: s.v.update(x, s.v[y]), ..s }, Ok(()))
        } else if n4 == 1 {
            // 8xy1: Vx = Vx | Vy
            (MachineState { v: s.v.update(x, s.v[x] | s.v[y]), ..s }, Ok(()))
        } else if n4 == 2 {
            // 8xy2: Vx = Vx & Vy
            (MachineState { v: s.v.update(x, s.v[x] & s.v[y]), ..s }, Ok(()))
        } else if n4 == 3 {
            // 8xy3: Vx = Vx ^ Vy
            (MachineState { v: s.v.update(x, s.v[x] ^ s.v[y]), ..s }, Ok(()))
        } else if n4 == 4 {
            // 8xy4: Vx = Vx + Vy wrapping; VF = 1 exactly on unsigned overflow
            let sum = s.v[x] as int + s.v[y] as int;
            (
                MachineState {
                    v: s.v.update(x, (sum % 256) as u8).update(
                        15,
                        if sum > 255 {
                            1u8
                        } else {
                            0u8
                        },
                    ),
                    ..s
                },
                Ok(()),
            )
        } else if n4 == 5 {
            // 8xy5: Vx = Vx - Vy wrapping; VF = 1 exactly when no borrow
            (
                MachineState {
                    v: s.v.update(x, wrap_sub(s.v[x], s.v[y])).update(
                        15,
                        if s.v[x] >= s.v[y] {
                            1u8
                        } else {
                            0u8
                        },
                    ),
                    ..s
                },
                Ok(()),
            )
        } else if n4 == 6 {
            // 8xy6: Vx = Vx >> 1; VF = the bit shifted out
            (
                MachineState { v: s.v.update(x, s.v[x] >> 1u8).update(15, s.v[x] & 1), ..s },
                Ok(()),
            )
        } else if n4 == 7 {
            // 8xy7: Vx = Vy - Vx wrapping; VF = 1 exactly when no borrow
            (
                MachineState {
                    v: s.v.update(x, wrap_sub(s.v[y], s.v[x])).update(
                        15,
                        if s.v[y] >= s.v[x] {
                            1u8
                        } else {
                            0u8
                        },
                    ),
                    ..s
                },
                Ok(()),
            )
        } else if n4 == 0xE {
            // 8xyE: Vx = Vx << 1 truncated; VF = the bit shifted out
            (
                MachineState {
                    v: s.v.update(x, s.v[x] << 1u8).update(15, (s.v[x] & 128) >> 7u8),
                    ..s
                },
                Ok(()),
            )
        } else {
            (s, Err(Chip8Error::UnknownOpcode(op)))
        }
    } else if n1 == 9 {
        // 9xy0: skip next instruction if Vx != Vy; any other low nibble is
        // outside the instruction table
        if n4 == 0 {
            (
                MachineState { pc: if s.v[x] != s.v[y] { (s.pc + 2) as u16 } else { s.pc }, ..s },
                Ok(()),
            )
        } else {
            (s, Err(Chip8Error::UnknownOpcode(op)))
        }
    } else if n1 == 0xA {
        // Annn: I = nnn
        (MachineState { i: nnn, ..s }, Ok(()))
    } else if n1 == 0xB {
        // Bnnn: jump to nnn + V0
        (MachineState { pc: (nnn + s.v[0]) as u16, ..s }, Ok(()))
    } else if n1 == 0xC {
        // Cxkk: Vx = random byte AND kk
        (MachineState { v: s.v.update(x, rand & kk), ..s }, Ok(()))
    } else if n1 == 0xD {
        // Dxyn: draw the n-row sprite at I, at (Vx mod 64, Vy mod 32)
        if s.i as int + n > MEM_SIZE {
            (s, Err(Chip8Error::MemoryFault(s.i)))
        } else {
            let res = draw_rows(
                s.screen,
                s.memory,
                s.i as int,
                s.v[x] as int % 64,
                s.v[y] as int % 32,
                n,
            );
            (
                MachineState {
                    screen: res.0,
                    v: s.v.update(
                        15,
                        if res.1 {
                            1u8
                        } else {
                            0u8
                        },
                    ),
                    screen_updated: true,
                    ..s
                },
                Ok(()),
            )
        }
    } else if n1 == 0xE {
        if n3 == 9 && n4 == 0xE {
            // Ex9E: skip next instruction if key Vx is down
            if s.v[x] as int >= 16 {
                (s, Err(Chip8Error::MemoryFault(s.v[x] as u16)))
            } else {
                (
                    MachineState {
                        pc: if s.keyboard[s.v[x] as int] {
                            (s.pc + 2) as u16
                        } else {
                            s.pc
                        },
                        ..s
                    },
                    Ok(()),
                )
            }
        } else if n3 == 0xA && n4 == 1 {
            // ExA1: skip next instruction if key Vx is up
            if s.v[x] as int >= 16 {
                (s, Err(Chip8Error::MemoryFault(s.v[x] as u16)))
            } else {
                (
                    MachineState {
                        pc: if !s.keyboard[s.v[x] as int] {
                            (s.pc + 2) as u16
                        } else {
                            s.pc
                        },
                        ..s
                    },
                    Ok(()),
                )
            }
        } else {
            (s, Err(Chip8Error::UnknownOpcode(op)))
        }
    } else if n1 == 0xF {
        if n3 == 0 && n4 == 7 {
            // Fx07: Vx = DT
            (MachineState { v: s.v.update(x, s.dt), ..s }, Ok(()))
        } else if n3 == 0 && n4 == 0xA {
            // Fx0A: clear the keys and suspend until one is delivered into Vx
            (MachineState { keyboard: no_keys(), waiting: Some(x as u8), ..s }, Ok(()))
        } else if n3 == 1 && n4 == 5 {
            // Fx15: DT = Vx
            (MachineState { dt: s.v[x], ..s }, Ok(()))
        } else if n3 == 1 && n4 == 8 {
            // Fx18: ST = Vx
            (MachineState { st: s.v[x], ..s }, Ok(()))
        } else if n3 == 1 && n4 == 0xE {
            // Fx1E: I = I + Vx, wrapping, flag untouched
            (MachineState { i: ((s.i + s.v[x]) % 0x10000) as u16, ..s }, Ok(()))
        } else if n3 == 2 && n4 == 9 {
            // Fx29: I = address of the font glyph for Vx (byte-wrapping product)
            (MachineState { i: (SPRITES_START + (s.v[x] as int * 5) % 256) as u16, ..s }, Ok(()))
        } else if n3 == 3 && n4 == 3 {
            // Fx33: memory[I..I+3] = the decimal digits of Vx
            if s.i as int + 3 > MEM_SIZE {
                (s, Err(Chip8Error::MemoryFault(s.i)))
            } else {
                (
                    MachineState {
                        memory: s.memory.update(s.i as int, ((s.v[x] as int / 100) % 10) as u8)
                            .update(s.i as int + 1, ((s.v[x] as int / 10) % 10) as u8).update(
                            s.i as int + 2,
                            (s.v[x] as int % 10) as u8,
                        ),
                        ..s
                    },
                    Ok(()),
                )
            }
        } else if n3 == 5 && n4 == 5 {
            // Fx55: memory[I..=I+x] = V0..=Vx; I = I + x + 1
            if s.i as int + x + 1 > MEM_SIZE {
                (s, Err(Chip8Error::MemoryFault(s.i)))
            } else {
                (
                    MachineState {
                        memory: Seq::new(
                            MEM_SIZE as nat,
                            |j: int|
                                if s.i as int <= j <= s.i as int + x {
                                    s.v[j - s.i as int]
                                } else {
                                    s.memory[j]
                                },
                        ),
                        i: (s.i + x + 1) as u16,
                        ..s
                    },
                    Ok(()),
                )
            }
        } else if n3 == 6 && n4 == 5 {
            // Fx65: V0..=Vx = memory[I..=I+x]; I = I + x + 1
            if s.i as int + x + 1 > MEM_SIZE {
                (s, Err(Chip8Error::MemoryFault(s.i)))
            } else {
                (
                    MachineState {
                        v: Seq::new(
                            16,
                            |j: int|
                                if j <= x {
                                    s.memory[s.i as int + j]
                                } else {
                                    s.v[j]
                                },
                        ),
                        i: (s.i + x + 1) as u16,
                        ..s
                    },
                    Ok(()),
                )
            }
        } else {
            (s, Err(Chip8Error::UnknownOpcode(op)))
        }
    } else {
        (s, Err(Chip8Error::UnknownOpcode(op)))
    }
}

/// One whole cycle from `pre`: the redraw flag drops, a suspended machine
/// does nothing else, a fetch outside the loaded program faults, and
/// otherwise the program counter advances past the fetched word before the
/// word takes effect.
pub open spec fn step_spec(pre: MachineState, rand: u8) -> (MachineState, Result<(), Chip8Error>) {
    let s0 = MachineState { screen_updated: false, ..pre };
    if pre.waiting is Some {
        (s0, Ok(()))
    } else if !fetch_ok(pre) {
        (s0, Err(Chip8Error::MemoryFault(pre.pc)))
    } else {
        op_effect(
            MachineState { pc: (pre.pc + 2) as u16, ..s0 },
            word_at(pre.memory, pre.pc as int),
            rand,
        )
    }
}

/// One cycle can take `pre` to `post` with outcome `res`: some drawn random
/// byte makes `step_spec` produce exactly that.
pub open spec fn steps_to(pre: MachineState, post: MachineState, res: Result<
    (),
    Chip8Error,
>) -> bool {
    exists|r: u8| #[trigger] step_spec(pre, r) == (post, res)
}

/// Memory as construction leaves it: all zero but for the font table.
pub open spec fn initial_memory() -> Seq<u8> {
    Seq::new(
        MEM_SIZE as nat,
        |j: int|
            if SPRITES_START <= j < SPRITES_END {
                CHIP8_FONT@[j - SPRITES_START]
            } else {
                0u8
            },
    )
}

/// The machine as construction leaves it: font loaded, everything else
/// zeroed, the program counter at the program offset.
pub open spec fn initial_state() -> MachineState {
    MachineState {
        memory: initial_memory(),
        memory_end: PROG_OFFSET as int,
        v: zero_regs(),
        i: 0,
        pc: 0x200,
        sp: 0,
        dt: 0,
        st: 0,
        keyboard: no_keys(),
        waiting: None,
        screen: blank_screen_seq(),
        screen_updated: false,
        strict_stack: false,
    }
}

/// The machine after a reboot: registers, timers, peripherals, the stack
/// region and the bytes past the loaded program are zeroed; the font, the
/// program and its recorded end stay.
pub open spec fn reboot_state(s: MachineState) -> MachineState {
    MachineState {
        memory: Seq::new(
            MEM_SIZE as nat,
            |j: int|
                if j < STACK_END as int || s.memory_end <= j {
                    0u8
                } else {
                    s.memory[j]
                },
        ),
        memory_end: s.memory_end,
        v: zero_regs(),
        i: 0,
        pc: 0x200,
        sp: 0,
        dt: 0,
        st: 0,
        keyboard: no_keys(),
        waiting: None,
        screen: blank_screen_seq(),
        screen_updated: false,
        strict_stack: s.strict_stack,
    }
}

/// How much of a ROM image fits at the program offset.
pub open spec fn rom_len(rom: Seq<u8>) -> int {
    if rom.len() > MEM_SIZE - PROG_OFFSET {
        MEM_SIZE - PROG_OFFSET
    } else {
        rom.len() as int
    }
}

/// The machine after a ROM image is loaded: its bytes sit at the program
/// offset (truncated to the space there) and the program end is recorded.
pub open spec fn load_state(s: MachineState, rom: Seq<u8>) -> MachineState {
    MachineState {
        memory: Seq::new(
            MEM_SIZE as nat,
            |j: int|
                if PROG_OFFSET <= j < PROG_OFFSET + rom_len(rom) {
                    rom[j - PROG_OFFSET]
                } else {
                    s.memory[j]
                },
        ),
        memory_end: PROG_OFFSET + rom_len(rom),
        ..s
    }
}

/// A cycle that some random byte explains is a cycle the machine can take.
pub proof fn lemma_steps_to(
    pre: MachineState,
    post: MachineState,
    res: Result<(), Chip8Error>,
    w: u8,
)
    requires
        step_spec(pre, w) == (post, res),
    ensures
        steps_to(pre, post, res),
{
}

/// A one-row sprite draw as one whole cycle: with `Dxy1` under the program
/// counter, each of the eight sprite bits lands in its own column of the
/// target row, clipped at column 63 and never wrapped; every other
/// framebuffer byte is untouched; pixels stay fully on or off; and the flag
/// register becomes 1 exactly when a set, unclipped bit found its pixel lit.
pub proof fn lemma_draw_row_step(pre: MachineState, r: u8, op: u16, x: int, yp: int, b: u8)
    requires
        pre.wf(),
        pre.waiting is None,
        fetch_ok(pre),
        op == word_at(pre.memory, pre.pc as int),
        op_nib1(op) == 0xD,
        op_nib4(op) == 1,
        pre.i as int + 1 <= MEM_SIZE,
        x == pre.v[op_nib2(op) as int] % 64,
        yp == pre.v[op_nib3(op) as int] % 32,
        b == pre.memory[pre.i as int],
    ensures
        step_spec(pre, r).1 == Ok::<(), Chip8Error>(()),
        screen_wf(step_spec(pre, r).0.screen),
        forall|p: int|
            0 <= p < SCREEN_AREA && !(yp * 64 + x <= p < yp * 64 + x + 8 && p < yp * 64 + 64)
                ==> #[trigger] step_spec(pre, r).0.screen[p] == pre.screen[p],
        forall|j: int|
            0 <= j < 8 && x + j < 64 ==> #[trigger] step_spec(pre, r).0.screen[yp * 64 + x + j]
                == pixel_byte(pixel_lit(pre.screen, yp * 64 + x + j) != sprite_bit(b, j)),
        step_spec(pre, r).0.v == pre.v.update(
            15,
            if exists|j: int|
                0 <= j < 8 && x + j < 64 && pixel_lit(pre.screen, yp * 64 + x + j)
                    && #[trigger] sprite_bit(b, j) {
                1u8
            } else {
                0u8
            },
        ),
{
    reveal(op_effect);
    lemma_operand_bounds(op);
    // a one-row draw is a single row drawn at (x, yp)
    assert(draw_rows(pre.screen, pre.memory, pre.i as int, x, yp, 0) == (pre.screen, false));
    assert(draw_rows(pre.screen, pre.memory, pre.i as int, x, yp, 1) == draw_bits(
        pre.screen,
        b,
        x,
        yp,
        8,
    ));
    lemma_draw_bits_frame(pre.screen, b, x, yp, 8);
    lemma_draw_bits_at(pre.screen, b, x, yp, 8);
    lemma_draw_bits_hit(pre.screen, b, x, yp, 8);
    lemma_draw_bits_wf(pre.screen, b, x, yp, 8);
}

/// One 60 Hz tick of a countdown timer: down by one, never below zero.
pub open spec fn timer_tick(d: u8) -> u8 {
    if d > 0 {
        (d - 1) as u8
    } else {
        0u8
    }
}

/// A countdown timer after `n` ticks.
pub open spec fn timer_after(d: u8, n: nat) -> u8
    decreases n,
{
    if n == 0 {
        d
    } else {
        timer_after(timer_tick(d), (n - 1) as nat)
    }
}

/// A timer started at `d` reaches zero after `d` ticks and stays there: it
/// counts down one per tick and never underflows.
pub proof fn lemma_timer_runs_down(d: u8, n: nat)
    ensures
        timer_after(d, n) == if n < d {
            (d - n) as u8
        } else {
            0u8
        },
    decreases n,
{
    if n > 0 {
        lemma_timer_runs_down(timer_tick(d), (n - 1) as nat);
    }
}

/// While the machine awaits a key, a cycle only drops the redraw flag: no
/// fetch, no decode, no effect.
pub proof fn lemma_wait_suspends(pre: MachineState, r: u8)
    requires
        pre.waiting is Some,
    ensures
        step_spec(pre, r) == ((MachineState { screen_updated: false, ..pre }), Ok::<
            (),
            Chip8Error,
        >(())),
{
}

/// A suspended machine whose redraw flag is already down is a fixed point of
/// the cycle: stepping it any number of times changes nothing.
pub proof fn lemma_wait_fixpoint(pre: MachineState, r: u8)
    requires
        pre.waiting is Some,
        !pre.screen_updated,
    ensures
        step_spec(pre, r) == (pre, Ok::<(), Chip8Error>(())),
{
    assert(step_spec(pre, r).0 =~= pre);
}

/// The add-immediate instruction `7xkk` wraps and never touches the flag
/// register (unless VF itself is its target).
pub proof fn lemma_add_imm_preserves_flag(pre: MachineState, r: u8)
    requires
        pre.wf(),
        pre.waiting is None,
        fetch_ok(pre),
        op_nib1(word_at(pre.memory, pre.pc as int)) == 7,
        op_nib2(word_at(pre.memory, pre.pc as int)) != 15,
    ensures
        step_spec(pre, r).1 == Ok::<(), Chip8Error>(()),
        step_spec(pre, r).0.v[15] == pre.v[15],
        step_spec(pre, r).0.v[op_nib2(word_at(pre.memory, pre.pc as int)) as int] == wrap_add(
            pre.v[op_nib2(word_at(pre.memory, pre.pc as int)) as int],
            op_byte(word_at(pre.memory, pre.pc as int)),
        ),
{
    reveal(op_effect);
    lemma_operand_bounds(word_at(pre.memory, pre.pc as int));
}

/// The effect of a call: `2nnn` pushes the address of the next instruction
/// little-endian at the stack pointer, advances the stack pointer by two and
/// jumps to `nnn`.
pub proof fn lemma_call_step(pre: MachineState, r: u8, op: u16)
    requires
        pre.wf(),
        pre.waiting is None,
        fetch_ok(pre),
        op == word_at(pre.memory, pre.pc as int),
        op_nib1(op) == 2,
        pre.sp <= 0xFD,
    ensures
        step_spec(pre, r) == ((MachineState {
            memory: pre.memory.update(pre.sp as int, (((pre.pc + 2) as u16) & 0xFF) as u8).update(
                pre.sp as int + 1,
                ((((pre.pc + 2) as u16) >> 8u16) & 0xFF) as u8,
            ),
            sp: (pre.sp + 2) as u8,
            pc: op_addr(op),
            screen_updated: false,
            ..pre
        }), Ok::<(), Chip8Error>(())),
{
    reveal(op_effect);
    assert(wrap_add(pre.sp, 2) == (pre.sp + 2) as u8);
    assert(step_spec(pre, r).0 =~= (MachineState {
        memory: pre.memory.update(pre.sp as int, (((pre.pc + 2) as u16) & 0xFF) as u8).update(
            pre.sp as int + 1,
            ((((pre.pc + 2) as u16) >> 8u16) & 0xFF) as u8,
        ),
        sp: (pre.sp + 2) as u8,
        pc: op_addr(op),
        screen_updated: false,
        ..pre
    }));
}

/// The effect of a return: `00EE` retreats the stack pointer by two and pops
/// the little-endian return address stored there into the program counter.
pub proof fn lemma_ret_step(pre: MachineState, r: u8, op: u16)
    requires
        pre.wf(),
        pre.waiting is None,
        fetch_ok(pre),
        op == word_at(pre.memory, pre.pc as int),
        op == 0x00EE,
        2 <= pre.sp,
    ensures
        step_spec(pre, r) == ((MachineState {
            sp: (pre.sp - 2) as u8,
            pc: stack_word_at(pre.memory, pre.sp - 2),
            screen_updated: false,
            ..pre
        }), Ok::<(), Chip8Error>(())),
{
    reveal(op_effect);
    // 0x00EE decodes as a return
    assert((0x00EEu16 & 0xF000) >> 12 == 0 && (0x00EEu16 & 0x0F00) >> 8 == 0 && (0x00EEu16
        & 0x00F0) >> 4 == 0xE && (0x00EEu16 & 0x000F) == 0xE) by (bit_vector);
    assert(wrap_sub(pre.sp, 2) == (pre.sp - 2) as u8);
    assert(step_spec(pre, r).0 =~= (MachineState {
        sp: (pre.sp - 2) as u8,
        pc: stack_word_at(pre.memory, pre.sp - 2),
        screen_updated: false,
        ..pre
    }));
}

/// A call followed at once by a return: `2nnn` pushes the address of the next
/// instruction and `00EE` at `nnn` pops it back, so the program resumes right
/// after the call, with the stack pointer restored.
pub proof fn lemma_call_then_ret(pre: MachineState, r1: u8, r2: u8)
    requires
        pre.wf(),
        pre.waiting is None,
        fetch_ok(pre),
        op_nib1(word_at(pre.memory, pre.pc as int)) == 2,
        PROG_OFFSET <= op_addr(word_at(pre.memory, pre.pc as int)),
        op_addr(word_at(pre.memory, pre.pc as int)) < pre.memory_end,
        op_addr(word_at(pre.memory, pre.pc as int)) as int + 2 <= MEM_SIZE,
        word_at(pre.memory, op_addr(word_at(pre.memory, pre.pc as int)) as int) == 0x00EE,
        pre.sp <= 0xFD,
    ensures
        step_spec(pre, r1).1 == Ok::<(), Chip8Error>(()),
        step_spec(step_spec(pre, r1).0, r2).1 == Ok::<(), Chip8Error>(()),
        step_spec(step_spec(pre, r1).0, r2).0.pc == pre.pc + 2,
        step_spec(step_spec(pre, r1).0, r2).0.sp == pre.sp,
{
    let op = word_at(pre.memory, pre.pc as int);
    lemma_operand_bounds(op);
    let nnn = op_addr(op);
    let rp = (pre.pc + 2) as u16;
    lemma_call_step(pre, r1, op);
    let s1 = step_spec(pre, r1).0;
    // the push lands below the program region, so the word at nnn is intact
    assert(s1.memory[nnn as int] == pre.memory[nnn as int]);
    assert(s1.memory[nnn as int + 1] == pre.memory[nnn as int + 1]);
    assert(word_at(s1.memory, nnn as int) == 0x00EE);
    assert(fetch_ok(s1));
    lemma_ret_step(s1, r2, word_at(s1.memory, s1.pc as int));
    // reading the two pushed bytes back little-endian gives the return address
    assert((((rp & 0xFF) as u8 as u16) | ((((rp >> 8u16) & 0xFF) as u8 as u16) << 8u16)) == rp)
        by (bit_vector);
    assert(stack_word_at(s1.memory, pre.sp as int) == rp);
}

} // verus!
