use rusty8::chip8::Chip8;
use rusty8::decode::decode;
use rusty8::machine::Chip8Error;

/// A machine with `rom` loaded and ready to run.
fn boot(rom: &[u8]) -> Chip8 {
    let mut c = Chip8::new();
    c.load_rom(rom);
    c
}

#[test]
fn decode_splits_nibbles() {
    assert_eq!(decode(0x1234), (0x1, 0x2, 0x3, 0x4));
    assert_eq!(decode(0xF065), (0xF, 0x0, 0x6, 0x5));
    assert_eq!(decode(0x0000), (0, 0, 0, 0));
}

#[test]
fn new_machine_has_font_and_zeroed_state() {
    let c = Chip8::new();
    assert_eq!(c.memory.len(), 4096);
    assert_eq!(c.memory[0x0FF], 0xF0); // first font byte
    assert_eq!(c.memory[0x14E], 0x80); // last font byte
    assert_eq!(c.memory[0x14F], 0x00);
    assert_eq!(c.memory_end, 0x200);
    assert_eq!(c.pc, 0x200);
    assert!(c.v.iter().all(|&b| b == 0));
    assert!(c.screen.iter().all(|&b| b == 0));
    assert_eq!(c.screen.len(), 64 * 32);
    assert!(c.waiting.is_none());
}

#[test]
fn load_rom_places_bytes_and_records_end() {
    let c = boot(&[0x60, 0x05, 0x12, 0x00]);
    assert_eq!(c.memory[0x200], 0x60);
    assert_eq!(c.memory[0x203], 0x00);
    assert_eq!(c.memory_end, 0x204);
    assert!(!c.finished_running());
}

#[test]
fn load_rom_truncates_an_oversized_image() {
    let rom = vec![0xABu8; 5000];
    let c = boot(&rom);
    assert_eq!(c.memory_end, 4096); // 0x200 + the 3584 bytes that fit
    assert_eq!(c.memory[4095], 0xAB);
    assert_eq!(c.memory[0x1FF], 0x00); // nothing written below the offset
}

#[test]
fn add_immediate_wraps_and_flag_unchanged() {
    // 7xkk applied twice with kk = 0xFF starting from Vx = 0x01
    let mut c = boot(&[0x70, 0xFF, 0x70, 0xFF]);
    c.v[0] = 0x01;
    c.v[15] = 7;
    c.tick().unwrap();
    assert_eq!(c.v[0], 0x00); // 0x01 + 0xFF wraps to 0x00
    assert_eq!(c.v[15], 7); // no flag change
    c.tick().unwrap();
    assert_eq!(c.v[0], 0xFF); // 0x00 + 0xFF
    assert_eq!(c.v[15], 7);
}

#[test]
fn add_registers_sets_carry() {
    let mut c = boot(&[0x80, 0x14]);
    c.v[0] = 0xFF;
    c.v[1] = 0x01;
    c.tick().unwrap();
    assert_eq!(c.v[0], 0x00);
    assert_eq!(c.v[15], 1);

    let mut c = boot(&[0x80, 0x14]);
    c.v[0] = 0x01;
    c.v[1] = 0x01;
    c.tick().unwrap();
    assert_eq!(c.v[0], 0x02);
    assert_eq!(c.v[15], 0);
}

#[test]
fn sub_registers_sets_no_borrow_flag() {
    let mut c = boot(&[0x80, 0x15]);
    c.v[0] = 0x05;
    c.v[1] = 0x03;
    c.tick().unwrap();
    assert_eq!(c.v[0], 0x02);
    assert_eq!(c.v[15], 1); // no borrow

    let mut c = boot(&[0x80, 0x15]);
    c.v[0] = 0x03;
    c.v[1] = 0x05;
    c.tick().unwrap();
    assert_eq!(c.v[0], 0xFE);
    assert_eq!(c.v[15], 0); // borrow
}

#[test]
fn sub_reverse_sets_no_borrow_flag() {
    let mut c = boot(&[0x80, 0x17]);
    c.v[0] = 0x03;
    c.v[1] = 0x05;
    c.tick().unwrap();
    assert_eq!(c.v[0], 0x02); // V1 - V0
    assert_eq!(c.v[15], 1);
}

#[test]
fn shift_right_reports_dropped_bit() {
    let mut c = boot(&[0x80, 0x06]);
    c.v[0] = 0x03;
    c.tick().unwrap();
    assert_eq!(c.v[0], 0x01);
    assert_eq!(c.v[15], 1);

    let mut c = boot(&[0x80, 0x06]);
    c.v[0] = 0x02;
    c.tick().unwrap();
    assert_eq!(c.v[0], 0x01);
    assert_eq!(c.v[15], 0);
}

#[test]
fn shift_left_reports_dropped_bit() {
    let mut c = boot(&[0x80, 0x0E]);
    c.v[0] = 0x81;
    c.tick().unwrap();
    assert_eq!(c.v[0], 0x02);
    assert_eq!(c.v[15], 1);
}

#[test]
fn logic_ops_and_register_move() {
    let mut c = boot(&[0x80, 0x11, 0x80, 0x12, 0x80, 0x13, 0x80, 0x10]);
    c.v[0] = 0b1100;
    c.v[1] = 0b1010;
    c.tick().unwrap();
    assert_eq!(c.v[0], 0b1110); // or
    c.v[0] = 0b1100;
    c.tick().unwrap();
    assert_eq!(c.v[0], 0b1000); // and
    c.v[0] = 0b1100;
    c.tick().unwrap();
    assert_eq!(c.v[0], 0b0110); // xor
    c.tick().unwrap();
    assert_eq!(c.v[0], 0b1010); // move
}

#[test]
fn skips_take_and_fall_through() {
    // 3xkk taken
    let mut c = boot(&[0x30, 0x07, 0x00, 0x00, 0x60, 0x01]);
    c.v[0] = 0x07;
    c.tick().unwrap();
    assert_eq!(c.pc, 0x204);
    // 4xkk not taken
    let mut c = boot(&[0x40, 0x07]);
    c.v[0] = 0x07;
    c.tick().unwrap();
    assert_eq!(c.pc, 0x202);
    // 5xy0 taken, 9xy0 not taken
    let mut c = boot(&[0x50, 0x10]);
    c.v[0] = 3;
    c.v[1] = 3;
    c.tick().unwrap();
    assert_eq!(c.pc, 0x204);
    let mut c = boot(&[0x90, 0x10]);
    c.v[0] = 3;
    c.v[1] = 3;
    c.tick().unwrap();
    assert_eq!(c.pc, 0x202);
}

#[test]
fn jumps_and_index_load() {
    let mut c = boot(&[0x12, 0x06]);
    c.tick().unwrap();
    assert_eq!(c.pc, 0x206);

    let mut c = boot(&[0xB2, 0x00]);
    c.v[0] = 0x08;
    c.tick().unwrap();
    assert_eq!(c.pc, 0x208);

    let mut c = boot(&[0xA1, 0x23]);
    c.tick().unwrap();
    assert_eq!(c.i, 0x123);
}

#[test]
fn random_byte_is_masked() {
    // Cx00 masks the random byte to zero whatever was drawn
    let mut c = boot(&[0xC0, 0x00, 0xC1, 0x0F]);
    c.v[0] = 0xAA;
    c.tick().unwrap();
    assert_eq!(c.v[0], 0x00);
    c.tick().unwrap();
    assert_eq!(c.v[1] & 0xF0, 0); // only low nibble can be set
}

#[test]
fn bcd_writes_three_digits() {
    let mut c = boot(&[0xF0, 0x33]);
    c.v[0] = 234;
    c.i = 0x300;
    c.tick().unwrap();
    assert_eq!(&c.memory[0x300..0x303], &[2, 3, 4]);
}

#[test]
fn store_and_load_register_block() {
    let mut c = boot(&[0xF3, 0x55, 0xA4, 0x00, 0xF3, 0x65]);
    c.v[0] = 10;
    c.v[1] = 20;
    c.v[2] = 30;
    c.v[3] = 40;
    c.i = 0x400;
    c.tick().unwrap();
    assert_eq!(&c.memory[0x400..0x404], &[10, 20, 30, 40]);
    assert_eq!(c.i, 0x404);
    c.v[0] = 0;
    c.v[1] = 0;
    c.v[2] = 0;
    c.v[3] = 0;
    c.tick().unwrap(); // I = 0x400
    c.tick().unwrap(); // load back
    assert_eq!(&c.v[0..4], &[10, 20, 30, 40]);
    assert_eq!(c.i, 0x404);
}

#[test]
fn font_address_for_digit() {
    let mut c = boot(&[0xF0, 0x29]);
    c.v[0] = 0xA;
    c.tick().unwrap();
    assert_eq!(c.i, 0x0FF + 50);
}

#[test]
fn index_add_wraps() {
    let mut c = boot(&[0xF0, 0x1E]);
    c.v[0] = 1;
    c.i = 0xFFFF;
    c.tick().unwrap();
    assert_eq!(c.i, 0);
}

#[test]
fn timer_and_delay_register_transfer() {
    let mut c = boot(&[0x60, 0x09, 0xF0, 0x15, 0xF1, 0x07]);
    c.tick().unwrap(); // V0 = 9
    c.tick().unwrap(); // DT = 9
    assert_eq!(c.dt, 9);
    c.tick().unwrap(); // V1 = DT
    assert_eq!(c.v[1], 9);
}

#[test]
fn timers_run_down_and_stop_at_zero() {
    let mut c = Chip8::new();
    c.dt = 5;
    c.st = 2;
    let mut dts = Vec::new();
    let mut beeps = Vec::new();
    for _ in 0..7 {
        beeps.push(c.tick_timers());
        dts.push(c.dt);
    }
    assert_eq!(dts, vec![4, 3, 2, 1, 0, 0, 0]);
    assert_eq!(beeps, vec![true, true, false, false, false, false, false]);
    assert_eq!(c.st, 0);
}

#[test]
fn key_skips_follow_key_state() {
    let mut c = boot(&[0xE0, 0x9E]);
    c.v[0] = 4;
    c.keyboard[4] = true;
    c.tick().unwrap();
    assert_eq!(c.pc, 0x204);

    let mut c = boot(&[0xE0, 0xA1]);
    c.v[0] = 4;
    c.keyboard[4] = true;
    c.tick().unwrap();
    assert_eq!(c.pc, 0x202);
}

#[test]
fn wait_for_key_suspends_until_answered() {
    let mut c = boot(&[0xF5, 0x0A, 0x00, 0xE0]);
    c.keyboard[3] = true;
    c.tick().unwrap();
    assert_eq!(c.waiting, Some(5));
    assert!(c.keyboard.iter().all(|&k| !k)); // keys cleared on entry
    let pc = c.pc;
    let regs = c.v.clone();
    for _ in 0..3 {
        c.tick().unwrap(); // suspended: nothing may change
        assert_eq!(c.pc, pc);
        assert_eq!(c.v, regs);
        assert_eq!(c.waiting, Some(5));
    }
    c.answer_key(0xA);
    assert_eq!(c.v[5], 0xA);
    assert_eq!(c.waiting, None);
    c.tick().unwrap(); // resumes with the next instruction
    assert_eq!(c.pc, 0x204);
}

#[test]
fn answer_key_without_wait_does_nothing() {
    let mut c = Chip8::new();
    c.answer_key(0x3);
    assert!(c.v.iter().all(|&b| b == 0));
    assert!(c.waiting.is_none());
}

#[test]
fn call_then_ret_resumes_after_call() {
    // 0x200: CALL 0x300; 0x300: RET
    let mut rom = vec![0u8; 0x102];
    rom[0] = 0x23;
    rom[1] = 0x00;
    rom[0x100] = 0x00;
    rom[0x101] = 0xEE;
    let mut c = boot(&rom);
    c.tick().unwrap();
    assert_eq!(c.pc, 0x300);
    assert_eq!(c.sp, 2);
    c.tick().unwrap();
    assert_eq!(c.pc, 0x202); // right after the CALL
    assert_eq!(c.sp, 0);
}

#[test]
fn draw_clips_at_right_edge() {
    let mut rom = vec![0u8; 4];
    rom[0] = 0xD0;
    rom[1] = 0x11; // draw 1 row at (V0, V1)
    rom[2] = 0xFF; // sprite row: all eight bits set
    let mut c = boot(&rom);
    c.v[0] = 60;
    c.v[1] = 0;
    c.i = 0x202;
    c.tick().unwrap();
    for col in 60..64 {
        assert_eq!(c.screen[col], 255);
    }
    for col in 0..4 {
        assert_eq!(c.screen[col], 0); // clipped, not wrapped to column 0
    }
    assert_eq!(c.v[15], 0);
    assert!(c.screen_updated);
}

#[test]
fn draw_twice_restores_frame_and_collides() {
    let mut rom = vec![0u8; 6];
    rom[0] = 0xD0;
    rom[1] = 0x11;
    rom[2] = 0xD0;
    rom[3] = 0x11;
    rom[4] = 0xA5; // sprite row
    let mut c = boot(&rom);
    c.v[0] = 10;
    c.v[1] = 7;
    c.i = 0x204;
    let before = c.screen.clone();
    c.tick().unwrap();
    assert_eq!(c.v[15], 0);
    assert_ne!(c.screen, before);
    c.tick().unwrap();
    assert_eq!(c.v[15], 1); // self-collision
    assert_eq!(c.screen, before); // prior frame restored
}

#[test]
fn draw_wraps_vertically() {
    let mut rom = vec![0u8; 4];
    rom[0] = 0xD0;
    rom[1] = 0x12; // two rows
    rom[2] = 0x80;
    rom[3] = 0x80;
    let mut c = boot(&rom);
    c.v[0] = 0;
    c.v[1] = 31; // last row, second sprite row wraps to row 0
    c.i = 0x202;
    c.tick().unwrap();
    assert_eq!(c.screen[31 * 64], 255);
    assert_eq!(c.screen[0], 255);
}

#[test]
fn clear_screen_blanks_framebuffer() {
    let mut rom = vec![0u8; 6];
    rom[0] = 0xD0;
    rom[1] = 0x11;
    rom[2] = 0x00;
    rom[3] = 0xE0;
    rom[4] = 0xFF;
    let mut c = boot(&rom);
    c.i = 0x204;
    c.tick().unwrap();
    assert!(c.screen.iter().any(|&p| p == 255));
    c.tick().unwrap();
    assert!(c.screen.iter().all(|&p| p == 0));
}

#[test]
fn unknown_opcode_is_reported_with_word() {
    let mut c = boot(&[0xFF, 0xFF]);
    assert_eq!(c.tick(), Err(Chip8Error::UnknownOpcode(0xFFFF)));
    let mut c = boot(&[0x00, 0x00]);
    assert_eq!(c.tick(), Err(Chip8Error::UnknownOpcode(0x0000)));
    let mut c = boot(&[0x80, 0x08]);
    assert_eq!(c.tick(), Err(Chip8Error::UnknownOpcode(0x8008)));
    // register skips exist only with a zero low nibble
    let mut c = boot(&[0x50, 0x11]);
    c.v[0] = 3;
    c.v[1] = 3;
    assert_eq!(c.tick(), Err(Chip8Error::UnknownOpcode(0x5011)));
    assert_eq!(c.pc, 0x202); // no skip took place
    let mut c = boot(&[0x90, 0x13]);
    assert_eq!(c.tick(), Err(Chip8Error::UnknownOpcode(0x9013)));
}

#[test]
fn fetch_outside_program_is_a_fault() {
    let mut c = Chip8::new(); // nothing loaded: pc == memory_end
    assert!(c.finished_running());
    assert_eq!(c.tick(), Err(Chip8Error::MemoryFault(0x200)));

    let mut c = boot(&[0x12, 0x00]);
    c.pc = 0x1FE;
    assert_eq!(c.tick(), Err(Chip8Error::MemoryFault(0x1FE)));
}

#[test]
fn draw_from_out_of_range_index_is_a_fault() {
    let mut c = boot(&[0xD0, 0x0F]);
    c.i = 0xFFF8;
    assert_eq!(c.tick(), Err(Chip8Error::MemoryFault(0xFFF8)));
}

#[test]
fn bcd_out_of_range_index_is_a_fault() {
    let mut c = boot(&[0xF0, 0x33]);
    c.i = 0x0FFE;
    c.v[0] = 7;
    assert_eq!(c.tick(), Err(Chip8Error::MemoryFault(0x0FFE)));
}

#[test]
fn key_skip_with_out_of_range_register_is_a_fault() {
    let mut c = boot(&[0xE0, 0x9E]);
    c.v[0] = 0x20;
    assert_eq!(c.tick(), Err(Chip8Error::MemoryFault(0x20)));
}

#[test]
fn strict_stack_faults_on_underflow_and_overflow() {
    let mut c = boot(&[0x00, 0xEE]);
    c.strict_stack = true;
    assert_eq!(c.tick(), Err(Chip8Error::MemoryFault(0)));

    let mut c = boot(&[0x23, 0x00]);
    c.strict_stack = true;
    c.sp = 0xFE;
    assert_eq!(c.tick(), Err(Chip8Error::MemoryFault(0xFE)));
}

#[test]
fn permissive_stack_wraps_instead_of_faulting() {
    let mut c = boot(&[0x00, 0xEE]);
    c.tick().unwrap();
    assert_eq!(c.sp, 254);
    // the pop reads bytes 254 and 255; byte 255 is the first font byte
    assert_eq!(c.pc, 0xF000);
}

#[test]
fn finished_after_walking_off_the_rom() {
    let mut c = boot(&[0x60, 0x05]);
    assert!(!c.finished_running());
    c.tick().unwrap();
    assert_eq!(c.v[0], 5);
    assert!(c.finished_running());
}

#[test]
fn reboot_keeps_rom_and_font_but_resets_the_rest() {
    let mut c = boot(&[0x60, 0x05, 0xA3, 0x00]);
    c.tick().unwrap();
    c.tick().unwrap();
    c.dt = 9;
    c.keyboard[2] = true;
    c.waiting = Some(1);
    c.screen[5] = 255;
    c.memory[0x50] = 77; // stack region scribble
    c.memory[0x400] = 88; // past the program
    c.reboot();
    assert_eq!(c.pc, 0x200);
    assert_eq!(c.sp, 0);
    assert_eq!(c.i, 0);
    assert_eq!(c.dt, 0);
    assert!(c.v.iter().all(|&b| b == 0));
    assert!(c.keyboard.iter().all(|&k| !k));
    assert!(c.waiting.is_none());
    assert!(c.screen.iter().all(|&p| p == 0));
    assert_eq!(c.memory[0x50], 0); // stack region cleared
    assert_eq!(c.memory[0x400], 0); // tail cleared
    assert_eq!(c.memory[0x200], 0x60); // program intact
    assert_eq!(c.memory[0x0FF], 0xF0); // font intact
    assert_eq!(c.memory_end, 0x204);
    // the machine runs again from the start
    c.tick().unwrap();
    assert_eq!(c.v[0], 5);
}

#[test]
fn screen_updated_drops_on_every_cycle() {
    let mut rom = vec![0u8; 6];
    rom[0] = 0xD0;
    rom[1] = 0x11;
    rom[2] = 0x60;
    rom[3] = 0x01;
    rom[4] = 0xFF;
    let mut c = boot(&rom);
    c.i = 0x204;
    c.tick().unwrap();
    assert!(c.screen_updated);
    c.tick().unwrap();
    assert!(!c.screen_updated);
}
