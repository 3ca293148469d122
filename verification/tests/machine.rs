//! Machine execution tests, driven through programs loaded at 0x200.

use chor::Chip8;
use chor::Chip8Error;

/// Encode a slice of instruction words as a big-endian program image.
fn image(words: &[u16]) -> Vec<u8> {
    let mut bytes = Vec::new();
    for w in words {
        bytes.push((w >> 8) as u8);
        bytes.push((w & 0xFF) as u8);
    }
    bytes
}

/// A machine with the given words loaded at 0x200.
fn machine_with(words: &[u16]) -> Chip8 {
    let mut c = Chip8::new();
    c.load(&image(words)).unwrap();
    c
}

/// Run `n` cycles, requiring each to succeed.
fn run(c: &mut Chip8, n: usize) {
    for _ in 0..n {
        c.emulate_cycle().unwrap();
    }
}

#[test]
fn add_with_carry_wraps_and_flags() {
    let mut c = machine_with(&[0x60FA, 0x610A, 0x8014]);
    run(&mut c, 3);
    assert_eq!(c.reg(0), 4);
    assert_eq!(c.reg(15), 1);

    let mut c = machine_with(&[0x600A, 0x6114, 0x8014]);
    run(&mut c, 3);
    assert_eq!(c.reg(0), 30);
    assert_eq!(c.reg(15), 0);
}

#[test]
fn sub_with_borrow_flags() {
    let mut c = machine_with(&[0x600A, 0x6105, 0x8015]);
    run(&mut c, 3);
    assert_eq!(c.reg(0), 5);
    assert_eq!(c.reg(15), 1);

    let mut c = machine_with(&[0x6005, 0x610A, 0x8015]);
    run(&mut c, 3);
    assert_eq!(c.reg(0), 251);
    assert_eq!(c.reg(15), 0);
}

#[test]
fn sub_reversed_flags() {
    let mut c = machine_with(&[0x6005, 0x610A, 0x8017]);
    run(&mut c, 3);
    assert_eq!(c.reg(0), 5);
    assert_eq!(c.reg(15), 1);
}

#[test]
fn shift_right_reads_source_register() {
    let mut c = machine_with(&[0x61B5, 0x8016]);
    run(&mut c, 2);
    assert_eq!(c.reg(0), 0b0101_1010);
    assert_eq!(c.reg(15), 1);
    assert_eq!(c.reg(1), 0b1011_0101);
}

#[test]
fn shift_left_writes_both_registers() {
    let mut c = machine_with(&[0x6181, 0x801E]);
    run(&mut c, 2);
    assert_eq!(c.reg(0), 0x02);
    assert_eq!(c.reg(1), 0x02);
    assert_eq!(c.reg(15), 1);
}

#[test]
fn add_immediate_wraps_without_flag() {
    let mut c = machine_with(&[0x60FA, 0x700A]);
    run(&mut c, 2);
    assert_eq!(c.reg(0), 4);
    assert_eq!(c.reg(15), 0);
}

#[test]
fn bitwise_register_ops() {
    let mut c = machine_with(&[0x60F0, 0x610F, 0x8011]);
    run(&mut c, 3);
    assert_eq!(c.reg(0), 0xFF);
    let mut c = machine_with(&[0x60F3, 0x610F, 0x8012]);
    run(&mut c, 3);
    assert_eq!(c.reg(0), 0x03);
    let mut c = machine_with(&[0x60FF, 0x610F, 0x8013]);
    run(&mut c, 3);
    assert_eq!(c.reg(0), 0xF0);
}

#[test]
fn skip_if_equal_advances_pc_by_4() {
    let mut c = machine_with(&[0x6005, 0x3005]);
    run(&mut c, 2);
    assert_eq!(c.pc(), 0x206);

    let mut c = machine_with(&[0x6005, 0x3006]);
    run(&mut c, 2);
    assert_eq!(c.pc(), 0x204);
}

#[test]
fn skip_register_comparisons() {
    let mut c = machine_with(&[0x6005, 0x6105, 0x5010]);
    run(&mut c, 3);
    assert_eq!(c.pc(), 0x208);

    let mut c = machine_with(&[0x6005, 0x6106, 0x9010]);
    run(&mut c, 3);
    assert_eq!(c.pc(), 0x208);
}

#[test]
fn jumps() {
    let mut c = machine_with(&[0x1300]);
    run(&mut c, 1);
    assert_eq!(c.pc(), 0x300);

    let mut c = machine_with(&[0x6004, 0xB300]);
    run(&mut c, 2);
    assert_eq!(c.pc(), 0x304);

    // the legacy machine-language call is executed as a plain jump
    let mut c = machine_with(&[0x0300]);
    run(&mut c, 1);
    assert_eq!(c.pc(), 0x300);
    assert_eq!(c.stack_depth(), 0);
}

#[test]
fn call_and_return_round_trip() {
    let mut words = vec![0u16; 0x81];
    words[0] = 0x2300; // call 0x300
    words[0x80] = 0x00EE; // 0x300 holds a return
    let mut c = machine_with(&words);
    c.emulate_cycle().unwrap();
    assert_eq!(c.pc(), 0x300);
    assert_eq!(c.stack_depth(), 1);
    c.emulate_cycle().unwrap();
    assert_eq!(c.pc(), 0x202);
    assert_eq!(c.stack_depth(), 0);
}

#[test]
fn stack_overflow_on_seventeenth_call() {
    // Calls at 0x200, 0x204, ..., 0x240, each calling the next one.
    let mut words = vec![0u16; 0x22];
    for k in 0..17u16 {
        words[(k * 2) as usize] = 0x2204 + k * 4;
    }
    let mut c = machine_with(&words);
    for _ in 0..16 {
        c.emulate_cycle().unwrap();
    }
    assert_eq!(c.stack_depth(), 16);
    assert_eq!(c.emulate_cycle(), Err(Chip8Error::StackOverflow));
    assert_eq!(c.stack_depth(), 16);
}

#[test]
fn stack_underflow_after_unwinding() {
    // Sixteen nested calls, sixteen returns, then one return too many.
    let mut words = vec![0u16; 0x21];
    for k in 0..16u16 {
        words[(k * 2) as usize] = 0x2204 + k * 4; // call at 0x200 + 4k
        words[(k * 2 + 1) as usize] = 0x00EE; // return at each return site
    }
    words[0x20] = 0x00EE; // the return reached after the sixteenth call
    let mut c = machine_with(&words);
    for _ in 0..16 {
        c.emulate_cycle().unwrap();
    }
    assert_eq!(c.stack_depth(), 16);
    for _ in 0..16 {
        c.emulate_cycle().unwrap();
    }
    assert_eq!(c.stack_depth(), 0);
    assert_eq!(c.emulate_cycle(), Err(Chip8Error::StackUnderflow));
}

#[test]
fn register_dump_load_round_trip() {
    // Registers 0..=5 hold 10..=15; dump at I = 0x300, then reload.
    let mut c = machine_with(&[
        0x600A, 0x610B, 0x620C, 0x630D, 0x640E, 0x650F, // registers 0..=5
        0xA300, 0xF555, // dump 0..=5 at 0x300
        0x6000, 0x6100, 0x6200, 0x6300, 0x6400, 0x6500, // clobber them
        0xA300, 0xF565, // reload 0..=5 from 0x300
    ]);
    run(&mut c, 8);
    assert_eq!(c.index_reg(), 0x306);
    for k in 0..6 {
        assert_eq!(c.mem_byte(0x300 + k), 10 + k as u8);
    }
    run(&mut c, 8);
    assert_eq!(c.index_reg(), 0x306);
    for k in 0..6usize {
        assert_eq!(c.reg(k), 10 + k as u8);
    }
}

#[test]
fn bcd_decomposition() {
    let mut c = machine_with(&[0x60EA, 0xA300, 0xF033]);
    run(&mut c, 3);
    assert_eq!(c.mem_byte(0x300), 2);
    assert_eq!(c.mem_byte(0x301), 3);
    assert_eq!(c.mem_byte(0x302), 4);
}

#[test]
fn timer_floor_at_zero() {
    let mut c = machine_with(&[0x6003, 0xF015, 0xF018]);
    run(&mut c, 3);
    assert_eq!(c.delay_timer(), 3);
    assert_eq!(c.sound_timer(), 3);
    for _ in 0..10 {
        c.decrease_timer();
    }
    assert_eq!(c.delay_timer(), 0);
    assert_eq!(c.sound_timer(), 0);
}

#[test]
fn read_delay_timer() {
    let mut c = machine_with(&[0x6007, 0xF015, 0xF107]);
    run(&mut c, 3);
    assert_eq!(c.reg(1), 7);
}

#[test]
fn random_byte_is_masked() {
    let mut c = machine_with(&[0xC00F]);
    run(&mut c, 1);
    assert_eq!(c.reg(0) & 0xF0, 0);
}

#[test]
fn font_glyph_address() {
    let mut c = machine_with(&[0x6005, 0xF029]);
    run(&mut c, 2);
    assert_eq!(c.index_reg(), 25);
    let glyph: Vec<u8> = (0..5).map(|r| c.mem_byte(25 + r)).collect();
    assert_eq!(glyph, vec![0xF0, 0x80, 0xF0, 0x10, 0xF0]);
}

#[test]
fn add_register_to_index_wraps() {
    let mut c = machine_with(&[0xAFFF, 0x6002, 0xF01E]);
    run(&mut c, 3);
    assert_eq!(c.index_reg(), 1);
}

#[test]
fn draw_lights_pixels_and_reports_redraw() {
    // Glyph 0 at address 0 drawn at (0, 0).
    let mut c = machine_with(&[0xA000, 0xD015]);
    run(&mut c, 2);
    assert_eq!(c.reg(15), 0);
    assert!(c.consume_redraw_flag());
    assert!(!c.consume_redraw_flag());
    let fb = c.framebuffer();
    // the top row of glyph 0 is 0xF0: four lit pixels
    assert!(fb[0] && fb[1] && fb[2] && fb[3]);
    assert!(!fb[4]);
}

#[test]
fn draw_twice_restores_framebuffer_and_collides() {
    let mut c = machine_with(&[0xA000, 0xD015, 0xD015]);
    run(&mut c, 2);
    assert_eq!(c.reg(15), 0);
    run(&mut c, 1);
    assert_eq!(c.reg(15), 1);
    assert!(c.framebuffer().iter().all(|&p| !p));
    assert!(!c.consume_redraw_flag());
}

#[test]
fn draw_clips_at_grid_edge() {
    // Draw glyph 0 with its left edge at x = 62: columns 62 and 63 land,
    // the rest is clipped, not wrapped to the next row.
    let mut c = machine_with(&[0xA000, 0x603E, 0x6100, 0xD015]);
    run(&mut c, 4);
    let fb = c.framebuffer();
    assert!(fb[62] && fb[63]);
    assert!(!fb[64] && !fb[65]);
}

#[test]
fn clear_screen() {
    let mut c = machine_with(&[0xA000, 0xD015, 0x00E0]);
    run(&mut c, 3);
    assert!(c.framebuffer().iter().all(|&p| !p));
}

#[test]
fn wait_for_key_spins_then_reads_highest() {
    let mut c = machine_with(&[0xF00A]);
    c.emulate_cycle().unwrap();
    assert_eq!(c.pc(), 0x200); // re-execute: no key is down
    c.press_key(3);
    c.press_key(7);
    c.emulate_cycle().unwrap();
    assert_eq!(c.pc(), 0x202);
    assert_eq!(c.reg(0), 7);
}

#[test]
fn skip_on_key_state() {
    let mut c = machine_with(&[0x6001, 0xE09E]);
    c.press_key(1);
    run(&mut c, 2);
    assert_eq!(c.pc(), 0x206);

    let mut c = machine_with(&[0x6001, 0xE0A1]);
    run(&mut c, 2);
    assert_eq!(c.pc(), 0x206);

    let mut c = machine_with(&[0x6001, 0xE09E]);
    run(&mut c, 2);
    assert_eq!(c.pc(), 0x204);

    let mut c = machine_with(&[0x6001, 0xE0A1]);
    c.press_key(1);
    c.release_key(1);
    run(&mut c, 2);
    assert_eq!(c.pc(), 0x206);
}

#[test]
fn decode_failure_is_reported_not_skipped() {
    let mut c = machine_with(&[0x8008]);
    assert_eq!(c.emulate_cycle(), Err(Chip8Error::DecodeFailure(0x8008)));
    assert_eq!(c.pc(), 0x202);
}

#[test]
fn oversized_program_is_rejected_whole() {
    let mut c = Chip8::new();
    let too_big = vec![0u8; 3585];
    assert_eq!(c.load(&too_big), Err(Chip8Error::ProgramTooLarge));
    assert_eq!(c.mem_byte(0x200), 0);

    let mut c = Chip8::new();
    let just_fits = vec![0xAAu8; 3584];
    assert!(c.load(&just_fits).is_ok());
    assert_eq!(c.mem_byte(0x200), 0xAA);
    assert_eq!(c.mem_byte(0xFFF), 0xAA);
}

#[test]
fn render_sets_redraw_flag() {
    let mut c = Chip8::new();
    assert!(!c.consume_redraw_flag());
    c.render();
    assert!(c.consume_redraw_flag());
}

#[test]
fn move_register() {
    let mut c = machine_with(&[0x612A, 0x8010]);
    run(&mut c, 2);
    assert_eq!(c.reg(0), 0x2A);
}

#[test]
fn set_immediate_and_index() {
    let mut c = machine_with(&[0x6A42, 0xA123]);
    run(&mut c, 2);
    assert_eq!(c.reg(10), 0x42);
    assert_eq!(c.index_reg(), 0x123);
}
