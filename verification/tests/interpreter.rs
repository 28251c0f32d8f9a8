use chip8::bus::Bus;
use chip8::bus::Chip8Error;
use chip8::cpu::Cpu;
use chip8::cpu::is_paint;

fn boot(program: Vec<u8>) -> Cpu {
    Cpu::new(Bus::new(&program))
}

#[test]
fn register_write_then_read_returns_value() {
    let mut cpu = boot(vec![]);
    for x in 0..16u8 {
        cpu.set_v(x, 0xA0 | x);
    }
    for x in 0..16u8 {
        assert_eq!(cpu.get_v(x), 0xA0 | x);
    }
}

#[test]
fn load_immediate_and_add_immediate_wraps() {
    // 60FF: V0 := 0xFF; 7002: V0 += 2 wrapping.
    let mut cpu = boot(vec![0x60, 0xFF, 0x70, 0x02]);
    assert_eq!(cpu.run_next_instruction(), Ok(()));
    assert_eq!(cpu.get_v(0), 0xFF);
    assert_eq!(cpu.run_next_instruction(), Ok(()));
    assert_eq!(cpu.get_v(0), 0x01);
}

#[test]
fn jump_sets_program_counter() {
    let mut cpu = boot(vec![0x1A, 0xBC]);
    assert_eq!(cpu.run_next_instruction(), Ok(()));
    assert_eq!(cpu.program_counter(), 0xABC);
}

#[test]
fn jump_with_offset_adds_v0() {
    let mut cpu = boot(vec![0xB2, 0x0A]);
    cpu.set_v(0, 4);
    assert_eq!(cpu.run_next_instruction(), Ok(()));
    assert_eq!(cpu.program_counter(), 0x20E);
}

#[test]
fn skip_if_equal_immediate() {
    let mut cpu = boot(vec![0x30, 0x07]);
    cpu.set_v(0, 0x07);
    assert_eq!(cpu.run_next_instruction(), Ok(()));
    assert_eq!(cpu.program_counter(), 0x204);
}

#[test]
fn no_skip_if_equal_immediate_differs() {
    let mut cpu = boot(vec![0x30, 0x07]);
    cpu.set_v(0, 0x08);
    assert_eq!(cpu.run_next_instruction(), Ok(()));
    assert_eq!(cpu.program_counter(), 0x202);
}

#[test]
fn skip_if_not_equal_immediate() {
    let mut cpu = boot(vec![0x40, 0x07]);
    cpu.set_v(0, 0x08);
    assert_eq!(cpu.run_next_instruction(), Ok(()));
    assert_eq!(cpu.program_counter(), 0x204);
}

#[test]
fn skip_if_registers_equal() {
    let mut cpu = boot(vec![0x50, 0x10]);
    cpu.set_v(0, 9);
    cpu.set_v(1, 9);
    assert_eq!(cpu.run_next_instruction(), Ok(()));
    assert_eq!(cpu.program_counter(), 0x204);
}

#[test]
fn skip_if_registers_not_equal() {
    let mut cpu = boot(vec![0x90, 0x10]);
    cpu.set_v(0, 9);
    cpu.set_v(1, 8);
    assert_eq!(cpu.run_next_instruction(), Ok(()));
    assert_eq!(cpu.program_counter(), 0x204);
}

#[test]
fn register_equal_skip_with_nonzero_low_nibble_is_invalid() {
    let mut cpu = boot(vec![0x50, 0x11]);
    assert_eq!(
        cpu.run_next_instruction(),
        Err(Chip8Error::InvalidInstruction)
    );
}

#[test]
fn call_and_return_round_trip() {
    // 2204: call 0x204; at 0x204: 00EE return to 0x202.
    let mut cpu = boot(vec![0x22, 0x04, 0x00, 0x00, 0x00, 0xEE]);
    assert_eq!(cpu.run_next_instruction(), Ok(()));
    assert_eq!(cpu.program_counter(), 0x204);
    assert_eq!(cpu.run_next_instruction(), Ok(()));
    assert_eq!(cpu.program_counter(), 0x202);
}

#[test]
fn sixteenth_nested_call_overflows_the_stack() {
    // 2200: call 0x200 over and over; the first 15 calls fit in the stack.
    let mut cpu = boot(vec![0x22, 0x00]);
    for _ in 0..15 {
        assert_eq!(cpu.run_next_instruction(), Ok(()));
    }
    assert_eq!(
        cpu.run_next_instruction(),
        Err(Chip8Error::UnmappedAddress)
    );
}

#[test]
fn return_with_empty_stack_wraps_the_pointer() {
    // The stack pointer wraps rather than erroring; the return address read
    // from slot 0 is 0.
    let mut cpu = boot(vec![0x00, 0xEE]);
    assert_eq!(cpu.run_next_instruction(), Ok(()));
    assert_eq!(cpu.program_counter(), 0x000);
}

#[test]
fn alu_assign_or_and_xor() {
    // 8010: V0 := V1; then ORs, ANDs, XORs on fresh CPUs.
    let mut cpu = boot(vec![0x80, 0x10]);
    cpu.set_v(1, 0x5A);
    assert_eq!(cpu.run_next_instruction(), Ok(()));
    assert_eq!(cpu.get_v(0), 0x5A);

    let mut cpu = boot(vec![0x80, 0x11]);
    cpu.set_v(0, 0xF0);
    cpu.set_v(1, 0x0F);
    assert_eq!(cpu.run_next_instruction(), Ok(()));
    assert_eq!(cpu.get_v(0), 0xFF);

    let mut cpu = boot(vec![0x80, 0x12]);
    cpu.set_v(0, 0xF6);
    cpu.set_v(1, 0x0F);
    assert_eq!(cpu.run_next_instruction(), Ok(()));
    assert_eq!(cpu.get_v(0), 0x06);

    let mut cpu = boot(vec![0x80, 0x13]);
    cpu.set_v(0, 0xFF);
    cpu.set_v(1, 0x0F);
    assert_eq!(cpu.run_next_instruction(), Ok(()));
    assert_eq!(cpu.get_v(0), 0xF0);
}

#[test]
fn add_registers_without_overflow_clears_flag() {
    let mut cpu = boot(vec![0x80, 0x14]);
    cpu.set_v(0, 0x0A);
    cpu.set_v(1, 0x05);
    cpu.set_v(0xF, 1);
    assert_eq!(cpu.run_next_instruction(), Ok(()));
    assert_eq!(cpu.get_v(0), 0x0F);
    assert_eq!(cpu.get_v(0xF), 0);
}

#[test]
fn add_registers_with_overflow_sets_flag() {
    let mut cpu = boot(vec![0x80, 0x14]);
    cpu.set_v(0, 0xFF);
    cpu.set_v(1, 0x01);
    assert_eq!(cpu.run_next_instruction(), Ok(()));
    assert_eq!(cpu.get_v(0), 0x00);
    assert_eq!(cpu.get_v(0xF), 1);
}

#[test]
fn sub_registers_without_borrow_clears_flag() {
    let mut cpu = boot(vec![0x80, 0x15]);
    cpu.set_v(0, 0x09);
    cpu.set_v(1, 0x04);
    cpu.set_v(0xF, 1);
    assert_eq!(cpu.run_next_instruction(), Ok(()));
    assert_eq!(cpu.get_v(0), 0x05);
    assert_eq!(cpu.get_v(0xF), 0);
}

#[test]
fn sub_registers_with_borrow_sets_flag() {
    let mut cpu = boot(vec![0x80, 0x15]);
    cpu.set_v(0, 0x04);
    cpu.set_v(1, 0x09);
    assert_eq!(cpu.run_next_instruction(), Ok(()));
    assert_eq!(cpu.get_v(0), 0xFB);
    assert_eq!(cpu.get_v(0xF), 1);
}

#[test]
fn reverse_sub_registers() {
    // 8017: V0 := V1 - V0, VF reports the borrow from that subtraction.
    let mut cpu = boot(vec![0x80, 0x17]);
    cpu.set_v(0, 0x01);
    cpu.set_v(1, 0x05);
    assert_eq!(cpu.run_next_instruction(), Ok(()));
    assert_eq!(cpu.get_v(0), 0x04);
    assert_eq!(cpu.get_v(0xF), 0);

    let mut cpu = boot(vec![0x80, 0x17]);
    cpu.set_v(0, 0x05);
    cpu.set_v(1, 0x01);
    assert_eq!(cpu.run_next_instruction(), Ok(()));
    assert_eq!(cpu.get_v(0), 0xFC);
    assert_eq!(cpu.get_v(0xF), 1);
}

#[test]
fn shift_right_reads_and_writes_vy() {
    // 8016: both V0 and V1 take V1 >> 1; VF takes V1's old low bit.
    let mut cpu = boot(vec![0x80, 0x16]);
    cpu.set_v(0, 0x77);
    cpu.set_v(1, 0x05);
    assert_eq!(cpu.run_next_instruction(), Ok(()));
    assert_eq!(cpu.get_v(0), 0x02);
    assert_eq!(cpu.get_v(1), 0x02);
    assert_eq!(cpu.get_v(0xF), 1);
}

#[test]
fn shift_left_reads_and_writes_vy() {
    // 801E: both V0 and V1 take V1 << 1; VF takes V1's old high bit.
    let mut cpu = boot(vec![0x80, 0x1E]);
    cpu.set_v(0, 0x77);
    cpu.set_v(1, 0x81);
    assert_eq!(cpu.run_next_instruction(), Ok(()));
    assert_eq!(cpu.get_v(0), 0x02);
    assert_eq!(cpu.get_v(1), 0x02);
    assert_eq!(cpu.get_v(0xF), 1);
}

#[test]
fn alu_with_unknown_low_nibble_is_invalid() {
    let mut cpu = boot(vec![0x80, 0x18]);
    assert_eq!(
        cpu.run_next_instruction(),
        Err(Chip8Error::InvalidInstruction)
    );
}

#[test]
fn set_index_register() {
    let mut cpu = boot(vec![0xA1, 0x23]);
    assert_eq!(cpu.run_next_instruction(), Ok(()));
    assert_eq!(cpu.index_register(), 0x123);
}

#[test]
fn add_register_to_index() {
    let mut cpu = boot(vec![0xA1, 0x00, 0xF0, 0x1E]);
    cpu.set_v(0, 5);
    assert_eq!(cpu.run_next_instruction(), Ok(()));
    assert_eq!(cpu.run_next_instruction(), Ok(()));
    assert_eq!(cpu.index_register(), 0x105);
}

#[test]
fn font_address_is_five_bytes_per_glyph() {
    let mut cpu = boot(vec![0xF0, 0x29]);
    cpu.set_v(0, 3);
    assert_eq!(cpu.run_next_instruction(), Ok(()));
    assert_eq!(cpu.index_register(), 15);
}

#[test]
fn random_byte_is_masked() {
    let mut cpu = boot(vec![0xC0, 0x0F]);
    assert_eq!(cpu.run_next_instruction(), Ok(()));
    assert_eq!(cpu.get_v(0) & 0xF0, 0);
}

#[test]
fn skip_if_key_pressed() {
    let mut cpu = boot(vec![0xE0, 0x9E]);
    cpu.set_v(0, 4);
    cpu.read_keys(4, true);
    assert_eq!(cpu.run_next_instruction(), Ok(()));
    assert_eq!(cpu.program_counter(), 0x204);
}

#[test]
fn no_skip_if_key_released() {
    let mut cpu = boot(vec![0xE0, 0x9E]);
    cpu.set_v(0, 4);
    cpu.read_keys(4, true);
    cpu.read_keys(4, false);
    assert_eq!(cpu.run_next_instruction(), Ok(()));
    assert_eq!(cpu.program_counter(), 0x202);
}

#[test]
fn skip_if_key_not_pressed() {
    let mut cpu = boot(vec![0xE0, 0xA1]);
    cpu.set_v(0, 4);
    assert_eq!(cpu.run_next_instruction(), Ok(()));
    assert_eq!(cpu.program_counter(), 0x204);
}

#[test]
fn key_test_with_register_beyond_matrix_is_unmapped() {
    let mut cpu = boot(vec![0xE0, 0x9E]);
    cpu.set_v(0, 16);
    assert_eq!(
        cpu.run_next_instruction(),
        Err(Chip8Error::UnmappedAddress)
    );
}

#[test]
fn delay_timer_set_and_read_back() {
    // F015: delay := V0; F107: V1 := delay.
    let mut cpu = boot(vec![0xF0, 0x15, 0xF1, 0x07]);
    cpu.set_v(0, 5);
    assert_eq!(cpu.run_next_instruction(), Ok(()));
    assert_eq!(cpu.delay_timer_value(), 5);
    assert_eq!(cpu.run_next_instruction(), Ok(()));
    assert_eq!(cpu.get_v(1), 5);
}

#[test]
fn timers_count_down_and_stop_at_zero() {
    let mut cpu = boot(vec![0xF0, 0x15, 0xF0, 0x18]);
    cpu.set_v(0, 2);
    assert_eq!(cpu.run_next_instruction(), Ok(()));
    assert_eq!(cpu.run_next_instruction(), Ok(()));
    assert!(cpu.make_sound());
    cpu.decrease_timers();
    assert_eq!(cpu.delay_timer_value(), 1);
    assert!(cpu.make_sound());
    cpu.decrease_timers();
    assert_eq!(cpu.delay_timer_value(), 0);
    assert!(!cpu.make_sound());
    cpu.decrease_timers();
    assert_eq!(cpu.delay_timer_value(), 0);
    assert!(!cpu.make_sound());
}

#[test]
fn binary_coded_decimal_digits() {
    // V0 := 123; I := 0x300; F033 stores 1, 2, 3; F365 loads them back
    // into V0..V2.
    let mut cpu = boot(vec![0x60, 0x7B, 0xA3, 0x00, 0xF0, 0x33, 0xF3, 0x65]);
    for _ in 0..4 {
        assert_eq!(cpu.run_next_instruction(), Ok(()));
    }
    assert_eq!(cpu.get_v(0), 1);
    assert_eq!(cpu.get_v(1), 2);
    assert_eq!(cpu.get_v(2), 3);
}

#[test]
fn binary_coded_decimal_near_end_of_memory_is_unmapped() {
    // I := 0xFFF leaves no room for the three digits.
    let mut cpu = boot(vec![0xAF, 0xFF, 0xF0, 0x33]);
    assert_eq!(cpu.run_next_instruction(), Ok(()));
    assert_eq!(
        cpu.run_next_instruction(),
        Err(Chip8Error::UnmappedAddress)
    );
}

#[test]
fn register_dump_and_load_exclude_vx() {
    // F255 stores V0 and V1 only; V2 is not written. After clearing the
    // registers, F265 loads V0 and V1 back and leaves V2 alone.
    let mut cpu = boot(vec![
        0xA3, 0x00, // I := 0x300
        0xF2, 0x55, // dump V0..V2 (exclusive)
        0x60, 0x00, // V0 := 0
        0x61, 0x00, // V1 := 0
        0x62, 0x00, // V2 := 0
        0xF2, 0x65, // load V0..V2 (exclusive)
    ]);
    cpu.set_v(0, 0x11);
    cpu.set_v(1, 0x22);
    cpu.set_v(2, 0x33);
    for _ in 0..6 {
        assert_eq!(cpu.run_next_instruction(), Ok(()));
    }
    assert_eq!(cpu.get_v(0), 0x11);
    assert_eq!(cpu.get_v(1), 0x22);
    assert_eq!(cpu.get_v(2), 0x00);
}

#[test]
fn register_dump_with_zero_x_does_nothing() {
    let mut cpu = boot(vec![0xAF, 0xFF, 0xF0, 0x55]);
    assert_eq!(cpu.run_next_instruction(), Ok(()));
    assert_eq!(cpu.run_next_instruction(), Ok(()));
}

#[test]
fn unknown_instruction_is_invalid() {
    let mut cpu = boot(vec![0xFF, 0xFF]);
    assert_eq!(
        cpu.run_next_instruction(),
        Err(Chip8Error::InvalidInstruction)
    );
}

#[test]
fn fetch_from_unmapped_address_fails_and_leaves_pc() {
    // 1FFF: jump to the last mapped byte; the next fetch needs two bytes.
    let mut cpu = boot(vec![0x1F, 0xFF]);
    assert_eq!(cpu.run_next_instruction(), Ok(()));
    assert_eq!(
        cpu.run_next_instruction(),
        Err(Chip8Error::UnmappedAddress)
    );
    assert_eq!(cpu.program_counter(), 0xFFF);
}

#[test]
fn draw_wraps_around_both_edges() {
    // Sprite 0xFF drawn at column 62, row 31 covers two columns on the
    // right edge and six on the left, all on the bottom row.
    let mut cpu = boot(vec![0xA2, 0x06, 0xD0, 0x11, 0x00, 0x00, 0xFF]);
    cpu.set_v(0, 62);
    cpu.set_v(1, 31);
    assert_eq!(cpu.run_next_instruction(), Ok(()));
    assert_eq!(cpu.run_next_instruction(), Ok(()));
    for c in [62usize, 63, 0, 1, 2, 3, 4, 5] {
        assert!(is_paint(c, 31, &cpu.video));
    }
    assert!(!is_paint(6, 31, &cpu.video));
    assert!(!is_paint(62, 30, &cpu.video));
    assert_eq!(cpu.get_v(0xF), 0);
}

#[test]
fn draw_sprite_rows_beyond_memory_is_unmapped() {
    let mut cpu = boot(vec![0xAF, 0xFF, 0xD0, 0x05]);
    assert_eq!(cpu.run_next_instruction(), Ok(()));
    assert_eq!(
        cpu.run_next_instruction(),
        Err(Chip8Error::UnmappedAddress)
    );
}
