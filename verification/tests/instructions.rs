use chip8::emulator::{Chip8, Chip8Error};

fn machine() -> Chip8 {
    Chip8::new()
}

#[test]
fn add_immediate_wraps_without_flag() {
    let mut m = machine();
    m.registers[1] = 0xFF;
    m.registers[0xF] = 7;
    m.opcode = 0x7101;
    m.op_7xkk();
    assert_eq!(m.registers[1], 0x00);
    assert_eq!(m.registers[0xF], 7);
}

#[test]
fn add_immediate_plain() {
    let mut m = machine();
    m.registers[3] = 10;
    m.opcode = 0x7320;
    m.op_7xkk();
    assert_eq!(m.registers[3], 42);
}

#[test]
fn add_registers_sets_carry_exactly_on_overflow() {
    let mut m = machine();
    m.registers[1] = 0xFF;
    m.registers[2] = 0x01;
    m.opcode = 0x8124;
    m.op_8xy4();
    assert_eq!(m.registers[1], 0x00);
    assert_eq!(m.registers[0xF], 1);

    let mut m = machine();
    m.registers[1] = 0x01;
    m.registers[2] = 0x01;
    m.opcode = 0x8124;
    m.op_8xy4();
    assert_eq!(m.registers[1], 0x02);
    assert_eq!(m.registers[0xF], 0);
}

#[test]
fn sub_registers_sets_borrow_flag_and_wraps() {
    let mut m = machine();
    m.registers[1] = 5;
    m.registers[2] = 3;
    m.opcode = 0x8125;
    m.op_8xy5();
    assert_eq!(m.registers[1], 2);
    assert_eq!(m.registers[0xF], 1);

    let mut m = machine();
    m.registers[1] = 3;
    m.registers[2] = 5;
    m.opcode = 0x8125;
    m.op_8xy5();
    assert_eq!(m.registers[1], 254);
    assert_eq!(m.registers[0xF], 0);
}

#[test]
fn subn_registers() {
    let mut m = machine();
    m.registers[1] = 3;
    m.registers[2] = 5;
    m.opcode = 0x8127;
    m.op_8xy7();
    assert_eq!(m.registers[1], 2);
    assert_eq!(m.registers[0xF], 1);

    let mut m = machine();
    m.registers[1] = 5;
    m.registers[2] = 3;
    m.opcode = 0x8127;
    m.op_8xy7();
    assert_eq!(m.registers[1], 254);
    assert_eq!(m.registers[0xF], 0);
}

#[test]
fn logic_ops() {
    let mut m = machine();
    m.registers[1] = 0b1100;
    m.registers[2] = 0b1010;
    m.opcode = 0x8121;
    m.op_8xy1();
    assert_eq!(m.registers[1], 0b1110);

    m.registers[1] = 0b1100;
    m.opcode = 0x8122;
    m.op_8xy2();
    assert_eq!(m.registers[1], 0b1000);

    m.registers[1] = 0b1100;
    m.opcode = 0x8123;
    m.op_8xy3();
    assert_eq!(m.registers[1], 0b0110);

    m.registers[2] = 0x55;
    m.opcode = 0x8120;
    m.op_8xy0();
    assert_eq!(m.registers[1], 0x55);
}

#[test]
fn shifts_capture_the_moved_bit() {
    let mut m = machine();
    m.registers[4] = 0b1000_0101;
    m.opcode = 0x8406;
    m.op_8xy6();
    assert_eq!(m.registers[4], 0b0100_0010);
    assert_eq!(m.registers[0xF], 1);

    let mut m = machine();
    m.registers[4] = 0b1000_0101;
    m.opcode = 0x840E;
    m.op_8xye();
    assert_eq!(m.registers[4], 0b0000_1010);
    assert_eq!(m.registers[0xF], 1);

    let mut m = machine();
    m.registers[4] = 0b0100_0100;
    m.opcode = 0x840E;
    m.op_8xye();
    assert_eq!(m.registers[4], 0b1000_1000);
    assert_eq!(m.registers[0xF], 0);
}

#[test]
fn load_and_jump() {
    let mut m = machine();
    m.opcode = 0x6A77;
    m.op_6xkk();
    assert_eq!(m.registers[0xA], 0x77);

    m.opcode = 0x1ABC;
    m.op_1nnn();
    assert_eq!(m.pc, 0xABC);

    m.opcode = 0xA123;
    m.op_annn();
    assert_eq!(m.index, 0x123);

    m.registers[0] = 0x10;
    m.opcode = 0xBFFF;
    m.op_bnnn();
    assert_eq!(m.pc, (0xFFF + 0x10) % 0x1000);
}

#[test]
fn random_result_never_leaks_past_mask() {
    let mut m = machine();
    for _ in 0..1000 {
        m.opcode = 0xC15A;
        m.op_cxkk();
        let r = m.registers[1];
        assert_eq!(r & 0x5A, r);
    }
}

#[test]
fn store_bcd_digits() {
    let mut m = machine();
    m.registers[7] = 254;
    m.index = 0x300;
    m.opcode = 0xF733;
    assert_eq!(m.op_fx33(), Ok(()));
    assert_eq!(m.memory[0x300], 2);
    assert_eq!(m.memory[0x301], 5);
    assert_eq!(m.memory[0x302], 4);
}

#[test]
fn store_bcd_out_of_bounds() {
    let mut m = machine();
    m.index = 4094;
    m.opcode = 0xF033;
    assert_eq!(m.op_fx33(), Err(Chip8Error::BoundsViolation));
}

#[test]
fn store_and_load_registers() {
    let mut m = machine();
    for i in 0..4 {
        m.registers[i] = (i as u8) + 10;
    }
    m.index = 0x400;
    m.opcode = 0xF355;
    assert_eq!(m.op_fx55(), Ok(()));
    assert_eq!(m.memory[0x400], 10);
    assert_eq!(m.memory[0x401], 11);
    assert_eq!(m.memory[0x402], 12);
    assert_eq!(m.memory[0x403], 13);
    assert_eq!(m.memory[0x404], 0);

    let mut m2 = machine();
    m2.memory[0x400] = 21;
    m2.memory[0x401] = 22;
    m2.index = 0x400;
    m2.opcode = 0xF165;
    assert_eq!(m2.op_fx65(), Ok(()));
    assert_eq!(m2.registers[0], 21);
    assert_eq!(m2.registers[1], 22);
    assert_eq!(m2.registers[2], 0);
}

#[test]
fn block_transfer_out_of_bounds() {
    let mut m = machine();
    m.index = 4090;
    m.opcode = 0xF755;
    assert_eq!(m.op_fx55(), Err(Chip8Error::BoundsViolation));
    m.opcode = 0xF765;
    assert_eq!(m.op_fx65(), Err(Chip8Error::BoundsViolation));
}

#[test]
fn timers_and_index_ops() {
    let mut m = machine();
    m.delay_timer = 9;
    m.opcode = 0xF507;
    m.op_fx07();
    assert_eq!(m.registers[5], 9);

    m.registers[5] = 33;
    m.opcode = 0xF515;
    m.op_fx15();
    assert_eq!(m.delay_timer, 33);

    m.opcode = 0xF518;
    m.op_fx18();
    assert_eq!(m.sound_timer, 33);

    m.index = 0xFFE;
    m.registers[5] = 4;
    m.opcode = 0xF51E;
    m.op_fx1e();
    assert_eq!(m.index, 0x002);

    m.registers[5] = 0xA;
    m.opcode = 0xF529;
    m.op_fx29();
    assert_eq!(m.index, 0x50 + 0xA * 5);
}

#[test]
fn tick_timers_saturates_at_zero() {
    let mut m = machine();
    m.delay_timer = 2;
    m.sound_timer = 0;
    m.tick_timers();
    assert_eq!(m.delay_timer, 1);
    assert_eq!(m.sound_timer, 0);
    m.tick_timers();
    m.tick_timers();
    assert_eq!(m.delay_timer, 0);
    assert_eq!(m.sound_timer, 0);
}

#[test]
fn wait_for_key_reexecutes_until_pressed() {
    let mut m = machine();
    m.pc = 0x202;
    m.opcode = 0xF30A;
    m.op_fx0a();
    assert_eq!(m.pc, 0x200);
    assert_eq!(m.registers[3], 0);

    let mut m = machine();
    m.pc = 0x202;
    m.keypad[5] = true;
    m.keypad[9] = true;
    m.opcode = 0xF30A;
    m.op_fx0a();
    assert_eq!(m.pc, 0x202);
    assert_eq!(m.registers[3], 5);
}

#[test]
fn key_skips() {
    let mut m = machine();
    m.registers[2] = 7;
    m.keypad[7] = true;
    m.opcode = 0xE29E;
    assert_eq!(m.op_ex9e(), Ok(()));
    assert_eq!(m.pc, 0x202);

    m.opcode = 0xE2A1;
    assert_eq!(m.op_exa1(), Ok(()));
    assert_eq!(m.pc, 0x202);

    m.keypad[7] = false;
    m.opcode = 0xE2A1;
    assert_eq!(m.op_exa1(), Ok(()));
    assert_eq!(m.pc, 0x204);
}

#[test]
fn key_skip_with_no_such_key_fails() {
    let mut m = machine();
    m.registers[2] = 16;
    m.opcode = 0xE29E;
    assert_eq!(m.op_ex9e(), Err(Chip8Error::BoundsViolation));
    m.opcode = 0xE2A1;
    assert_eq!(m.op_exa1(), Err(Chip8Error::BoundsViolation));
}

#[test]
fn clear_screen_turns_everything_off() {
    let mut m = machine();
    m.video[0] = true;
    m.video[2047] = true;
    m.op_00e0();
    for i in 0..2048 {
        assert!(!m.video[i]);
    }
}
