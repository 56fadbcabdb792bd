use chip8::emulator::{decode, Chip8, Chip8Error, Opcode, FONTSET, FONTSET_START_ADDRESS};
use chip8::utils::{
    get_high_4_bits_of_low_byte, get_low_12_bits, get_low_4_bits_of_high_byte, get_low_byte,
    get_lowest_4_bits,
};

#[test]
fn bit_field_utilities() {
    assert_eq!(get_low_12_bits(0xABCD), 0xBCD);
    assert_eq!(get_low_4_bits_of_high_byte(0xABCD), 0xB);
    assert_eq!(get_high_4_bits_of_low_byte(0xABCD), 0xC);
    assert_eq!(get_lowest_4_bits(0xABCD), 0xD);
    assert_eq!(get_low_byte(0xABCD), 0xCD);
    assert_eq!(get_low_12_bits(0x0000), 0x000);
    assert_eq!(get_low_byte(0xFFFF), 0xFF);
}

#[test]
fn new_machine_has_font_and_clean_state() {
    let m = Chip8::new();
    assert_eq!(m.pc, 0x200);
    assert_eq!(m.sp, 0);
    assert_eq!(m.index, 0);
    for i in 0..80 {
        assert_eq!(m.memory[FONTSET_START_ADDRESS as usize + i], FONTSET[i]);
    }
    assert_eq!(m.memory[0x50], 0xF0);
    assert_eq!(m.memory[0x9F], 0x80);
    assert_eq!(m.memory[0x4F], 0);
    assert_eq!(m.memory[0xA0], 0);
    for i in 0..16 {
        assert_eq!(m.registers[i], 0);
        assert!(!m.keypad[i]);
    }
}

#[test]
fn load_rom_copies_and_rejects_oversized_images() {
    let mut m = Chip8::new();
    let rom = vec![0x12, 0x34, 0x56];
    assert_eq!(m.load_rom(&rom), Ok(()));
    assert_eq!(m.memory[0x200], 0x12);
    assert_eq!(m.memory[0x201], 0x34);
    assert_eq!(m.memory[0x202], 0x56);
    assert_eq!(m.memory[0x203], 0x00);

    let exact = vec![7u8; 4096 - 0x200];
    assert_eq!(m.load_rom(&exact), Ok(()));
    assert_eq!(m.memory[4095], 7);

    let too_big = vec![7u8; 4096 - 0x200 + 1];
    assert_eq!(m.load_rom(&too_big), Err(Chip8Error::BoundsViolation));
}

#[test]
fn decode_classifies_every_family() {
    assert_eq!(decode(0x00E0), Some(Opcode::ClearScreen));
    assert_eq!(decode(0x00EE), Some(Opcode::Ret));
    assert_eq!(decode(0x1ABC), Some(Opcode::Jump));
    assert_eq!(decode(0x2ABC), Some(Opcode::Call));
    assert_eq!(decode(0x3A12), Some(Opcode::SkipEqImm));
    assert_eq!(decode(0x4A12), Some(Opcode::SkipNeImm));
    assert_eq!(decode(0x5AB0), Some(Opcode::SkipEqReg));
    assert_eq!(decode(0x6A12), Some(Opcode::LoadImm));
    assert_eq!(decode(0x7A12), Some(Opcode::AddImm));
    assert_eq!(decode(0x8AB0), Some(Opcode::Move));
    assert_eq!(decode(0x8AB1), Some(Opcode::Or));
    assert_eq!(decode(0x8AB2), Some(Opcode::And));
    assert_eq!(decode(0x8AB3), Some(Opcode::Xor));
    assert_eq!(decode(0x8AB4), Some(Opcode::AddCarry));
    assert_eq!(decode(0x8AB5), Some(Opcode::SubBorrow));
    assert_eq!(decode(0x8AB6), Some(Opcode::ShiftRight));
    assert_eq!(decode(0x8AB7), Some(Opcode::SubnBorrow));
    assert_eq!(decode(0x8ABE), Some(Opcode::ShiftLeft));
    assert_eq!(decode(0x9AB0), Some(Opcode::SkipNeReg));
    assert_eq!(decode(0xAABC), Some(Opcode::LoadIndex));
    assert_eq!(decode(0xBABC), Some(Opcode::JumpIndexed));
    assert_eq!(decode(0xCA12), Some(Opcode::Random));
    assert_eq!(decode(0xDAB5), Some(Opcode::Draw));
    assert_eq!(decode(0xEA9E), Some(Opcode::SkipKeyPressed));
    assert_eq!(decode(0xEAA1), Some(Opcode::SkipKeyNotPressed));
    assert_eq!(decode(0xFA07), Some(Opcode::ReadDelay));
    assert_eq!(decode(0xFA0A), Some(Opcode::WaitKey));
    assert_eq!(decode(0xFA15), Some(Opcode::SetDelay));
    assert_eq!(decode(0xFA18), Some(Opcode::SetSound));
    assert_eq!(decode(0xFA1E), Some(Opcode::AddIndex));
    assert_eq!(decode(0xFA29), Some(Opcode::FontAddress));
    assert_eq!(decode(0xFA33), Some(Opcode::StoreBcd));
    assert_eq!(decode(0xFA55), Some(Opcode::StoreRegisters));
    assert_eq!(decode(0xFA65), Some(Opcode::LoadRegisters));
    assert_eq!(decode(0x0000), None);
    assert_eq!(decode(0x5AB1), None);
    assert_eq!(decode(0x8AB8), None);
    assert_eq!(decode(0x9AB4), None);
    assert_eq!(decode(0xEAFF), None);
    assert_eq!(decode(0xFAFF), None);
}

#[test]
fn call_and_return_round_trip() {
    let mut m = Chip8::new();
    let mut rom = vec![0u8; 0x10];
    rom[0] = 0x22;
    rom[1] = 0x08;
    rom[8] = 0x00;
    rom[9] = 0xEE;
    assert_eq!(m.load_rom(&rom), Ok(()));
    assert_eq!(m.cycle(), Ok(()));
    assert_eq!(m.pc, 0x208);
    assert_eq!(m.sp, 1);
    assert_eq!(m.stack[0], 0x202);
    assert_eq!(m.cycle(), Ok(()));
    assert_eq!(m.pc, 0x202);
    assert_eq!(m.sp, 0);
}

#[test]
fn skips_advance_by_four_or_two() {
    let mut m = Chip8::new();
    let rom = vec![0x31, 0x07];
    m.load_rom(&rom).unwrap();
    m.registers[1] = 0x07;
    assert_eq!(m.cycle(), Ok(()));
    assert_eq!(m.pc, 0x204);

    let mut m = Chip8::new();
    m.load_rom(&vec![0x31, 0x07]).unwrap();
    m.registers[1] = 0x08;
    assert_eq!(m.cycle(), Ok(()));
    assert_eq!(m.pc, 0x202);

    let mut m = Chip8::new();
    m.load_rom(&vec![0x41, 0x07]).unwrap();
    m.registers[1] = 0x08;
    assert_eq!(m.cycle(), Ok(()));
    assert_eq!(m.pc, 0x204);

    let mut m = Chip8::new();
    m.load_rom(&vec![0x51, 0x20]).unwrap();
    m.registers[1] = 3;
    m.registers[2] = 3;
    assert_eq!(m.cycle(), Ok(()));
    assert_eq!(m.pc, 0x204);

    let mut m = Chip8::new();
    m.load_rom(&vec![0x91, 0x20]).unwrap();
    m.registers[1] = 3;
    m.registers[2] = 3;
    assert_eq!(m.cycle(), Ok(()));
    assert_eq!(m.pc, 0x202);
}

#[test]
fn unknown_opcode_fails_without_mutating_machine() {
    let mut m = Chip8::new();
    m.load_rom(&vec![0x8A, 0xB8]).unwrap();
    m.registers[5] = 99;
    let regs = m.registers;
    let sp = m.sp;
    assert_eq!(m.cycle(), Err(Chip8Error::UnknownOpcode));
    assert_eq!(m.registers, regs);
    assert_eq!(m.sp, sp);
    assert_eq!(m.pc, 0x202);
}

#[test]
fn stack_underflow_and_overflow_are_distinct_failures() {
    let mut m = Chip8::new();
    m.load_rom(&vec![0x00, 0xEE]).unwrap();
    assert_eq!(m.cycle(), Err(Chip8Error::StackUnderflow));
    assert_eq!(m.sp, 0);

    let mut m = Chip8::new();
    m.load_rom(&vec![0x22, 0x00]).unwrap();
    m.sp = 16;
    let stack = m.stack;
    assert_eq!(m.cycle(), Err(Chip8Error::StackOverflow));
    assert_eq!(m.sp, 16);
    assert_eq!(m.stack, stack);
}

#[test]
fn fetch_out_of_bounds_fails() {
    let mut m = Chip8::new();
    m.pc = 4095;
    assert_eq!(m.cycle(), Err(Chip8Error::BoundsViolation));
    assert_eq!(m.pc, 4095);
    m.pc = 4096;
    assert_eq!(m.cycle(), Err(Chip8Error::BoundsViolation));
}

#[test]
fn draw_sets_pixels_detects_collisions_and_wraps() {
    let mut m = Chip8::new();
    m.memory[0x300] = 0b1100_0001;
    m.index = 0x300;
    m.registers[1] = 62;
    m.registers[2] = 31;
    m.opcode = 0xD121;
    assert_eq!(m.op_dxyn(), Ok(()));
    assert_eq!(m.registers[0xF], 0);
    assert!(m.video[31 * 64 + 62]);
    assert!(m.video[31 * 64 + 63]);
    assert!(!m.video[31 * 64 + 0]);
    assert!(m.video[31 * 64 + 5]);

    let mut m = Chip8::new();
    m.memory[0x300] = 0b1000_0000;
    m.memory[0x301] = 0b1000_0000;
    m.index = 0x300;
    m.registers[1] = 0;
    m.registers[2] = 31;
    m.opcode = 0xD122;
    assert_eq!(m.op_dxyn(), Ok(()));
    assert!(m.video[31 * 64]);
    assert!(m.video[0]);
}

#[test]
fn draw_twice_restores_pixels_and_reports_collision() {
    let mut m = Chip8::new();
    m.memory[0x310] = 0xA5;
    m.memory[0x311] = 0x3C;
    m.index = 0x310;
    m.registers[1] = 10;
    m.registers[2] = 5;
    m.opcode = 0xD122;
    assert_eq!(m.op_dxyn(), Ok(()));
    assert_eq!(m.registers[0xF], 0);
    let after_first = m.video;
    assert_ne!(after_first.iter().filter(|p| **p).count(), 0);
    assert_eq!(m.op_dxyn(), Ok(()));
    assert_eq!(m.registers[0xF], 1);
    for i in 0..2048 {
        assert!(!m.video[i]);
    }
}

#[test]
fn draw_out_of_bounds_sprite_fails() {
    let mut m = Chip8::new();
    m.index = 4095;
    m.opcode = 0xD122;
    assert_eq!(m.op_dxyn(), Err(Chip8Error::BoundsViolation));
    m.index = 4095;
    m.opcode = 0xD121;
    assert_eq!(m.op_dxyn(), Ok(()));
}

#[test]
fn wait_key_blocks_through_cycle() {
    let mut m = Chip8::new();
    m.load_rom(&vec![0xF6, 0x0A]).unwrap();
    assert_eq!(m.cycle(), Ok(()));
    assert_eq!(m.pc, 0x200);
    m.keypad[0xC] = true;
    assert_eq!(m.cycle(), Ok(()));
    assert_eq!(m.pc, 0x202);
    assert_eq!(m.registers[6], 0xC);
}
