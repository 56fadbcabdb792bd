//! The emulated machine: registers, memory, call stack, timers, keypad and
//! framebuffer, together with one state-transition method per instruction
//! and the fetch-decode-execute cycle that drives them.
use crate::rng::{fresh_rng, random_byte};
use crate::utils::{
    get_high_4_bits_of_low_byte, get_low_12_bits, get_low_4_bits_of_high_byte, get_low_byte,
    get_lowest_4_bits, kk_of, lemma_operand_ranges, n_of, nnn_of, x_of, y_of,
};
use vstd::prelude::*;

verus! {

/// Loaded programs begin at this memory address.
pub const START_ADDRESS: u16 = 0x200;

/// The font glyphs sit in the reserved region below the program base.
pub const FONTSET_START_ADDRESS: u16 = 0x50;

/// Sixteen glyphs of five bytes each.
pub const FONTSET_SIZE: u16 = 80;

/// Bytes per font glyph.
pub const GLYPH_SIZE: u16 = 5;

pub const VIDEO_WIDTH: u8 = 64;

pub const VIDEO_HEIGHT: u8 = 32;

/// Row-major bitmaps of the sixteen hexadecimal digit glyphs, five bytes
/// per glyph, the standard layout that programs expect in low memory.
pub const FONTSET: [u8; 80] = [
    0xF0, 0x90, 0x90, 0x90, 0xF0,
    0x20, 0x60, 0x20, 0x20, 0x70,
    0xF0, 0x10, 0xF0, 0x80, 0xF0,
    0xF0, 0x10, 0xF0, 0x10, 0xF0,
    0x90, 0x90, 0xF0, 0x10, 0x10,
    0xF0, 0x80, 0xF0, 0x10, 0xF0,
    0xF0, 0x80, 0xF0, 0x90, 0xF0,
    0xF0, 0x10, 0x20, 0x40, 0x40,
    0xF0, 0x90, 0xF0, 0x90, 0xF0,
    0xF0, 0x90, 0xF0, 0x10, 0xF0,
    0xF0, 0x90, 0xF0, 0x90, 0x90,
    0xE0, 0x90, 0xE0, 0x90, 0xE0,
    0xF0, 0x80, 0x80, 0x80, 0xF0,
    0xE0, 0x90, 0x90, 0x90, 0xE0,
    0xF0, 0x80, 0xF0, 0x80, 0xF0,
    0xF0, 0x80, 0xF0, 0x80, 0x80,
];

/// The four unrecoverable failures an instruction can surface: an address
/// outside the machine's bounds (memory, or a key index past the keypad),
/// a call with the stack full, a return with the stack empty, and an
/// instruction word that no operation recognizes.
#[derive(Clone, Copy, Debug, PartialEq, Eq, Structural)]
pub enum Chip8Error {
    BoundsViolation,
    StackOverflow,
    StackUnderflow,
    UnknownOpcode,
}

/// The closed set of operations an instruction word can encode, one
/// variant per opcode family member.
#[derive(Clone, Copy, Debug, PartialEq, Eq, Structural)]
pub enum Opcode {
    ClearScreen,
    Ret,
    Jump,
    Call,
    SkipEqImm,
    SkipNeImm,
    SkipEqReg,
    LoadImm,
    AddImm,
    Move,
    Or,
    And,
    Xor,
    AddCarry,
    SubBorrow,
    ShiftRight,
    SubnBorrow,
    ShiftLeft,
    SkipNeReg,
    LoadIndex,
    JumpIndexed,
    Random,
    Draw,
    SkipKeyPressed,
    SkipKeyNotPressed,
    ReadDelay,
    WaitKey,
    SetDelay,
    SetSound,
    AddIndex,
    FontAddress,
    StoreBcd,
    StoreRegisters,
    LoadRegisters,
}

/// Classifies an instruction word by its high nibble and, for the 0, 5, 8,
/// 9, E and F families, its low nibble or low byte; an encoding no
/// operation recognizes classifies as nothing.
pub open spec fn spec_decode(op: u16) -> Option<Opcode> {
    if op == 0x00E0 {
        Some(Opcode::ClearScreen)
    } else if op == 0x00EE {
        Some(Opcode::Ret)
    } else if op >> 12u16 == 0x1 {
        Some(Opcode::Jump)
    } else if op >> 12u16 == 0x2 {
        Some(Opcode::Call)
    } else if op >> 12u16 == 0x3 {
        Some(Opcode::SkipEqImm)
    } else if op >> 12u16 == 0x4 {
        Some(Opcode::SkipNeImm)
    } else if op >> 12u16 == 0x5 && n_of(op) == 0x0 {
        Some(Opcode::SkipEqReg)
    } else if op >> 12u16 == 0x6 {
        Some(Opcode::LoadImm)
    } else if op >> 12u16 == 0x7 {
        Some(Opcode::AddImm)
    } else if op >> 12u16 == 0x8 && n_of(op) == 0x0 {
        Some(Opcode::Move)
    } else if op >> 12u16 == 0x8 && n_of(op) == 0x1 {
        Some(Opcode::Or)
    } else if op >> 12u16 == 0x8 && n_of(op) == 0x2 {
        Some(Opcode::And)
    } else if op >> 12u16 == 0x8 && n_of(op) == 0x3 {
        Some(Opcode::Xor)
    } else if op >> 12u16 == 0x8 && n_of(op) == 0x4 {
        Some(Opcode::AddCarry)
    } else if op >> 12u16 == 0x8 && n_of(op) == 0x5 {
        Some(Opcode::SubBorrow)
    } else if op >> 12u16 == 0x8 && n_of(op) == 0x6 {
        Some(Opcode::ShiftRight)
    } else if op >> 12u16 == 0x8 && n_of(op) == 0x7 {
        Some(Opcode::SubnBorrow)
    } else if op >> 12u16 == 0x8 && n_of(op) == 0xE {
        Some(Opcode::ShiftLeft)
    } else if op >> 12u16 == 0x9 && n_of(op) == 0x0 {
        Some(Opcode::SkipNeReg)
    } else if op >> 12u16 == 0xA {
        Some(Opcode::LoadIndex)
    } else if op >> 12u16 == 0xB {
        Some(Opcode::JumpIndexed)
    } else if op >> 12u16 == 0xC {
        Some(Opcode::Random)
    } else if op >> 12u16 == 0xD {
        Some(Opcode::Draw)
    } else if op >> 12u16 == 0xE && kk_of(op) == 0x9E {
        Some(Opcode::SkipKeyPressed)
    } else if op >> 12u16 == 0xE && kk_of(op) == 0xA1 {
        Some(Opcode::SkipKeyNotPressed)
    } else if op >> 12u16 == 0xF && kk_of(op) == 0x07 {
        Some(Opcode::ReadDelay)
    } else if op >> 12u16 == 0xF && kk_of(op) == 0x0A {
        Some(Opcode::WaitKey)
    } else if op >> 12u16 == 0xF && kk_of(op) == 0x15 {
        Some(Opcode::SetDelay)
    } else if op >> 12u16 == 0xF && kk_of(op) == 0x18 {
        Some(Opcode::SetSound)
    } else if op >> 12u16 == 0xF && kk_of(op) == 0x1E {
        Some(Opcode::AddIndex)
    } else if op >> 12u16 == 0xF && kk_of(op) == 0x29 {
        Some(Opcode::FontAddress)
    } else if op >> 12u16 == 0xF && kk_of(op) == 0x33 {
        Some(Opcode::StoreBcd)
    } else if op >> 12u16 == 0xF && kk_of(op) == 0x55 {
        Some(Opcode::StoreRegisters)
    } else if op >> 12u16 == 0xF && kk_of(op) == 0x65 {
        Some(Opcode::LoadRegisters)
    } else {
        None
    }
}

/// Classifies an instruction word into exactly one of the recognized
/// operations, or nothing for an unknown encoding.
pub fn decode(op: u16) -> (r: Option<Opcode>)
    ensures
        r == spec_decode(op),
{
    let hi = op >> 12u16;
    let n = get_lowest_4_bits(op);
    let kk = get_low_byte(op);
    if op == 0x00E0 {
        Some(Opcode::ClearScreen)
    } else if op == 0x00EE {
        Some(Opcode::Ret)
    } else if hi == 0x1 {
        Some(Opcode::Jump)
    } else if hi == 0x2 {
        Some(Opcode::Call)
    } else if hi == 0x3 {
        Some(Opcode::SkipEqImm)
    } else if hi == 0x4 {
        Some(Opcode::SkipNeImm)
    } else if hi == 0x5 && n == 0x0 {
        Some(Opcode::SkipEqReg)
    } else if hi == 0x6 {
        Some(Opcode::LoadImm)
    } else if hi == 0x7 {
        Some(Opcode::AddImm)
    } else if hi == 0x8 && n == 0x0 {
        Some(Opcode::Move)
    } else if hi == 0x8 && n == 0x1 {
        Some(Opcode::Or)
    } else if hi == 0x8 && n == 0x2 {
        Some(Opcode::And)
    } else if hi == 0x8 && n == 0x3 {
        Some(Opcode::Xor)
    } else if hi == 0x8 && n == 0x4 {
        Some(Opcode::AddCarry)
    } else if hi == 0x8 && n == 0x5 {
        Some(Opcode::SubBorrow)
    } else if hi == 0x8 && n == 0x6 {
        Some(Opcode::ShiftRight)
    } else if hi == 0x8 && n == 0x7 {
        Some(Opcode::SubnBorrow)
    } else if hi == 0x8 && n == 0xE {
        Some(Opcode::ShiftLeft)
    } else if hi == 0x9 && n == 0x0 {
        Some(Opcode::SkipNeReg)
    } else if hi == 0xA {
        Some(Opcode::LoadIndex)
    } else if hi == 0xB {
        Some(Opcode::JumpIndexed)
    } else if hi == 0xC {
        Some(Opcode::Random)
    } else if hi == 0xD {
        Some(Opcode::Draw)
    } else if hi == 0xE && kk == 0x9E {
        Some(Opcode::SkipKeyPressed)
    } else if hi == 0xE && kk == 0xA1 {
        Some(Opcode::SkipKeyNotPressed)
    } else if hi == 0xF && kk == 0x07 {
        Some(Opcode::ReadDelay)
    } else if hi == 0xF && kk == 0x0A {
        Some(Opcode::WaitKey)
    } else if hi == 0xF && kk == 0x15 {
        Some(Opcode::SetDelay)
    } else if hi == 0xF && kk == 0x18 {
        Some(Opcode::SetSound)
    } else if hi == 0xF && kk == 0x1E {
        Some(Opcode::AddIndex)
    } else if hi == 0xF && kk == 0x29 {
        Some(Opcode::FontAddress)
    } else if hi == 0xF && kk == 0x33 {
        Some(Opcode::StoreBcd)
    } else if hi == 0xF && kk == 0x55 {
        Some(Opcode::StoreRegisters)
    } else if hi == 0xF && kk == 0x65 {
        Some(Opcode::LoadRegisters)
    } else {
        None
    }
}

/// The whole state of one emulated machine.
#[verifier::ext_equal]
pub struct Chip8 {
    /// Sixteen 8-bit general-purpose registers V0..VF; VF doubles as the
    /// carry, borrow and collision flag.
    pub registers: [u8; 16],
    /// 4096 bytes of byte-addressable memory.
    pub memory: [u8; 4096],
    /// The 16-bit index register I; only its low 12 bits address memory.
    pub index: u16,
    /// The address of the next instruction to fetch.
    pub pc: u16,
    /// Sixteen call-stack slots of return addresses.
    pub stack: [u16; 16],
    /// The next free stack slot, 0..=16.
    pub sp: u8,
    pub delay_timer: u8,
    pub sound_timer: u8,
    /// One pressed/released state per key symbol 0..=15.
    pub keypad: [bool; 16],
    /// The 64 x 32 monochrome framebuffer, row-major: (x, y) at y * 64 + x.
    pub video: [bool; 2048],
    /// The most recently fetched instruction word.
    pub opcode: u16,
    /// The machine's source of random bytes.
    pub rand_gen: rand::rngs::ThreadRng,
}

/// An 8-bit value wrapped modulo 256.
pub open spec fn wrap8(v: int) -> u8 {
    (v % 256) as u8
}

/// Everything but the general-purpose registers is unchanged.
pub open spec fn only_regs_differ(pre: Chip8, post: Chip8) -> bool {
    post == (Chip8 { registers: post.registers, ..pre })
}

/// Everything but the program counter is unchanged.
pub open spec fn only_pc_differs(pre: Chip8, post: Chip8) -> bool {
    post == (Chip8 { pc: post.pc, ..pre })
}

/// Everything but the registers and the program counter is unchanged.
pub open spec fn only_regs_pc_differ(pre: Chip8, post: Chip8) -> bool {
    post == (Chip8 { registers: post.registers, pc: post.pc, ..pre })
}

/// Everything but the index register is unchanged.
pub open spec fn only_index_differs(pre: Chip8, post: Chip8) -> bool {
    post == (Chip8 { index: post.index, ..pre })
}

/// Everything but memory is unchanged.
pub open spec fn only_memory_differs(pre: Chip8, post: Chip8) -> bool {
    post == (Chip8 { memory: post.memory, ..pre })
}

/// Everything but the framebuffer is unchanged.
pub open spec fn only_video_differs(pre: Chip8, post: Chip8) -> bool {
    post == (Chip8 { video: post.video, ..pre })
}

/// Everything but the registers and the framebuffer is unchanged.
pub open spec fn only_regs_video_differ(pre: Chip8, post: Chip8) -> bool {
    post == (Chip8 { registers: post.registers, video: post.video, ..pre })
}

/// Everything but the registers and the random generator is unchanged.
pub open spec fn only_regs_rng_differ(pre: Chip8, post: Chip8) -> bool {
    post == (Chip8 { registers: post.registers, rand_gen: post.rand_gen, ..pre })
}

/// clear-screen: every framebuffer cell is turned off.
pub open spec fn op_00e0_spec(pre: Chip8, post: Chip8) -> bool {
    only_video_differs(pre, post) && post.video@ == Seq::new(2048, |i: int| false)
}

/// jump nnn: the program counter moves to the address operand.
pub open spec fn op_1nnn_spec(pre: Chip8, post: Chip8) -> bool {
    only_pc_differs(pre, post) && post.pc == nnn_of(pre.opcode)
}

/// skip-if-equal Vx, kk: the program counter advances one extra
/// instruction exactly when Vx equals the immediate.
pub open spec fn op_3xkk_spec(pre: Chip8, post: Chip8) -> bool {
    only_pc_differs(pre, post) && post.pc == if pre.registers@[x_of(pre.opcode) as int] == kk_of(
        pre.opcode,
    ) {
        (pre.pc + 2) as u16
    } else {
        pre.pc
    }
}

/// skip-if-not-equal Vx, kk: one extra instruction exactly when Vx
/// differs from the immediate.
pub open spec fn op_4xkk_spec(pre: Chip8, post: Chip8) -> bool {
    only_pc_differs(pre, post) && post.pc == if pre.registers@[x_of(pre.opcode) as int] != kk_of(
        pre.opcode,
    ) {
        (pre.pc + 2) as u16
    } else {
        pre.pc
    }
}

/// skip-if-registers-equal Vx, Vy.
pub open spec fn op_5xy0_spec(pre: Chip8, post: Chip8) -> bool {
    only_pc_differs(pre, post) && post.pc == if pre.registers@[x_of(pre.opcode) as int]
        == pre.registers@[y_of(pre.opcode) as int] {
        (pre.pc + 2) as u16
    } else {
        pre.pc
    }
}

/// skip-if-registers-not-equal Vx, Vy.
pub open spec fn op_9xy0_spec(pre: Chip8, post: Chip8) -> bool {
    only_pc_differs(pre, post) && post.pc == if pre.registers@[x_of(pre.opcode) as int]
        != pre.registers@[y_of(pre.opcode) as int] {
        (pre.pc + 2) as u16
    } else {
        pre.pc
    }
}

/// load Vx, kk.
pub open spec fn op_6xkk_spec(pre: Chip8, post: Chip8) -> bool {
    only_regs_differ(pre, post) && post.registers@ == pre.registers@.update(
        x_of(pre.opcode) as int,
        kk_of(pre.opcode),
    )
}

/// add Vx, kk: wraps modulo 256 and touches no flag.
pub open spec fn op_7xkk_spec(pre: Chip8, post: Chip8) -> bool {
    only_regs_differ(pre, post) && post.registers@ == pre.registers@.update(
        x_of(pre.opcode) as int,
        wrap8(pre.registers@[x_of(pre.opcode) as int] + kk_of(pre.opcode)),
    )
}

/// move Vx, Vy.
pub open spec fn op_8xy0_spec(pre: Chip8, post: Chip8) -> bool {
    only_regs_differ(pre, post) && post.registers@ == pre.registers@.update(
        x_of(pre.opcode) as int,
        pre.registers@[y_of(pre.opcode) as int],
    )
}

/// or Vx, Vy.
pub open spec fn op_8xy1_spec(pre: Chip8, post: Chip8) -> bool {
    only_regs_differ(pre, post) && post.registers@ == pre.registers@.update(
        x_of(pre.opcode) as int,
        pre.registers@[x_of(pre.opcode) as int] | pre.registers@[y_of(pre.opcode) as int],
    )
}

/// and Vx, Vy.
pub open spec fn op_8xy2_spec(pre: Chip8, post: Chip8) -> bool {
    only_regs_differ(pre, post) && post.registers@ == pre.registers@.update(
        x_of(pre.opcode) as int,
        pre.registers@[x_of(pre.opcode) as int] & pre.registers@[y_of(pre.opcode) as int],
    )
}

/// xor Vx, Vy.
pub open spec fn op_8xy3_spec(pre: Chip8, post: Chip8) -> bool {
    only_regs_differ(pre, post) && post.registers@ == pre.registers@.update(
        x_of(pre.opcode) as int,
        pre.registers@[x_of(pre.opcode) as int] ^ pre.registers@[y_of(pre.opcode) as int],
    )
}

/// add Vx, Vy with carry: VF is 1 exactly when the 9-bit sum exceeds 255,
/// and Vx takes the sum's low 8 bits (both operands read beforehand).
pub open spec fn op_8xy4_spec(pre: Chip8, post: Chip8) -> bool {
    let sum = pre.registers@[x_of(pre.opcode) as int] + pre.registers@[y_of(pre.opcode) as int];
    only_regs_differ(pre, post) && post.registers@ == pre.registers@.update(
        15,
        if sum > 255 {
            1u8
        } else {
            0u8
        },
    ).update(x_of(pre.opcode) as int, wrap8(sum))
}

/// sub Vx, Vy: VF is 1 exactly when Vx > Vy, then Vx wraps downward by Vy;
/// the subtraction reads the registers after the flag write, so a flag
/// register operand sees the flag.
pub open spec fn op_8xy5_spec(pre: Chip8, post: Chip8) -> bool {
    let x = x_of(pre.opcode) as int;
    let y = y_of(pre.opcode) as int;
    let flagged = pre.registers@.update(
        15,
        if pre.registers@[x] > pre.registers@[y] {
            1u8
        } else {
            0u8
        },
    );
    only_regs_differ(pre, post) && post.registers@ == flagged.update(
        x,
        wrap8(flagged[x] - flagged[y]),
    )
}

/// shift-right Vx: VF takes Vx's low bit, then Vx halves; the shift reads
/// the register after the flag write.
pub open spec fn op_8xy6_spec(pre: Chip8, post: Chip8) -> bool {
    let x = x_of(pre.opcode) as int;
    let flagged = pre.registers@.update(15, pre.registers@[x] & 1);
    only_regs_differ(pre, post) && post.registers@ == flagged.update(x, flagged[x] >> 1u8)
}

/// subn Vx, Vy: VF is 1 exactly when Vy > Vx, then Vx becomes Vy minus Vx
/// wrapped; the subtraction reads the registers after the flag write.
pub open spec fn op_8xy7_spec(pre: Chip8, post: Chip8) -> bool {
    let x = x_of(pre.opcode) as int;
    let y = y_of(pre.opcode) as int;
    let flagged = pre.registers@.update(
        15,
        if pre.registers@[y] > pre.registers@[x] {
            1u8
        } else {
            0u8
        },
    );
    only_regs_differ(pre, post) && post.registers@ == flagged.update(
        x,
        wrap8(flagged[y] - flagged[x]),
    )
}

/// shift-left Vx: VF takes Vx's high bit, then Vx doubles modulo 256; the
/// shift reads the register after the flag write.
pub open spec fn op_8xye_spec(pre: Chip8, post: Chip8) -> bool {
    let x = x_of(pre.opcode) as int;
    let flagged = pre.registers@.update(15, (pre.registers@[x] & 0x80) >> 7u8);
    only_regs_differ(pre, post) && post.registers@ == flagged.update(x, wrap8(flagged[x] * 2))
}

/// load-index nnn.
pub open spec fn op_annn_spec(pre: Chip8, post: Chip8) -> bool {
    only_index_differs(pre, post) && post.index == nnn_of(pre.opcode)
}

/// jump-indexed nnn: the program counter becomes V0 plus the address
/// operand, wrapped to 12 bits.
pub open spec fn op_bnnn_spec(pre: Chip8, post: Chip8) -> bool {
    only_pc_differs(pre, post) && post.pc == (pre.registers@[0] + nnn_of(pre.opcode)) % 0x1000
}

/// random Vx, kk: Vx takes a random byte masked by the immediate, so no
/// bit outside the mask is ever set; only the registers and the random
/// generator change.
pub open spec fn op_cxkk_spec(pre: Chip8, post: Chip8) -> bool {
    let x = x_of(pre.opcode) as int;
    let kk = kk_of(pre.opcode);
    only_regs_rng_differ(pre, post) && (exists|b: u8|
        post.registers@ == pre.registers@.update(x, b & kk)) && (post.registers@[x] & kk)
        == post.registers@[x]
}

/// load-delay Vx: Vx takes the delay timer's value.
pub open spec fn op_fx07_spec(pre: Chip8, post: Chip8) -> bool {
    only_regs_differ(pre, post) && post.registers@ == pre.registers@.update(
        x_of(pre.opcode) as int,
        pre.delay_timer,
    )
}

/// wait-for-key Vx: with some key pressed, Vx takes the lowest pressed
/// key's index; with none, the program counter steps back one instruction
/// so the instruction re-executes on the next cycle.
pub open spec fn op_fx0a_spec(pre: Chip8, post: Chip8) -> bool {
    if exists|k: int| 0 <= k < 16 && pre.keypad@[k] {
        only_regs_differ(pre, post) && (exists|k: int|
            0 <= k < 16 && pre.keypad@[k] && (forall|j: int| 0 <= j < k ==> !pre.keypad@[j])
                && post.registers@ == pre.registers@.update(x_of(pre.opcode) as int, k as u8))
    } else {
        only_pc_differs(pre, post) && post.pc == pre.pc - 2
    }
}

/// set-delay Vx.
pub open spec fn op_fx15_spec(pre: Chip8, post: Chip8) -> bool {
    post == (Chip8 { delay_timer: pre.registers@[x_of(pre.opcode) as int], ..pre })
}

/// set-sound Vx.
pub open spec fn op_fx18_spec(pre: Chip8, post: Chip8) -> bool {
    post == (Chip8 { sound_timer: pre.registers@[x_of(pre.opcode) as int], ..pre })
}

/// add-index Vx: the index register grows by Vx, wrapped to its
/// meaningful 12 bits.
pub open spec fn op_fx1e_spec(pre: Chip8, post: Chip8) -> bool {
    only_index_differs(pre, post) && post.index == (pre.index + pre.registers@[x_of(
        pre.opcode,
    ) as int]) % 0x1000
}

/// load-font-address Vx: the index register points at the glyph for Vx's
/// value.
pub open spec fn op_fx29_spec(pre: Chip8, post: Chip8) -> bool {
    only_index_differs(pre, post) && post.index == FONTSET_START_ADDRESS + pre.registers@[x_of(
        pre.opcode,
    ) as int] * GLYPH_SIZE
}

/// return: pops the call stack into the program counter; fatal with no
/// pending call frame.
pub open spec fn op_00ee_spec(pre: Chip8, post: Chip8, r: Result<(), Chip8Error>) -> bool {
    if pre.sp == 0 {
        r == Err::<(), Chip8Error>(Chip8Error::StackUnderflow) && post == pre
    } else {
        r == Ok::<(), Chip8Error>(()) && post == (Chip8 { sp: post.sp, pc: post.pc, ..pre })
            && post.sp == pre.sp - 1 && post.pc == pre.stack@[pre.sp - 1]
    }
}

/// call nnn: pushes the program counter onto the call stack and jumps to
/// the address operand; fatal with the stack already at full depth.
pub open spec fn op_2nnn_spec(pre: Chip8, post: Chip8, r: Result<(), Chip8Error>) -> bool {
    if pre.sp >= 16 {
        r == Err::<(), Chip8Error>(Chip8Error::StackOverflow) && post == pre
    } else {
        r == Ok::<(), Chip8Error>(()) && post == (Chip8 {
            stack: post.stack,
            sp: post.sp,
            pc: post.pc,
            ..pre
        }) && post.stack@ == pre.stack@.update(pre.sp as int, pre.pc) && post.sp == pre.sp + 1
            && post.pc == nnn_of(pre.opcode)
    }
}

/// skip-if-key-pressed Vx: one extra instruction exactly when the key
/// named by Vx is down; fatal when Vx names no key (its value is 16 or
/// more).
pub open spec fn op_ex9e_spec(pre: Chip8, post: Chip8, r: Result<(), Chip8Error>) -> bool {
    let key = pre.registers@[x_of(pre.opcode) as int];
    if key >= 16 {
        r == Err::<(), Chip8Error>(Chip8Error::BoundsViolation) && post == pre
    } else {
        r == Ok::<(), Chip8Error>(()) && only_pc_differs(pre, post) && post.pc == if pre.keypad@[
            key as int
        ] {
            (pre.pc + 2) as u16
        } else {
            pre.pc
        }
    }
}

/// skip-if-key-not-pressed Vx: one extra instruction exactly when the key
/// named by Vx is up; fatal when Vx names no key.
pub open spec fn op_exa1_spec(pre: Chip8, post: Chip8, r: Result<(), Chip8Error>) -> bool {
    let key = pre.registers@[x_of(pre.opcode) as int];
    if key >= 16 {
        r == Err::<(), Chip8Error>(Chip8Error::BoundsViolation) && post == pre
    } else {
        r == Ok::<(), Chip8Error>(()) && only_pc_differs(pre, post) && post.pc == if !pre.keypad@[
            key as int
        ] {
            (pre.pc + 2) as u16
        } else {
            pre.pc
        }
    }
}

/// store-bcd Vx: Vx's decimal hundreds, tens and ones digits go to memory
/// at the index register; fatal when the three bytes would not fit below
/// the memory bound.
pub open spec fn op_fx33_spec(pre: Chip8, post: Chip8, r: Result<(), Chip8Error>) -> bool {
    let v = pre.registers@[x_of(pre.opcode) as int];
    if pre.index + 2 >= 4096 {
        r == Err::<(), Chip8Error>(Chip8Error::BoundsViolation) && post == pre
    } else {
        r == Ok::<(), Chip8Error>(()) && only_memory_differs(pre, post) && post.memory@
            == pre.memory@.update(pre.index as int, v / 100).update(
            pre.index + 1,
            (v / 10) % 10,
        ).update(pre.index + 2, v % 10)
    }
}

/// store-registers Vx: V0 through Vx go to memory at the index register;
/// fatal when they would not fit below the memory bound.
pub open spec fn op_fx55_spec(pre: Chip8, post: Chip8, r: Result<(), Chip8Error>) -> bool {
    let x = x_of(pre.opcode) as int;
    if pre.index + x >= 4096 {
        r == Err::<(), Chip8Error>(Chip8Error::BoundsViolation) && post == pre
    } else {
        r == Ok::<(), Chip8Error>(()) && only_memory_differs(pre, post) && post.memory@
            == Seq::new(
            4096,
            |j: int|
                if pre.index <= j <= pre.index + x {
                    pre.registers@[j - pre.index]
                } else {
                    pre.memory@[j]
                },
        )
    }
}

/// load-registers Vx: V0 through Vx are read from memory at the index
/// register; fatal when the source would pass the memory bound.
pub open spec fn op_fx65_spec(pre: Chip8, post: Chip8, r: Result<(), Chip8Error>) -> bool {
    let x = x_of(pre.opcode) as int;
    if pre.index + x >= 4096 {
        r == Err::<(), Chip8Error>(Chip8Error::BoundsViolation) && post == pre
    } else {
        r == Ok::<(), Chip8Error>(()) && only_regs_differ(pre, post) && post.registers@
            == Seq::new(
            16,
            |i: int|
                if 0 <= i <= x {
                    pre.memory@[pre.index + i]
                } else {
                    pre.registers@[i]
                },
        )
    }
}

/// Whether a sprite row byte has its bit for the given column set; columns
/// count from the most significant bit.
pub open spec fn sprite_bit(byte: u8, col: int) -> bool {
    byte & (0x80u8 >> (col as u8)) != 0
}

/// The framebuffer cell that sprite position (row, col) lands on when the
/// sprite's origin is (x0, y0): coordinates wrap around the 64 x 32 grid.
pub open spec fn cell_of(x0: int, y0: int, row: int, col: int) -> int {
    ((y0 + row) % 32) * 64 + ((x0 + col) % 64)
}

/// Whether some sprite position strictly before (rows_done, cols_done) in
/// row-major order has its bit set and lands on framebuffer cell i.
pub open spec fn sprite_covers_before(
    mem: Seq<u8>,
    base: int,
    x0: int,
    y0: int,
    rows_done: int,
    cols_done: int,
    i: int,
) -> bool {
    exists|row: int, col: int|
        #![trigger cell_of(x0, y0, row, col)]
        0 <= row && 0 <= col < 8 && (row < rows_done || (row == rows_done && col < cols_done))
            && sprite_bit(mem[base + row], col) && cell_of(x0, y0, row, col) == i
}

/// Whether drawing the n-row sprite stored at base with origin (x0, y0)
/// toggles framebuffer cell i.
pub open spec fn sprite_covers(mem: Seq<u8>, base: int, x0: int, y0: int, n: int, i: int) -> bool {
    sprite_covers_before(mem, base, x0, y0, n, 0, i)
}

/// Whether some sprite position strictly before (rows_done, cols_done) has
/// its bit set and lands on a framebuffer cell that is already on.
pub open spec fn sprite_collides_before(
    mem: Seq<u8>,
    video: Seq<bool>,
    base: int,
    x0: int,
    y0: int,
    rows_done: int,
    cols_done: int,
) -> bool {
    exists|row: int, col: int|
        #![trigger cell_of(x0, y0, row, col)]
        0 <= row && 0 <= col < 8 && (row < rows_done || (row == rows_done && col < cols_done))
            && sprite_bit(mem[base + row], col) && video[cell_of(x0, y0, row, col)]
}

/// Whether drawing the n-row sprite stored at base with origin (x0, y0)
/// over the given framebuffer turns some cell off that was on.
pub open spec fn sprite_collides(
    mem: Seq<u8>,
    video: Seq<bool>,
    base: int,
    x0: int,
    y0: int,
    n: int,
) -> bool {
    sprite_collides_before(mem, video, base, x0, y0, n, 0)
}

/// draw-sprite Vx, Vy, n: the n-row sprite at the index register is XOR
/// composited at origin (Vx mod 64, Vy mod 32) with toroidal wraparound,
/// and VF reports whether any pixel was turned off; fatal when the sprite
/// bytes would pass the memory bound.
pub open spec fn op_dxyn_spec(pre: Chip8, post: Chip8, r: Result<(), Chip8Error>) -> bool {
    let x0 = pre.registers@[x_of(pre.opcode) as int] as int % 64;
    let y0 = pre.registers@[y_of(pre.opcode) as int] as int % 32;
    let n = n_of(pre.opcode) as int;
    let base = pre.index as int;
    if base + n > 4096 {
        r == Err::<(), Chip8Error>(Chip8Error::BoundsViolation) && post == pre
    } else {
        r == Ok::<(), Chip8Error>(()) && only_regs_video_differ(pre, post) && post.video@
            == Seq::new(
            2048,
            |i: int| pre.video@[i] != sprite_covers(pre.memory@, base, x0, y0, n, i),
        ) && post.registers@ == pre.registers@.update(
            15,
            if sprite_collides(pre.memory@, pre.video@, base, x0, y0, n) {
                1u8
            } else {
                0u8
            },
        )
    }
}

/// Two distinct positions of one sprite land on distinct framebuffer
/// cells: the row window (at most 16 rows) is narrower than the grid
/// height and the eight columns are narrower than the grid width, so the
/// wrapped coordinates collide for no two positions.
pub proof fn lemma_cell_injective(x0: int, y0: int, r1: int, c1: int, r2: int, c2: int)
    requires
        0 <= x0 < 64,
        0 <= y0 < 32,
        0 <= r1 < 16,
        0 <= c1 < 8,
        0 <= r2 < 16,
        0 <= c2 < 8,
        cell_of(x0, y0, r1, c1) == cell_of(x0, y0, r2, c2),
    ensures
        r1 == r2,
        c1 == c2,
{
    let a1 = (y0 + r1) % 32;
    let b1 = (x0 + c1) % 64;
    let a2 = (y0 + r2) % 32;
    let b2 = (x0 + c2) % 64;
    vstd::arithmetic::div_mod::lemma_mod_bound(y0 + r1, 32);
    vstd::arithmetic::div_mod::lemma_mod_bound(x0 + c1, 64);
    vstd::arithmetic::div_mod::lemma_mod_bound(y0 + r2, 32);
    vstd::arithmetic::div_mod::lemma_mod_bound(x0 + c2, 64);
    vstd::arithmetic::div_mod::lemma_fundamental_div_mod_converse(a1 * 64 + b1, 64, a1, b1);
    vstd::arithmetic::div_mod::lemma_fundamental_div_mod_converse(a2 * 64 + b2, 64, a2, b2);
    assert(a1 == a2 && b1 == b2);
    vstd::arithmetic::div_mod::lemma_mod_equivalence(y0 + r1, y0 + r2, 32);
    assert((r1 - r2) % 32 == 0);
    if r1 > r2 {
        vstd::arithmetic::div_mod::lemma_small_mod((r1 - r2) as nat, 32);
    } else if r1 < r2 {
        vstd::arithmetic::div_mod::lemma_small_mod((r2 - r1) as nat, 32);
        vstd::arithmetic::div_mod::lemma_mod_equivalence(r1 - r2, r2 - r1, 32);
        assert((r2 - r1) % 32 == 0);
    }
    vstd::arithmetic::div_mod::lemma_mod_equivalence(x0 + c1, x0 + c2, 64);
    assert((c1 - c2) % 64 == 0);
    if c1 > c2 {
        vstd::arithmetic::div_mod::lemma_small_mod((c1 - c2) as nat, 64);
    } else if c1 < c2 {
        vstd::arithmetic::div_mod::lemma_small_mod((c2 - c1) as nat, 64);
        vstd::arithmetic::div_mod::lemma_mod_equivalence(c1 - c2, c2 - c1, 64);
        assert((c2 - c1) % 64 == 0);
    }
}

/// No sprite position strictly before (row, col) lands on (row, col)'s own
/// cell.
pub proof fn lemma_no_prior_cover(
    mem: Seq<u8>,
    base: int,
    x0: int,
    y0: int,
    row: int,
    col: int,
)
    requires
        0 <= x0 < 64,
        0 <= y0 < 32,
        0 <= row < 16,
        0 <= col < 8,
    ensures
        !sprite_covers_before(mem, base, x0, y0, row, col, cell_of(x0, y0, row, col)),
{
    let i = cell_of(x0, y0, row, col);
    if sprite_covers_before(mem, base, x0, y0, row, col, i) {
        let (r, c): (int, int) = choose|r: int, c: int|
            0 <= r && 0 <= c < 8 && (r < row || (r == row && c < col)) && sprite_bit(
                mem[base + r],
                c,
            ) && cell_of(x0, y0, r, c) == i;
        lemma_cell_injective(x0, y0, r, c, row, col);
        assert(false);
    }
}

/// Extending the covered region by one column adds exactly the one new
/// position's cell, when its bit is set.
pub proof fn lemma_covers_step(
    mem: Seq<u8>,
    base: int,
    x0: int,
    y0: int,
    row: int,
    col: int,
    i: int,
)
    requires
        0 <= row,
        0 <= col < 8,
    ensures
        sprite_covers_before(mem, base, x0, y0, row, col + 1, i) == (sprite_covers_before(
            mem,
            base,
            x0,
            y0,
            row,
            col,
            i,
        ) || (sprite_bit(mem[base + row], col) && cell_of(x0, y0, row, col) == i)),
{
    if sprite_covers_before(mem, base, x0, y0, row, col + 1, i) {
        let (r, c): (int, int) = choose|r: int, c: int|
            0 <= r && 0 <= c < 8 && (r < row || (r == row && c < col + 1)) && sprite_bit(
                mem[base + r],
                c,
            ) && cell_of(x0, y0, r, c) == i;
        if r == row && c == col {
        } else {
            assert(r < row || (r == row && c < col));
            assert(cell_of(x0, y0, r, c) == i);
        }
    }
    if sprite_covers_before(mem, base, x0, y0, row, col, i) {
        let (r, c): (int, int) = choose|r: int, c: int|
            0 <= r && 0 <= c < 8 && (r < row || (r == row && c < col)) && sprite_bit(
                mem[base + r],
                c,
            ) && cell_of(x0, y0, r, c) == i;
        assert(cell_of(x0, y0, r, c) == i);
    }
    if sprite_bit(mem[base + row], col) && cell_of(x0, y0, row, col) == i {
        assert(cell_of(x0, y0, row, col) == i);
    }
}

/// A fully processed row covers the same cells as standing at the start of
/// the next row.
pub proof fn lemma_covers_row_step(mem: Seq<u8>, base: int, x0: int, y0: int, row: int, i: int)
    requires
        0 <= row,
    ensures
        sprite_covers_before(mem, base, x0, y0, row + 1, 0, i) == sprite_covers_before(
            mem,
            base,
            x0,
            y0,
            row,
            8,
            i,
        ),
{
    if sprite_covers_before(mem, base, x0, y0, row + 1, 0, i) {
        let (r, c): (int, int) = choose|r: int, c: int|
            0 <= r && 0 <= c < 8 && (r < row + 1 || (r == row + 1 && c < 0)) && sprite_bit(
                mem[base + r],
                c,
            ) && cell_of(x0, y0, r, c) == i;
        assert(r < row || (r == row && c < 8));
        assert(cell_of(x0, y0, r, c) == i);
    }
    if sprite_covers_before(mem, base, x0, y0, row, 8, i) {
        let (r, c): (int, int) = choose|r: int, c: int|
            0 <= r && 0 <= c < 8 && (r < row || (r == row && c < 8)) && sprite_bit(
                mem[base + r],
                c,
            ) && cell_of(x0, y0, r, c) == i;
        assert(r < row + 1 || (r == row + 1 && c < 0));
        assert(cell_of(x0, y0, r, c) == i);
    }
}

/// Extending the collision scan by one column adds exactly the one new
/// position, when its bit is set and its cell is on.
pub proof fn lemma_collides_step(
    mem: Seq<u8>,
    video: Seq<bool>,
    base: int,
    x0: int,
    y0: int,
    row: int,
    col: int,
)
    requires
        0 <= row,
        0 <= col < 8,
    ensures
        sprite_collides_before(mem, video, base, x0, y0, row, col + 1) == (sprite_collides_before(
            mem,
            video,
            base,
            x0,
            y0,
            row,
            col,
        ) || (sprite_bit(mem[base + row], col) && video[cell_of(x0, y0, row, col)])),
{
    if sprite_collides_before(mem, video, base, x0, y0, row, col + 1) {
        let (r, c): (int, int) = choose|r: int, c: int|
            0 <= r && 0 <= c < 8 && (r < row || (r == row && c < col + 1)) && sprite_bit(
                mem[base + r],
                c,
            ) && video[cell_of(x0, y0, r, c)];
        if r == row && c == col {
        } else {
            assert(r < row || (r == row && c < col));
            assert(video[cell_of(x0, y0, r, c)]);
        }
    }
    if sprite_collides_before(mem, video, base, x0, y0, row, col) {
        let (r, c): (int, int) = choose|r: int, c: int|
            0 <= r && 0 <= c < 8 && (r < row || (r == row && c < col)) && sprite_bit(
                mem[base + r],
                c,
            ) && video[cell_of(x0, y0, r, c)];
        assert(video[cell_of(x0, y0, r, c)]);
    }
    if sprite_bit(mem[base + row], col) && video[cell_of(x0, y0, row, col)] {
        assert(video[cell_of(x0, y0, row, col)]);
    }
}

/// A fully scanned row collides the same way as standing at the start of
/// the next row.
pub proof fn lemma_collides_row_step(
    mem: Seq<u8>,
    video: Seq<bool>,
    base: int,
    x0: int,
    y0: int,
    row: int,
)
    requires
        0 <= row,
    ensures
        sprite_collides_before(mem, video, base, x0, y0, row + 1, 0) == sprite_collides_before(
            mem,
            video,
            base,
            x0,
            y0,
            row,
            8,
        ),
{
    if sprite_collides_before(mem, video, base, x0, y0, row + 1, 0) {
        let (r, c): (int, int) = choose|r: int, c: int|
            0 <= r && 0 <= c < 8 && (r < row + 1 || (r == row + 1 && c < 0)) && sprite_bit(
                mem[base + r],
                c,
            ) && video[cell_of(x0, y0, r, c)];
        assert(r < row || (r == row && c < 8));
        assert(video[cell_of(x0, y0, r, c)]);
    }
    if sprite_collides_before(mem, video, base, x0, y0, row, 8) {
        let (r, c): (int, int) = choose|r: int, c: int|
            0 <= r && 0 <= c < 8 && (r < row || (r == row && c < 8)) && sprite_bit(
                mem[base + r],
                c,
            ) && video[cell_of(x0, y0, r, c)];
        assert(r < row + 1 || (r == row + 1 && c < 0));
        assert(video[cell_of(x0, y0, r, c)]);
    }
}

/// Whether both bytes of the next instruction lie within memory.
pub open spec fn fetch_ok(s: Chip8) -> bool {
    s.pc + 1 < 4096
}

/// The machine right after a fetch: the two bytes at the program counter
/// combine big-endian into the current instruction word and the program
/// counter advances by 2.
pub open spec fn after_fetch(s: Chip8) -> Chip8 {
    Chip8 {
        opcode: ((s.memory@[s.pc as int] as u16) << 8u16) | (s.memory@[s.pc as int + 1] as u16),
        pc: (s.pc + 2) as u16,
        ..s
    }
}

/// The state transition of one decoded operation, relating the post-fetch
/// machine to the machine after execution.
pub open spec fn exec_op_spec(op: Opcode, pre: Chip8, post: Chip8, r: Result<
    (),
    Chip8Error,
>) -> bool {
    match op {
        Opcode::ClearScreen => op_00e0_spec(pre, post) && r == Ok::<(), Chip8Error>(()),
        Opcode::Ret => op_00ee_spec(pre, post, r),
        Opcode::Jump => op_1nnn_spec(pre, post) && r == Ok::<(), Chip8Error>(()),
        Opcode::Call => op_2nnn_spec(pre, post, r),
        Opcode::SkipEqImm => op_3xkk_spec(pre, post) && r == Ok::<(), Chip8Error>(()),
        Opcode::SkipNeImm => op_4xkk_spec(pre, post) && r == Ok::<(), Chip8Error>(()),
        Opcode::SkipEqReg => op_5xy0_spec(pre, post) && r == Ok::<(), Chip8Error>(()),
        Opcode::LoadImm => op_6xkk_spec(pre, post) && r == Ok::<(), Chip8Error>(()),
        Opcode::AddImm => op_7xkk_spec(pre, post) && r == Ok::<(), Chip8Error>(()),
        Opcode::Move => op_8xy0_spec(pre, post) && r == Ok::<(), Chip8Error>(()),
        Opcode::Or => op_8xy1_spec(pre, post) && r == Ok::<(), Chip8Error>(()),
        Opcode::And => op_8xy2_spec(pre, post) && r == Ok::<(), Chip8Error>(()),
        Opcode::Xor => op_8xy3_spec(pre, post) && r == Ok::<(), Chip8Error>(()),
        Opcode::AddCarry => op_8xy4_spec(pre, post) && r == Ok::<(), Chip8Error>(()),
        Opcode::SubBorrow => op_8xy5_spec(pre, post) && r == Ok::<(), Chip8Error>(()),
        Opcode::ShiftRight => op_8xy6_spec(pre, post) && r == Ok::<(), Chip8Error>(()),
        Opcode::SubnBorrow => op_8xy7_spec(pre, post) && r == Ok::<(), Chip8Error>(()),
        Opcode::ShiftLeft => op_8xye_spec(pre, post) && r == Ok::<(), Chip8Error>(()),
        Opcode::SkipNeReg => op_9xy0_spec(pre, post) && r == Ok::<(), Chip8Error>(()),
        Opcode::LoadIndex => op_annn_spec(pre, post) && r == Ok::<(), Chip8Error>(()),
        Opcode::JumpIndexed => op_bnnn_spec(pre, post) && r == Ok::<(), Chip8Error>(()),
        Opcode::Random => op_cxkk_spec(pre, post) && r == Ok::<(), Chip8Error>(()),
        Opcode::Draw => op_dxyn_spec(pre, post, r),
        Opcode::SkipKeyPressed => op_ex9e_spec(pre, post, r),
        Opcode::SkipKeyNotPressed => op_exa1_spec(pre, post, r),
        Opcode::ReadDelay => op_fx07_spec(pre, post) && r == Ok::<(), Chip8Error>(()),
        Opcode::WaitKey => op_fx0a_spec(pre, post) && r == Ok::<(), Chip8Error>(()),
        Opcode::SetDelay => op_fx15_spec(pre, post) && r == Ok::<(), Chip8Error>(()),
        Opcode::SetSound => op_fx18_spec(pre, post) && r == Ok::<(), Chip8Error>(()),
        Opcode::AddIndex => op_fx1e_spec(pre, post) && r == Ok::<(), Chip8Error>(()),
        Opcode::FontAddress => op_fx29_spec(pre, post) && r == Ok::<(), Chip8Error>(()),
        Opcode::StoreBcd => op_fx33_spec(pre, post, r),
        Opcode::StoreRegisters => op_fx55_spec(pre, post, r),
        Opcode::LoadRegisters => op_fx65_spec(pre, post, r),
    }
}

/// One whole fetch-decode-execute step: a fetch past the memory bound is
/// fatal and changes nothing; an unrecognized instruction word is fatal
/// after the fetch; otherwise the decoded operation's transition relates
/// the post-fetch machine to the result.
pub open spec fn step_spec(pre: Chip8, post: Chip8, r: Result<(), Chip8Error>) -> bool {
    if !fetch_ok(pre) {
        r == Err::<(), Chip8Error>(Chip8Error::BoundsViolation) && post == pre
    } else {
        let mid = after_fetch(pre);
        match spec_decode(mid.opcode) {
            Some(op) => exec_op_spec(op, mid, post, r),
            None => r == Err::<(), Chip8Error>(Chip8Error::UnknownOpcode) && post == mid,
        }
    }
}

/// One external clock tick: each timer counts down toward zero and stops
/// there.
pub open spec fn tick_timers_spec(pre: Chip8, post: Chip8) -> bool {
    post == (Chip8 {
        delay_timer: if pre.delay_timer > 0 {
            (pre.delay_timer - 1) as u8
        } else {
            0u8
        },
        sound_timer: if pre.sound_timer > 0 {
            (pre.sound_timer - 1) as u8
        } else {
            0u8
        },
        ..pre
    })
}

impl Chip8 {
    /// The machine's internal invariant: the stack pointer never passes the
    /// sixteen-slot call depth bound.
    pub open spec fn wf(self) -> bool {
        self.sp <= 16
    }

    /// A fresh machine: everything zeroed, the program counter at the
    /// program base address, and the font glyphs loaded into the reserved
    /// region.
    pub fn new() -> (r: Chip8)
        ensures
            r.wf(),
            r.pc == START_ADDRESS,
            r.sp == 0,
            r.index == 0,
            r.opcode == 0,
            r.delay_timer == 0,
            r.sound_timer == 0,
            forall|i: int| 0 <= i < 16 ==> r.registers@[i] == 0,
            forall|i: int| 0 <= i < 16 ==> r.stack@[i] == 0,
            forall|i: int| 0 <= i < 16 ==> !r.keypad@[i],
            forall|i: int| 0 <= i < 2048 ==> !r.video@[i],
            forall|i: int|
                0 <= i < 80 ==> r.memory@[FONTSET_START_ADDRESS + i] == FONTSET@[i],
            forall|i: int|
                0 <= i < 4096 && !(FONTSET_START_ADDRESS <= i < FONTSET_START_ADDRESS
                    + FONTSET_SIZE) ==> r.memory@[i] == 0,
    {
        let mut r = Chip8::default();
        let mut i: usize = 0;
        while i < 80
            invariant
                0 <= i <= 80,
                r.wf(),
                r.pc == START_ADDRESS,
                r.sp == 0,
                r.index == 0,
                r.opcode == 0,
                r.delay_timer == 0,
                r.sound_timer == 0,
                forall|j: int| 0 <= j < 16 ==> r.registers@[j] == 0,
                forall|j: int| 0 <= j < 16 ==> r.stack@[j] == 0,
                forall|j: int| 0 <= j < 16 ==> !r.keypad@[j],
                forall|j: int| 0 <= j < 2048 ==> !r.video@[j],
                forall|j: int|
                    0 <= j < i ==> r.memory@[FONTSET_START_ADDRESS + j] == FONTSET@[j],
                forall|j: int|
                    0 <= j < 4096 && !(FONTSET_START_ADDRESS <= j < FONTSET_START_ADDRESS
                        + i) ==> r.memory@[j] == 0,
            decreases 80 - i,
        {
            r.memory[FONTSET_START_ADDRESS as usize + i] = FONTSET[i];
            i += 1;
        }
        r
    }

    /// Copies a program image into memory at the program base address;
    /// rejects an image that would run past the 4096-byte bound.
    pub fn load_rom(&mut self, rom: &Vec<u8>) -> (r: Result<(), Chip8Error>)
        ensures
            rom@.len() > 4096 - START_ADDRESS ==> r == Err::<(), Chip8Error>(
                Chip8Error::BoundsViolation,
            ) && *final(self) == *old(self),
            rom@.len() <= 4096 - START_ADDRESS ==> r == Ok::<(), Chip8Error>(())
                && only_memory_differs(*old(self), *final(self)) && final(self).memory@
                == Seq::new(
                4096,
                |i: int|
                    if START_ADDRESS <= i < START_ADDRESS + rom@.len() {
                        rom@[i - START_ADDRESS]
                    } else {
                        old(self).memory@[i]
                    },
            ),
    {
        if rom.len() > 4096 - START_ADDRESS as usize {
            return Err(Chip8Error::BoundsViolation);
        }
        let mut i: usize = 0;
        while i < rom.len()
            invariant
                0 <= i <= rom@.len(),
                rom@.len() <= 4096 - START_ADDRESS,
                only_memory_differs(*old(self), *self),
                forall|j: int|
                    START_ADDRESS <= j < START_ADDRESS + i ==> self.memory@[j] == rom@[j
                        - START_ADDRESS],
                forall|j: int|
                    0 <= j < 4096 && !(START_ADDRESS <= j < START_ADDRESS + i)
                        ==> self.memory@[j] == old(self).memory@[j],
            decreases rom@.len() - i,
        {
            self.memory[START_ADDRESS as usize + i] = rom[i];
            i += 1;
        }
        proof {
            assert(self.memory@ =~= Seq::new(
                4096,
                |i: int|
                    if START_ADDRESS <= i < START_ADDRESS + rom@.len() {
                        rom@[i - START_ADDRESS]
                    } else {
                        old(self).memory@[i]
                    },
            ));
        }
        Ok(())
    }

    /// One uniformly distributed random byte from the machine's generator;
    /// only the generator's own state changes.
    pub fn get_random_byte(&mut self) -> (r: u8)
        ensures
            *final(self) == (Chip8 { rand_gen: final(self).rand_gen, ..*old(self) }),
    {
        random_byte(&mut self.rand_gen)
    }

    pub fn op_00e0(&mut self)
        ensures
            op_00e0_spec(*old(self), *final(self)),
    {
        let mut i: usize = 0;
        while i < 2048
            invariant
                0 <= i <= 2048,
                only_video_differs(*old(self), *self),
                forall|j: int| 0 <= j < i ==> !self.video@[j],
            decreases 2048 - i,
        {
            self.video[i] = false;
            i += 1;
        }
        proof {
            assert(self.video@ =~= Seq::new(2048, |i: int| false));
        }
    }

    pub fn op_1nnn(&mut self)
        ensures
            op_1nnn_spec(*old(self), *final(self)),
    {
        self.pc = get_low_12_bits(self.opcode);
    }

    pub fn op_3xkk(&mut self)
        requires
            old(self).pc + 2 <= 0xFFFF,
        ensures
            op_3xkk_spec(*old(self), *final(self)),
    {
        let x = get_low_4_bits_of_high_byte(self.opcode) as usize;
        let kk = get_low_byte(self.opcode);
        if self.registers[x] == kk {
            self.pc = self.pc + 2;
        }
    }

    pub fn op_4xkk(&mut self)
        requires
            old(self).pc + 2 <= 0xFFFF,
        ensures
            op_4xkk_spec(*old(self), *final(self)),
    {
        let x = get_low_4_bits_of_high_byte(self.opcode) as usize;
        let kk = get_low_byte(self.opcode);
        if self.registers[x] != kk {
            self.pc = self.pc + 2;
        }
    }

    pub fn op_5xy0(&mut self)
        requires
            old(self).pc + 2 <= 0xFFFF,
        ensures
            op_5xy0_spec(*old(self), *final(self)),
    {
        let x = get_low_4_bits_of_high_byte(self.opcode) as usize;
        let y = get_high_4_bits_of_low_byte(self.opcode) as usize;
        if self.registers[x] == self.registers[y] {
            self.pc = self.pc + 2;
        }
    }

    pub fn op_9xy0(&mut self)
        requires
            old(self).pc + 2 <= 0xFFFF,
        ensures
            op_9xy0_spec(*old(self), *final(self)),
    {
        let x = get_low_4_bits_of_high_byte(self.opcode) as usize;
        let y = get_high_4_bits_of_low_byte(self.opcode) as usize;
        if self.registers[x] != self.registers[y] {
            self.pc = self.pc + 2;
        }
    }

    pub fn op_6xkk(&mut self)
        ensures
            op_6xkk_spec(*old(self), *final(self)),
    {
        let x = get_low_4_bits_of_high_byte(self.opcode) as usize;
        let kk = get_low_byte(self.opcode);
        self.registers[x] = kk;
    }

    pub fn op_7xkk(&mut self)
        ensures
            op_7xkk_spec(*old(self), *final(self)),
    {
        let x = get_low_4_bits_of_high_byte(self.opcode) as usize;
        let kk = get_low_byte(self.opcode);
        self.registers[x] = ((self.registers[x] as u16 + kk as u16) % 256) as u8;
    }

    pub fn op_8xy0(&mut self)
        ensures
            op_8xy0_spec(*old(self), *final(self)),
    {
        let x = get_low_4_bits_of_high_byte(self.opcode) as usize;
        let y = get_high_4_bits_of_low_byte(self.opcode) as usize;
        self.registers[x] = self.registers[y];
    }

    pub fn op_8xy1(&mut self)
        ensures
            op_8xy1_spec(*old(self), *final(self)),
    {
        let x = get_low_4_bits_of_high_byte(self.opcode) as usize;
        let y = get_high_4_bits_of_low_byte(self.opcode) as usize;
        self.registers[x] = self.registers[x] | self.registers[y];
    }

    pub fn op_8xy2(&mut self)
        ensures
            op_8xy2_spec(*old(self), *final(self)),
    {
        let x = get_low_4_bits_of_high_byte(self.opcode) as usize;
        let y = get_high_4_bits_of_low_byte(self.opcode) as usize;
        self.registers[x] = self.registers[x] & self.registers[y];
    }

    pub fn op_8xy3(&mut self)
        ensures
            op_8xy3_spec(*old(self), *final(self)),
    {
        let x = get_low_4_bits_of_high_byte(self.opcode) as usize;
        let y = get_high_4_bits_of_low_byte(self.opcode) as usize;
        self.registers[x] = self.registers[x] ^ self.registers[y];
    }

    pub fn op_8xy4(&mut self)
        ensures
            op_8xy4_spec(*old(self), *final(self)),
    {
        let x = get_low_4_bits_of_high_byte(self.opcode) as usize;
        let y = get_high_4_bits_of_low_byte(self.opcode) as usize;
        let sum: u16 = self.registers[x] as u16 + self.registers[y] as u16;
        self.registers[0xF] = if sum > 0xFF {
            1
        } else {
            0
        };
        self.registers[x] = (sum % 256) as u8;
    }

    pub fn op_8xy5(&mut self)
        ensures
            op_8xy5_spec(*old(self), *final(self)),
    {
        let x = get_low_4_bits_of_high_byte(self.opcode) as usize;
        let y = get_high_4_bits_of_low_byte(self.opcode) as usize;
        self.registers[0xF] = if self.registers[x] > self.registers[y] {
            1
        } else {
            0
        };
        let diff: u16 = 256 + self.registers[x] as u16 - self.registers[y] as u16;
        proof {
            vstd::arithmetic::div_mod::lemma_mod_add_multiples_vanish(
                self.registers@[x as int] - self.registers@[y as int],
                256,
            );
        }
        self.registers[x] = (diff % 256) as u8;
    }

    pub fn op_8xy6(&mut self)
        ensures
            op_8xy6_spec(*old(self), *final(self)),
    {
        let x = get_low_4_bits_of_high_byte(self.opcode) as usize;
        self.registers[0xF] = self.registers[x] & 0x1;
        self.registers[x] = self.registers[x] >> 1u8;
    }

    pub fn op_8xy7(&mut self)
        ensures
            op_8xy7_spec(*old(self), *final(self)),
    {
        let x = get_low_4_bits_of_high_byte(self.opcode) as usize;
        let y = get_high_4_bits_of_low_byte(self.opcode) as usize;
        self.registers[0xF] = if self.registers[y] > self.registers[x] {
            1
        } else {
            0
        };
        let diff: u16 = 256 + self.registers[y] as u16 - self.registers[x] as u16;
        proof {
            vstd::arithmetic::div_mod::lemma_mod_add_multiples_vanish(
                self.registers@[y as int] - self.registers@[x as int],
                256,
            );
        }
        self.registers[x] = (diff % 256) as u8;
    }

    pub fn op_8xye(&mut self)
        ensures
            op_8xye_spec(*old(self), *final(self)),
    {
        let x = get_low_4_bits_of_high_byte(self.opcode) as usize;
        self.registers[0xF] = (self.registers[x] & 0x80) >> 7u8;
        self.registers[x] = ((self.registers[x] as u16 * 2) % 256) as u8;
    }

    pub fn op_annn(&mut self)
        ensures
            op_annn_spec(*old(self), *final(self)),
    {
        self.index = get_low_12_bits(self.opcode);
    }

    pub fn op_bnnn(&mut self)
        ensures
            op_bnnn_spec(*old(self), *final(self)),
    {
        self.pc = (self.registers[0] as u16 + get_low_12_bits(self.opcode)) % 0x1000;
    }

    pub fn op_cxkk(&mut self)
        ensures
            op_cxkk_spec(*old(self), *final(self)),
    {
        let x = get_low_4_bits_of_high_byte(self.opcode) as usize;
        let kk = get_low_byte(self.opcode);
        let b = self.get_random_byte();
        self.registers[x] = b & kk;
        proof {
            assert(((b & kk) & kk) == (b & kk)) by (bit_vector);
        }
    }

    pub fn op_00ee(&mut self) -> (r: Result<(), Chip8Error>)
        requires
            old(self).wf(),
        ensures
            op_00ee_spec(*old(self), *final(self), r),
            final(self).wf(),
    {
        if self.sp == 0 {
            return Err(Chip8Error::StackUnderflow);
        }
        self.sp = self.sp - 1;
        self.pc = self.stack[self.sp as usize];
        Ok(())
    }

    pub fn op_2nnn(&mut self) -> (r: Result<(), Chip8Error>)
        requires
            old(self).wf(),
        ensures
            op_2nnn_spec(*old(self), *final(self), r),
            final(self).wf(),
    {
        if self.sp >= 16 {
            return Err(Chip8Error::StackOverflow);
        }
        self.stack[self.sp as usize] = self.pc;
        self.sp = self.sp + 1;
        self.pc = get_low_12_bits(self.opcode);
        Ok(())
    }

    pub fn op_ex9e(&mut self) -> (r: Result<(), Chip8Error>)
        requires
            old(self).pc + 2 <= 0xFFFF,
        ensures
            op_ex9e_spec(*old(self), *final(self), r),
    {
        let x = get_low_4_bits_of_high_byte(self.opcode) as usize;
        let key = self.registers[x];
        if key >= 16 {
            return Err(Chip8Error::BoundsViolation);
        }
        if self.keypad[key as usize] {
            self.pc = self.pc + 2;
        }
        Ok(())
    }

    pub fn op_exa1(&mut self) -> (r: Result<(), Chip8Error>)
        requires
            old(self).pc + 2 <= 0xFFFF,
        ensures
            op_exa1_spec(*old(self), *final(self), r),
    {
        let x = get_low_4_bits_of_high_byte(self.opcode) as usize;
        let key = self.registers[x];
        if key >= 16 {
            return Err(Chip8Error::BoundsViolation);
        }
        if !self.keypad[key as usize] {
            self.pc = self.pc + 2;
        }
        Ok(())
    }

    pub fn op_fx33(&mut self) -> (r: Result<(), Chip8Error>)
        ensures
            op_fx33_spec(*old(self), *final(self), r),
    {
        let x = get_low_4_bits_of_high_byte(self.opcode) as usize;
        if self.index as usize + 2 >= 4096 {
            return Err(Chip8Error::BoundsViolation);
        }
        let idx = self.index as usize;
        let v = self.registers[x];
        self.memory[idx] = v / 100;
        self.memory[idx + 1] = (v / 10) % 10;
        self.memory[idx + 2] = v % 10;
        Ok(())
    }

    pub fn op_fx55(&mut self) -> (r: Result<(), Chip8Error>)
        ensures
            op_fx55_spec(*old(self), *final(self), r),
    {
        let x = get_low_4_bits_of_high_byte(self.opcode) as usize;
        if self.index as usize + x >= 4096 {
            return Err(Chip8Error::BoundsViolation);
        }
        let idx = self.index as usize;
        let mut i: usize = 0;
        while i <= x
            invariant
                0 <= i <= x + 1,
                x < 16,
                x == x_of(old(self).opcode) as usize,
                idx == old(self).index as usize,
                idx + x < 4096,
                only_memory_differs(*old(self), *self),
                forall|j: int|
                    idx <= j < idx + i ==> self.memory@[j] == old(self).registers@[j - idx],
                forall|j: int|
                    0 <= j < 4096 && !(idx <= j < idx + i) ==> self.memory@[j] == old(
                        self,
                    ).memory@[j],
            decreases x + 1 - i,
        {
            self.memory[idx + i] = self.registers[i];
            i += 1;
        }
        proof {
            assert(self.memory@ =~= Seq::new(
                4096,
                |j: int|
                    if old(self).index <= j <= old(self).index + x_of(old(self).opcode) {
                        old(self).registers@[j - old(self).index]
                    } else {
                        old(self).memory@[j]
                    },
            ));
        }
        Ok(())
    }

    pub fn op_fx65(&mut self) -> (r: Result<(), Chip8Error>)
        ensures
            op_fx65_spec(*old(self), *final(self), r),
    {
        let x = get_low_4_bits_of_high_byte(self.opcode) as usize;
        if self.index as usize + x >= 4096 {
            return Err(Chip8Error::BoundsViolation);
        }
        let idx = self.index as usize;
        let mut i: usize = 0;
        while i <= x
            invariant
                0 <= i <= x + 1,
                x < 16,
                x == x_of(old(self).opcode) as usize,
                idx == old(self).index as usize,
                idx + x < 4096,
                only_regs_differ(*old(self), *self),
                forall|j: int| 0 <= j < i ==> self.registers@[j] == old(self).memory@[idx + j],
                forall|j: int| i <= j < 16 ==> self.registers@[j] == old(self).registers@[j],
            decreases x + 1 - i,
        {
            self.registers[i] = self.memory[idx + i];
            i += 1;
        }
        proof {
            assert(self.registers@ =~= Seq::new(
                16,
                |i: int|
                    if 0 <= i <= x_of(old(self).opcode) {
                        old(self).memory@[old(self).index + i]
                    } else {
                        old(self).registers@[i]
                    },
            ));
        }
        Ok(())
    }

    pub fn op_dxyn(&mut self) -> (r: Result<(), Chip8Error>)
        ensures
            op_dxyn_spec(*old(self), *final(self), r),
    {
        let x = get_low_4_bits_of_high_byte(self.opcode) as usize;
        let y = get_high_4_bits_of_low_byte(self.opcode) as usize;
        let n = get_lowest_4_bits(self.opcode) as usize;
        if self.index as usize + n > 4096 {
            return Err(Chip8Error::BoundsViolation);
        }
        let base = self.index as usize;
        let x0 = (self.registers[x] % VIDEO_WIDTH) as usize;
        let y0 = (self.registers[y] % VIDEO_HEIGHT) as usize;
        let ghost mem0 = old(self).memory@;
        let ghost vid0 = old(self).video@;
        let mut collided = false;
        let mut row: usize = 0;
        while row < n
            invariant
                n < 16,
                n == n_of(old(self).opcode) as usize,
                x0 == old(self).registers@[x_of(old(self).opcode) as int] % 64,
                y0 == old(self).registers@[y_of(old(self).opcode) as int] % 32,
                x0 < 64,
                y0 < 32,
                base == old(self).index as usize,
                base + n <= 4096,
                mem0 == old(self).memory@,
                vid0 == old(self).video@,
                0 <= row <= n,
                only_video_differs(*old(self), *self),
                forall|i: int|
                    0 <= i < 2048 ==> self.video@[i] == (vid0[i] != sprite_covers_before(
                        mem0,
                        base as int,
                        x0 as int,
                        y0 as int,
                        row as int,
                        0,
                        i,
                    )),
                collided == sprite_collides_before(
                    mem0,
                    vid0,
                    base as int,
                    x0 as int,
                    y0 as int,
                    row as int,
                    0,
                ),
            decreases n - row,
        {
            let sprite_byte = self.memory[base + row];
            let mut col: usize = 0;
            while col < 8
                invariant
                    n < 16,
                    x0 < 64,
                    y0 < 32,
                    base + n <= 4096,
                    0 <= row < n,
                    0 <= col <= 8,
                    sprite_byte == mem0[base + row],
                    mem0 == old(self).memory@,
                    vid0 == old(self).video@,
                    only_video_differs(*old(self), *self),
                    forall|i: int|
                        0 <= i < 2048 ==> self.video@[i] == (vid0[i] != sprite_covers_before(
                            mem0,
                            base as int,
                            x0 as int,
                            y0 as int,
                            row as int,
                            col as int,
                            i,
                        )),
                    collided == sprite_collides_before(
                        mem0,
                        vid0,
                        base as int,
                        x0 as int,
                        y0 as int,
                        row as int,
                        col as int,
                    ),
                decreases 8 - col,
            {
                if sprite_byte & (0x80u8 >> (col as u8)) != 0 {
                    let cell = ((y0 + row) % 32) * 64 + ((x0 + col) % 64);
                    proof {
                        assert(cell == cell_of(x0 as int, y0 as int, row as int, col as int));
                        assert(cell < 2048);
                        lemma_no_prior_cover(
                            mem0,
                            base as int,
                            x0 as int,
                            y0 as int,
                            row as int,
                            col as int,
                        );
                    }
                    let lit = self.video[cell];
                    if lit {
                        collided = true;
                    }
                    self.video[cell] = !lit;
                    proof {
                        assert(lit == vid0[cell as int]);
                        assert forall|i: int| 0 <= i < 2048 implies self.video@[i] == (vid0[i]
                            != sprite_covers_before(
                            mem0,
                            base as int,
                            x0 as int,
                            y0 as int,
                            row as int,
                            col + 1,
                            i,
                        )) by {
                            lemma_covers_step(
                                mem0,
                                base as int,
                                x0 as int,
                                y0 as int,
                                row as int,
                                col as int,
                                i,
                            );
                        }
                        lemma_collides_step(
                            mem0,
                            vid0,
                            base as int,
                            x0 as int,
                            y0 as int,
                            row as int,
                            col as int,
                        );
                    }
                } else {
                    proof {
                        assert forall|i: int| 0 <= i < 2048 implies self.video@[i] == (vid0[i]
                            != sprite_covers_before(
                            mem0,
                            base as int,
                            x0 as int,
                            y0 as int,
                            row as int,
                            col + 1,
                            i,
                        )) by {
                            lemma_covers_step(
                                mem0,
                                base as int,
                                x0 as int,
                                y0 as int,
                                row as int,
                                col as int,
                                i,
                            );
                        }
                        lemma_collides_step(
                            mem0,
                            vid0,
                            base as int,
                            x0 as int,
                            y0 as int,
                            row as int,
                            col as int,
                        );
                    }
                }
                col += 1;
            }
            proof {
                assert forall|i: int| 0 <= i < 2048 implies self.video@[i] == (vid0[i]
                    != sprite_covers_before(
                    mem0,
                    base as int,
                    x0 as int,
                    y0 as int,
                    row + 1,
                    0,
                    i,
                )) by {
                    lemma_covers_row_step(mem0, base as int, x0 as int, y0 as int, row as int, i);
                }
                lemma_collides_row_step(
                    mem0,
                    vid0,
                    base as int,
                    x0 as int,
                    y0 as int,
                    row as int,
                );
            }
            row += 1;
        }
        self.registers[0xF] = if collided {
            1
        } else {
            0
        };
        proof {
            assert(self.video@ =~= Seq::new(
                2048,
                |i: int|
                    vid0[i] != sprite_covers(
                        mem0,
                        old(self).index as int,
                        old(self).registers@[x_of(old(self).opcode) as int] as int % 64,
                        old(self).registers@[y_of(old(self).opcode) as int] as int % 32,
                        n_of(old(self).opcode) as int,
                        i,
                    ),
            ));
        }
        Ok(())
    }

    pub fn op_fx07(&mut self)
        ensures
            op_fx07_spec(*old(self), *final(self)),
    {
        let x = get_low_4_bits_of_high_byte(self.opcode) as usize;
        self.registers[x] = self.delay_timer;
    }

    pub fn op_fx0a(&mut self)
        requires
            old(self).pc >= 2,
        ensures
            op_fx0a_spec(*old(self), *final(self)),
    {
        let x = get_low_4_bits_of_high_byte(self.opcode) as usize;
        let mut k: usize = 0;
        while k < 16
            invariant
                0 <= k <= 16,
                x == x_of(self.opcode) as usize,
                x < 16,
                *self == *old(self),
                forall|j: int| 0 <= j < k ==> !self.keypad@[j],
            decreases 16 - k,
        {
            if self.keypad[k] {
                self.registers[x] = k as u8;
                return ;
            }
            k += 1;
        }
        self.pc = self.pc - 2;
    }

    pub fn op_fx15(&mut self)
        ensures
            op_fx15_spec(*old(self), *final(self)),
    {
        let x = get_low_4_bits_of_high_byte(self.opcode) as usize;
        self.delay_timer = self.registers[x];
    }

    pub fn op_fx18(&mut self)
        ensures
            op_fx18_spec(*old(self), *final(self)),
    {
        let x = get_low_4_bits_of_high_byte(self.opcode) as usize;
        self.sound_timer = self.registers[x];
    }

    pub fn op_fx1e(&mut self)
        ensures
            op_fx1e_spec(*old(self), *final(self)),
    {
        let x = get_low_4_bits_of_high_byte(self.opcode) as usize;
        let sum: u32 = self.index as u32 + self.registers[x] as u32;
        self.index = (sum % 0x1000) as u16;
    }

    pub fn op_fx29(&mut self)
        ensures
            op_fx29_spec(*old(self), *final(self)),
    {
        let x = get_low_4_bits_of_high_byte(self.opcode) as usize;
        self.index = FONTSET_START_ADDRESS + self.registers[x] as u16 * GLYPH_SIZE;
    }

    /// One fetch-decode-execute step: reads the instruction at the program
    /// counter, advances past it, and runs the operation it encodes.
    pub fn cycle(&mut self) -> (r: Result<(), Chip8Error>)
        requires
            old(self).wf(),
        ensures
            step_spec(*old(self), *final(self), r),
            final(self).wf(),
    {
        if self.pc >= 4095 {
            return Err(Chip8Error::BoundsViolation);
        }
        let hi = self.memory[self.pc as usize];
        let lo = self.memory[self.pc as usize + 1];
        self.opcode = ((hi as u16) << 8u16) | (lo as u16);
        self.pc = self.pc + 2;
        proof {
            assert(*self =~= after_fetch(*old(self)));
        }
        match decode(self.opcode) {
            None => Err(Chip8Error::UnknownOpcode),
            Some(Opcode::ClearScreen) => {
                self.op_00e0();
                Ok(())
            },
            Some(Opcode::Ret) => self.op_00ee(),
            Some(Opcode::Jump) => {
                self.op_1nnn();
                Ok(())
            },
            Some(Opcode::Call) => self.op_2nnn(),
            Some(Opcode::SkipEqImm) => {
                self.op_3xkk();
                Ok(())
            },
            Some(Opcode::SkipNeImm) => {
                self.op_4xkk();
                Ok(())
            },
            Some(Opcode::SkipEqReg) => {
                self.op_5xy0();
                Ok(())
            },
            Some(Opcode::LoadImm) => {
                self.op_6xkk();
                Ok(())
            },
            Some(Opcode::AddImm) => {
                self.op_7xkk();
                Ok(())
            },
            Some(Opcode::Move) => {
                self.op_8xy0();
                Ok(())
            },
            Some(Opcode::Or) => {
                self.op_8xy1();
                Ok(())
            },
            Some(Opcode::And) => {
                self.op_8xy2();
                Ok(())
            },
            Some(Opcode::Xor) => {
                self.op_8xy3();
                Ok(())
            },
            Some(Opcode::AddCarry) => {
                self.op_8xy4();
                Ok(())
            },
            Some(Opcode::SubBorrow) => {
                self.op_8xy5();
                Ok(())
            },
            Some(Opcode::ShiftRight) => {
                self.op_8xy6();
                Ok(())
            },
            Some(Opcode::SubnBorrow) => {
                self.op_8xy7();
                Ok(())
            },
            Some(Opcode::ShiftLeft) => {
                self.op_8xye();
                Ok(())
            },
            Some(Opcode::SkipNeReg) => {
                self.op_9xy0();
                Ok(())
            },
            Some(Opcode::LoadIndex) => {
                self.op_annn();
                Ok(())
            },
            Some(Opcode::JumpIndexed) => {
                self.op_bnnn();
                Ok(())
            },
            Some(Opcode::Random) => {
                self.op_cxkk();
                Ok(())
            },
            Some(Opcode::Draw) => self.op_dxyn(),
            Some(Opcode::SkipKeyPressed) => self.op_ex9e(),
            Some(Opcode::SkipKeyNotPressed) => self.op_exa1(),
            Some(Opcode::ReadDelay) => {
                self.op_fx07();
                Ok(())
            },
            Some(Opcode::WaitKey) => {
                self.op_fx0a();
                Ok(())
            },
            Some(Opcode::SetDelay) => {
                self.op_fx15();
                Ok(())
            },
            Some(Opcode::SetSound) => {
                self.op_fx18();
                Ok(())
            },
            Some(Opcode::AddIndex) => {
                self.op_fx1e();
                Ok(())
            },
            Some(Opcode::FontAddress) => {
                self.op_fx29();
                Ok(())
            },
            Some(Opcode::StoreBcd) => self.op_fx33(),
            Some(Opcode::StoreRegisters) => self.op_fx55(),
            Some(Opcode::LoadRegisters) => self.op_fx65(),
        }
    }

    /// The external timer driver's fixed-rate tick: both timers count down
    /// toward zero and stop there.
    pub fn tick_timers(&mut self)
        ensures
            tick_timers_spec(*old(self), *final(self)),
    {
        if self.delay_timer > 0 {
            self.delay_timer = self.delay_timer - 1;
        }
        if self.sound_timer > 0 {
            self.sound_timer = self.sound_timer - 1;
        }
    }
}

/// The condition a skip operation tests, read off the post-fetch machine.
pub open spec fn skip_condition(mid: Chip8) -> bool {
    match spec_decode(mid.opcode) {
        Some(Opcode::SkipEqImm) => mid.registers@[x_of(mid.opcode) as int] == kk_of(mid.opcode),
        Some(Opcode::SkipNeImm) => mid.registers@[x_of(mid.opcode) as int] != kk_of(mid.opcode),
        Some(Opcode::SkipEqReg) => mid.registers@[x_of(mid.opcode) as int] == mid.registers@[y_of(
            mid.opcode,
        ) as int],
        Some(Opcode::SkipNeReg) => mid.registers@[x_of(mid.opcode) as int] != mid.registers@[y_of(
            mid.opcode,
        ) as int],
        Some(Opcode::SkipKeyPressed) => mid.keypad@[mid.registers@[x_of(mid.opcode) as int] as int],
        Some(Opcode::SkipKeyNotPressed) => !mid.keypad@[mid.registers@[x_of(
            mid.opcode,
        ) as int] as int],
        _ => false,
    }
}

/// Whether an operation is one of the six conditional skips.
pub open spec fn is_skip(op: Opcode) -> bool {
    op == Opcode::SkipEqImm || op == Opcode::SkipNeImm || op == Opcode::SkipEqReg || op
        == Opcode::SkipNeReg || op == Opcode::SkipKeyPressed || op == Opcode::SkipKeyNotPressed
}

/// A call cycle from program counter P pushes P + 2 (the post-fetch
/// value) onto the stack, and a following return cycle restores the
/// program counter to exactly that value with the stack pointer back at
/// its pre-call depth.
pub proof fn lemma_call_return_round_trip(s0: Chip8, s1: Chip8, s2: Chip8, r1: Result<
    (),
    Chip8Error,
>, r2: Result<(), Chip8Error>)
    requires
        s0.wf(),
        s0.sp < 16,
        fetch_ok(s0),
        spec_decode(after_fetch(s0).opcode) == Some(Opcode::Call),
        step_spec(s0, s1, r1),
        fetch_ok(s1),
        spec_decode(after_fetch(s1).opcode) == Some(Opcode::Ret),
        step_spec(s1, s2, r2),
    ensures
        r1 == Ok::<(), Chip8Error>(()),
        r2 == Ok::<(), Chip8Error>(()),
        s1.sp == s0.sp + 1,
        s1.stack@[s0.sp as int] == s0.pc + 2,
        s2.pc == s0.pc + 2,
        s2.sp == s0.sp,
{
    let mid1 = after_fetch(s0);
    assert(op_2nnn_spec(mid1, s1, r1));
    let mid2 = after_fetch(s1);
    assert(op_00ee_spec(mid2, s2, r2));
    assert(s2.pc == s1.stack@[s1.sp - 1]);
}

/// Drawing the same sprite twice at the same location restores every
/// framebuffer cell to its value before the first draw (XOR is its own
/// inverse), and the second draw's collision flag reports exactly whether
/// some cell the sprite toggles was on after the first draw. The sprite's
/// coordinate registers must not be the flag register itself, which the
/// first draw overwrites.
pub proof fn lemma_draw_twice(s0: Chip8, s1: Chip8, s2: Chip8)
    requires
        op_dxyn_spec(s0, s1, Ok::<(), Chip8Error>(())),
        op_dxyn_spec(s1, s2, Ok::<(), Chip8Error>(())),
        x_of(s0.opcode) != 15,
        y_of(s0.opcode) != 15,
    ensures
        s2.video@ == s0.video@,
        s2.registers@[15] == (if sprite_collides(
            s0.memory@,
            s1.video@,
            s0.index as int,
            s0.registers@[x_of(s0.opcode) as int] as int % 64,
            s0.registers@[y_of(s0.opcode) as int] as int % 32,
            n_of(s0.opcode) as int,
        ) {
            1u8
        } else {
            0u8
        }),
{
    let x0 = s0.registers@[x_of(s0.opcode) as int] as int % 64;
    let y0 = s0.registers@[y_of(s0.opcode) as int] as int % 32;
    let n = n_of(s0.opcode) as int;
    let base = s0.index as int;
    lemma_operand_ranges(s0.opcode);
    assert(s1.opcode == s0.opcode);
    assert(s1.memory@ == s0.memory@);
    assert(s1.index == s0.index);
    assert(s1.registers@[x_of(s1.opcode) as int] == s0.registers@[x_of(s0.opcode) as int]);
    assert(s1.registers@[y_of(s1.opcode) as int] == s0.registers@[y_of(s0.opcode) as int]);
    assert(s2.video@ == Seq::new(
        2048,
        |i: int| s1.video@[i] != sprite_covers(s0.memory@, base, x0, y0, n, i),
    ));
    assert forall|i: int| 0 <= i < 2048 implies s2.video@[i] == s0.video@[i] by {
        assert(s1.video@[i] == (s0.video@[i] != sprite_covers(s0.memory@, base, x0, y0, n, i)));
    }
    assert(s2.video@ =~= s0.video@);
}

/// A skip cycle advances the program counter by exactly 4 (one extra
/// instruction) when its condition holds, and by exactly 2 otherwise.
/// The two key skips reach their condition only when the tested register
/// names a key, else the cycle fails instead.
pub proof fn lemma_skip_advances(pre: Chip8, post: Chip8, op: Opcode)
    requires
        fetch_ok(pre),
        spec_decode(after_fetch(pre).opcode) == Some(op),
        is_skip(op),
        step_spec(pre, post, Ok::<(), Chip8Error>(())),
    ensures
        post.pc == if skip_condition(after_fetch(pre)) {
            pre.pc + 4
        } else {
            pre.pc + 2
        },
{
    let mid = after_fetch(pre);
    assert(exec_op_spec(op, mid, post, Ok::<(), Chip8Error>(())));
}

/// Every failing cycle leaves the registers, memory, call stack, index,
/// timers, keypad and framebuffer exactly as they were: at most the fetch
/// that preceded the failed bound check has advanced the program counter.
/// Each failure names its cause: a fetch or address past a bound, a
/// return with the stack empty, a call with it full, or an unrecognized
/// instruction word.
pub proof fn lemma_failure_preserves_state(pre: Chip8, post: Chip8, e: Chip8Error)
    requires
        pre.wf(),
        step_spec(pre, post, Err::<(), Chip8Error>(e)),
    ensures
        post.registers@ == pre.registers@,
        post.memory@ == pre.memory@,
        post.stack@ == pre.stack@,
        post.sp == pre.sp,
        post.index == pre.index,
        post.delay_timer == pre.delay_timer,
        post.sound_timer == pre.sound_timer,
        post.keypad@ == pre.keypad@,
        post.video@ == pre.video@,
        e == Chip8Error::UnknownOpcode ==> fetch_ok(pre) && spec_decode(after_fetch(pre).opcode)
            is None,
        e == Chip8Error::StackUnderflow ==> spec_decode(after_fetch(pre).opcode) == Some(
            Opcode::Ret,
        ) && pre.sp == 0,
        e == Chip8Error::StackOverflow ==> spec_decode(after_fetch(pre).opcode) == Some(
            Opcode::Call,
        ) && pre.sp == 16,
{
    if fetch_ok(pre) {
        let mid = after_fetch(pre);
        assert(post == pre || post == mid);
    }
}

impl Default for Chip8 {
    /// A zeroed machine with the program counter at the program base
    /// address and no font loaded.
    fn default() -> (r: Chip8)
        ensures
            r.wf(),
            r.pc == START_ADDRESS,
            r.sp == 0,
            r.index == 0,
            r.opcode == 0,
            r.delay_timer == 0,
            r.sound_timer == 0,
            forall|i: int| 0 <= i < 16 ==> r.registers@[i] == 0,
            forall|i: int| 0 <= i < 4096 ==> r.memory@[i] == 0,
            forall|i: int| 0 <= i < 16 ==> r.stack@[i] == 0,
            forall|i: int| 0 <= i < 16 ==> !r.keypad@[i],
            forall|i: int| 0 <= i < 2048 ==> !r.video@[i],
    {
        Chip8 {
            registers: [0; 16],
            memory: [0; 4096],
            index: 0,
            pc: START_ADDRESS,
            stack: [0; 16],
            sp: 0,
            delay_timer: 0,
            sound_timer: 0,
            keypad: [false; 16],
            video: [false; 2048],
            opcode: 0,
            rand_gen: fresh_rng(),
        }
    }
}

} // verus!
