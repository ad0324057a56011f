use chip8::cpu::Cpu;
use chip8::model::{Mode, StepError, RAM_SIZE, V_HEIGHT, V_WIDTH};
use chip8::rom::ROM;

fn exec_test_prog(p: &Vec<u16>, c: &mut Cpu) {
    for i in p {
        c.opcode_init(*i);
        c.icycle().unwrap();
    }
}

#[test]
fn test_add_carry_flag() {
    // 0xff + 0x02 overflows: Vx wraps, VF = 1
    let mut c = Cpu::new(None).unwrap();
    exec_test_prog(&vec![0x60ff, 0x6102, 0x8014], &mut c);
    assert_eq!(c.v(0), 0x01);
    assert_eq!(c.v(15), 1);
    // 0x01 + 0x02 does not: VF = 0
    let mut c = Cpu::new(None).unwrap();
    exec_test_prog(&vec![0x6001, 0x6102, 0x8014], &mut c);
    assert_eq!(c.v(0), 0x03);
    assert_eq!(c.v(15), 0);
}

#[test]
fn test_sub_borrow_flag() {
    // 0x63 - 0x21: no borrow, VF = 1, and the exact end state
    let mut c = Cpu::new(None).unwrap();
    exec_test_prog(&vec![0x6063, 0x6121, 0x8015], &mut c);
    assert_eq!(c.v(0), 0x42);
    assert_eq!(c.v(1), 0x21);
    assert_eq!(c.v(15), 1);
    assert_eq!(c.pc(), 0x206);
    // 0x21 - 0x63 borrows: wraps mod 256, VF = 0
    let mut c = Cpu::new(None).unwrap();
    exec_test_prog(&vec![0x6021, 0x6163, 0x8015], &mut c);
    assert_eq!(c.v(0), 0xbe);
    assert_eq!(c.v(15), 0);
}

#[test]
fn test_subn_borrow_flag() {
    // Vy - Vx with borrow: 0x20 - 0x62 wraps, VF = 0
    let mut c = Cpu::new(None).unwrap();
    exec_test_prog(&vec![0x6062, 0x6120, 0x8017], &mut c);
    assert_eq!(c.v(0), 0xbe);
    assert_eq!(c.v(15), 0);
}

#[test]
fn test_store_load_roundtrip() {
    let mut c = Cpu::new(None).unwrap();
    exec_test_prog(&vec![0x6011, 0x6122, 0x6233, 0x6344, 0xa300, 0xf355], &mut c);
    assert_eq!(c.ram(0x300), 0x11);
    assert_eq!(c.ram(0x301), 0x22);
    assert_eq!(c.ram(0x302), 0x33);
    assert_eq!(c.ram(0x303), 0x44);
    // clobber the registers, then load them back from the same spot
    exec_test_prog(&vec![0x6000, 0x6100, 0x6200, 0x6300, 0xf365], &mut c);
    assert_eq!(c.v(0), 0x11);
    assert_eq!(c.v(1), 0x22);
    assert_eq!(c.v(2), 0x33);
    assert_eq!(c.v(3), 0x44);
}

#[test]
fn test_draw_and_idempotence() {
    // draw the one-row sprite 0xf0 at (5, 3): pixels (5..9, 3) light up
    let mut c = Cpu::new(None).unwrap();
    c.poke_ram(0x300, 0xf0);
    exec_test_prog(&vec![0x6005, 0x6103, 0xa300, 0xd011], &mut c);
    assert_eq!(c.v(15), 0); // nothing was lit before: no collision
    for col in 5..9 {
        assert_eq!(c.pixel(col, 3), 1);
    }
    assert_eq!(c.pixel(4, 3), 0);
    assert_eq!(c.pixel(9, 3), 0);
    // the same draw again erases every touched pixel and reports collision
    exec_test_prog(&vec![0xd011], &mut c);
    assert_eq!(c.v(15), 1);
    for jj in 0..V_HEIGHT {
        for ii in 0..V_WIDTH {
            assert_eq!(c.pixel(ii, jj), 0);
        }
    }
}

#[test]
fn test_draw_wraps_at_edges() {
    // two rows of 0xc0 at (63, 31) wrap to all four display corners
    let mut c = Cpu::new(None).unwrap();
    c.poke_ram(0x300, 0xc0);
    c.poke_ram(0x301, 0xc0);
    exec_test_prog(&vec![0x603f, 0x611f, 0xa300, 0xd012], &mut c);
    assert_eq!(c.pixel(63, 31), 1);
    assert_eq!(c.pixel(0, 31), 1);
    assert_eq!(c.pixel(63, 0), 1);
    assert_eq!(c.pixel(0, 0), 1);
    assert_eq!(c.v(15), 0);
    assert_eq!(c.pixel(1, 1), 0);
}

#[test]
fn test_call_and_return() {
    // 0x2242 from 0x200: one frame pushed, pc at the callee
    let mut c = Cpu::new(None).unwrap();
    exec_test_prog(&vec![0x2242], &mut c);
    assert_eq!(c.sp(), 1);
    assert_eq!(c.stack(0), 0x202);
    assert_eq!(c.pc(), 0x242);
    // 00EE executed from 0x242: frame popped, pc back after the call
    exec_test_prog(&vec![0x00ee], &mut c);
    assert_eq!(c.sp(), 0);
    assert_eq!(c.pc(), 0x202);
}

#[test]
fn test_key_wait() {
    let mut c = Cpu::new(None).unwrap();
    c.opcode_init(0xf30a); // wait for a key, capture into V3
    c.icycle().unwrap();
    assert_eq!(c.pc(), 0x202);
    assert_eq!(c.mode(), Mode::AwaitingKey(3));
    let pc0: usize = c.pc();
    let v3: u8 = c.v(3);
    // with no key down, cycles change nothing
    for _ in 0..5 {
        c.mcycle([false; 16]).unwrap();
        assert_eq!(c.pc(), pc0);
        assert_eq!(c.v(3), v3);
        assert_eq!(c.mode(), Mode::AwaitingKey(3));
    }
    // the first cycle with key 0x9 down captures it and resumes
    let mut keys = [false; 16];
    keys[0x9] = true;
    c.mcycle(keys).unwrap();
    assert_eq!(c.v(3), 0x9);
    assert_eq!(c.mode(), Mode::Running);
    assert_eq!(c.pc(), pc0);
    // normal stepping resumes: the next cycle executes an instruction
    c.opcode_init(0x6042);
    c.mcycle([false; 16]).unwrap();
    assert_eq!(c.v(0), 0x42);
    assert_eq!(c.pc(), pc0 + 2);
}

#[test]
fn test_key_wait_lowest_key_wins() {
    let mut c = Cpu::new(None).unwrap();
    c.opcode_init(0xf00a);
    c.icycle().unwrap();
    let mut keys = [false; 16];
    keys[0xb] = true;
    keys[0x4] = true;
    c.mcycle(keys).unwrap();
    assert_eq!(c.v(0), 0x4);
}

#[test]
fn test_decode_failure_leaves_state() {
    let bad_ops: [u16; 7] = [0x0000, 0x00e1, 0x5121, 0x8008, 0x9001, 0xe0a2, 0xf0ff];
    for op in bad_ops {
        let mut c = Cpu::new(None).unwrap();
        c.set_v(7, 0x55);
        c.set_i(0x123);
        c.opcode_init(op);
        let r = c.icycle();
        assert_eq!(r, Err(StepError::Decode { op, pc: 0x200 }));
        // all state unmodified
        assert_eq!(c.pc(), 0x200);
        assert_eq!(c.sp(), 0);
        assert_eq!(c.i(), 0x123);
        assert_eq!(c.v(7), 0x55);
        assert_eq!(c.mode(), Mode::Running);
    }
}

#[test]
fn test_stack_underflow() {
    let mut c = Cpu::new(None).unwrap();
    c.opcode_init(0x00ee);
    let r = c.icycle();
    assert_eq!(r, Err(StepError::StackUnderflow));
    assert_eq!(c.pc(), 0x200);
    assert_eq!(c.sp(), 0);
}

#[test]
fn test_stack_overflow() {
    let mut c = Cpu::new(None).unwrap();
    c.set_sp(16);
    c.opcode_init(0x2242);
    let r = c.icycle();
    assert_eq!(r, Err(StepError::StackOverflow));
    assert_eq!(c.pc(), 0x200);
    assert_eq!(c.sp(), 16);
}

#[test]
fn test_memory_out_of_bounds() {
    // a fetch past the end of memory
    let mut c = Cpu::new(None).unwrap();
    c.set_pc(4095);
    assert_eq!(c.icycle(), Err(StepError::OutOfBounds));
    assert_eq!(c.pc(), 4095);
    // BCD would write past the end
    let mut c = Cpu::new(None).unwrap();
    c.set_i(4094);
    c.opcode_init(0xf033);
    assert_eq!(c.icycle(), Err(StepError::OutOfBounds));
    assert_eq!(c.pc(), 0x200);
    // a register store past the end
    let mut c = Cpu::new(None).unwrap();
    c.set_i(4095);
    c.opcode_init(0xf155);
    assert_eq!(c.icycle(), Err(StepError::OutOfBounds));
    // a register load past the end
    let mut c = Cpu::new(None).unwrap();
    c.set_i(4095);
    c.opcode_init(0xf165);
    assert_eq!(c.icycle(), Err(StepError::OutOfBounds));
    // sprite bytes past the end
    let mut c = Cpu::new(None).unwrap();
    c.set_i(4090);
    c.opcode_init(0xd008);
    assert_eq!(c.icycle(), Err(StepError::OutOfBounds));
}

#[test]
fn test_load_error() {
    // an image one byte over the program area is refused at construction
    let r = Cpu::new(Some(ROM {
        rom: vec![0u8; RAM_SIZE - 0x200 + 1],
    }));
    assert!(r.is_err());
    // the largest image that fits is accepted
    let c = Cpu::new(Some(ROM::new_prog(&vec![0xaa; RAM_SIZE - 0x200]).unwrap())).unwrap();
    assert_eq!(c.ram(4095), 0xaa);
}

#[test]
fn test_bcd() {
    let mut c = Cpu::new(None).unwrap();
    exec_test_prog(&vec![0x60fd, 0xa300, 0xf033], &mut c);
    assert_eq!(c.ram(0x300), 2);
    assert_eq!(c.ram(0x301), 5);
    assert_eq!(c.ram(0x302), 3);
}

#[test]
fn test_font_glyph_address() {
    let mut c = Cpu::new(None).unwrap();
    exec_test_prog(&vec![0x6107, 0xf129], &mut c);
    assert_eq!(c.i(), 35); // glyph 7 starts at 7 * 5
    // the font sprite for 0 sits at the bottom of memory
    assert_eq!(c.ram(0), 0xf0);
    assert_eq!(c.ram(1), 0x90);
}

#[test]
fn test_timers_and_sound() {
    let mut c = Cpu::new(None).unwrap();
    exec_test_prog(&vec![0x603c, 0xf015, 0xf018], &mut c);
    assert_eq!(c.delay(), 0x3c);
    assert_eq!(c.sound(), 0x3c);
    assert!(c.sound_active());
    // a machine cycle decrements both timers before the instruction
    c.opcode_init(0x6000);
    c.mcycle([false; 16]).unwrap();
    assert_eq!(c.delay(), 0x3b);
    assert_eq!(c.sound(), 0x3b);
    // Fx07 reads the delay timer back
    c.opcode_init(0xf207);
    c.icycle().unwrap();
    assert_eq!(c.v(2), 0x3b);
}

#[test]
fn test_timers_stop_at_zero() {
    let mut c = Cpu::new(None).unwrap();
    assert_eq!(c.delay(), 0);
    assert_eq!(c.sound(), 0);
    assert!(!c.sound_active());
    c.opcode_init(0x6000);
    c.mcycle([false; 16]).unwrap();
    assert_eq!(c.delay(), 0);
    assert_eq!(c.sound(), 0);
}

#[test]
fn test_skip_on_key() {
    // Ex9E: key down => skip
    let mut c = Cpu::new(None).unwrap();
    c.set_v(0, 5);
    c.opcode_init(0xe09e);
    let mut keys = [false; 16];
    keys[5] = true;
    c.mcycle(keys).unwrap();
    assert_eq!(c.pc(), 0x204);
    // Ex9E: key up => advance
    let mut c = Cpu::new(None).unwrap();
    c.set_v(0, 5);
    c.opcode_init(0xe09e);
    c.mcycle([false; 16]).unwrap();
    assert_eq!(c.pc(), 0x202);
    // ExA1: key up => skip
    let mut c = Cpu::new(None).unwrap();
    c.set_v(0, 5);
    c.opcode_init(0xe0a1);
    c.mcycle([false; 16]).unwrap();
    assert_eq!(c.pc(), 0x204);
    // ExA1: key down => advance
    let mut c = Cpu::new(None).unwrap();
    c.set_v(0, 5);
    c.opcode_init(0xe0a1);
    let mut keys = [false; 16];
    keys[5] = true;
    c.mcycle(keys).unwrap();
    assert_eq!(c.pc(), 0x202);
}

#[test]
fn test_random_is_masked() {
    for _ in 0..16 {
        let mut c = Cpu::new(None).unwrap();
        c.opcode_init(0xc00f);
        c.icycle().unwrap();
        assert!(c.v(0) <= 0x0f);
        let mut c = Cpu::new(None).unwrap();
        c.opcode_init(0xc100);
        c.icycle().unwrap();
        assert_eq!(c.v(1), 0);
    }
}

#[test]
fn test_index_register_wraps_at_16_bits() {
    let mut c = Cpu::new(None).unwrap();
    c.set_i(0xffff);
    exec_test_prog(&vec![0x6003, 0xf01e], &mut c);
    assert_eq!(c.i(), 0x0002);
}

#[test]
fn test_reset_clears_key_wait() {
    let mut c = Cpu::new(None).unwrap();
    c.opcode_init(0xf00a);
    c.icycle().unwrap();
    assert_eq!(c.mode(), Mode::AwaitingKey(0));
    c.reset().unwrap();
    assert_eq!(c.mode(), Mode::Running);
    assert_eq!(c.pc(), 0x200);
}

#[test]
fn test_framebuffer_accessor() {
    let mut c = Cpu::new(None).unwrap();
    c.set_pixel(10, 2, 1);
    let fb = c.framebuffer();
    assert_eq!(fb.len(), 2048);
    assert_eq!(fb[2 * 64 + 10], 1);
    assert_eq!(fb[0], 0);
}
