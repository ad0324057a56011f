use vstd::prelude::*;
use crate::model::{
    Model, Mode, Instr, StepError, spec_decode, spec_fault, spec_apply, spec_new_pc, spec_exec,
    icycle_rel, cycle_rel, wait_cycle, any_pressed, lemma_first_pressed_hit,
    sprite_bit, draw_target, draw_pixel, draw_fb, draw_collision, lemma_target_inverse,
    lemma_pixel_target, font_sq, initial_ram,
    initial_model, RAM_SIZE, PC_BASE, ROM_SIZE, STACK_SIZE, REG_COUNT, V_WIDTH, V_HEIGHT, FB_SIZE,
    KEY_COUNT,
};
use crate::rom::{ROM, LoadError, rom_sq};

verus! {

/// The machine: memory, framebuffer, call stack, register file, index
/// register, program counter, the two countdown timers, the latest keypad
/// snapshot, the run/key-wait mode, and the retained program image.
pub struct Cpu {
    ram: Vec<u8>,
    vram: Vec<u8>,
    sp: usize,
    s: Vec<u16>,
    v: Vec<u8>,
    i: usize,
    pc: usize,
    delay: u8,
    sound: u8,
    keyb: Vec<bool>,
    mode: Mode,
    prog: Option<ROM>,
}

impl View for Cpu {
    type V = Model;

    closed spec fn view(&self) -> Model {
        Model {
            ram: self.ram@,
            fb: self.vram@,
            stack: self.s@,
            sp: self.sp as int,
            v: self.v@,
            i: self.i as int,
            pc: self.pc as int,
            delay: self.delay,
            sound: self.sound,
            keys: self.keyb@,
            mode: self.mode,
        }
    }
}

/// A vector of `n` copies of `val`.
fn filled<T: Copy>(val: T, n: usize) -> (v: Vec<T>)
    ensures
        v@.len() == n,
        forall|j: int| 0 <= j < n ==> v@[j] == val,
{
    let mut v: Vec<T> = Vec::new();
    let mut k: usize = 0;
    while k < n
        invariant
            k <= n,
            v@.len() == k,
            forall|j: int| 0 <= j < k ==> v@[j] == val,
        decreases n - k,
    {
        v.push(val);
        k = k + 1;
    }
    v
}

/// The font table as bytes in memory order.
fn font_vec() -> (f: Vec<u8>)
    ensures
        f@ == font_sq(),
{
    let mut f: Vec<u8> = Vec::new();
    f.push(0xf0);
    f.push(0x90);
    f.push(0x90);
    f.push(0x90);
    f.push(0xf0);
    f.push(0x20);
    f.push(0x60);
    f.push(0x20);
    f.push(0x20);
    f.push(0x70);
    f.push(0xf0);
    f.push(0x10);
    f.push(0xf0);
    f.push(0x80);
    f.push(0xf0);
    f.push(0xf0);
    f.push(0x10);
    f.push(0xf0);
    f.push(0x10);
    f.push(0xf0);
    f.push(0x90);
    f.push(0x90);
    f.push(0xf0);
    f.push(0x10);
    f.push(0x10);
    f.push(0xf0);
    f.push(0x80);
    f.push(0xf0);
    f.push(0x10);
    f.push(0xf0);
    f.push(0xf0);
    f.push(0x80);
    f.push(0xf0);
    f.push(0x90);
    f.push(0xf0);
    f.push(0xf0);
    f.push(0x10);
    f.push(0x20);
    f.push(0x40);
    f.push(0x40);
    f.push(0xf0);
    f.push(0x90);
    f.push(0xf0);
    f.push(0x90);
    f.push(0xf0);
    f.push(0xf0);
    f.push(0x90);
    f.push(0xf0);
    f.push(0x10);
    f.push(0xf0);
    f.push(0xf0);
    f.push(0x90);
    f.push(0xf0);
    f.push(0x90);
    f.push(0x90);
    f.push(0xe0);
    f.push(0x90);
    f.push(0xe0);
    f.push(0x90);
    f.push(0xe0);
    f.push(0xf0);
    f.push(0x80);
    f.push(0x80);
    f.push(0x80);
    f.push(0xf0);
    f.push(0xe0);
    f.push(0x90);
    f.push(0x90);
    f.push(0x90);
    f.push(0xe0);
    f.push(0x0f);
    f.push(0x80);
    f.push(0xf0);
    f.push(0x80);
    f.push(0xf0);
    f.push(0xf0);
    f.push(0x80);
    f.push(0xf0);
    f.push(0x80);
    f.push(0x80);
    proof {
        assert(f@ =~= font_sq());
    }
    f
}

/// Program-counter effect of one executed instruction: advance past it,
/// skip the following instruction too, or jump to an absolute address.
enum PC {
    I,
    C,
    J(usize),
}

/// The program counter an effect leads to from state `m`.
spec fn pc_of(eff: PC, m: Model) -> int {
    match eff {
        PC::I => m.pc + 2,
        PC::C => m.pc + 4,
        PC::J(a) => a as int,
    }
}

impl PC {
    /// Effect of a conditional skip: met conditions merely advance, unmet
    /// ones skip the next instruction.
    fn cond(q: bool) -> (r: PC)
        ensures
            r == if q {
                PC::I
            } else {
                PC::C
            },
    {
        if q {
            PC::I
        } else {
            PC::C
        }
    }
}

impl Cpu {
    /// Soundness of the machine: the state snapshot is well formed and the
    /// retained program image fits in program memory.
    pub closed spec fn inv(&self) -> bool {
        &&& self@.wf()
        &&& self.prog_rom().len() <= ROM_SIZE
    }

    /// The bytes of the retained program image (empty when none was given).
    pub closed spec fn prog_rom(&self) -> Seq<u8> {
        rom_sq(self.prog)
    }

    /// Fresh machine memory: font at the bottom, the program image at the
    /// program base, zeroes elsewhere.  Fails when the image does not fit.
    fn ram_init(rom: &Option<ROM>) -> (r: Result<Vec<u8>, LoadError>)
        ensures
            rom_sq(*rom).len() <= ROM_SIZE ==> (r matches Ok(ram) && ram@ == initial_ram(
                rom_sq(*rom),
            )),
            rom_sq(*rom).len() > ROM_SIZE ==> r == Err::<Vec<u8>, LoadError>(LoadError),
    {
        let mut ram: Vec<u8> = filled(0u8, RAM_SIZE);
        let font = font_vec();
        proof {
            assert(font_sq().len() == 80);
        }
        let mut ii: usize = 0;
        while ii < 80
            invariant
                ii <= 80,
                ram@.len() == RAM_SIZE,
                font@ == font_sq(),
                font_sq().len() == 80,
                forall|j: int| 0 <= j < ii ==> ram@[j] == font_sq()[j],
                forall|j: int| ii <= j < RAM_SIZE ==> ram@[j] == 0u8,
            decreases 80 - ii,
        {
            ram[ii] = font[ii];
            ii = ii + 1;
        }
        match rom {
            None => {},
            Some(rm) => {
                if rm.rom.len() > ROM_SIZE {
                    return Err(LoadError);
                }
                let mut jj: usize = 0;
                while jj < rm.rom.len()
                    invariant
                        jj <= rm.rom@.len(),
                        rm.rom@.len() <= ROM_SIZE,
                        ram@.len() == RAM_SIZE,
                        forall|j: int| 0 <= j < 80 ==> ram@[j] == font_sq()[j],
                        forall|j: int| 80 <= j < PC_BASE ==> ram@[j] == 0u8,
                        forall|j: int|
                            PC_BASE <= j < PC_BASE + jj ==> ram@[j] == rm.rom@[j - PC_BASE],
                        forall|j: int| PC_BASE + jj <= j < RAM_SIZE ==> ram@[j] == 0u8,
                    decreases rm.rom@.len() - jj,
                {
                    ram[PC_BASE + jj] = rm.rom[jj];
                    jj = jj + 1;
                }
            },
        };
        proof {
            assert(ram@ =~= initial_ram(rom_sq(*rom)));
        }
        Ok(ram)
    }

    /// Build a machine, optionally loading a program image.  Construction
    /// fails exactly when the image is longer than the program area.
    pub fn new(prog: Option<ROM>) -> (r: Result<Cpu, LoadError>)
        ensures
            rom_sq(prog).len() <= ROM_SIZE ==> (r matches Ok(c) && c.inv() && c@ == initial_model(
                rom_sq(prog),
            ) && c.prog_rom() == rom_sq(prog)),
            rom_sq(prog).len() > ROM_SIZE ==> r == Err::<Cpu, LoadError>(LoadError),
    {
        let ram = match Cpu::ram_init(&prog) {
            Ok(rm) => rm,
            Err(_) => {
                return Err(LoadError);
            },
        };
        let c = Cpu {
            ram,
            vram: filled(0u8, FB_SIZE),
            sp: 0,
            s: filled(0u16, STACK_SIZE),
            v: filled(0u8, REG_COUNT),
            i: 0,
            pc: PC_BASE,
            delay: 0,
            sound: 0,
            keyb: filled(false, KEY_COUNT),
            mode: Mode::Running,
            prog,
        };
        proof {
            assert(c@ =~= initial_model(rom_sq(c.prog)));
        }
        Ok(c)
    }

    /// Reinitialize the machine: reapply the font and the retained program
    /// image, clear all execution state.
    pub fn reset(&mut self) -> (r: Result<(), LoadError>)
        requires
            old(self).inv(),
        ensures
            r == Ok::<(), LoadError>(()),
            final(self).inv(),
            final(self)@ == initial_model(old(self).prog_rom()),
            final(self).prog_rom() == old(self).prog_rom(),
    {
        let ram = match Cpu::ram_init(&self.prog) {
            Ok(rm) => rm,
            Err(_) => {
                proof {
                    assert(false);
                }
                return Err(LoadError);
            },
        };
        self.ram = ram;
        self.vram = filled(0u8, FB_SIZE);
        self.sp = 0;
        self.s = filled(0u16, STACK_SIZE);
        self.v = filled(0u8, REG_COUNT);
        self.i = 0;
        self.pc = PC_BASE;
        self.delay = 0;
        self.sound = 0;
        self.keyb = filled(false, KEY_COUNT);
        self.mode = Mode::Running;
        proof {
            assert(self@ =~= initial_model(old(self).prog_rom()));
        }
        Ok(())
    }

    /// Write a 16-bit opcode at the current program counter, high byte first.
    pub fn opcode_init(&mut self, op: u16)
        requires
            old(self).inv(),
            old(self)@.pc + 1 < RAM_SIZE,
        ensures
            final(self).inv(),
            final(self)@ == (Model {
                ram: old(self)@.ram.update(old(self)@.pc, (op / 256) as u8).update(
                    old(self)@.pc + 1,
                    (op % 256) as u8,
                ),
                ..old(self)@
            }),
            final(self)@.fetch16() == op,
            final(self).prog_rom() == old(self).prog_rom(),
    {
        let hi: u8 = (op / 256) as u8;
        let lo: u8 = (op % 256) as u8;
        self.ram[self.pc] = hi;
        let at = self.pc + 1;
        self.ram[at] = lo;
    }

    /// Read the 16-bit instruction under the program counter.
    fn fetch(&self) -> (op: u16)
        requires
            self.inv(),
            self@.pc + 1 < RAM_SIZE,
        ensures
            op == self@.fetch16(),
    {
        let hi = self.ram[self.pc];
        let lo = self.ram[self.pc + 1];
        (hi as u16) * 256 + (lo as u16)
    }

    /// Split an opcode into operand fields and pick the one table row it
    /// matches; `None` is a decode failure.
    pub fn decode(op: u16) -> (r: Option<Instr>)
        ensures
            r == spec_decode(op),
    {
        let a: u16 = op / 0x1000;
        let x: u8 = ((op / 0x100) % 16) as u8;
        let y: u8 = ((op / 0x10) % 16) as u8;
        let n: u16 = op % 16;
        let nn: u8 = (op % 0x100) as u8;
        let nnn: u16 = op % 0x1000;
        if op == 0x00E0 {
            Some(Instr::Cls)
        } else if op == 0x00EE {
            Some(Instr::Ret)
        } else if a == 0x1 {
            Some(Instr::Jp(nnn))
        } else if a == 0x2 {
            Some(Instr::Call(nnn))
        } else if a == 0x3 {
            Some(Instr::SeImm(x, nn))
        } else if a == 0x4 {
            Some(Instr::SneImm(x, nn))
        } else if a == 0x5 && n == 0x0 {
            Some(Instr::SeReg(x, y))
        } else if a == 0x6 {
            Some(Instr::LdImm(x, nn))
        } else if a == 0x7 {
            Some(Instr::AddImm(x, nn))
        } else if a == 0x8 && n == 0x0 {
            Some(Instr::MvReg(x, y))
        } else if a == 0x8 && n == 0x1 {
            Some(Instr::OrReg(x, y))
        } else if a == 0x8 && n == 0x2 {
            Some(Instr::AndReg(x, y))
        } else if a == 0x8 && n == 0x3 {
            Some(Instr::XorReg(x, y))
        } else if a == 0x8 && n == 0x4 {
            Some(Instr::AddReg(x, y))
        } else if a == 0x8 && n == 0x5 {
            Some(Instr::SubReg(x, y))
        } else if a == 0x8 && n == 0x6 {
            Some(Instr::ShrReg(x, y))
        } else if a == 0x8 && n == 0x7 {
            Some(Instr::SubnReg(x, y))
        } else if a == 0x8 && n == 0xE {
            Some(Instr::ShlReg(x, y))
        } else if a == 0x9 && n == 0x0 {
            Some(Instr::SneReg(x, y))
        } else if a == 0xA {
            Some(Instr::LdI(nnn))
        } else if a == 0xB {
            Some(Instr::JpV0(nnn))
        } else if a == 0xC {
            Some(Instr::Rnd(x, nn))
        } else if a == 0xD {
            Some(Instr::Drw(x, y, n as u8))
        } else if a == 0xE && nn == 0x9E {
            Some(Instr::Skp(x))
        } else if a == 0xE && nn == 0xA1 {
            Some(Instr::Sknp(x))
        } else if a == 0xF && nn == 0x07 {
            Some(Instr::LdDelay(x))
        } else if a == 0xF && nn == 0x0A {
            Some(Instr::WaitKey(x))
        } else if a == 0xF && nn == 0x15 {
            Some(Instr::SetDelay(x))
        } else if a == 0xF && nn == 0x18 {
            Some(Instr::SetSound(x))
        } else if a == 0xF && nn == 0x1E {
            Some(Instr::AddI(x))
        } else if a == 0xF && nn == 0x29 {
            Some(Instr::LdFont(x))
        } else if a == 0xF && nn == 0x33 {
            Some(Instr::Bcd(x))
        } else if a == 0xF && nn == 0x55 {
            Some(Instr::StoreRegs(x))
        } else if a == 0xF && nn == 0x65 {
            Some(Instr::LoadRegs(x))
        } else {
            None
        }
    }

    /// 00E0: clear the framebuffer.
    fn op_00e0(&mut self) -> (eff: PC)
        requires
            old(self).inv(),
        ensures
            final(self).inv(),
            final(self).prog == old(self).prog,
            final(self)@ == spec_apply(old(self)@, Instr::Cls, 0),
            eff == PC::I,
    {
        self.vram = filled(0u8, FB_SIZE);
        proof {
            assert(self@ =~= spec_apply(old(self)@, Instr::Cls, 0));
        }
        PC::I
    }

    /// 00EE: pop a return address off the stack and jump to it; underflow on
    /// an empty stack.
    fn op_00ee(&mut self) -> (r: Result<PC, StepError>)
        requires
            old(self).inv(),
        ensures
            final(self).inv(),
            final(self).prog == old(self).prog,
            old(self)@.sp == 0 ==> r == Err::<PC, StepError>(StepError::StackUnderflow) && *final(self) == *old(self),
            old(self)@.sp != 0 ==> (r matches Ok(eff) && final(self)@ == spec_apply(
                old(self)@,
                Instr::Ret,
                0,
            ) && pc_of(eff, old(self)@) == spec_new_pc(old(self)@, Instr::Ret)),
    {
        if self.sp == 0 {
            return Err(StepError::StackUnderflow);
        }
        self.sp = self.sp - 1;
        let rl = self.s[self.sp];
        proof {
            assert(self@ =~= spec_apply(old(self)@, Instr::Ret, 0));
        }
        Ok(PC::J(rl as usize))
    }

    /// 1nnn: jump.
    fn op_1nnn(&mut self, nnn: usize) -> (eff: PC)
        ensures
            *final(self) == *old(self),
            eff == PC::J(nnn),
    {
        PC::J(nnn)
    }

    /// 2nnn: push the return address and jump; overflow on a full stack.
    fn op_2nnn(&mut self, nnn: usize) -> (r: Result<PC, StepError>)
        requires
            old(self).inv(),
            old(self)@.pc + 1 < RAM_SIZE,
        ensures
            final(self).inv(),
            final(self).prog == old(self).prog,
            old(self)@.sp >= STACK_SIZE ==> r == Err::<PC, StepError>(StepError::StackOverflow)
                && *final(self) == *old(self),
            old(self)@.sp < STACK_SIZE ==> (r matches Ok(eff) && final(self)@ == spec_apply(
                old(self)@,
                Instr::Call(nnn as u16),
                0,
            ) && eff == PC::J(nnn)),
    {
        if self.sp >= STACK_SIZE {
            return Err(StepError::StackOverflow);
        }
        let ra: u16 = (self.pc + 2) as u16;
        self.s[self.sp] = ra;
        self.sp = self.sp + 1;
        proof {
            assert(self@ =~= spec_apply(old(self)@, Instr::Call(nnn as u16), 0));
        }
        Ok(PC::J(nnn))
    }

    /// 3xkk: skip the next instruction when Vx == kk.
    fn op_3xnn(&mut self, x: usize, nn: u8) -> (eff: PC)
        requires
            old(self).inv(),
            x < REG_COUNT,
        ensures
            *final(self) == *old(self),
            pc_of(eff, old(self)@) == spec_new_pc(old(self)@, Instr::SeImm(x as u8, nn)),
    {
        PC::cond(self.v[x] != nn)
    }

    /// 4xkk: skip the next instruction when Vx != kk.
    fn op_4xnn(&mut self, x: usize, nn: u8) -> (eff: PC)
        requires
            old(self).inv(),
            x < REG_COUNT,
        ensures
            *final(self) == *old(self),
            pc_of(eff, old(self)@) == spec_new_pc(old(self)@, Instr::SneImm(x as u8, nn)),
    {
        PC::cond(self.v[x] == nn)
    }

    /// 5xy0: skip the next instruction when Vx == Vy.
    fn op_5xy0(&mut self, x: usize, y: usize) -> (eff: PC)
        requires
            old(self).inv(),
            x < REG_COUNT,
            y < REG_COUNT,
        ensures
            *final(self) == *old(self),
            pc_of(eff, old(self)@) == spec_new_pc(old(self)@, Instr::SeReg(x as u8, y as u8)),
    {
        PC::cond(self.v[x] != self.v[y])
    }

    /// 6xkk: Vx := kk.
    fn op_6xnn(&mut self, x: usize, nn: u8) -> (eff: PC)
        requires
            old(self).inv(),
            x < REG_COUNT,
        ensures
            final(self).inv(),
            final(self).prog == old(self).prog,
            final(self)@ == spec_apply(old(self)@, Instr::LdImm(x as u8, nn), 0),
            eff == PC::I,
    {
        self.v[x] = nn;
        proof {
            assert(self@ =~= spec_apply(old(self)@, Instr::LdImm(x as u8, nn), 0));
        }
        PC::I
    }

    /// 7xkk: Vx := Vx + kk with 8-bit wraparound, flags untouched.
    fn op_7xnn(&mut self, x: usize, nn: u8) -> (eff: PC)
        requires
            old(self).inv(),
            x < REG_COUNT,
        ensures
            final(self).inv(),
            final(self).prog == old(self).prog,
            final(self)@ == spec_apply(old(self)@, Instr::AddImm(x as u8, nn), 0),
            eff == PC::I,
    {
        let a = self.v[x];
        let res: u8 = ((a as u16 + nn as u16) % 256) as u8;
        self.v[x] = res;
        proof {
            assert(self@ =~= spec_apply(old(self)@, Instr::AddImm(x as u8, nn), 0));
        }
        PC::I
    }

    /// 8xy0: Vx := Vy.
    fn op_8xy0(&mut self, x: usize, y: usize) -> (eff: PC)
        requires
            old(self).inv(),
            x < REG_COUNT,
            y < REG_COUNT,
        ensures
            final(self).inv(),
            final(self).prog == old(self).prog,
            final(self)@ == spec_apply(old(self)@, Instr::MvReg(x as u8, y as u8), 0),
            eff == PC::I,
    {
        let b = self.v[y];
        self.v[x] = b;
        proof {
            assert(self@ =~= spec_apply(old(self)@, Instr::MvReg(x as u8, y as u8), 0));
        }
        PC::I
    }

    /// 8xy1: Vx := Vx | Vy.
    fn op_8xy1(&mut self, x: usize, y: usize) -> (eff: PC)
        requires
            old(self).inv(),
            x < REG_COUNT,
            y < REG_COUNT,
        ensures
            final(self).inv(),
            final(self).prog == old(self).prog,
            final(self)@ == spec_apply(old(self)@, Instr::OrReg(x as u8, y as u8), 0),
            eff == PC::I,
    {
        let res = self.v[x] | self.v[y];
        self.v[x] = res;
        proof {
            assert(self@ =~= spec_apply(old(self)@, Instr::OrReg(x as u8, y as u8), 0));
        }
        PC::I
    }

    /// 8xy2: Vx := Vx & Vy.
    fn op_8xy2(&mut self, x: usize, y: usize) -> (eff: PC)
        requires
            old(self).inv(),
            x < REG_COUNT,
            y < REG_COUNT,
        ensures
            final(self).inv(),
            final(self).prog == old(self).prog,
            final(self)@ == spec_apply(old(self)@, Instr::AndReg(x as u8, y as u8), 0),
            eff == PC::I,
    {
        let res = self.v[x] & self.v[y];
        self.v[x] = res;
        proof {
            assert(self@ =~= spec_apply(old(self)@, Instr::AndReg(x as u8, y as u8), 0));
        }
        PC::I
    }

    /// 8xy3: Vx := Vx ^ Vy.
    fn op_8xy3(&mut self, x: usize, y: usize) -> (eff: PC)
        requires
            old(self).inv(),
            x < REG_COUNT,
            y < REG_COUNT,
        ensures
            final(self).inv(),
            final(self).prog == old(self).prog,
            final(self)@ == spec_apply(old(self)@, Instr::XorReg(x as u8, y as u8), 0),
            eff == PC::I,
    {
        let res = self.v[x] ^ self.v[y];
        self.v[x] = res;
        proof {
            assert(self@ =~= spec_apply(old(self)@, Instr::XorReg(x as u8, y as u8), 0));
        }
        PC::I
    }

    /// 8xy4: Vx := Vx + Vy (mod 256), VF := 1 exactly when the 9-bit sum
    /// overflows a byte.
    fn op_8xy4(&mut self, x: usize, y: usize) -> (eff: PC)
        requires
            old(self).inv(),
            x < REG_COUNT,
            y < REG_COUNT,
        ensures
            final(self).inv(),
            final(self).prog == old(self).prog,
            final(self)@ == spec_apply(old(self)@, Instr::AddReg(x as u8, y as u8), 0),
            eff == PC::I,
    {
        let a = self.v[x];
        let b = self.v[y];
        let sum: u16 = a as u16 + b as u16;
        let carry: u8 = if sum > 255 {
            1
        } else {
            0
        };
        self.v[15] = carry;
        self.v[x] = (sum % 256) as u8;
        proof {
            assert(self@ =~= spec_apply(old(self)@, Instr::AddReg(x as u8, y as u8), 0));
        }
        PC::I
    }

    /// 8xy5: Vx := Vx - Vy (mod 256), VF := 1 exactly when no borrow occurs
    /// (Vx >= Vy).
    fn op_8xy5(&mut self, x: usize, y: usize) -> (eff: PC)
        requires
            old(self).inv(),
            x < REG_COUNT,
            y < REG_COUNT,
        ensures
            final(self).inv(),
            final(self).prog == old(self).prog,
            final(self)@ == spec_apply(old(self)@, Instr::SubReg(x as u8, y as u8), 0),
            eff == PC::I,
    {
        let a = self.v[x];
        let b = self.v[y];
        let no_borrow: u8 = if a >= b {
            1
        } else {
            0
        };
        let res: u8 = ((a as u16 + 256 - b as u16) % 256) as u8;
        self.v[15] = no_borrow;
        self.v[x] = res;
        proof {
            vstd::arithmetic::div_mod::lemma_mod_multiples_vanish(1, a - b, 256);
            assert(self@ =~= spec_apply(old(self)@, Instr::SubReg(x as u8, y as u8), 0));
        }
        PC::I
    }

    /// 8xy6: VF := the bit shifted out (low bit of Vx), Vx := Vx >> 1.
    fn op_8xy6(&mut self, x: usize, _y: usize) -> (eff: PC)
        requires
            old(self).inv(),
            x < REG_COUNT,
        ensures
            final(self).inv(),
            final(self).prog == old(self).prog,
            final(self)@ == spec_apply(old(self)@, Instr::ShrReg(x as u8, _y as u8), 0),
            eff == PC::I,
    {
        let a = self.v[x];
        self.v[15] = a % 2;
        self.v[x] = a / 2;
        proof {
            assert(self@ =~= spec_apply(old(self)@, Instr::ShrReg(x as u8, _y as u8), 0));
        }
        PC::I
    }

    /// 8xy7: Vx := Vy - Vx (mod 256), VF := 1 exactly when no borrow occurs
    /// (Vy >= Vx).
    fn op_8xy7(&mut self, x: usize, y: usize) -> (eff: PC)
        requires
            old(self).inv(),
            x < REG_COUNT,
            y < REG_COUNT,
        ensures
            final(self).inv(),
            final(self).prog == old(self).prog,
            final(self)@ == spec_apply(old(self)@, Instr::SubnReg(x as u8, y as u8), 0),
            eff == PC::I,
    {
        let a = self.v[x];
        let b = self.v[y];
        let no_borrow: u8 = if b >= a {
            1
        } else {
            0
        };
        let res: u8 = ((b as u16 + 256 - a as u16) % 256) as u8;
        self.v[15] = no_borrow;
        self.v[x] = res;
        proof {
            vstd::arithmetic::div_mod::lemma_mod_multiples_vanish(1, b - a, 256);
            assert(self@ =~= spec_apply(old(self)@, Instr::SubnReg(x as u8, y as u8), 0));
        }
        PC::I
    }

    /// 8xyE: VF := the bit shifted out (high bit of Vx), Vx := Vx << 1 with
    /// 8-bit wraparound.
    fn op_8xye(&mut self, x: usize, _y: usize) -> (eff: PC)
        requires
            old(self).inv(),
            x < REG_COUNT,
        ensures
            final(self).inv(),
            final(self).prog == old(self).prog,
            final(self)@ == spec_apply(old(self)@, Instr::ShlReg(x as u8, _y as u8), 0),
            eff == PC::I,
    {
        let a = self.v[x];
        self.v[15] = a / 128;
        self.v[x] = ((a as u16 * 2) % 256) as u8;
        proof {
            assert(self@ =~= spec_apply(old(self)@, Instr::ShlReg(x as u8, _y as u8), 0));
        }
        PC::I
    }

    /// 9xy0: skip the next instruction when Vx != Vy.
    fn op_9xy0(&mut self, x: usize, y: usize) -> (eff: PC)
        requires
            old(self).inv(),
            x < REG_COUNT,
            y < REG_COUNT,
        ensures
            *final(self) == *old(self),
            pc_of(eff, old(self)@) == spec_new_pc(old(self)@, Instr::SneReg(x as u8, y as u8)),
    {
        PC::cond(self.v[x] == self.v[y])
    }

    /// Annn: I := nnn.
    fn op_annn(&mut self, nnn: usize) -> (eff: PC)
        requires
            old(self).inv(),
            nnn < 0x1000,
        ensures
            final(self).inv(),
            final(self).prog == old(self).prog,
            final(self)@ == spec_apply(old(self)@, Instr::LdI(nnn as u16), 0),
            eff == PC::I,
    {
        self.i = nnn;
        proof {
            assert(self@ =~= spec_apply(old(self)@, Instr::LdI(nnn as u16), 0));
        }
        PC::I
    }

    /// Bnnn: jump to nnn + V0.
    fn op_bnnn(&mut self, nnn: usize) -> (eff: PC)
        requires
            old(self).inv(),
            nnn < 0x1000,
        ensures
            *final(self) == *old(self),
            pc_of(eff, old(self)@) == spec_new_pc(old(self)@, Instr::JpV0(nnn as u16)),
    {
        let t = nnn + self.v[0] as usize;
        PC::J(t)
    }

    /// Cxkk: Vx := (random byte % 255) & kk.  Nothing more than the mask is
    /// known of the result.
    fn op_cxnn(&mut self, x: usize, nn: u8) -> (eff: PC)
        requires
            old(self).inv(),
            x < REG_COUNT,
        ensures
            final(self).inv(),
            final(self).prog == old(self).prog,
            exists|rb: u8| final(self)@ == #[trigger] spec_apply(old(self)@, Instr::Rnd(x as u8, nn), rb),
            eff == PC::I,
    {
        let rb: u8 = rand::random::<u8>();
        let res: u8 = (rb % 255) & nn;
        self.v[x] = res;
        proof {
            assert(self@ =~= spec_apply(old(self)@, Instr::Rnd(x as u8, nn), rb));
        }
        PC::I
    }

    /// Ex9E: skip the next instruction when key Vx is pressed; a register
    /// value naming no key counts as not pressed.
    fn op_ex9e(&mut self, x: usize) -> (eff: PC)
        requires
            old(self).inv(),
            x < REG_COUNT,
        ensures
            *final(self) == *old(self),
            pc_of(eff, old(self)@) == spec_new_pc(old(self)@, Instr::Skp(x as u8)),
    {
        let kv = self.v[x];
        let down = kv < 16 && self.keyb[kv as usize];
        PC::cond(!down)
    }

    /// ExA1: skip the next instruction when key Vx is not pressed.
    fn op_exa1(&mut self, x: usize) -> (eff: PC)
        requires
            old(self).inv(),
            x < REG_COUNT,
        ensures
            *final(self) == *old(self),
            pc_of(eff, old(self)@) == spec_new_pc(old(self)@, Instr::Sknp(x as u8)),
    {
        let kv = self.v[x];
        let down = kv < 16 && self.keyb[kv as usize];
        PC::cond(down)
    }

    /// Fx07: Vx := delay timer.
    fn op_fx07(&mut self, x: usize) -> (eff: PC)
        requires
            old(self).inv(),
            x < REG_COUNT,
        ensures
            final(self).inv(),
            final(self).prog == old(self).prog,
            final(self)@ == spec_apply(old(self)@, Instr::LdDelay(x as u8), 0),
            eff == PC::I,
    {
        let d = self.delay;
        self.v[x] = d;
        proof {
            assert(self@ =~= spec_apply(old(self)@, Instr::LdDelay(x as u8), 0));
        }
        PC::I
    }

    /// Fx0A: enter the key-wait sub-state targeting register x.
    fn op_fx0a(&mut self, x: usize) -> (eff: PC)
        requires
            old(self).inv(),
            x < REG_COUNT,
        ensures
            final(self).inv(),
            final(self).prog == old(self).prog,
            final(self)@ == spec_apply(old(self)@, Instr::WaitKey(x as u8), 0),
            eff == PC::I,
    {
        self.mode = Mode::AwaitingKey(x as u8);
        proof {
            assert(self@ =~= spec_apply(old(self)@, Instr::WaitKey(x as u8), 0));
        }
        PC::I
    }

    /// Fx15: delay timer := Vx.
    fn op_fx15(&mut self, x: usize) -> (eff: PC)
        requires
            old(self).inv(),
            x < REG_COUNT,
        ensures
            final(self).inv(),
            final(self).prog == old(self).prog,
            final(self)@ == spec_apply(old(self)@, Instr::SetDelay(x as u8), 0),
            eff == PC::I,
    {
        self.delay = self.v[x];
        proof {
            assert(self@ =~= spec_apply(old(self)@, Instr::SetDelay(x as u8), 0));
        }
        PC::I
    }

    /// Fx18: sound timer := Vx.
    fn op_fx18(&mut self, x: usize) -> (eff: PC)
        requires
            old(self).inv(),
            x < REG_COUNT,
        ensures
            final(self).inv(),
            final(self).prog == old(self).prog,
            final(self)@ == spec_apply(old(self)@, Instr::SetSound(x as u8), 0),
            eff == PC::I,
    {
        self.sound = self.v[x];
        proof {
            assert(self@ =~= spec_apply(old(self)@, Instr::SetSound(x as u8), 0));
        }
        PC::I
    }

    /// Fx1E: I := I + Vx, kept within the 16-bit index register.
    fn op_fx1e(&mut self, x: usize) -> (eff: PC)
        requires
            old(self).inv(),
            x < REG_COUNT,
        ensures
            final(self).inv(),
            final(self).prog == old(self).prog,
            final(self)@ == spec_apply(old(self)@, Instr::AddI(x as u8), 0),
            eff == PC::I,
    {
        let s = self.i + self.v[x] as usize;
        let ni = if s >= 0x10000 {
            s - 0x10000
        } else {
            s
        };
        proof {
            vstd::arithmetic::div_mod::lemma_mod_multiples_vanish(
                -1,
                old(self)@.i + old(self)@.v[x as int],
                0x10000,
            );
        }
        self.i = ni;
        proof {
            assert(self@ =~= spec_apply(old(self)@, Instr::AddI(x as u8), 0));
        }
        PC::I
    }

    /// Fx29: I := address of the font glyph for Vx; each glyph is five bytes
    /// from the bottom of memory.
    fn op_fx29(&mut self, x: usize) -> (eff: PC)
        requires
            old(self).inv(),
            x < REG_COUNT,
        ensures
            final(self).inv(),
            final(self).prog == old(self).prog,
            final(self)@ == spec_apply(old(self)@, Instr::LdFont(x as u8), 0),
            eff == PC::I,
    {
        self.i = self.v[x] as usize * 5;
        proof {
            assert(self@ =~= spec_apply(old(self)@, Instr::LdFont(x as u8), 0));
        }
        PC::I
    }

    /// Fx33: store the hundreds, tens and ones digits of Vx at I, I+1, I+2;
    /// out of bounds when that runs past the end of memory.
    fn op_fx33(&mut self, x: usize) -> (r: Result<PC, StepError>)
        requires
            old(self).inv(),
            x < REG_COUNT,
        ensures
            final(self).inv(),
            final(self).prog == old(self).prog,
            old(self)@.i + 3 > RAM_SIZE ==> r == Err::<PC, StepError>(StepError::OutOfBounds)
                && *final(self) == *old(self),
            old(self)@.i + 3 <= RAM_SIZE ==> (r matches Ok(eff) && eff == PC::I && final(self)@
                == spec_apply(old(self)@, Instr::Bcd(x as u8), 0)),
    {
        if self.i + 3 > RAM_SIZE {
            return Err(StepError::OutOfBounds);
        }
        let val = self.v[x];
        self.ram[self.i] = val / 100;
        let at1 = self.i + 1;
        self.ram[at1] = (val % 100) / 10;
        let at2 = self.i + 2;
        self.ram[at2] = val % 10;
        proof {
            assert(self@ =~= spec_apply(old(self)@, Instr::Bcd(x as u8), 0));
        }
        Ok(PC::I)
    }

    /// Fx55: copy V0..=Vx into memory starting at I; out of bounds when that
    /// runs past the end of memory.
    fn op_fx55(&mut self, x: usize) -> (r: Result<PC, StepError>)
        requires
            old(self).inv(),
            x < REG_COUNT,
        ensures
            final(self).inv(),
            final(self).prog == old(self).prog,
            old(self)@.i + x + 1 > RAM_SIZE ==> r == Err::<PC, StepError>(StepError::OutOfBounds)
                && *final(self) == *old(self),
            old(self)@.i + x + 1 <= RAM_SIZE ==> (r matches Ok(eff) && eff == PC::I && final(self)@ == spec_apply(old(self)@, Instr::StoreRegs(x as u8), 0)),
    {
        if self.i + x + 1 > RAM_SIZE {
            return Err(StepError::OutOfBounds);
        }
        let ghost m0 = self@;
        let ghost p0 = self.prog;
        let mut ii: usize = 0;
        while ii < x + 1
            invariant
                ii <= x + 1,
                x < REG_COUNT,
                self.inv(),
                self.prog == p0,
                m0.wf(),
                self@.i + x + 1 <= RAM_SIZE,
                self@.fb == m0.fb,
                self@.stack == m0.stack,
                self@.sp == m0.sp,
                self@.v == m0.v,
                self@.i == m0.i,
                self@.pc == m0.pc,
                self@.delay == m0.delay,
                self@.sound == m0.sound,
                self@.keys == m0.keys,
                self@.mode == m0.mode,
                self@.ram.len() == RAM_SIZE,
                forall|j: int| 0 <= j < m0.i ==> self@.ram[j] == m0.ram[j],
                forall|j: int| m0.i <= j < m0.i + ii ==> self@.ram[j] == m0.v[j - m0.i],
                forall|j: int| m0.i + ii <= j < RAM_SIZE ==> self@.ram[j] == m0.ram[j],
            decreases x + 1 - ii,
        {
            let at = self.i + ii;
            let b = self.v[ii];
            self.ram[at] = b;
            ii = ii + 1;
        }
        proof {
            assert(self@ =~= spec_apply(m0, Instr::StoreRegs(x as u8), 0));
        }
        Ok(PC::I)
    }

    /// Fx65: copy memory starting at I into V0..=Vx; out of bounds when that
    /// runs past the end of memory.
    fn op_fx65(&mut self, x: usize) -> (r: Result<PC, StepError>)
        requires
            old(self).inv(),
            x < REG_COUNT,
        ensures
            final(self).inv(),
            final(self).prog == old(self).prog,
            old(self)@.i + x + 1 > RAM_SIZE ==> r == Err::<PC, StepError>(StepError::OutOfBounds)
                && *final(self) == *old(self),
            old(self)@.i + x + 1 <= RAM_SIZE ==> (r matches Ok(eff) && eff == PC::I && final(self)@ == spec_apply(old(self)@, Instr::LoadRegs(x as u8), 0)),
    {
        if self.i + x + 1 > RAM_SIZE {
            return Err(StepError::OutOfBounds);
        }
        let ghost m0 = self@;
        let ghost p0 = self.prog;
        let mut ii: usize = 0;
        while ii < x + 1
            invariant
                ii <= x + 1,
                x < REG_COUNT,
                self.inv(),
                self.prog == p0,
                m0.wf(),
                self@.i + x + 1 <= RAM_SIZE,
                self@.fb == m0.fb,
                self@.stack == m0.stack,
                self@.sp == m0.sp,
                self@.ram == m0.ram,
                self@.i == m0.i,
                self@.pc == m0.pc,
                self@.delay == m0.delay,
                self@.sound == m0.sound,
                self@.keys == m0.keys,
                self@.mode == m0.mode,
                self@.v.len() == REG_COUNT,
                forall|j: int| 0 <= j < ii ==> self@.v[j] == m0.ram[m0.i + j],
                forall|j: int| ii <= j < REG_COUNT ==> self@.v[j] == m0.v[j],
            decreases x + 1 - ii,
        {
            let at = self.i + ii;
            let b = self.ram[at];
            self.v[ii] = b;
            ii = ii + 1;
        }
        proof {
            assert(self@ =~= spec_apply(m0, Instr::LoadRegs(x as u8), 0));
        }
        Ok(PC::I)
    }

    /// Dxyn: XOR the n-byte sprite at memory I onto the display at position
    /// (Vx, Vy), wrapping at the edges; VF reports whether any lit pixel was
    /// erased.  Out of bounds when the sprite bytes run past memory.
    fn op_dxyn(&mut self, x: usize, y: usize, n: usize) -> (r: Result<PC, StepError>)
        requires
            old(self).inv(),
            x < REG_COUNT,
            y < REG_COUNT,
            n < 16,
        ensures
            final(self).inv(),
            final(self).prog == old(self).prog,
            old(self)@.i + n > RAM_SIZE ==> r == Err::<PC, StepError>(StepError::OutOfBounds)
                && *final(self) == *old(self),
            old(self)@.i + n <= RAM_SIZE ==> (r matches Ok(eff) && eff == PC::I && final(self)@
                == spec_apply(old(self)@, Instr::Drw(x as u8, y as u8, n as u8), 0)),
    {
        if self.i + n > RAM_SIZE {
            return Err(StepError::OutOfBounds);
        }
        let vx = self.v[x];
        let vy = self.v[y];
        let ghost m0 = self@;
        let ghost p0 = self.prog;
        let mut flag: u8 = 0;
        let mut rr: usize = 0;
        while rr < n
            invariant
                rr <= n,
                n < 16,
                x < REG_COUNT,
                y < REG_COUNT,
                self.inv(),
                self.prog == p0,
                m0.wf(),
                vx == m0.v[x as int],
                vy == m0.v[y as int],
                m0.i + n <= RAM_SIZE,
                self@.ram == m0.ram,
                self@.stack == m0.stack,
                self@.sp == m0.sp,
                self@.v == m0.v,
                self@.i == m0.i,
                self@.pc == m0.pc,
                self@.delay == m0.delay,
                self@.sound == m0.sound,
                self@.keys == m0.keys,
                self@.mode == m0.mode,
                self@.fb.len() == FB_SIZE,
                forall|p: int|
                    0 <= p < FB_SIZE ==> self@.fb[p] == draw_pixel_upto(
                        m0,
                        vx,
                        vy,
                        rr as int,
                        0,
                        p,
                    ),
                flag <= 1,
                (flag == 1) <==> collision_upto(m0, vx, vy, rr as int, 0),
            decreases n - rr,
        {
            let sa = self.i + rr;
            let byte = self.ram[sa];
            let sy = (vy as usize + rr) % 32;
            let mut cc: usize = 0;
            while cc < 8
                invariant
                    cc <= 8,
                    rr < n,
                    n < 16,
                    x < REG_COUNT,
                    y < REG_COUNT,
                    self.inv(),
                    self.prog == p0,
                    m0.wf(),
                    vx == m0.v[x as int],
                    vy == m0.v[y as int],
                    m0.i + n <= RAM_SIZE,
                    byte == m0.ram[m0.i + rr],
                    sy == (vy + rr) % 32,
                    self@.ram == m0.ram,
                    self@.stack == m0.stack,
                    self@.sp == m0.sp,
                    self@.v == m0.v,
                    self@.i == m0.i,
                    self@.pc == m0.pc,
                    self@.delay == m0.delay,
                    self@.sound == m0.sound,
                    self@.keys == m0.keys,
                    self@.mode == m0.mode,
                    self@.fb.len() == FB_SIZE,
                    forall|p: int|
                        0 <= p < FB_SIZE ==> self@.fb[p] == draw_pixel_upto(
                            m0,
                            vx,
                            vy,
                            rr as int,
                            cc as int,
                            p,
                        ),
                    flag <= 1,
                    (flag == 1) <==> collision_upto(m0, vx, vy, rr as int, cc as int),
                decreases 8 - cc,
            {
                let ghost fb_pre = self@.fb;
                let ghost flag_pre = flag;
                let sx = (vx as usize + cc) % 64;
                let idx = sy * 64 + sx;
                proof {
                    lemma_target_inverse(vx, vy, rr as int, cc as int);
                    assert(idx == draw_target(vx, vy, rr as int, cc as int));
                }
                let sb = bit_of(byte, cc);
                let px = self.vram[idx];
                proof {
                    assert(px == draw_pixel_upto(m0, vx, vy, rr as int, cc as int, idx as int));
                    assert(px == m0.fb[idx as int]);
                }
                if sb == 1 && px == 1 {
                    flag = 1;
                }
                let np = (px + sb) % 2;
                self.vram[idx] = np;
                cc = cc + 1;
                proof {
                    let r_i = rr as int;
                    let c_i = (cc - 1) as int;
                    assert forall|p: int| 0 <= p < FB_SIZE implies self@.fb[p] == draw_pixel_upto(
                        m0,
                        vx,
                        vy,
                        r_i,
                        c_i + 1,
                        p,
                    ) by {
                        lemma_pixel_target(vx, vy, p);
                        let pcc = (p % 64 - vx) % 64;
                        let prr = (p / 64 - vy) % 32;
                        if p == idx {
                            assert(pcc == c_i && prr == r_i);
                        } else {
                            assert(!(prr == r_i && pcc == c_i)) by {
                                if prr == r_i && pcc == c_i {
                                    assert(draw_target(vx, vy, prr, pcc) == p);
                                    assert(p == idx);
                                }
                            }
                            assert(self@.fb[p] == fb_pre[p]);
                        }
                    }
                    if flag == 1 && flag_pre == 0 {
                        assert(sb == 1 && px == 1);
                        assert(sprite_bit(m0.ram[m0.i + r_i], c_i) == 1 && m0.fb[draw_target(
                            vx,
                            vy,
                            r_i,
                            c_i,
                        )] == 1);
                        assert(collision_upto(m0, vx, vy, r_i, c_i + 1));
                    }
                    if flag_pre == 1 {
                        let (wa, wb): (int, int) = choose|wa: int, wb: int|
                            0 <= wa <= r_i && 0 <= wb < 8 && (wa < r_i || wb < c_i) && sprite_bit(
                                m0.ram[m0.i + wa],
                                wb,
                            ) == 1 && m0.fb[#[trigger] draw_target(vx, vy, wa, wb)] == 1;
                        assert(collision_upto(m0, vx, vy, r_i, c_i + 1));
                    }
                    if flag == 0 {
                        assert(!collision_upto(m0, vx, vy, r_i, c_i + 1)) by {
                            if collision_upto(m0, vx, vy, r_i, c_i + 1) {
                                let (wa, wb): (int, int) = choose|wa: int, wb: int|
                                    0 <= wa <= r_i && 0 <= wb < 8 && (wa < r_i || wb < c_i + 1)
                                        && sprite_bit(m0.ram[m0.i + wa], wb) == 1 && m0.fb[
                                    #[trigger] draw_target(vx, vy, wa, wb)] == 1;
                                if wa < r_i || wb < c_i {
                                    assert(collision_upto(m0, vx, vy, r_i, c_i));
                                } else {
                                    assert(wa == r_i && wb == c_i);
                                    assert(sb == 1 && px == 1);
                                }
                            }
                        }
                    }
                }
            }
            rr = rr + 1;
            proof {
                let r_i = rr as int;
                assert forall|p: int| 0 <= p < FB_SIZE implies self@.fb[p] == draw_pixel_upto(
                    m0,
                    vx,
                    vy,
                    r_i,
                    0,
                    p,
                ) by {
                    lemma_pixel_target(vx, vy, p);
                }
                assert(collision_upto(m0, vx, vy, r_i - 1, 8) == collision_upto(
                    m0,
                    vx,
                    vy,
                    r_i,
                    0,
                )) by {
                    if collision_upto(m0, vx, vy, r_i - 1, 8) {
                        let (wa, wb): (int, int) = choose|wa: int, wb: int|
                            0 <= wa <= r_i - 1 && 0 <= wb < 8 && (wa < r_i - 1 || wb < 8)
                                && sprite_bit(m0.ram[m0.i + wa], wb) == 1 && m0.fb[
                            #[trigger] draw_target(vx, vy, wa, wb)] == 1;
                        assert(collision_upto(m0, vx, vy, r_i, 0));
                    }
                    if collision_upto(m0, vx, vy, r_i, 0) {
                        let (wa, wb): (int, int) = choose|wa: int, wb: int|
                            0 <= wa <= r_i && 0 <= wb < 8 && (wa < r_i || wb < 0) && sprite_bit(
                                m0.ram[m0.i + wa],
                                wb,
                            ) == 1 && m0.fb[#[trigger] draw_target(vx, vy, wa, wb)] == 1;
                        assert(collision_upto(m0, vx, vy, r_i - 1, 8));
                    }
                }
            }
        }
        self.v[15] = flag;
        proof {
            let n_i = n as int;
            assert forall|p: int| 0 <= p < FB_SIZE implies self@.fb[p] == draw_pixel(
                m0,
                vx,
                vy,
                n_i,
                p,
            ) by {
                lemma_pixel_target(vx, vy, p);
            }
            assert(collision_upto(m0, vx, vy, n_i, 0) == draw_collision(m0, vx, vy, n_i)) by {
                if collision_upto(m0, vx, vy, n_i, 0) {
                    let (wa, wb): (int, int) = choose|wa: int, wb: int|
                        0 <= wa <= n_i && 0 <= wb < 8 && (wa < n_i || wb < 0) && sprite_bit(
                            m0.ram[m0.i + wa],
                            wb,
                        ) == 1 && m0.fb[#[trigger] draw_target(vx, vy, wa, wb)] == 1;
                    assert(draw_collision(m0, vx, vy, n_i));
                }
                if draw_collision(m0, vx, vy, n_i) {
                    let (wa, wb): (int, int) = choose|wa: int, wb: int|
                        0 <= wa < n_i && 0 <= wb < 8 && sprite_bit(m0.ram[m0.i + wa], wb) == 1
                            && m0.fb[#[trigger] draw_target(vx, vy, wa, wb)] == 1;
                    assert(collision_upto(m0, vx, vy, n_i, 0));
                }
            }
            assert(self@.fb =~= draw_fb(m0, vx, vy, n_i));
            assert(self@ =~= spec_apply(m0, Instr::Drw(x as u8, y as u8, n as u8), 0));
        }
        Ok(PC::I)
    }

    /// One instruction cycle: fetch the opcode under the program counter,
    /// decode it, run the one handler it dispatches to, and apply the
    /// resulting program-counter effect.  Every failure (fetch past the end
    /// of memory, unrecognized opcode, stack misuse, memory access past the
    /// end) returns its error and leaves the machine untouched.
    pub fn icycle(&mut self) -> (r: Result<(), StepError>)
        requires
            old(self).inv(),
        ensures
            final(self).inv(),
            final(self).prog_rom() == old(self).prog_rom(),
            icycle_rel(old(self)@, final(self)@, r),
    {
        if self.pc >= RAM_SIZE - 1 {
            return Err(StepError::OutOfBounds);
        }
        let op = self.fetch();
        let inst = match Cpu::decode(op) {
            None => {
                return Err(StepError::Decode { op, pc: self.pc });
            },
            Some(inst) => inst,
        };
        let ghost pre = self@;
        let eff: PC = match inst {
            Instr::Cls => self.op_00e0(),
            Instr::Ret => match self.op_00ee() {
                Ok(e) => e,
                Err(er) => {
                    return Err(er);
                },
            },
            Instr::Jp(nnn) => self.op_1nnn(nnn as usize),
            Instr::Call(nnn) => match self.op_2nnn(nnn as usize) {
                Ok(e) => e,
                Err(er) => {
                    return Err(er);
                },
            },
            Instr::SeImm(xx, nn) => self.op_3xnn(xx as usize, nn),
            Instr::SneImm(xx, nn) => self.op_4xnn(xx as usize, nn),
            Instr::SeReg(xx, yy) => self.op_5xy0(xx as usize, yy as usize),
            Instr::LdImm(xx, nn) => self.op_6xnn(xx as usize, nn),
            Instr::AddImm(xx, nn) => self.op_7xnn(xx as usize, nn),
            Instr::MvReg(xx, yy) => self.op_8xy0(xx as usize, yy as usize),
            Instr::OrReg(xx, yy) => self.op_8xy1(xx as usize, yy as usize),
            Instr::AndReg(xx, yy) => self.op_8xy2(xx as usize, yy as usize),
            Instr::XorReg(xx, yy) => self.op_8xy3(xx as usize, yy as usize),
            Instr::AddReg(xx, yy) => self.op_8xy4(xx as usize, yy as usize),
            Instr::SubReg(xx, yy) => self.op_8xy5(xx as usize, yy as usize),
            Instr::ShrReg(xx, yy) => self.op_8xy6(xx as usize, yy as usize),
            Instr::SubnReg(xx, yy) => self.op_8xy7(xx as usize, yy as usize),
            Instr::ShlReg(xx, yy) => self.op_8xye(xx as usize, yy as usize),
            Instr::SneReg(xx, yy) => self.op_9xy0(xx as usize, yy as usize),
            Instr::LdI(nnn) => self.op_annn(nnn as usize),
            Instr::JpV0(nnn) => self.op_bnnn(nnn as usize),
            Instr::Rnd(xx, nn) => self.op_cxnn(xx as usize, nn),
            Instr::Drw(xx, yy, nd) => match self.op_dxyn(xx as usize, yy as usize, nd as usize) {
                Ok(e) => e,
                Err(er) => {
                    return Err(er);
                },
            },
            Instr::Skp(xx) => self.op_ex9e(xx as usize),
            Instr::Sknp(xx) => self.op_exa1(xx as usize),
            Instr::LdDelay(xx) => self.op_fx07(xx as usize),
            Instr::WaitKey(xx) => self.op_fx0a(xx as usize),
            Instr::SetDelay(xx) => self.op_fx15(xx as usize),
            Instr::SetSound(xx) => self.op_fx18(xx as usize),
            Instr::AddI(xx) => self.op_fx1e(xx as usize),
            Instr::LdFont(xx) => self.op_fx29(xx as usize),
            Instr::Bcd(xx) => match self.op_fx33(xx as usize) {
                Ok(e) => e,
                Err(er) => {
                    return Err(er);
                },
            },
            Instr::StoreRegs(xx) => match self.op_fx55(xx as usize) {
                Ok(e) => e,
                Err(er) => {
                    return Err(er);
                },
            },
            Instr::LoadRegs(xx) => match self.op_fx65(xx as usize) {
                Ok(e) => e,
                Err(er) => {
                    return Err(er);
                },
            },
        };
        let ghost mid = self@;
        proof {
            assert(mid.pc == pre.pc);
            assert(pc_of(eff, pre) == spec_new_pc(pre, inst));
        }
        match eff {
            PC::I => {
                self.pc = self.pc + 2;
            },
            PC::C => {
                self.pc = self.pc + 4;
            },
            PC::J(a) => {
                self.pc = a;
            },
        }
        proof {
            assert(spec_fault(pre, inst) is None);
            assert(self@ == Model { pc: spec_new_pc(pre, inst), ..mid });
            if inst is Rnd {
                let rb = choose|rb: u8| mid == spec_apply(pre, inst, rb);
                assert(self@ == spec_exec(pre, inst, rb));
            } else {
                assert(mid == spec_apply(pre, inst, 0));
                assert(self@ == spec_exec(pre, inst, 0));
            }
        }
        Ok(())
    }

    /// One machine cycle, given this tick's keypad snapshot.  A pending
    /// key-wait consumes the whole cycle polling the keypad: the lowest
    /// pressed key, if any, is captured into the target register and the
    /// engine resumes; nothing else changes, not even the timers.  Otherwise
    /// both timers count down one step and exactly one instruction executes.
    pub fn mcycle(&mut self, keypad: [bool; 16]) -> (r: Result<(), StepError>)
        requires
            old(self).inv(),
        ensures
            final(self).inv(),
            final(self).prog_rom() == old(self).prog_rom(),
            cycle_rel(old(self)@, final(self)@, keypad@, r),
    {
        let kv = keys_vec(&keypad);
        self.keyb = kv;
        proof {
            assert(self@ =~= old(self)@.with_keys(keypad@));
        }
        let md = self.mode;
        match md {
            Mode::AwaitingKey(t) => {
                let mut k: usize = 0;
                while k < 16
                    invariant
                        k <= 16,
                        self.inv(),
                        t < 16,
                        self@ == old(self)@.with_keys(keypad@),
                        self.prog_rom() == old(self).prog_rom(),
                        self@.mode == Mode::AwaitingKey(t),
                        self@.keys == keypad@,
                        forall|j: int| 0 <= j < k ==> !keypad@[j],
                    decreases 16 - k,
                {
                    if self.keyb[k] {
                        self.v[t as usize] = k as u8;
                        self.mode = Mode::Running;
                        proof {
                            lemma_first_pressed_hit(keypad@, k as int);
                            assert(any_pressed(keypad@));
                            assert(self@ =~= wait_cycle(old(self)@, t, keypad@));
                        }
                        return Ok(());
                    }
                    k = k + 1;
                }
                proof {
                    assert(!any_pressed(keypad@));
                    assert(self@ =~= wait_cycle(old(self)@, t, keypad@));
                }
                Ok(())
            },
            Mode::Running => {
                if self.delay > 0 {
                    self.delay = self.delay - 1;
                }
                if self.sound > 0 {
                    self.sound = self.sound - 1;
                }
                proof {
                    assert(self@ =~= old(self)@.with_keys(keypad@).tick_timers());
                }
                self.icycle()
            },
        }
    }

    /// The program counter.
    pub fn pc(&self) -> (r: usize)
        ensures
            r == self@.pc,
    {
        self.pc
    }

    /// The stack pointer: the index of the next free stack slot.
    pub fn sp(&self) -> (r: usize)
        ensures
            r == self@.sp,
    {
        self.sp
    }

    /// The index register.
    pub fn i(&self) -> (r: usize)
        ensures
            r == self@.i,
    {
        self.i
    }

    /// General register x.
    pub fn v(&self, x: usize) -> (r: u8)
        requires
            self.inv(),
            x < REG_COUNT,
        ensures
            r == self@.v[x as int],
    {
        self.v[x]
    }

    /// The byte of memory at address `a`.
    pub fn ram(&self, a: usize) -> (r: u8)
        requires
            self.inv(),
            a < RAM_SIZE,
        ensures
            r == self@.ram[a as int],
    {
        self.ram[a]
    }

    /// Stack slot `j`.
    pub fn stack(&self, j: usize) -> (r: u16)
        requires
            self.inv(),
            j < STACK_SIZE,
        ensures
            r == self@.stack[j as int],
    {
        self.s[j]
    }

    /// The pixel at column `x`, row `y` of the display: 0 or 1.
    pub fn pixel(&self, x: usize, y: usize) -> (r: u8)
        requires
            self.inv(),
            x < V_WIDTH,
            y < V_HEIGHT,
        ensures
            r == self@.fb[y * 64 + x],
    {
        self.vram[y * 64 + x]
    }

    /// The whole framebuffer, row-major: pixel (x, y) at index y * 64 + x.
    pub fn framebuffer(&self) -> (r: &Vec<u8>)
        ensures
            r@ == self@.fb,
    {
        &self.vram
    }

    /// The delay timer.
    pub fn delay(&self) -> (r: u8)
        ensures
            r == self@.delay,
    {
        self.delay
    }

    /// The sound timer.
    pub fn sound(&self) -> (r: u8)
        ensures
            r == self@.sound,
    {
        self.sound
    }

    /// Whether the host should play a tone: true while the sound timer runs.
    pub fn sound_active(&self) -> (r: bool)
        ensures
            r == (self@.sound > 0),
    {
        self.sound > 0
    }

    /// The run/key-wait mode.
    pub fn mode(&self) -> (r: Mode)
        ensures
            r == self@.mode,
    {
        self.mode
    }

    /// Set the program counter.
    pub fn set_pc(&mut self, pc: usize)
        requires
            old(self).inv(),
        ensures
            final(self).inv(),
            final(self)@ == (Model { pc: pc as int, ..old(self)@ }),
            final(self).prog_rom() == old(self).prog_rom(),
    {
        self.pc = pc;
    }

    /// Set the index register.
    pub fn set_i(&mut self, i: usize)
        requires
            old(self).inv(),
            i < 0x10000,
        ensures
            final(self).inv(),
            final(self)@ == (Model { i: i as int, ..old(self)@ }),
            final(self).prog_rom() == old(self).prog_rom(),
    {
        self.i = i;
    }

    /// Set the stack pointer.
    pub fn set_sp(&mut self, sp: usize)
        requires
            old(self).inv(),
            sp <= STACK_SIZE,
        ensures
            final(self).inv(),
            final(self)@ == (Model { sp: sp as int, ..old(self)@ }),
            final(self).prog_rom() == old(self).prog_rom(),
    {
        self.sp = sp;
    }

    /// Set stack slot `j`.
    pub fn set_stack(&mut self, j: usize, a: u16)
        requires
            old(self).inv(),
            j < STACK_SIZE,
        ensures
            final(self).inv(),
            final(self)@ == (Model { stack: old(self)@.stack.update(j as int, a), ..old(self)@ }),
            final(self).prog_rom() == old(self).prog_rom(),
    {
        self.s[j] = a;
    }

    /// Set general register x.
    pub fn set_v(&mut self, x: usize, val: u8)
        requires
            old(self).inv(),
            x < REG_COUNT,
        ensures
            final(self).inv(),
            final(self)@ == (Model { v: old(self)@.v.update(x as int, val), ..old(self)@ }),
            final(self).prog_rom() == old(self).prog_rom(),
    {
        self.v[x] = val;
    }

    /// Write a byte of memory.
    pub fn poke_ram(&mut self, a: usize, b: u8)
        requires
            old(self).inv(),
            a < RAM_SIZE,
        ensures
            final(self).inv(),
            final(self)@ == (Model { ram: old(self)@.ram.update(a as int, b), ..old(self)@ }),
            final(self).prog_rom() == old(self).prog_rom(),
    {
        self.ram[a] = b;
    }

    /// Set the pixel at column `x`, row `y` of the display to 0 or 1.
    pub fn set_pixel(&mut self, x: usize, y: usize, val: u8)
        requires
            old(self).inv(),
            x < V_WIDTH,
            y < V_HEIGHT,
            val <= 1,
        ensures
            final(self).inv(),
            final(self)@ == (Model {
                fb: old(self)@.fb.update(y * 64 + x, val),
                ..old(self)@
            }),
            final(self).prog_rom() == old(self).prog_rom(),
    {
        self.vram[y * 64 + x] = val;
    }
}

/// A copy of the keypad snapshot as a vector.
fn keys_vec(keypad: &[bool; 16]) -> (v: Vec<bool>)
    ensures
        v@ == keypad@,
{
    let mut v: Vec<bool> = Vec::new();
    let mut k: usize = 0;
    while k < 16
        invariant
            k <= 16,
            v@.len() == k,
            forall|j: int| 0 <= j < k ==> v@[j] == keypad@[j],
        decreases 16 - k,
    {
        v.push(keypad[k]);
        k = k + 1;
    }
    proof {
        assert(v@ =~= keypad@);
    }
    v
}

/// Pixel `p` in the middle of a draw: the first `r` full sprite rows and the
/// first `c` bits of row `r` have been XORed in, the rest not yet.
spec fn draw_pixel_upto(m: Model, vx: u8, vy: u8, r: int, c: int, p: int) -> u8 {
    let cc = (p % 64 - vx) % 64;
    let rr = (p / 64 - vy) % 32;
    if (cc < 8 && rr < r) || (rr == r && cc < c) {
        ((m.fb[p] + sprite_bit(m.ram[m.i + rr], cc)) % 2) as u8
    } else {
        m.fb[p]
    }
}

/// Collision seen so far in the middle of a draw: some already-processed
/// sprite bit 1 landed on a lit pixel of the original framebuffer.
spec fn collision_upto(m: Model, vx: u8, vy: u8, r: int, c: int) -> bool {
    exists|rr: int, cc: int|
        0 <= rr <= r && 0 <= cc < 8 && (rr < r || cc < c) && sprite_bit(m.ram[m.i + rr], cc) == 1
            && m.fb[#[trigger] draw_target(vx, vy, rr, cc)] == 1
}

/// Bit `c` (0 = leftmost) of a sprite byte.
fn bit_of(b: u8, c: usize) -> (r: u8)
    requires
        c < 8,
    ensures
        r == sprite_bit(b, c as int),
        r <= 1,
{
    let w: u8 = if c == 0 {
        128
    } else if c == 1 {
        64
    } else if c == 2 {
        32
    } else if c == 3 {
        16
    } else if c == 4 {
        8
    } else if c == 5 {
        4
    } else if c == 6 {
        2
    } else {
        1
    };
    (b / w) % 2
}

/// Relies on rand::random for the random instruction's byte; nothing is
/// assumed of the value it returns.
pub assume_specification<T>[ rand::random::<T> ]() -> (r: T)
    where
        rand::distributions::Standard: rand::distributions::Distribution<T>,
;

} // verus!
