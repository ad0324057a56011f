use vstd::prelude::*;

verus! {

/// Size of machine memory in bytes.
pub const RAM_SIZE: usize = 4096;
/// First address of the program area; execution starts here.
pub const PC_BASE: usize = 0x200;
/// Bytes available to a program image.
pub const ROM_SIZE: usize = 3584;
/// Number of return addresses the call stack can hold.
pub const STACK_SIZE: usize = 16;
/// Number of general-purpose registers.
pub const REG_COUNT: usize = 16;
/// Width of the display in pixels.
pub const V_WIDTH: usize = 64;
/// Height of the display in pixels.
pub const V_HEIGHT: usize = 32;
/// Number of pixels in the framebuffer.
pub const FB_SIZE: usize = 2048;
/// Number of keys on the keypad.
pub const KEY_COUNT: usize = 16;

/// Whether the engine is executing instructions or stalled waiting for a key.
/// While waiting, the variant records which register receives the key code.
#[derive(Clone, Copy, Debug, PartialEq, Eq, Structural)]
pub enum Mode {
    Running,
    AwaitingKey(u8),
}

/// An error raised while executing one machine cycle.  A `Decode` error
/// carries the unrecognized opcode and the program counter it was fetched
/// from.  The stack errors guard the call stack against over- and underflow,
/// and `OutOfBounds` guards every memory access (fetching past the end of
/// memory, or reading or writing sprite/register data beyond address 4095).
#[derive(Clone, Copy, Debug, PartialEq, Eq, Structural)]
pub enum StepError {
    Decode { op: u16, pc: usize },
    StackOverflow,
    StackUnderflow,
    OutOfBounds,
}

/// A decoded instruction.  Registers are selected by 4-bit fields `x` and
/// `y`, `u16` payloads are 12-bit addresses, and the `u8` payload of an
/// immediate is the 8-bit constant `kk` of the opcode.
#[derive(Clone, Copy, Debug, PartialEq, Eq, Structural)]
pub enum Instr {
    /// 00E0: clear the framebuffer.
    Cls,
    /// 00EE: pop a return address and jump to it.
    Ret,
    /// 1nnn: jump.
    Jp(u16),
    /// 2nnn: push the return address, jump.
    Call(u16),
    /// 3xkk: skip next instruction if Vx == kk.
    SeImm(u8, u8),
    /// 4xkk: skip next instruction if Vx != kk.
    SneImm(u8, u8),
    /// 5xy0: skip next instruction if Vx == Vy.
    SeReg(u8, u8),
    /// 6xkk: Vx := kk.
    LdImm(u8, u8),
    /// 7xkk: Vx := Vx + kk (mod 256), flags untouched.
    AddImm(u8, u8),
    /// 8xy0: Vx := Vy.
    MvReg(u8, u8),
    /// 8xy1: Vx := Vx | Vy.
    OrReg(u8, u8),
    /// 8xy2: Vx := Vx & Vy.
    AndReg(u8, u8),
    /// 8xy3: Vx := Vx ^ Vy.
    XorReg(u8, u8),
    /// 8xy4: Vx := Vx + Vy (mod 256), VF := carry.
    AddReg(u8, u8),
    /// 8xy5: Vx := Vx - Vy (mod 256), VF := 1 when no borrow.
    SubReg(u8, u8),
    /// 8xy6: VF := low bit of Vx, then Vx := Vx >> 1.
    ShrReg(u8, u8),
    /// 8xy7: Vx := Vy - Vx (mod 256), VF := 1 when no borrow.
    SubnReg(u8, u8),
    /// 8xyE: VF := high bit of Vx, then Vx := Vx << 1 (mod 256).
    ShlReg(u8, u8),
    /// 9xy0: skip next instruction if Vx != Vy.
    SneReg(u8, u8),
    /// Annn: I := nnn.
    LdI(u16),
    /// Bnnn: jump to nnn + V0.
    JpV0(u16),
    /// Cxkk: Vx := (random byte % 255) & kk.
    Rnd(u8, u8),
    /// Dxyn: draw the n-byte sprite at memory I at position (Vx, Vy).
    Drw(u8, u8, u8),
    /// Ex9E: skip next instruction if key Vx is pressed.
    Skp(u8),
    /// ExA1: skip next instruction if key Vx is not pressed.
    Sknp(u8),
    /// Fx07: Vx := delay timer.
    LdDelay(u8),
    /// Fx0A: stall until a key is pressed; its code goes to Vx.
    WaitKey(u8),
    /// Fx15: delay timer := Vx.
    SetDelay(u8),
    /// Fx18: sound timer := Vx.
    SetSound(u8),
    /// Fx1E: I := I + Vx (mod 2^16).
    AddI(u8),
    /// Fx29: I := address of the font glyph for Vx (five bytes per glyph).
    LdFont(u8),
    /// Fx33: store the three decimal digits of Vx at I, I+1, I+2.
    Bcd(u8),
    /// Fx55: copy V0..=Vx into memory starting at I.
    StoreRegs(u8),
    /// Fx65: copy memory starting at I into V0..=Vx.
    LoadRegs(u8),
}

/// Mathematical snapshot of the whole machine state.  The framebuffer is a
/// row-major sequence: the pixel at column `x`, row `y` sits at `y * 64 + x`.
#[verifier::ext_equal]
pub ghost struct Model {
    pub ram: Seq<u8>,
    pub fb: Seq<u8>,
    pub stack: Seq<u16>,
    pub sp: int,
    pub v: Seq<u8>,
    pub i: int,
    pub pc: int,
    pub delay: u8,
    pub sound: u8,
    pub keys: Seq<bool>,
    pub mode: Mode,
}

impl Model {
    /// Structural soundness of a machine state: storage has its fixed sizes,
    /// the stack pointer stays on the stack, the index register fits in 16
    /// bits, every pixel is a single bit, and a pending key-wait targets a
    /// real register.
    pub open spec fn wf(self) -> bool {
        &&& self.ram.len() == RAM_SIZE
        &&& self.fb.len() == FB_SIZE
        &&& self.stack.len() == STACK_SIZE
        &&& 0 <= self.sp <= STACK_SIZE
        &&& self.v.len() == REG_COUNT
        &&& 0 <= self.i < 0x10000
        &&& 0 <= self.pc
        &&& self.keys.len() == KEY_COUNT
        &&& forall|p: int| 0 <= p < FB_SIZE ==> self.fb[p] <= 1
        &&& (self.mode matches Mode::AwaitingKey(t) ==> t < 16)
    }

    /// The 16-bit instruction at the program counter, high byte first.
    pub open spec fn fetch16(self) -> u16 {
        (self.ram[self.pc] * 256 + self.ram[self.pc + 1]) as u16
    }

    /// Whether key number `kv` is down; a value naming no key counts as up.
    pub open spec fn key_down(self, kv: u8) -> bool {
        kv < 16 && self.keys[kv as int]
    }

    /// The same state with a fresh keypad snapshot.
    pub open spec fn with_keys(self, keys: Seq<bool>) -> Model {
        Model { keys, ..self }
    }

    /// The same state after the per-cycle timer decrement.
    pub open spec fn tick_timers(self) -> Model {
        Model { delay: dec(self.delay), sound: dec(self.sound), ..self }
    }
}

/// One countdown step of a timer: decrement toward zero, never below.
pub open spec fn dec(t: u8) -> u8 {
    if t > 0 { (t - 1) as u8 } else { 0 }
}

/// Split a 16-bit opcode on its nibble pattern.  Exactly the tabulated
/// patterns decode; everything else is `None`, a decode failure.
pub open spec fn spec_decode(op: u16) -> Option<Instr> {
    let a = op / 0x1000;
    let x = ((op / 0x100) % 16) as u8;
    let y = ((op / 0x10) % 16) as u8;
    let n = op % 16;
    let nn = (op % 0x100) as u8;
    let nnn = (op % 0x1000) as u16;
    if op == 0x00E0 {
        Some(Instr::Cls)
    } else if op == 0x00EE {
        Some(Instr::Ret)
    } else if a == 0x1 {
        Some(Instr::Jp(nnn))
    } else if a == 0x2 {
        Some(Instr::Call(nnn))
    } else if a == 0x3 {
        Some(Instr::SeImm(x, nn))
    } else if a == 0x4 {
        Some(Instr::SneImm(x, nn))
    } else if a == 0x5 && n == 0x0 {
        Some(Instr::SeReg(x, y))
    } else if a == 0x6 {
        Some(Instr::LdImm(x, nn))
    } else if a == 0x7 {
        Some(Instr::AddImm(x, nn))
    } else if a == 0x8 && n == 0x0 {
        Some(Instr::MvReg(x, y))
    } else if a == 0x8 && n == 0x1 {
        Some(Instr::OrReg(x, y))
    } else if a == 0x8 && n == 0x2 {
        Some(Instr::AndReg(x, y))
    } else if a == 0x8 && n == 0x3 {
        Some(Instr::XorReg(x, y))
    } else if a == 0x8 && n == 0x4 {
        Some(Instr::AddReg(x, y))
    } else if a == 0x8 && n == 0x5 {
        Some(Instr::SubReg(x, y))
    } else if a == 0x8 && n == 0x6 {
        Some(Instr::ShrReg(x, y))
    } else if a == 0x8 && n == 0x7 {
        Some(Instr::SubnReg(x, y))
    } else if a == 0x8 && n == 0xE {
        Some(Instr::ShlReg(x, y))
    } else if a == 0x9 && n == 0x0 {
        Some(Instr::SneReg(x, y))
    } else if a == 0xA {
        Some(Instr::LdI(nnn))
    } else if a == 0xB {
        Some(Instr::JpV0(nnn))
    } else if a == 0xC {
        Some(Instr::Rnd(x, nn))
    } else if a == 0xD {
        Some(Instr::Drw(x, y, n as u8))
    } else if a == 0xE && nn == 0x9E {
        Some(Instr::Skp(x))
    } else if a == 0xE && nn == 0xA1 {
        Some(Instr::Sknp(x))
    } else if a == 0xF && nn == 0x07 {
        Some(Instr::LdDelay(x))
    } else if a == 0xF && nn == 0x0A {
        Some(Instr::WaitKey(x))
    } else if a == 0xF && nn == 0x15 {
        Some(Instr::SetDelay(x))
    } else if a == 0xF && nn == 0x18 {
        Some(Instr::SetSound(x))
    } else if a == 0xF && nn == 0x1E {
        Some(Instr::AddI(x))
    } else if a == 0xF && nn == 0x29 {
        Some(Instr::LdFont(x))
    } else if a == 0xF && nn == 0x33 {
        Some(Instr::Bcd(x))
    } else if a == 0xF && nn == 0x55 {
        Some(Instr::StoreRegs(x))
    } else if a == 0xF && nn == 0x65 {
        Some(Instr::LoadRegs(x))
    } else {
        None
    }
}

/// Place value of bit column `c` of a sprite byte, most significant first.
pub open spec fn bit_w(c: int) -> int {
    if c == 0 {
        128
    } else if c == 1 {
        64
    } else if c == 2 {
        32
    } else if c == 3 {
        16
    } else if c == 4 {
        8
    } else if c == 5 {
        4
    } else if c == 6 {
        2
    } else {
        1
    }
}

/// Bit `c` (0 = leftmost) of a sprite byte, as 0 or 1.
pub open spec fn sprite_bit(b: u8, c: int) -> u8 {
    (((b as int) / bit_w(c)) % 2) as u8
}

/// Framebuffer index hit by sprite row `r`, bit column `c` of a sprite drawn
/// at (vx, vy).  Coordinates wrap around the display edges.
pub open spec fn draw_target(vx: u8, vy: u8, r: int, c: int) -> int {
    ((vy + r) % 32) * 64 + ((vx + c) % 64)
}

/// Pixel `p` of the framebuffer after drawing the `n`-row sprite at memory
/// index `m.i` at position (vx, vy): pixels under the sprite take their old
/// value XORed with the sprite bit, all others keep their value.
pub open spec fn draw_pixel(m: Model, vx: u8, vy: u8, n: int, p: int) -> u8 {
    let c = (p % 64 - vx) % 64;
    let r = (p / 64 - vy) % 32;
    if c < 8 && r < n {
        ((m.fb[p] + sprite_bit(m.ram[m.i + r], c)) % 2) as u8
    } else {
        m.fb[p]
    }
}

/// The whole framebuffer after a draw.
pub open spec fn draw_fb(m: Model, vx: u8, vy: u8, n: int) -> Seq<u8> {
    Seq::new(FB_SIZE as nat, |p: int| draw_pixel(m, vx, vy, n, p))
}

/// Whether a draw erases any lit pixel: some sprite bit 1 lands on a pixel
/// that is already 1.  This is what the draw instruction reports in VF.
pub open spec fn draw_collision(m: Model, vx: u8, vy: u8, n: int) -> bool {
    exists|r: int, c: int|
        0 <= r < n && 0 <= c < 8 && sprite_bit(m.ram[m.i + r], c) == 1 && m.fb[#[trigger] draw_target(
            vx,
            vy,
            r,
            c,
        )] == 1
}

/// A number of the shape `a * 64 + b` with `b < 64` splits back into `a`
/// and `b` under division and remainder by 64.
pub proof fn lemma_flat64(a: int, b: int)
    requires
        0 <= a,
        0 <= b < 64,
    ensures
        (a * 64 + b) / 64 == a,
        (a * 64 + b) % 64 == b,
{
    vstd::arithmetic::div_mod::lemma_fundamental_div_mod_converse(a * 64 + b, 64, a, b);
}

/// Wrapping an offset around a modulus is invertible: for `z` in range,
/// `z == (base + off) % md` exactly when `(z - base) % md == off`.
pub proof fn lemma_wrap_bij(base: int, off: int, z: int, md: int)
    requires
        0 <= base,
        0 <= off < md,
        0 <= z < md,
    ensures
        ((z - base) % md == off) <==> (z == (base + off) % md),
{
    let s = base + off;
    vstd::arithmetic::div_mod::lemma_fundamental_div_mod(s, md);
    if z == s % md {
        let q = s / md;
        assert(md * (-q) == -(md * q)) by (nonlinear_arith);
        assert(z - base == md * (-q) + off);
        vstd::arithmetic::div_mod::lemma_mod_multiples_vanish(-q, off, md);
        vstd::arithmetic::div_mod::lemma_small_mod(off as nat, md as nat);
    }
    if (z - base) % md == off {
        vstd::arithmetic::div_mod::lemma_fundamental_div_mod(z - base, md);
        let q = (z - base) / md;
        assert(z == md * q + s);
        vstd::arithmetic::div_mod::lemma_mod_multiples_vanish(q, s, md);
        vstd::arithmetic::div_mod::lemma_small_mod(z as nat, md as nat);
    }
}

/// The framebuffer index a sprite row/column pair lands on is in range, and
/// the wrapped row and column offsets can be recovered from it.
pub proof fn lemma_target_inverse(vx: u8, vy: u8, r: int, c: int)
    requires
        0 <= r < 32,
        0 <= c < 8,
    ensures
        0 <= draw_target(vx, vy, r, c) < FB_SIZE,
        (draw_target(vx, vy, r, c) % 64 - vx) % 64 == c,
        (draw_target(vx, vy, r, c) / 64 - vy) % 32 == r,
{
    let sy = (vy + r) % 32;
    let sx = (vx + c) % 64;
    vstd::arithmetic::div_mod::lemma_mod_bound(vy + r, 32);
    vstd::arithmetic::div_mod::lemma_mod_bound(vx + c, 64);
    lemma_flat64(sy, sx);
    lemma_wrap_bij(vx as int, c, sx, 64);
    lemma_wrap_bij(vy as int, r, sy, 32);
}

/// Conversely, every framebuffer index is the target of exactly the row and
/// column offsets recovered from it.
pub proof fn lemma_pixel_target(vx: u8, vy: u8, p: int)
    requires
        0 <= p < FB_SIZE,
    ensures
        0 <= (p % 64 - vx) % 64 < 64,
        0 <= (p / 64 - vy) % 32 < 32,
        draw_target(vx, vy, (p / 64 - vy) % 32, (p % 64 - vx) % 64) == p,
{
    let px = p % 64;
    let py = p / 64;
    vstd::arithmetic::div_mod::lemma_fundamental_div_mod(p, 64);
    vstd::arithmetic::div_mod::lemma_mod_bound(p, 64);
    assert(0 <= py < 32);
    let c = (px - vx) % 64;
    let r = (py - vy) % 32;
    vstd::arithmetic::div_mod::lemma_mod_bound(px - vx, 64);
    vstd::arithmetic::div_mod::lemma_mod_bound(py - vy, 32);
    lemma_wrap_bij(vx as int, c, px, 64);
    lemma_wrap_bij(vy as int, r, py, 32);
    assert((vx + c) % 64 == px);
    assert((vy + r) % 32 == py);
}

/// The error, if any, that executing `inst` in state `m` must raise: a return
/// with an empty stack, a call with a full one, or a memory operation that
/// runs past address 4095.
pub open spec fn spec_fault(m: Model, inst: Instr) -> Option<StepError> {
    match inst {
        Instr::Ret => if m.sp == 0 {
            Some(StepError::StackUnderflow)
        } else {
            None
        },
        Instr::Call(_) => if m.sp >= STACK_SIZE {
            Some(StepError::StackOverflow)
        } else {
            None
        },
        Instr::Drw(_, _, n) => if m.i + n > RAM_SIZE {
            Some(StepError::OutOfBounds)
        } else {
            None
        },
        Instr::Bcd(_) => if m.i + 3 > RAM_SIZE {
            Some(StepError::OutOfBounds)
        } else {
            None
        },
        Instr::StoreRegs(x) => if m.i + x + 1 > RAM_SIZE {
            Some(StepError::OutOfBounds)
        } else {
            None
        },
        Instr::LoadRegs(x) => if m.i + x + 1 > RAM_SIZE {
            Some(StepError::OutOfBounds)
        } else {
            None
        },
        _ => None,
    }
}

/// Effect of `inst` on everything but the program counter, assuming
/// `spec_fault` is `None`.  `rnd` is the byte drawn for the random
/// instruction and is ignored by every other instruction.
pub open spec fn spec_apply(m: Model, inst: Instr, rnd: u8) -> Model {
    match inst {
        Instr::Cls => Model { fb: Seq::new(FB_SIZE as nat, |p: int| 0u8), ..m },
        Instr::Ret => Model { sp: m.sp - 1, ..m },
        Instr::Jp(_) => m,
        Instr::Call(_) => Model {
            stack: m.stack.update(m.sp, (m.pc + 2) as u16),
            sp: m.sp + 1,
            ..m
        },
        Instr::SeImm(_, _) => m,
        Instr::SneImm(_, _) => m,
        Instr::SeReg(_, _) => m,
        Instr::LdImm(x, nn) => Model { v: m.v.update(x as int, nn), ..m },
        Instr::AddImm(x, nn) => Model {
            v: m.v.update(x as int, ((m.v[x as int] + nn) % 256) as u8),
            ..m
        },
        Instr::MvReg(x, y) => Model { v: m.v.update(x as int, m.v[y as int]), ..m },
        Instr::OrReg(x, y) => Model {
            v: m.v.update(x as int, m.v[x as int] | m.v[y as int]),
            ..m
        },
        Instr::AndReg(x, y) => Model {
            v: m.v.update(x as int, m.v[x as int] & m.v[y as int]),
            ..m
        },
        Instr::XorReg(x, y) => Model {
            v: m.v.update(x as int, m.v[x as int] ^ m.v[y as int]),
            ..m
        },
        Instr::AddReg(x, y) => {
            let a = m.v[x as int];
            let b = m.v[y as int];
            let carry: u8 = if a + b > 255 {
                1
            } else {
                0
            };
            Model { v: m.v.update(15, carry).update(x as int, ((a + b) % 256) as u8), ..m }
        },
        Instr::SubReg(x, y) => {
            let a = m.v[x as int];
            let b = m.v[y as int];
            let no_borrow: u8 = if a >= b {
                1
            } else {
                0
            };
            Model { v: m.v.update(15, no_borrow).update(x as int, ((a - b) % 256) as u8), ..m }
        },
        Instr::ShrReg(x, _) => {
            let a = m.v[x as int];
            Model { v: m.v.update(15, (a % 2) as u8).update(x as int, (a / 2) as u8), ..m }
        },
        Instr::SubnReg(x, y) => {
            let a = m.v[x as int];
            let b = m.v[y as int];
            let no_borrow: u8 = if b >= a {
                1
            } else {
                0
            };
            Model { v: m.v.update(15, no_borrow).update(x as int, ((b - a) % 256) as u8), ..m }
        },
        Instr::ShlReg(x, _) => {
            let a = m.v[x as int];
            Model { v: m.v.update(15, (a / 128) as u8).update(x as int, ((a * 2) % 256) as u8), ..m }
        },
        Instr::SneReg(_, _) => m,
        Instr::LdI(nnn) => Model { i: nnn as int, ..m },
        Instr::JpV0(_) => m,
        Instr::Rnd(x, nn) => Model { v: m.v.update(x as int, ((rnd % 255) as u8) & nn), ..m },
        Instr::Drw(x, y, n) => {
            let vx = m.v[x as int];
            let vy = m.v[y as int];
            let flag: u8 = if draw_collision(m, vx, vy, n as int) {
                1
            } else {
                0
            };
            Model { fb: draw_fb(m, vx, vy, n as int), v: m.v.update(15, flag), ..m }
        },
        Instr::Skp(_) => m,
        Instr::Sknp(_) => m,
        Instr::LdDelay(x) => Model { v: m.v.update(x as int, m.delay), ..m },
        Instr::WaitKey(x) => Model { mode: Mode::AwaitingKey(x), ..m },
        Instr::SetDelay(x) => Model { delay: m.v[x as int], ..m },
        Instr::SetSound(x) => Model { sound: m.v[x as int], ..m },
        Instr::AddI(x) => Model { i: (m.i + m.v[x as int]) % 0x10000, ..m },
        Instr::LdFont(x) => Model { i: m.v[x as int] * 5, ..m },
        Instr::Bcd(x) => {
            let val = m.v[x as int];
            Model {
                ram: m.ram.update(m.i, (val / 100) as u8).update(
                    m.i + 1,
                    ((val % 100) / 10) as u8,
                ).update(m.i + 2, (val % 10) as u8),
                ..m
            }
        },
        Instr::StoreRegs(x) => Model {
            ram: Seq::new(
                RAM_SIZE as nat,
                |j: int|
                    if m.i <= j && j <= m.i + x {
                        m.v[j - m.i]
                    } else {
                        m.ram[j]
                    },
            ),
            ..m
        },
        Instr::LoadRegs(x) => Model {
            v: Seq::new(
                REG_COUNT as nat,
                |j: int|
                    if j <= x {
                        m.ram[m.i + j]
                    } else {
                        m.v[j]
                    },
            ),
            ..m
        },
    }
}

/// The program counter after `inst` executes from state `m`: a jump target
/// for the control-transfer instructions, `pc + 4` for a skip whose condition
/// holds, and `pc + 2` otherwise.
pub open spec fn spec_new_pc(m: Model, inst: Instr) -> int {
    match inst {
        Instr::Ret => m.stack[m.sp - 1] as int,
        Instr::Jp(nnn) => nnn as int,
        Instr::Call(nnn) => nnn as int,
        Instr::JpV0(nnn) => nnn + m.v[0],
        Instr::SeImm(x, nn) => if m.v[x as int] == nn {
            m.pc + 4
        } else {
            m.pc + 2
        },
        Instr::SneImm(x, nn) => if m.v[x as int] != nn {
            m.pc + 4
        } else {
            m.pc + 2
        },
        Instr::SeReg(x, y) => if m.v[x as int] == m.v[y as int] {
            m.pc + 4
        } else {
            m.pc + 2
        },
        Instr::SneReg(x, y) => if m.v[x as int] != m.v[y as int] {
            m.pc + 4
        } else {
            m.pc + 2
        },
        Instr::Skp(x) => if m.key_down(m.v[x as int]) {
            m.pc + 4
        } else {
            m.pc + 2
        },
        Instr::Sknp(x) => if !m.key_down(m.v[x as int]) {
            m.pc + 4
        } else {
            m.pc + 2
        },
        _ => m.pc + 2,
    }
}

/// Full effect of one instruction: `spec_apply` plus the program-counter
/// transition.
pub open spec fn spec_exec(m: Model, inst: Instr, rnd: u8) -> Model {
    Model { pc: spec_new_pc(m, inst), ..spec_apply(m, inst, rnd) }
}

/// The lowest pressed key code at or above `j`, or 16 when none is pressed.
pub open spec fn first_pressed_from(keys: Seq<bool>, j: int) -> int
    decreases 16 - j,
{
    if j < 0 || j >= 16 {
        16
    } else if keys[j] {
        j
    } else {
        first_pressed_from(keys, j + 1)
    }
}

/// The lowest pressed key code, or 16 when none is pressed.
pub open spec fn first_pressed(keys: Seq<bool>) -> int {
    first_pressed_from(keys, 0)
}

/// Whether any of the 16 keys is pressed.
pub open spec fn any_pressed(keys: Seq<bool>) -> bool {
    exists|k: int| 0 <= k < 16 && keys[k]
}

proof fn lemma_first_pressed_from_hit(keys: Seq<bool>, j: int, k: int)
    requires
        0 <= j <= k < 16,
        keys[k],
        forall|i: int| j <= i < k ==> !keys[i],
    ensures
        first_pressed_from(keys, j) == k,
    decreases k - j,
{
    if j < k {
        lemma_first_pressed_from_hit(keys, j + 1, k);
    }
}

/// When every key below `k` is up and key `k` is down, `k` is the first
/// pressed key.
pub proof fn lemma_first_pressed_hit(keys: Seq<bool>, k: int)
    requires
        0 <= k < 16,
        keys[k],
        forall|j: int| 0 <= j < k ==> !keys[j],
    ensures
        first_pressed(keys) == k,
{
    lemma_first_pressed_from_hit(keys, 0, k);
}

/// One machine cycle spent in the key-wait sub-state: the keypad snapshot is
/// recorded; if some key is pressed, the lowest such code is written to the
/// target register and the engine resumes, otherwise nothing else changes.
pub open spec fn wait_cycle(m: Model, t: u8, keys: Seq<bool>) -> Model {
    if any_pressed(keys) {
        Model {
            v: m.v.update(t as int, first_pressed(keys) as u8),
            mode: Mode::Running,
            keys,
            ..m
        }
    } else {
        Model { keys, ..m }
    }
}

/// Relation between the states before and after executing one instruction,
/// and the result returned.  A fetch past the end of memory, an opcode that
/// matches no table row, and an instruction whose `spec_fault` is set all
/// fail with the corresponding error and leave the state untouched.  A
/// successful step performs `spec_exec`; only the random instruction leaves
/// the drawn byte unspecified.
pub open spec fn icycle_rel(pre: Model, post: Model, r: Result<(), StepError>) -> bool {
    if pre.pc + 1 >= RAM_SIZE {
        &&& r == Err::<(), StepError>(StepError::OutOfBounds)
        &&& post == pre
    } else {
        let op = pre.fetch16();
        match spec_decode(op) {
            None => {
                &&& r == Err::<(), StepError>(StepError::Decode { op, pc: pre.pc as usize })
                &&& post == pre
            },
            Some(inst) => match spec_fault(pre, inst) {
                Some(e) => {
                    &&& r == Err::<(), StepError>(e)
                    &&& post == pre
                },
                None => {
                    &&& r == Ok::<(), StepError>(())
                    &&& exists|rb: u8| post == #[trigger] spec_exec(pre, inst, rb)
                    &&& (!(inst is Rnd) ==> post == spec_exec(pre, inst, 0))
                },
            },
        }
    }
}

/// Relation for one whole machine cycle given a keypad snapshot: a pending
/// key-wait consumes the cycle polling input; otherwise the timers tick down
/// and exactly one instruction executes.
pub open spec fn cycle_rel(pre: Model, post: Model, keys: Seq<bool>, r: Result<(), StepError>) -> bool {
    match pre.mode {
        Mode::AwaitingKey(t) => {
            &&& r == Ok::<(), StepError>(())
            &&& post == wait_cycle(pre, t, keys)
        },
        Mode::Running => icycle_rel(pre.with_keys(keys).tick_timers(), post, r),
    }
}

/// The built-in font: sixteen five-byte sprites for the hexadecimal digits,
/// copied to the bottom of memory on construction and on reset.
pub open spec fn font_sq() -> Seq<u8> {
    seq![
        0xf0, 0x90, 0x90, 0x90, 0xf0,
        0x20, 0x60, 0x20, 0x20, 0x70,
        0xf0, 0x10, 0xf0, 0x80, 0xf0,
        0xf0, 0x10, 0xf0, 0x10, 0xf0,
        0x90, 0x90, 0xf0, 0x10, 0x10,
        0xf0, 0x80, 0xf0, 0x10, 0xf0,
        0xf0, 0x80, 0xf0, 0x90, 0xf0,
        0xf0, 0x10, 0x20, 0x40, 0x40,
        0xf0, 0x90, 0xf0, 0x90, 0xf0,
        0xf0, 0x90, 0xf0, 0x10, 0xf0,
        0xf0, 0x90, 0xf0, 0x90, 0x90,
        0xe0, 0x90, 0xe0, 0x90, 0xe0,
        0xf0, 0x80, 0x80, 0x80, 0xf0,
        0xe0, 0x90, 0x90, 0x90, 0xe0,
        0x0f, 0x80, 0xf0, 0x80, 0xf0,
        0xf0, 0x80, 0xf0, 0x80, 0x80,
    ]
}

/// Memory as construction and reset leave it: the font at the bottom, the
/// program image at the program base, zeroes everywhere else.
pub open spec fn initial_ram(rom: Seq<u8>) -> Seq<u8> {
    Seq::new(
        RAM_SIZE as nat,
        |j: int|
            if j < 80 {
                font_sq()[j]
            } else if PC_BASE <= j < PC_BASE + rom.len() {
                rom[j - PC_BASE]
            } else {
                0u8
            },
    )
}

/// The machine state right after construction or reset with program `rom`.
pub open spec fn initial_model(rom: Seq<u8>) -> Model {
    Model {
        ram: initial_ram(rom),
        fb: Seq::new(FB_SIZE as nat, |p: int| 0u8),
        stack: Seq::new(STACK_SIZE as nat, |j: int| 0u16),
        sp: 0,
        v: Seq::new(REG_COUNT as nat, |j: int| 0u8),
        i: 0,
        pc: PC_BASE as int,
        delay: 0,
        sound: 0,
        keys: Seq::new(KEY_COUNT as nat, |k: int| false),
        mode: Mode::Running,
    }
}

} // verus!
