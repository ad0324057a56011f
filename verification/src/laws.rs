use vstd::prelude::*;
use crate::model::{
    Model, Mode, Instr, StepError, spec_decode, spec_exec, wait_cycle, any_pressed,
    lemma_first_pressed_hit, sprite_bit, draw_target, draw_pixel, lemma_target_inverse,
    lemma_pixel_target, icycle_rel, RAM_SIZE,
};

verus! {

/// The add-with-carry law: executing 8xy4 leaves Vx == (Vx + Vy) mod 256,
/// and, whenever x is not the flag register itself, VF == 1 exactly when the
/// 9-bit sum exceeds 255.
pub proof fn lemma_add_reg_carry(m: Model, x: u8, y: u8, rnd: u8)
    requires
        m.wf(),
        x < 16,
        y < 16,
    ensures
        ({
            let a = m.v[x as int];
            let b = m.v[y as int];
            let m2 = spec_exec(m, Instr::AddReg(x, y), rnd);
            &&& m2.v[x as int] == ((a + b) % 256) as u8
            &&& (x != 15 ==> ((m2.v[15] == 1) <==> (a + b > 255)))
        }),
{
}

/// The subtract-with-borrow law: executing 8xy5 leaves Vx == (Vx - Vy) mod
/// 256, and, whenever x is not the flag register itself, VF == 1 exactly
/// when no borrow occurs (Vx >= Vy).
pub proof fn lemma_sub_reg_borrow(m: Model, x: u8, y: u8, rnd: u8)
    requires
        m.wf(),
        x < 16,
        y < 16,
    ensures
        ({
            let a = m.v[x as int];
            let b = m.v[y as int];
            let m2 = spec_exec(m, Instr::SubReg(x, y), rnd);
            &&& m2.v[x as int] == ((a - b) % 256) as u8
            &&& (x != 15 ==> ((m2.v[15] == 1) <==> (a >= b)))
        }),
{
}

/// The store/load round-trip law: after Fx55 stores V0..=Vx at I, an Fx65
/// with the same x and I reads the same bytes back, so the whole register
/// file is exactly what it was before the pair.
pub proof fn lemma_store_load_roundtrip(m: Model, x: u8, r1: u8, r2: u8)
    requires
        m.wf(),
        x < 16,
        m.i + x + 1 <= RAM_SIZE,
    ensures
        ({
            let m1 = spec_exec(m, Instr::StoreRegs(x), r1);
            let m2 = spec_exec(m1, Instr::LoadRegs(x), r2);
            m2.v == m.v
        }),
{
    let m1 = spec_exec(m, Instr::StoreRegs(x), r1);
    let m2 = spec_exec(m1, Instr::LoadRegs(x), r2);
    assert(m2.v =~= m.v);
}

/// The draw involution law: drawing the same sprite twice at the same
/// position returns every pixel to its pre-draw value, and the second draw
/// reports a collision exactly when the first draw lit some pixel that had
/// been clear.  The coordinate registers must not be the flag register,
/// which the first draw overwrites.
pub proof fn lemma_draw_involution(m: Model, x: u8, y: u8, n: u8, r1: u8, r2: u8)
    requires
        m.wf(),
        x < 15,
        y < 15,
        n < 16,
        m.i + n <= RAM_SIZE,
    ensures
        ({
            let vx = m.v[x as int];
            let vy = m.v[y as int];
            let m1 = spec_exec(m, Instr::Drw(x, y, n), r1);
            let m2 = spec_exec(m1, Instr::Drw(x, y, n), r2);
            &&& m2.fb == m.fb
            &&& ((m2.v[15] == 1) <==> exists|r: int, c: int|
                0 <= r < n && 0 <= c < 8 && sprite_bit(m.ram[m.i + r], c) == 1 && m.fb[
                    #[trigger] draw_target(vx, vy, r, c)
                ] == 0)
        }),
{
    let vx = m.v[x as int];
    let vy = m.v[y as int];
    let m1 = spec_exec(m, Instr::Drw(x, y, n), r1);
    let m2 = spec_exec(m1, Instr::Drw(x, y, n), r2);
    assert(m1.v[x as int] == vx && m1.v[y as int] == vy);
    assert(m1.ram == m.ram && m1.i == m.i);
    assert forall|p: int| 0 <= p < m.fb.len() implies m2.fb[p] == m.fb[p] by {
        lemma_pixel_target(vx, vy, p);
        assert(m1.fb[p] == draw_pixel(m, vx, vy, n as int, p));
        assert(m2.fb[p] == draw_pixel(m1, vx, vy, n as int, p));
    }
    assert(m2.fb =~= m.fb);
    if m2.v[15] == 1 {
        let (wa, wb): (int, int) = choose|wa: int, wb: int|
            0 <= wa < n && 0 <= wb < 8 && sprite_bit(m1.ram[m1.i + wa], wb) == 1 && m1.fb[
                #[trigger] draw_target(vx, vy, wa, wb)
            ] == 1;
        lemma_target_inverse(vx, vy, wa, wb);
        let p = draw_target(vx, vy, wa, wb);
        assert(m1.fb[p] == draw_pixel(m, vx, vy, n as int, p));
        assert(m.fb[p] == 0);
        assert(sprite_bit(m.ram[m.i + wa], wb) == 1 && m.fb[draw_target(vx, vy, wa, wb)] == 0);
    }
    if exists|r: int, c: int|
        0 <= r < n && 0 <= c < 8 && sprite_bit(m.ram[m.i + r], c) == 1 && m.fb[
            #[trigger] draw_target(vx, vy, r, c)
        ] == 0 {
        let (wa, wb): (int, int) = choose|wa: int, wb: int|
            0 <= wa < n && 0 <= wb < 8 && sprite_bit(m.ram[m.i + wa], wb) == 1 && m.fb[
                #[trigger] draw_target(vx, vy, wa, wb)
            ] == 0;
        lemma_target_inverse(vx, vy, wa, wb);
        let p = draw_target(vx, vy, wa, wb);
        assert(m1.fb[p] == draw_pixel(m, vx, vy, n as int, p));
        assert(m1.fb[p] == 1);
        assert(sprite_bit(m1.ram[m1.i + wa], wb) == 1 && m1.fb[draw_target(vx, vy, wa, wb)]
            == 1);
        assert(m2.v[15] == 1);
    }
}

/// The key-wait stall law: while the engine waits for a key and the keypad
/// is entirely up, a machine cycle records the snapshot and changes nothing
/// else -- not the program counter, not a register, not the waiting mode.
pub proof fn lemma_wait_stalls(m: Model, t: u8, keys: Seq<bool>)
    requires
        m.mode == Mode::AwaitingKey(t),
        forall|k: int| 0 <= k < 16 ==> !keys[k],
    ensures
        wait_cycle(m, t, keys) == m.with_keys(keys),
        wait_cycle(m, t, keys).pc == m.pc,
        wait_cycle(m, t, keys).v == m.v,
        wait_cycle(m, t, keys).mode == m.mode,
{
}

/// The key-capture law: the first cycle whose keypad has a pressed key ends
/// the wait; the lowest pressed key code lands in the target register and
/// the engine resumes running with the program counter untouched.
pub proof fn lemma_wait_captures(m: Model, t: u8, keys: Seq<bool>, k: int)
    requires
        m.wf(),
        m.mode == Mode::AwaitingKey(t),
        0 <= k < 16,
        keys[k],
        forall|j: int| 0 <= j < k ==> !keys[j],
    ensures
        ({
            let m2 = wait_cycle(m, t, keys);
            &&& m2.v[t as int] == k as u8
            &&& m2.mode == Mode::Running
            &&& m2.pc == m.pc
        }),
{
    lemma_first_pressed_hit(keys, k);
    assert(any_pressed(keys));
}

/// The decode-failure law: when the 16-bit value under the program counter
/// matches no table row, the instruction cycle fails with a decode error
/// carrying that opcode and the program counter, and the machine state is
/// left unmodified.
pub proof fn lemma_decode_failure(pre: Model, post: Model, r: Result<(), StepError>)
    requires
        pre.pc + 1 < RAM_SIZE,
        spec_decode(pre.fetch16()) is None,
        icycle_rel(pre, post, r),
    ensures
        r == Err::<(), StepError>(StepError::Decode { op: pre.fetch16(), pc: pre.pc as usize }),
        post == pre,
{
}

} // verus!
