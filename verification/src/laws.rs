//! General laws of the instruction set, proved once and for all states:
//! conditional skips after a register load, call/return round trips,
//! arithmetic flag behaviour, the XOR-draw double-blit rule, stack-overflow
//! isolation and the harmlessness of every failing opcode.

use vstd::prelude::*;

use vstd::arithmetic::div_mod::lemma_fundamental_div_mod;
use vstd::arithmetic::div_mod::lemma_fundamental_div_mod_converse;

use crate::interp::draw_collision;
use crate::interp::draw_screen;
use crate::interp::draw_target;
use crate::interp::hit_before;
use crate::interp::imm_nn;
use crate::interp::imm_nnn;
use crate::interp::lemma_decode;
use crate::interp::lemma_target_bounds;
use crate::interp::spec_fetch;
use crate::interp::nib1;
use crate::interp::nib2;
use crate::interp::nib3;
use crate::interp::nib4;
use crate::interp::partial_hit;
use crate::interp::spec_execute;
use crate::interp::spec_step;
use crate::interp::sprite_pixel;
use crate::machine::Chip8Error;
use crate::machine::Chip8View;
use crate::machine::Mode;

verus! {

/// Loading a register with a byte (6xnn) and then comparing it for equality
/// with the same byte (3xnn) always takes the skip: after the two steps the
/// program counter sits four bytes past the fetch position of the skip
/// instruction — exactly one instruction was skipped.
pub proof fn lemma_load_then_skip(pre: Chip8View, x: u8, nn: u8)
    requires
        pre.wf(),
        pre.mode == Mode::Running,
        x < 16,
        pre.pc + 3 < 4096,
        pre.mem[pre.pc as int] == 0x60 + x,
        pre.mem[pre.pc as int + 1] == nn,
        pre.mem[pre.pc as int + 2] == 0x30 + x,
        pre.mem[pre.pc as int + 3] == nn,
    ensures
        spec_step(pre).1 == Ok::<(), Chip8Error>(()),
        spec_step(spec_step(pre).0).1 == Ok::<(), Chip8Error>(()),
        spec_step(spec_step(pre).0).0.pc == pre.pc + 6,
{
    let op1 = ((0x60 + x) * 0x100 + nn) as u16;
    lemma_decode(6, x as u16, nn as u16);
    assert(op1 == 6 * 0x1000 + x * 0x100 + nn);
    assert(nib1(op1) == 6 && nib2(op1) == x && imm_nn(op1) == nn);
    assert(spec_fetch(pre).1 == Ok::<u16, Chip8Error>(op1));
    let f1 = spec_fetch(pre).0;
    let s1 = spec_execute(f1, op1).0;
    assert(spec_execute(f1, op1).1 == Ok::<(), Chip8Error>(()));
    assert(s1.v == pre.v.update(x as int, nn));
    assert(s1.pc == pre.pc + 2);
    assert(s1.mode == Mode::Running);
    assert(s1.mem == pre.mem);
    let op2 = ((0x30 + x) * 0x100 + nn) as u16;
    lemma_decode(3, x as u16, nn as u16);
    assert(op2 == 3 * 0x1000 + x * 0x100 + nn);
    assert(nib1(op2) == 3 && nib2(op2) == x && imm_nn(op2) == nn);
    assert(spec_fetch(s1).1 == Ok::<u16, Chip8Error>(op2));
    let f2 = spec_fetch(s1).0;
    assert(f2.v[x as int] == nn);
    assert(spec_execute(f2, op2).1 == Ok::<(), Chip8Error>(()));
    assert(spec_execute(f2, op2).0.pc == pre.pc + 6);
}

/// A call (2nnn) pushes the address of the instruction after itself, and the
/// matching return (00EE) restores the program counter to exactly that
/// address, with the stack depth back where it was.
pub proof fn lemma_call_return(pre: Chip8View, nnn: u16)
    requires
        pre.wf(),
        pre.mode == Mode::Running,
        pre.sp < 16,
        nnn < 0x1000,
        pre.pc + 1 < 4096,
        nnn + 1 < 4096,
        pre.mem[pre.pc as int] == 0x20 + nnn / 0x100,
        pre.mem[pre.pc as int + 1] == nnn % 0x100,
        pre.mem[nnn as int] == 0x00,
        pre.mem[nnn as int + 1] == 0xEE,
    ensures
        spec_step(pre).1 == Ok::<(), Chip8Error>(()),
        spec_step(spec_step(pre).0).1 == Ok::<(), Chip8Error>(()),
        spec_step(spec_step(pre).0).0.pc == pre.pc + 2,
        spec_step(spec_step(pre).0).0.sp == pre.sp,
{
    let op1 = ((0x20 + nnn / 0x100) * 0x100 + nnn % 0x100) as u16;
    lemma_fundamental_div_mod(nnn as int, 0x100);
    lemma_decode(2, nnn / 0x100, nnn % 0x100);
    assert(op1 == 2 * 0x1000 + (nnn / 0x100) * 0x100 + nnn % 0x100);
    assert(op1 == 0x2000 + nnn);
    assert(nib1(op1) == 2 && imm_nnn(op1) == nnn);
    assert(spec_fetch(pre).1 == Ok::<u16, Chip8Error>(op1));
    let f1 = spec_fetch(pre).0;
    let s1 = spec_execute(f1, op1).0;
    assert(spec_execute(f1, op1).1 == Ok::<(), Chip8Error>(()));
    assert(s1.pc == nnn);
    assert(s1.sp == pre.sp + 1);
    assert(s1.stack[pre.sp as int] == pre.pc + 2);
    assert(s1.mode == Mode::Running);
    assert(s1.mem == pre.mem);
    let op2 = 0x00EEu16;
    lemma_decode(0, 0, 0xEE);
    assert(nib1(op2) == 0 && nib2(op2) == 0 && nib3(op2) == 0xE && nib4(op2) == 0xE);
    assert(spec_fetch(s1).1 == Ok::<u16, Chip8Error>(op2));
    let f2 = spec_fetch(s1).0;
    assert(f2.sp == pre.sp + 1);
    assert(spec_execute(f2, op2).1 == Ok::<(), Chip8Error>(()));
    assert(spec_execute(f2, op2).0.pc == pre.pc + 2);
    assert(spec_execute(f2, op2).0.sp == pre.sp);
}

/// Adding 0x01 to 0xFF (8xy4) wraps to 0x00 and sets the carry flag.
pub proof fn lemma_add_carry(pre: Chip8View, x: u16, y: u16)
    requires
        pre.wf(),
        x < 16,
        y < 16,
        x != y,
        x != 15,
        pre.v[x as int] == 0xFF,
        pre.v[y as int] == 0x01,
    ensures
        spec_execute(pre, (0x8004 + x * 0x100 + y * 0x10) as u16).1 == Ok::<(), Chip8Error>(()),
        spec_execute(pre, (0x8004 + x * 0x100 + y * 0x10) as u16).0.v[x as int] == 0x00,
        spec_execute(pre, (0x8004 + x * 0x100 + y * 0x10) as u16).0.v[15] == 1,
{
    let op = (0x8004 + x * 0x100 + y * 0x10) as u16;
    lemma_decode(8, x, (y * 0x10 + 4) as u16);
    lemma_fundamental_div_mod_converse(y * 0x10 + 4, 0x10, y as int, 4);
    assert(op == 8 * 0x1000 + x * 0x100 + (y * 0x10 + 4));
    assert(nib1(op) == 8 && nib2(op) == x && nib3(op) == y && nib4(op) == 4);
}

/// Subtracting 0x02 from 0x01 (8xy5) wraps to 0xFF and clears the no-borrow
/// flag.
pub proof fn lemma_sub_borrow(pre: Chip8View, x: u16, y: u16)
    requires
        pre.wf(),
        x < 16,
        y < 16,
        x != y,
        x != 15,
        pre.v[x as int] == 0x01,
        pre.v[y as int] == 0x02,
    ensures
        spec_execute(pre, (0x8005 + x * 0x100 + y * 0x10) as u16).1 == Ok::<(), Chip8Error>(()),
        spec_execute(pre, (0x8005 + x * 0x100 + y * 0x10) as u16).0.v[x as int] == 0xFF,
        spec_execute(pre, (0x8005 + x * 0x100 + y * 0x10) as u16).0.v[15] == 0,
{
    let op = (0x8005 + x * 0x100 + y * 0x10) as u16;
    lemma_decode(8, x, (y * 0x10 + 5) as u16);
    lemma_fundamental_div_mod_converse(y * 0x10 + 5, 0x10, y as int, 5);
    assert(op == 8 * 0x1000 + x * 0x100 + (y * 0x10 + 5));
    assert(nib1(op) == 8 && nib2(op) == x && nib3(op) == y && nib4(op) == 5);
}

/// XOR-drawing the same sprite at the same place twice restores the grid
/// exactly, and the second draw collides precisely where the first draw lit
/// a previously-unlit pixel.
pub proof fn lemma_draw_round_trip(
    screen: Seq<bool>,
    mem: Seq<u8>,
    base: int,
    vx: u8,
    vy: u8,
    n: int,
)
    requires
        screen.len() == 2048,
        0 <= n,
    ensures
        draw_screen(draw_screen(screen, mem, base, vx, vy, n), mem, base, vx, vy, n) =~= screen,
        draw_collision(draw_screen(screen, mem, base, vx, vy, n), mem, base, vx, vy, n)
            == (exists|r: int, c: int|
                0 <= r < n && 0 <= c < 8 && sprite_pixel(mem, base, r, c)
                    && !screen[draw_target(vx, vy, r, c)]),
{
    let s1 = draw_screen(screen, mem, base, vx, vy, n);
    assert forall|j: int| 0 <= j < 2048 implies draw_screen(s1, mem, base, vx, vy, n)[j]
        == screen[j] by {
        assert(s1[j] == (screen[j] != partial_hit(mem, base, vx, vy, n, 0, j)));
    }
    assert(draw_screen(s1, mem, base, vx, vy, n) =~= screen);
    if draw_collision(s1, mem, base, vx, vy, n) {
        let (r1, c1): (int, int) = choose|r1: int, c1: int|
            hit_before(n, 0, r1, c1) && sprite_pixel(mem, base, r1, c1)
                && s1[draw_target(vx, vy, r1, c1)];
        let t = draw_target(vx, vy, r1, c1);
        lemma_target_bounds(vx, vy, r1, c1);
        assert(partial_hit(mem, base, vx, vy, n, 0, t));
        assert(s1[t] == !screen[t]);
        assert(0 <= r1 < n && 0 <= c1 < 8 && sprite_pixel(mem, base, r1, c1) && !screen[t]);
    }
    if exists|r: int, c: int|
        0 <= r < n && 0 <= c < 8 && sprite_pixel(mem, base, r, c)
            && !screen[draw_target(vx, vy, r, c)] {
        let (r1, c1): (int, int) = choose|r1: int, c1: int|
            0 <= r1 < n && 0 <= c1 < 8 && sprite_pixel(mem, base, r1, c1)
                && !screen[draw_target(vx, vy, r1, c1)];
        let t = draw_target(vx, vy, r1, c1);
        lemma_target_bounds(vx, vy, r1, c1);
        assert(hit_before(n, 0, r1, c1));
        assert(partial_hit(mem, base, vx, vy, n, 0, t));
        assert(s1[t] == !screen[t]);
        assert(hit_before(n, 0, r1, c1) && sprite_pixel(mem, base, r1, c1)
            && s1[draw_target(vx, vy, r1, c1)]);
        assert(draw_collision(s1, mem, base, vx, vy, n));
    }
}

/// The double-draw law at the instruction level: executing the same draw
/// opcode (Dxyn) twice in a row — with coordinate registers other than the
/// flag register — restores the pixel grid exactly, and the second draw's
/// flag is 1 precisely when the first draw lit some previously-unlit pixel.
pub proof fn lemma_draw_opcode_twice(pre: Chip8View, op: u16)
    requires
        pre.wf(),
        nib1(op) == 0xD,
        nib2(op) != 15,
        nib3(op) != 15,
        pre.i_reg + nib4(op) <= 4096,
    ensures
        spec_execute(pre, op).1 == Ok::<(), Chip8Error>(()),
        spec_execute(spec_execute(pre, op).0, op).1 == Ok::<(), Chip8Error>(()),
        spec_execute(spec_execute(pre, op).0, op).0.screen =~= pre.screen,
        (spec_execute(spec_execute(pre, op).0, op).0.v[15] == 1) <==> (exists|r: int, c: int|
            0 <= r < nib4(op) && 0 <= c < 8
                && sprite_pixel(pre.mem, pre.i_reg as int, r, c)
                && !pre.screen[draw_target(
                pre.v[nib2(op) as int],
                pre.v[nib3(op) as int],
                r,
                c,
            )]),
{
    let x = nib2(op) as int;
    let y = nib3(op) as int;
    let vx = pre.v[x];
    let vy = pre.v[y];
    let base = pre.i_reg as int;
    let n = nib4(op) as int;
    let s1 = spec_execute(pre, op).0;
    assert(s1.mem == pre.mem);
    assert(s1.i_reg == pre.i_reg);
    assert(s1.v[x] == vx);
    assert(s1.v[y] == vy);
    assert(s1.screen == draw_screen(pre.screen, pre.mem, base, vx, vy, n));
    lemma_draw_round_trip(pre.screen, pre.mem, base, vx, vy, n);
    let s2 = spec_execute(s1, op).0;
    assert(s2.screen == draw_screen(s1.screen, pre.mem, base, vx, vy, n));
    assert(s2.v[15] == if draw_collision(s1.screen, pre.mem, base, vx, vy, n) {
        1u8
    } else {
        0u8
    });
}

/// A call opcode issued with all sixteen stack slots in use fails
/// `StackOverflow` and mutates nothing — in particular not the program
/// counter.
pub proof fn lemma_call_overflow(pre: Chip8View, op: u16)
    requires
        pre.wf(),
        nib1(op) == 2,
        pre.sp == 16,
    ensures
        spec_execute(pre, op) == (pre, Err::<(), Chip8Error>(Chip8Error::StackOverflow)),
{
}

/// A skip-if-registers-equal word whose low nibble is not zero matches no
/// instruction: it fails `InvalidOpcode`, carrying the raw word, and leaves
/// the state untouched.
pub proof fn lemma_mismatched_skip_invalid(pre: Chip8View, op: u16)
    requires
        pre.wf(),
        nib1(op) == 5,
        nib4(op) != 0,
    ensures
        spec_execute(pre, op) == (pre, Err::<(), Chip8Error>(Chip8Error::InvalidOpcode(op))),
{
}

/// Whatever error an opcode fails with, it leaves the machine exactly as it
/// was: a malformed or overflowing instruction halts the interpreter without
/// corrupting any state.
pub proof fn lemma_error_preserves_state(pre: Chip8View, op: u16)
    requires
        pre.wf(),
    ensures
        spec_execute(pre, op).1 is Err ==> spec_execute(pre, op).0 == pre,
{
}

} // verus!
