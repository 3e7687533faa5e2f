//! The interpreter loop: fetch, decode, dispatch and the exact semantics of
//! each of the 35 opcodes, plus the sprite-drawing rule.
//!
//! The semantics is stated once, mathematically, by [`spec_execute`] (one
//! machine transition per opcode word) and [`spec_step`] (a whole
//! fetch/execute cycle, including the wait-for-key mode); the executable
//! [`Chip8::execute_opcode`] and [`Chip8::step`] are proved to implement
//! those functions exactly.
//!
//! Conventions that the instruction set leaves open are fixed here as
//! follows: the shift opcodes 8xy6/8xyE read their source from V[y] (writing
//! the shifted-out bit to the flag register); the index-add opcode Fx1E wraps
//! modulo 65536 and leaves the flag register alone; the program counter wraps
//! modulo 65536 when a skip advances it.

use vstd::prelude::*;

use vstd::arithmetic::div_mod::lemma_fundamental_div_mod_converse;

use crate::machine::Chip8;
use crate::machine::Chip8Error;
use crate::machine::Chip8View;
use crate::machine::Mode;
use crate::machine::clear_cells;

verus! {

/// The most significant 4 bits of an opcode word.
pub open spec fn nib1(op: u16) -> u16 {
    op / 0x1000
}

/// The second 4-bit field: the register index `x`.
pub open spec fn nib2(op: u16) -> u16 {
    (op / 0x100) % 0x10
}

/// The third 4-bit field: the register index `y`.
pub open spec fn nib3(op: u16) -> u16 {
    (op / 0x10) % 0x10
}

/// The least significant 4 bits: the immediate nibble `n`.
pub open spec fn nib4(op: u16) -> u16 {
    op % 0x10
}

/// The low byte of an opcode word: the immediate byte `nn`.
pub open spec fn imm_nn(op: u16) -> u8 {
    (op % 0x100) as u8
}

/// The low 12 bits of an opcode word: the immediate address `nnn`.
pub open spec fn imm_nnn(op: u16) -> u16 {
    op % 0x1000
}

/// Decoding inverts encoding: an opcode word assembled from a leading
/// nibble, a register field and an immediate byte decodes back into exactly
/// those fields.
pub proof fn lemma_decode(h: u16, x: u16, nn: u16)
    requires
        h < 16,
        x < 16,
        nn < 0x100,
    ensures
        ({
            let op = (h * 0x1000 + x * 0x100 + nn) as u16;
            &&& nib1(op) == h
            &&& nib2(op) == x
            &&& nib3(op) == nn / 0x10
            &&& nib4(op) == nn % 0x10
            &&& imm_nn(op) == nn as u8
            &&& imm_nnn(op) == x * 0x100 + nn
        }),
{
    let op = (h * 0x1000 + x * 0x100 + nn) as u16;
    lemma_fundamental_div_mod_converse(op as int, 0x1000, h as int, x * 0x100 + nn);
    lemma_fundamental_div_mod_converse(op as int, 0x100, h * 0x10 + x, nn as int);
    lemma_fundamental_div_mod_converse(h * 0x10 + x, 0x10, h as int, x as int);
    lemma_fundamental_div_mod_converse(
        op as int,
        0x10,
        h * 0x100 + x * 0x10 + nn / 0x10,
        nn as int % 0x10,
    );
    lemma_fundamental_div_mod_converse(
        h * 0x100 + x * 0x10 + nn / 0x10,
        0x10,
        h * 0x10 + x,
        nn as int / 0x10,
    );
}

/// The program counter two bytes on, wrapping modulo 65536.
pub open spec fn pc_skip(pc: u16) -> u16 {
    if pc + 2 > 0xFFFF {
        (pc + 2 - 0x10000) as u16
    } else {
        (pc + 2) as u16
    }
}

/// 8-bit addition wrapping modulo 256.
pub open spec fn byte_add(a: u8, b: u8) -> u8 {
    ((a + b) % 0x100) as u8
}

/// 8-bit subtraction wrapping modulo 256.
pub open spec fn byte_sub(a: u8, b: u8) -> u8 {
    (((a + 0x100) - b) % 0x100) as u8
}

/// 16-bit addition wrapping modulo 65536.
pub open spec fn word_add(a: u16, b: u16) -> u16 {
    if a + b > 0xFFFF {
        (a + b - 0x10000) as u16
    } else {
        (a + b) as u16
    }
}

/// The successor state of the pseudo-random generator: a 16-bit linear
/// congruential step.
pub open spec fn rng_next(s: u16) -> u16 {
    ((s * 25173 + 13849) % 0x10000) as u16
}

/// The byte a generator state yields: the high byte of the stepped state.
pub open spec fn rng_byte(s: u16) -> u8 {
    (rng_next(s) / 0x100) as u8
}

/// 2 to the power `k`.
pub open spec fn pow2(k: nat) -> nat
    decreases k,
{
    if k == 0 {
        1nat
    } else {
        2 * pow2((k - 1) as nat)
    }
}

pub proof fn lemma_pow2_pos(k: nat)
    ensures
        pow2(k) >= 1,
    decreases k,
{
    if k > 0 {
        lemma_pow2_pos((k - 1) as nat);
    }
}

/// Whether bit `c` (0 = leftmost) of sprite row `r` is set, for a sprite
/// whose rows are the memory bytes from `base` on.
pub open spec fn sprite_pixel(mem: Seq<u8>, base: int, r: int, c: int) -> bool {
    (mem[base + r] as nat) / pow2((7 - c) as nat) % 2 == 1
}

/// The screen cell (row-major index) that sprite bit (`r`, `c`) lands on when
/// the sprite is drawn at column `vx`, row `vy`: both coordinates wrap around
/// the 64x32 grid.
pub open spec fn draw_target(vx: u8, vy: u8, r: int, c: int) -> int {
    ((vy + r) % 32) * 64 + ((vx + c) % 64)
}

/// Whether sprite bit (`r`, `c`) comes strictly before the point reached
/// after `rr` full rows and `cc` bits of row `rr`, in drawing order.
pub open spec fn hit_before(rr: int, cc: int, r: int, c: int) -> bool {
    0 <= r && 0 <= c < 8 && (r < rr || (r == rr && c < cc))
}

/// Whether any sprite bit drawn before position (`rr`, `cc`) is set and lands
/// on screen cell `j`.
pub open spec fn partial_hit(mem: Seq<u8>, base: int, vx: u8, vy: u8, rr: int, cc: int, j: int) -> bool {
    exists|r: int, c: int|
        hit_before(rr, cc, r, c) && draw_target(vx, vy, r, c) == j && sprite_pixel(mem, base, r, c)
}

/// The screen after the sprite bits before position (`rr`, `cc`) have been
/// XOR-toggled into `screen`.
pub open spec fn partial_screen(
    screen: Seq<bool>,
    mem: Seq<u8>,
    base: int,
    vx: u8,
    vy: u8,
    rr: int,
    cc: int,
) -> Seq<bool> {
    Seq::new(2048, |j: int| screen[j] != partial_hit(mem, base, vx, vy, rr, cc, j))
}

/// Whether some sprite bit before position (`rr`, `cc`) is set and lands on a
/// cell that was already lit in `screen` (a collision: that cell is erased).
pub open spec fn partial_collision(
    screen: Seq<bool>,
    mem: Seq<u8>,
    base: int,
    vx: u8,
    vy: u8,
    rr: int,
    cc: int,
) -> bool {
    exists|r: int, c: int|
        hit_before(rr, cc, r, c) && sprite_pixel(mem, base, r, c)
            && screen[draw_target(vx, vy, r, c)]
}

/// The screen after a whole `n`-row sprite has been XOR-drawn.
pub open spec fn draw_screen(screen: Seq<bool>, mem: Seq<u8>, base: int, vx: u8, vy: u8, n: int) -> Seq<bool> {
    partial_screen(screen, mem, base, vx, vy, n, 0)
}

/// Whether drawing a whole `n`-row sprite erases some lit cell.
pub open spec fn draw_collision(screen: Seq<bool>, mem: Seq<u8>, base: int, vx: u8, vy: u8, n: int) -> bool {
    partial_collision(screen, mem, base, vx, vy, n, 0)
}

/// Every sprite bit lands inside the 2048-cell grid.
pub proof fn lemma_target_bounds(vx: u8, vy: u8, r: int, c: int)
    requires
        0 <= r,
        0 <= c,
    ensures
        0 <= draw_target(vx, vy, r, c) < 2048,
{
    assert(0 <= (vy + r) % 32 < 32);
    assert(0 <= (vx + c) % 64 < 64);
}

/// Within one draw (rows below 32, columns below 8), distinct sprite bits
/// land on distinct screen cells: no cell is toggled twice.
pub proof fn lemma_target_injective(vx: u8, vy: u8, r1: int, c1: int, r2: int, c2: int)
    requires
        0 <= r1 < 32,
        0 <= c1 < 8,
        0 <= r2 < 32,
        0 <= c2 < 8,
        draw_target(vx, vy, r1, c1) == draw_target(vx, vy, r2, c2),
    ensures
        r1 == r2,
        c1 == c2,
{
    let py1 = (vy + r1) % 32;
    let px1 = (vx + c1) % 64;
    let py2 = (vy + r2) % 32;
    let px2 = (vx + c2) % 64;
    assert(0 <= py1 < 32 && 0 <= px1 < 64 && 0 <= py2 < 32 && 0 <= px2 < 64);
    assert(py1 * 64 + px1 == py2 * 64 + px2);
    assert(py1 == py2 && px1 == px2);
    assert((vy + r1) == 32 * ((vy + r1) / 32) + py1);
    assert((vy + r2) == 32 * ((vy + r2) / 32) + py2);
    assert((vx + c1) == 64 * ((vx + c1) / 64) + px1);
    assert((vx + c2) == 64 * ((vx + c2) / 64) + px2);
    assert(r1 - r2 == 32 * ((vy + r1) / 32 - (vy + r2) / 32));
    assert(c1 - c2 == 64 * ((vx + c1) / 64 - (vx + c2) / 64));
}

/// The memory after registers 0 through `x` have been stored at the cells
/// from `base` on (the bulk-store opcode); other cells keep their value.
pub open spec fn store_regs(mem: Seq<u8>, v: Seq<u8>, base: int, x: int) -> Seq<u8> {
    Seq::new(4096, |j: int| if base <= j <= base + x { v[j - base] } else { mem[j] })
}

/// The register file after registers 0 through `x` have been loaded from the
/// cells from `base` on (the bulk-load opcode); higher registers keep their
/// value.
pub open spec fn load_regs(v: Seq<u8>, mem: Seq<u8>, base: int, x: int) -> Seq<u8> {
    Seq::new(16, |k: int| if 0 <= k <= x { mem[base + k] } else { v[k] })
}

/// The index of the lowest pressed key at or after `i`, or 16 when none is.
pub open spec fn first_pressed(keys: Seq<bool>, i: int) -> int
    decreases 16 - i,
{
    if i < 0 || i >= 16 {
        16
    } else if keys[i] {
        i
    } else {
        first_pressed(keys, i + 1)
    }
}

/// What a fetch does: the two bytes at the program counter combine big-endian
/// into an opcode word and the counter advances by two; a counter within two
/// bytes of the end of memory fails `OutOfBounds` and changes nothing.
pub open spec fn spec_fetch(pre: Chip8View) -> (Chip8View, Result<u16, Chip8Error>) {
    if pre.pc + 1 >= 4096 {
        (pre, Err(Chip8Error::OutOfBounds))
    } else {
        (
            Chip8View { pc: (pre.pc + 2) as u16, ..pre },
            Ok((pre.mem[pre.pc as int] * 0x100 + pre.mem[pre.pc as int + 1]) as u16),
        )
    }
}

/// One machine transition: the full dispatch table, one arm per opcode
/// pattern.  The program counter in `pre` has already advanced past the
/// fetched word, so jumps and skips are relative to that position.  An
/// opcode that fails returns its error and the state unchanged; an opcode
/// word matched by no arm fails `InvalidOpcode` carrying the raw word.
pub open spec fn spec_execute(pre: Chip8View, op: u16) -> (Chip8View, Result<(), Chip8Error>) {
    let x = nib2(op) as int;
    let y = nib3(op) as int;
    let vx = pre.v[x];
    let vy = pre.v[y];
    let nn = imm_nn(op);
    let nnn = imm_nnn(op);
    match (nib1(op), nib2(op), nib3(op), nib4(op)) {
        // legacy machine-code call: a no-op extension point
        (0, 0, 0, 0) => (pre, Ok(())),
        // 00E0: clear the pixel grid
        (0, 0, 0xE, 0) => (Chip8View { screen: Seq::new(2048, |j: int| false), ..pre }, Ok(())),
        // 00EE: return from a subroutine
        (0, 0, 0xE, 0xE) => if pre.sp == 0 {
            (pre, Err(Chip8Error::StackUnderflow))
        } else {
            (
                Chip8View { pc: pre.stack[pre.sp - 1], sp: (pre.sp - 1) as u16, ..pre },
                Ok(()),
            )
        },
        // 1nnn: jump
        (1, _, _, _) => (Chip8View { pc: nnn, ..pre }, Ok(())),
        // 2nnn: call a subroutine
        (2, _, _, _) => if pre.sp >= 16 {
            (pre, Err(Chip8Error::StackOverflow))
        } else {
            (
                Chip8View {
                    stack: pre.stack.update(pre.sp as int, pre.pc),
                    sp: (pre.sp + 1) as u16,
                    pc: nnn,
                    ..pre
                },
                Ok(()),
            )
        },
        // 3xnn: skip the next instruction if V[x] == nn
        (3, _, _, _) => (
            Chip8View { pc: if vx == nn { pc_skip(pre.pc) } else { pre.pc }, ..pre },
            Ok(()),
        ),
        // 4xnn: skip if V[x] != nn
        (4, _, _, _) => (
            Chip8View { pc: if vx != nn { pc_skip(pre.pc) } else { pre.pc }, ..pre },
            Ok(()),
        ),
        // 5xy0: skip if V[x] == V[y]
        (5, _, _, 0) => (
            Chip8View { pc: if vx == vy { pc_skip(pre.pc) } else { pre.pc }, ..pre },
            Ok(()),
        ),
        // 6xnn: V[x] = nn
        (6, _, _, _) => (Chip8View { v: pre.v.update(x, nn), ..pre }, Ok(())),
        // 7xnn: V[x] += nn, wrapping, no flag
        (7, _, _, _) => (Chip8View { v: pre.v.update(x, byte_add(vx, nn)), ..pre }, Ok(())),
        // 8xy0: V[x] = V[y]
        (8, _, _, 0) => (Chip8View { v: pre.v.update(x, vy), ..pre }, Ok(())),
        // 8xy1: V[x] |= V[y]
        (8, _, _, 1) => (Chip8View { v: pre.v.update(x, vx | vy), ..pre }, Ok(())),
        // 8xy2: V[x] &= V[y]
        (8, _, _, 2) => (Chip8View { v: pre.v.update(x, vx & vy), ..pre }, Ok(())),
        // 8xy3: V[x] ^= V[y]
        (8, _, _, 3) => (Chip8View { v: pre.v.update(x, vx ^ vy), ..pre }, Ok(())),
        // 8xy4: V[x] += V[y]; the flag register reports the carry
        (8, _, _, 4) => (
            Chip8View {
                v: pre.v.update(x, byte_add(vx, vy)).update(
                    15,
                    if vx + vy > 255 { 1u8 } else { 0u8 },
                ),
                ..pre
            },
            Ok(()),
        ),
        // 8xy5: V[x] -= V[y]; the flag register reports no-borrow
        (8, _, _, 5) => (
            Chip8View {
                v: pre.v.update(x, byte_sub(vx, vy)).update(
                    15,
                    if vx >= vy { 1u8 } else { 0u8 },
                ),
                ..pre
            },
            Ok(()),
        ),
        // 8xy6: V[x] = V[y] >> 1; the flag register takes the shifted-out bit
        (8, _, _, 6) => (
            Chip8View {
                v: pre.v.update(x, (vy / 2) as u8).update(15, (vy % 2) as u8),
                ..pre
            },
            Ok(()),
        ),
        // 8xy7: V[x] = V[y] - V[x]; the flag register reports no-borrow
        (8, _, _, 7) => (
            Chip8View {
                v: pre.v.update(x, byte_sub(vy, vx)).update(
                    15,
                    if vy >= vx { 1u8 } else { 0u8 },
                ),
                ..pre
            },
            Ok(()),
        ),
        // 8xyE: V[x] = V[y] << 1; the flag register takes the shifted-out bit
        (8, _, _, 0xE) => (
            Chip8View {
                v: pre.v.update(x, ((vy * 2) % 0x100) as u8).update(15, (vy / 128) as u8),
                ..pre
            },
            Ok(()),
        ),
        // 9xy0: skip if V[x] != V[y]
        (9, _, _, 0) => (
            Chip8View { pc: if vx != vy { pc_skip(pre.pc) } else { pre.pc }, ..pre },
            Ok(()),
        ),
        // Annn: I = nnn
        (0xA, _, _, _) => (Chip8View { i_reg: nnn, ..pre }, Ok(())),
        // Bnnn: jump to nnn + V[0]
        (0xB, _, _, _) => (Chip8View { pc: (nnn + pre.v[0]) as u16, ..pre }, Ok(())),
        // Cxnn: V[x] = nn AND a fresh pseudo-random byte
        (0xC, _, _, _) => (
            Chip8View {
                v: pre.v.update(x, nn & rng_byte(pre.rng)),
                rng: rng_next(pre.rng),
                ..pre
            },
            Ok(()),
        ),
        // Dxyn: XOR-draw an n-row sprite from I at (V[x], V[y]); the flag
        // register reports whether a lit pixel was erased
        (0xD, _, _, _) => {
            let n = nib4(op) as int;
            let base = pre.i_reg as int;
            if base + n > 4096 {
                (pre, Err(Chip8Error::OutOfBounds))
            } else {
                (
                    Chip8View {
                        screen: draw_screen(pre.screen, pre.mem, base, vx, vy, n),
                        v: pre.v.update(
                            15,
                            if draw_collision(pre.screen, pre.mem, base, vx, vy, n) {
                                1u8
                            } else {
                                0u8
                            },
                        ),
                        ..pre
                    },
                    Ok(()),
                )
            }
        },
        // Ex9E: skip if the key in V[x] (low nibble) is pressed
        (0xE, _, 9, 0xE) => (
            Chip8View {
                pc: if pre.keys[(vx % 16) as int] { pc_skip(pre.pc) } else { pre.pc },
                ..pre
            },
            Ok(()),
        ),
        // ExA1: skip if the key in V[x] (low nibble) is not pressed
        (0xE, _, 0xA, 1) => (
            Chip8View {
                pc: if !pre.keys[(vx % 16) as int] { pc_skip(pre.pc) } else { pre.pc },
                ..pre
            },
            Ok(()),
        ),
        // Fx07: V[x] = delay timer
        (0xF, _, 0, 7) => (Chip8View { v: pre.v.update(x, pre.delay), ..pre }, Ok(())),
        // Fx0A: suspend until a key press is observed, then store its index
        (0xF, _, 0, 0xA) => (
            Chip8View { mode: Mode::AwaitingKey(nib2(op) as u8), ..pre },
            Ok(()),
        ),
        // Fx15: delay timer = V[x]
        (0xF, _, 1, 5) => (Chip8View { delay: vx, ..pre }, Ok(())),
        // Fx18: sound timer = V[x]
        (0xF, _, 1, 8) => (Chip8View { sound: vx, ..pre }, Ok(())),
        // Fx1E: I += V[x], wrapping modulo 65536, no flag
        (0xF, _, 1, 0xE) => (
            Chip8View { i_reg: word_add(pre.i_reg, vx as u16), ..pre },
            Ok(()),
        ),
        // Fx29: I = the font glyph of the digit in V[x] (low nibble)
        (0xF, _, 2, 9) => (Chip8View { i_reg: ((vx % 16) * 5) as u16, ..pre }, Ok(())),
        // Fx33: the three decimal digits of V[x] go to memory at I, I+1, I+2
        (0xF, _, 3, 3) => if pre.i_reg + 2 >= 4096 {
            (pre, Err(Chip8Error::OutOfBounds))
        } else {
            (
                Chip8View {
                    mem: pre.mem.update(pre.i_reg as int, (vx / 100) as u8).update(
                        pre.i_reg as int + 1,
                        ((vx / 10) % 10) as u8,
                    ).update(pre.i_reg as int + 2, (vx % 10) as u8),
                    ..pre
                },
                Ok(()),
            )
        },
        // Fx55: store V[0..=x] at memory from I on
        (0xF, _, 5, 5) => if pre.i_reg + x >= 4096 {
            (pre, Err(Chip8Error::OutOfBounds))
        } else {
            (
                Chip8View { mem: store_regs(pre.mem, pre.v, pre.i_reg as int, x), ..pre },
                Ok(()),
            )
        },
        // Fx65: load V[0..=x] from memory from I on
        (0xF, _, 6, 5) => if pre.i_reg + x >= 4096 {
            (pre, Err(Chip8Error::OutOfBounds))
        } else {
            (
                Chip8View { v: load_regs(pre.v, pre.mem, pre.i_reg as int, x), ..pre },
                Ok(()),
            )
        },
        _ => (pre, Err(Chip8Error::InvalidOpcode(op))),
    }
}

/// One whole interpreter step.  A running machine fetches and executes one
/// instruction (a failing fetch surfaces `OutOfBounds` and changes nothing).
/// A machine awaiting a key does not touch the instruction stream: with no
/// key pressed it stays exactly as it is, and once a key is pressed the
/// lowest pressed index goes to the waiting register and the machine runs
/// again.
pub open spec fn spec_step(pre: Chip8View) -> (Chip8View, Result<(), Chip8Error>) {
    match pre.mode {
        Mode::AwaitingKey(x) => {
            let k = first_pressed(pre.keys, 0);
            if k == 16 {
                (pre, Ok(()))
            } else {
                (
                    Chip8View { v: pre.v.update(x as int, k as u8), mode: Mode::Running, ..pre },
                    Ok(()),
                )
            }
        },
        Mode::Running => {
            match spec_fetch(pre).1 {
                Ok(op) => spec_execute(spec_fetch(pre).0, op),
                Err(e) => (pre, Err(e)),
            }
        },
    }
}

/// With the keys below `i` all unpressed, the scan from 0 and the scan from
/// `i` find the same key.
proof fn lemma_first_pressed_prefix(keys: Seq<bool>, i: int)
    requires
        0 <= i <= 16,
        forall|j: int| 0 <= j < i ==> !keys[j],
    ensures
        first_pressed(keys, 0) == first_pressed(keys, i),
    decreases i,
{
    if i > 0 {
        lemma_first_pressed_prefix(keys, i - 1);
        assert(first_pressed(keys, i - 1) == first_pressed(keys, i));
    }
}

impl Chip8 {
    /// Fetch one big-endian opcode word from the program counter, advancing
    /// the counter past it; fails `OutOfBounds` (changing nothing) when the
    /// counter does not leave two bytes before the end of memory.
    pub fn fetch_opcode(&mut self) -> (r: Result<u16, Chip8Error>)
        requires
            old(self)@.wf(),
        ensures
            final(self)@ == spec_fetch(old(self)@).0,
            r == spec_fetch(old(self)@).1,
            final(self)@.wf(),
    {
        let pc = self.program_counter as usize;
        if pc + 1 >= 4096 {
            return Err(Chip8Error::OutOfBounds);
        }
        let hi = self.memory[pc];
        let lo = self.memory[pc + 1];
        self.program_counter = self.program_counter + 2;
        Ok((hi as u16) * 0x100 + (lo as u16))
    }

    /// XOR-draw the `n`-row sprite at the index register onto the grid at the
    /// position held in registers `x` and `y`; the flag register becomes 1
    /// exactly when some lit pixel was erased.  Fails `OutOfBounds` (changing
    /// nothing) when the sprite bytes would run past the end of memory.
    pub fn draw_sprite(&mut self, x: usize, y: usize, n: usize) -> (r: Result<(), Chip8Error>)
        requires
            old(self)@.wf(),
            x < 16,
            y < 16,
            n < 16,
        ensures
            final(self)@.wf(),
            ({
                let pre = old(self)@;
                let base = pre.i_reg as int;
                let vx = pre.v[x as int];
                let vy = pre.v[y as int];
                if base + n > 4096 {
                    r == Err::<(), Chip8Error>(Chip8Error::OutOfBounds) && final(self)@ == pre
                } else {
                    r == Ok::<(), Chip8Error>(()) && final(self)@ == (Chip8View {
                        screen: draw_screen(pre.screen, pre.mem, base, vx, vy, n as int),
                        v: pre.v.update(
                            15,
                            if draw_collision(pre.screen, pre.mem, base, vx, vy, n as int) {
                                1u8
                            } else {
                                0u8
                            },
                        ),
                        ..pre
                    })
                }
            }),
    {
        let ghost pre = old(self)@;
        let base = self.i_reg as usize;
        if base + n > 4096 {
            return Err(Chip8Error::OutOfBounds);
        }
        let vx = self.v_reg[x];
        let vy = self.v_reg[y];
        let mut collided = false;
        let mut row: usize = 0;
        proof {
            assert(self@.screen =~= partial_screen(pre.screen, pre.mem, base as int, vx, vy, 0, 0));
            if partial_collision(pre.screen, pre.mem, base as int, vx, vy, 0, 0) {
                let (r1, c1): (int, int) = choose|r1: int, c1: int|
                    hit_before(0, 0, r1, c1) && sprite_pixel(pre.mem, base as int, r1, c1)
                        && pre.screen[draw_target(vx, vy, r1, c1)];
                assert(false);
            }
        }
        while row < n
            invariant
                row <= n,
                n < 16,
                x < 16,
                y < 16,
                pre.wf(),
                pre == old(self)@,
                base == pre.i_reg as int,
                base + n <= 4096,
                vx == pre.v[x as int],
                vy == pre.v[y as int],
                self@ == (Chip8View { screen: self@.screen, ..pre }),
                self@.screen == partial_screen(pre.screen, pre.mem, base as int, vx, vy, row as int, 0),
                collided == partial_collision(pre.screen, pre.mem, base as int, vx, vy, row as int, 0),
            decreases n - row,
        {
            let byte = self.memory[base + row];
            let mut mask: u8 = 0x80;
            let mut c: usize = 0;
            proof {
                assert(pow2(0) == 1);
                assert(pow2(1) == 2);
                assert(pow2(2) == 4);
                assert(pow2(3) == 8);
                assert(pow2(4) == 16);
                assert(pow2(5) == 32);
                assert(pow2(6) == 64);
                assert(pow2(7) == 128);
            }
            while c < 8
                invariant
                    c <= 8,
                    row < n,
                    n < 16,
                    x < 16,
                    y < 16,
                    pre.wf(),
                    pre == old(self)@,
                    base == pre.i_reg as int,
                    base + n <= 4096,
                    vx == pre.v[x as int],
                    vy == pre.v[y as int],
                    byte == pre.mem[base + row],
                    c < 8 ==> mask as nat == pow2((7 - c) as nat),
                    self@ == (Chip8View { screen: self@.screen, ..pre }),
                    self@.screen == partial_screen(
                        pre.screen,
                        pre.mem,
                        base as int,
                        vx,
                        vy,
                        row as int,
                        c as int,
                    ),
                    collided == partial_collision(
                        pre.screen,
                        pre.mem,
                        base as int,
                        vx,
                        vy,
                        row as int,
                        c as int,
                    ),
                decreases 8 - c,
            {
                proof {
                    lemma_pow2_pos((7 - c) as nat);
                }
                if (byte / mask) % 2 == 1 {
                    proof {
                        assert(sprite_pixel(pre.mem, base as int, row as int, c as int));
                    }
                    let px = (vx as usize + c) % 64;
                    let py = (vy as usize + row) % 32;
                    let idx = py * 64 + px;
                    proof {
                        assert(idx == draw_target(vx, vy, row as int, c as int));
                        assert(idx < 2048);
                        if partial_hit(pre.mem, base as int, vx, vy, row as int, c as int, idx as int) {
                            let (r1, c1): (int, int) = choose|r1: int, c1: int|
                                hit_before(row as int, c as int, r1, c1)
                                    && draw_target(vx, vy, r1, c1) == idx
                                    && sprite_pixel(pre.mem, base as int, r1, c1);
                            lemma_target_injective(vx, vy, r1, c1, row as int, c as int);
                            assert(false);
                        }
                        assert(self@.screen[idx as int] == pre.screen[idx as int]);
                    }
                    let cur = self.screen[idx];
                    self.screen.set(idx, !cur);
                    if cur {
                        collided = true;
                    }
                    proof {
                        let rr = row as int;
                        let cc = c as int;
                        let b = base as int;
                        assert(hit_before(rr, cc + 1, rr, cc));
                        assert(partial_hit(pre.mem, b, vx, vy, rr, cc + 1, idx as int));
                        assert forall|j: int| 0 <= j < 2048 implies self@.screen[j] == (pre.screen[j]
                            != partial_hit(pre.mem, b, vx, vy, rr, cc + 1, j)) by {
                            if j == idx as int {
                                assert(self@.screen[j] == !pre.screen[j]);
                            } else {
                                if partial_hit(pre.mem, b, vx, vy, rr, cc + 1, j) {
                                    let (r1, c1): (int, int) = choose|r1: int, c1: int|
                                        hit_before(rr, cc + 1, r1, c1)
                                            && draw_target(vx, vy, r1, c1) == j
                                            && sprite_pixel(pre.mem, b, r1, c1);
                                    if r1 == rr && c1 == cc {
                                        assert(j == idx as int);
                                        assert(false);
                                    }
                                    assert(hit_before(rr, cc, r1, c1));
                                    assert(partial_hit(pre.mem, b, vx, vy, rr, cc, j));
                                }
                                if partial_hit(pre.mem, b, vx, vy, rr, cc, j) {
                                    let (r1, c1): (int, int) = choose|r1: int, c1: int|
                                        hit_before(rr, cc, r1, c1)
                                            && draw_target(vx, vy, r1, c1) == j
                                            && sprite_pixel(pre.mem, b, r1, c1);
                                    assert(hit_before(rr, cc + 1, r1, c1));
                                    assert(partial_hit(pre.mem, b, vx, vy, rr, cc + 1, j));
                                }
                            }
                        }
                        assert(self@.screen =~= partial_screen(pre.screen, pre.mem, b, vx, vy, rr, cc + 1));
                        if cur {
                            assert(partial_collision(pre.screen, pre.mem, b, vx, vy, rr, cc + 1));
                        } else {
                            if partial_collision(pre.screen, pre.mem, b, vx, vy, rr, cc + 1) {
                                let (r1, c1): (int, int) = choose|r1: int, c1: int|
                                    hit_before(rr, cc + 1, r1, c1)
                                        && sprite_pixel(pre.mem, b, r1, c1)
                                        && pre.screen[draw_target(vx, vy, r1, c1)];
                                if r1 == rr && c1 == cc {
                                    assert(false);
                                } else {
                                    assert(hit_before(rr, cc, r1, c1));
                                    assert(partial_collision(pre.screen, pre.mem, b, vx, vy, rr, cc));
                                }
                            }
                            if partial_collision(pre.screen, pre.mem, b, vx, vy, rr, cc) {
                                let (r1, c1): (int, int) = choose|r1: int, c1: int|
                                    hit_before(rr, cc, r1, c1)
                                        && sprite_pixel(pre.mem, b, r1, c1)
                                        && pre.screen[draw_target(vx, vy, r1, c1)];
                                assert(hit_before(rr, cc + 1, r1, c1));
                                assert(partial_collision(pre.screen, pre.mem, b, vx, vy, rr, cc + 1));
                            }
                        }
                        assert(collided == partial_collision(pre.screen, pre.mem, b, vx, vy, rr, cc + 1));
                    }
                } else {
                    proof {
                        let rr = row as int;
                        let cc = c as int;
                        let b = base as int;
                        assert(!sprite_pixel(pre.mem, b, rr, cc));
                        assert forall|j: int| 0 <= j < 2048 implies partial_hit(pre.mem, b, vx, vy, rr, cc + 1, j)
                            == partial_hit(pre.mem, b, vx, vy, rr, cc, j) by {
                            if partial_hit(pre.mem, b, vx, vy, rr, cc + 1, j) {
                                let (r1, c1): (int, int) = choose|r1: int, c1: int|
                                    hit_before(rr, cc + 1, r1, c1)
                                        && draw_target(vx, vy, r1, c1) == j
                                        && sprite_pixel(pre.mem, b, r1, c1);
                                if r1 == rr && c1 == cc {
                                    assert(false);
                                }
                                assert(hit_before(rr, cc, r1, c1));
                                assert(partial_hit(pre.mem, b, vx, vy, rr, cc, j));
                            }
                            if partial_hit(pre.mem, b, vx, vy, rr, cc, j) {
                                let (r1, c1): (int, int) = choose|r1: int, c1: int|
                                    hit_before(rr, cc, r1, c1)
                                        && draw_target(vx, vy, r1, c1) == j
                                        && sprite_pixel(pre.mem, b, r1, c1);
                                assert(hit_before(rr, cc + 1, r1, c1));
                                assert(partial_hit(pre.mem, b, vx, vy, rr, cc + 1, j));
                            }
                        }
                        assert(self@.screen =~= partial_screen(pre.screen, pre.mem, b, vx, vy, rr, cc + 1));
                        if partial_collision(pre.screen, pre.mem, b, vx, vy, rr, cc + 1) {
                            let (r1, c1): (int, int) = choose|r1: int, c1: int|
                                hit_before(rr, cc + 1, r1, c1)
                                    && sprite_pixel(pre.mem, b, r1, c1)
                                    && pre.screen[draw_target(vx, vy, r1, c1)];
                            if r1 == rr && c1 == cc {
                                assert(false);
                            } else {
                                assert(hit_before(rr, cc, r1, c1));
                                assert(partial_collision(pre.screen, pre.mem, b, vx, vy, rr, cc));
                            }
                        }
                        if partial_collision(pre.screen, pre.mem, b, vx, vy, rr, cc) {
                            let (r1, c1): (int, int) = choose|r1: int, c1: int|
                                hit_before(rr, cc, r1, c1)
                                    && sprite_pixel(pre.mem, b, r1, c1)
                                    && pre.screen[draw_target(vx, vy, r1, c1)];
                            assert(hit_before(rr, cc + 1, r1, c1));
                            assert(partial_collision(pre.screen, pre.mem, b, vx, vy, rr, cc + 1));
                        }
                        assert(collided == partial_collision(pre.screen, pre.mem, b, vx, vy, rr, cc + 1));
                    }
                }
                mask = mask / 2;
                c += 1;
                proof {
                    if c < 8 {
                        assert(pow2((8 - c) as nat) == 2 * pow2((7 - c) as nat));
                    }
                }
            }
            proof {
                let rr = row as int;
                let b = base as int;
                assert forall|j: int| 0 <= j < 2048 implies partial_hit(pre.mem, b, vx, vy, rr, 8, j)
                    == partial_hit(pre.mem, b, vx, vy, rr + 1, 0, j) by {
                    if partial_hit(pre.mem, b, vx, vy, rr, 8, j) {
                        let (r1, c1): (int, int) = choose|r1: int, c1: int|
                            hit_before(rr, 8, r1, c1) && draw_target(vx, vy, r1, c1) == j
                                && sprite_pixel(pre.mem, b, r1, c1);
                        assert(hit_before(rr + 1, 0, r1, c1));
                        assert(partial_hit(pre.mem, b, vx, vy, rr + 1, 0, j));
                    }
                    if partial_hit(pre.mem, b, vx, vy, rr + 1, 0, j) {
                        let (r1, c1): (int, int) = choose|r1: int, c1: int|
                            hit_before(rr + 1, 0, r1, c1) && draw_target(vx, vy, r1, c1) == j
                                && sprite_pixel(pre.mem, b, r1, c1);
                        assert(hit_before(rr, 8, r1, c1));
                        assert(partial_hit(pre.mem, b, vx, vy, rr, 8, j));
                    }
                }
                assert(self@.screen =~= partial_screen(pre.screen, pre.mem, b, vx, vy, rr + 1, 0));
                if partial_collision(pre.screen, pre.mem, b, vx, vy, rr, 8) {
                    let (r1, c1): (int, int) = choose|r1: int, c1: int|
                        hit_before(rr, 8, r1, c1) && sprite_pixel(pre.mem, b, r1, c1)
                            && pre.screen[draw_target(vx, vy, r1, c1)];
                    assert(hit_before(rr + 1, 0, r1, c1));
                    assert(partial_collision(pre.screen, pre.mem, b, vx, vy, rr + 1, 0));
                }
                if partial_collision(pre.screen, pre.mem, b, vx, vy, rr + 1, 0) {
                    let (r1, c1): (int, int) = choose|r1: int, c1: int|
                        hit_before(rr + 1, 0, r1, c1) && sprite_pixel(pre.mem, b, r1, c1)
                            && pre.screen[draw_target(vx, vy, r1, c1)];
                    assert(hit_before(rr, 8, r1, c1));
                    assert(partial_collision(pre.screen, pre.mem, b, vx, vy, rr, 8));
                }
                assert(collided == partial_collision(pre.screen, pre.mem, b, vx, vy, rr + 1, 0));
            }
            row += 1;
        }
        if collided {
            self.v_reg.set(15, 1);
        } else {
            self.v_reg.set(15, 0);
        }
        proof {
            assert(self@ =~~= (Chip8View {
                screen: draw_screen(pre.screen, pre.mem, base as int, vx, vy, n as int),
                v: pre.v.update(
                    15,
                    if draw_collision(pre.screen, pre.mem, base as int, vx, vy, n as int) {
                        1u8
                    } else {
                        0u8
                    },
                ),
                ..pre
            }));
        }
        Ok(())
    }

    /// Store registers 0 through `x` into memory from the index register on
    /// (the caller has checked that the last cell is in bounds).
    fn store_registers(&mut self, x: usize)
        requires
            old(self)@.wf(),
            x < 16,
            old(self)@.i_reg + x < 4096,
        ensures
            final(self)@ == (Chip8View {
                mem: store_regs(old(self)@.mem, old(self)@.v, old(self)@.i_reg as int, x as int),
                ..old(self)@
            }),
            final(self)@.wf(),
    {
        let base = self.i_reg as usize;
        let mut k: usize = 0;
        while k <= x
            invariant
                k <= x + 1,
                x < 16,
                base == old(self)@.i_reg as int,
                base + x < 4096,
                self@ == (Chip8View { mem: self@.mem, ..old(self)@ }),
                self@.mem.len() == 4096,
                self@.v.len() == 16,
                forall|j: int| base <= j < base + k ==> self@.mem[j] == old(self)@.v[j - base],
                forall|j: int|
                    0 <= j < 4096 && !(base <= j < base + k) ==> self@.mem[j] == old(self)@.mem[j],
            decreases x + 1 - k,
        {
            let val = self.v_reg[k];
            self.memory.set(base + k, val);
            k += 1;
        }
        proof {
            assert(self@.mem =~= store_regs(old(self)@.mem, old(self)@.v, old(self)@.i_reg as int, x as int));
            assert(self@ =~~= (Chip8View {
                mem: store_regs(old(self)@.mem, old(self)@.v, old(self)@.i_reg as int, x as int),
                ..old(self)@
            }));
        }
    }

    /// Load registers 0 through `x` from memory from the index register on
    /// (the caller has checked that the last cell is in bounds).
    fn load_registers(&mut self, x: usize)
        requires
            old(self)@.wf(),
            x < 16,
            old(self)@.i_reg + x < 4096,
        ensures
            final(self)@ == (Chip8View {
                v: load_regs(old(self)@.v, old(self)@.mem, old(self)@.i_reg as int, x as int),
                ..old(self)@
            }),
            final(self)@.wf(),
    {
        let base = self.i_reg as usize;
        let mut k: usize = 0;
        while k <= x
            invariant
                k <= x + 1,
                x < 16,
                base == old(self)@.i_reg as int,
                base + x < 4096,
                self@ == (Chip8View { v: self@.v, ..old(self)@ }),
                self@.mem.len() == 4096,
                self@.v.len() == 16,
                forall|t: int| 0 <= t < k ==> self@.v[t] == old(self)@.mem[base + t],
                forall|t: int| k <= t < 16 ==> self@.v[t] == old(self)@.v[t],
            decreases x + 1 - k,
        {
            let val = self.memory[base + k];
            self.v_reg.set(k, val);
            k += 1;
        }
        proof {
            assert(self@.v =~= load_regs(old(self)@.v, old(self)@.mem, old(self)@.i_reg as int, x as int));
            assert(self@ =~~= (Chip8View {
                v: load_regs(old(self)@.v, old(self)@.mem, old(self)@.i_reg as int, x as int),
                ..old(self)@
            }));
        }
    }

    /// Decode and execute one opcode word, exactly as [`spec_execute`] says:
    /// a failing opcode surfaces its error and leaves the whole state
    /// unchanged (the program counter was already advanced by the fetch).
    pub fn execute_opcode(&mut self, opcode: u16) -> (r: Result<(), Chip8Error>)
        requires
            old(self)@.wf(),
        ensures
            final(self)@ == spec_execute(old(self)@, opcode).0,
            r == spec_execute(old(self)@, opcode).1,
            final(self)@.wf(),
    {
        let nibble1 = opcode / 0x1000;
        let nibble2 = (opcode / 0x100) % 0x10;
        let nibble3 = (opcode / 0x10) % 0x10;
        let nibble4 = opcode % 0x10;
        let x = nibble2 as usize;
        let y = nibble3 as usize;
        let nn = (opcode % 0x100) as u8;
        let nnn = opcode % 0x1000;
        let res: Result<(), Chip8Error> = match (nibble1, nibble2, nibble3, nibble4) {
            (0, 0, 0, 0) => Ok(()),
            (0, 0, 0xE, 0) => {
                self.screen = clear_cells(2048);
                Ok(())
            },
            (0, 0, 0xE, 0xE) => {
                match self.pop_from_stack() {
                    Ok(address) => {
                        self.program_counter = address;
                        Ok(())
                    },
                    Err(e) => Err(e),
                }
            },
            (1, _, _, _) => {
                self.program_counter = nnn;
                Ok(())
            },
            (2, _, _, _) => {
                let pc = self.program_counter;
                match self.push_to_stack(pc) {
                    Ok(()) => {
                        self.program_counter = nnn;
                        Ok(())
                    },
                    Err(e) => Err(e),
                }
            },
            (3, _, _, _) => {
                if self.v_reg[x] == nn {
                    self.program_counter = self.program_counter.wrapping_add(2);
                }
                Ok(())
            },
            (4, _, _, _) => {
                if self.v_reg[x] != nn {
                    self.program_counter = self.program_counter.wrapping_add(2);
                }
                Ok(())
            },
            (5, _, _, 0) => {
                if self.v_reg[x] == self.v_reg[y] {
                    self.program_counter = self.program_counter.wrapping_add(2);
                }
                Ok(())
            },
            (6, _, _, _) => {
                self.v_reg.set(x, nn);
                Ok(())
            },
            (7, _, _, _) => {
                let sum = self.v_reg[x] as u16 + nn as u16;
                self.v_reg.set(x, (sum % 0x100) as u8);
                Ok(())
            },
            (8, _, _, 0) => {
                let b = self.v_reg[y];
                self.v_reg.set(x, b);
                Ok(())
            },
            (8, _, _, 1) => {
                let r8 = self.v_reg[x] | self.v_reg[y];
                self.v_reg.set(x, r8);
                Ok(())
            },
            (8, _, _, 2) => {
                let r8 = self.v_reg[x] & self.v_reg[y];
                self.v_reg.set(x, r8);
                Ok(())
            },
            (8, _, _, 3) => {
                let r8 = self.v_reg[x] ^ self.v_reg[y];
                self.v_reg.set(x, r8);
                Ok(())
            },
            (8, _, _, 4) => {
                let sum = self.v_reg[x] as u16 + self.v_reg[y] as u16;
                self.v_reg.set(x, (sum % 0x100) as u8);
                self.v_reg.set(15, if sum > 255 { 1 } else { 0 });
                Ok(())
            },
            (8, _, _, 5) => {
                let a = self.v_reg[x];
                let b = self.v_reg[y];
                let diff = ((a as u16 + 0x100 - b as u16) % 0x100) as u8;
                self.v_reg.set(x, diff);
                self.v_reg.set(15, if a >= b { 1 } else { 0 });
                Ok(())
            },
            (8, _, _, 6) => {
                let b = self.v_reg[y];
                self.v_reg.set(x, b / 2);
                self.v_reg.set(15, b % 2);
                Ok(())
            },
            (8, _, _, 7) => {
                let a = self.v_reg[x];
                let b = self.v_reg[y];
                let diff = ((b as u16 + 0x100 - a as u16) % 0x100) as u8;
                self.v_reg.set(x, diff);
                self.v_reg.set(15, if b >= a { 1 } else { 0 });
                Ok(())
            },
            (8, _, _, 0xE) => {
                let b = self.v_reg[y];
                self.v_reg.set(x, ((b as u16 * 2) % 0x100) as u8);
                self.v_reg.set(15, b / 128);
                Ok(())
            },
            (9, _, _, 0) => {
                if self.v_reg[x] != self.v_reg[y] {
                    self.program_counter = self.program_counter.wrapping_add(2);
                }
                Ok(())
            },
            (0xA, _, _, _) => {
                self.i_reg = nnn;
                Ok(())
            },
            (0xB, _, _, _) => {
                self.program_counter = nnn + self.v_reg[0] as u16;
                Ok(())
            },
            (0xC, _, _, _) => {
                let wide: u32 = self.rng as u32 * 25173 + 13849;
                let next: u16 = (wide % 0x10000) as u16;
                self.rng = next;
                let rb: u8 = (next / 0x100) as u8;
                self.v_reg.set(x, nn & rb);
                Ok(())
            },
            (0xD, _, _, _) => self.draw_sprite(x, y, nibble4 as usize),
            (0xE, _, 9, 0xE) => {
                let key = (self.v_reg[x] % 16) as usize;
                if self.keypad[key] {
                    self.program_counter = self.program_counter.wrapping_add(2);
                }
                Ok(())
            },
            (0xE, _, 0xA, 1) => {
                let key = (self.v_reg[x] % 16) as usize;
                if !self.keypad[key] {
                    self.program_counter = self.program_counter.wrapping_add(2);
                }
                Ok(())
            },
            (0xF, _, 0, 7) => {
                let d = self.delay_timer;
                self.v_reg.set(x, d);
                Ok(())
            },
            (0xF, _, 0, 0xA) => {
                self.mode = Mode::AwaitingKey(nibble2 as u8);
                Ok(())
            },
            (0xF, _, 1, 5) => {
                self.delay_timer = self.v_reg[x];
                Ok(())
            },
            (0xF, _, 1, 8) => {
                self.sound_timer = self.v_reg[x];
                Ok(())
            },
            (0xF, _, 1, 0xE) => {
                self.i_reg = self.i_reg.wrapping_add(self.v_reg[x] as u16);
                Ok(())
            },
            (0xF, _, 2, 9) => {
                self.i_reg = (self.v_reg[x] % 16) as u16 * 5;
                Ok(())
            },
            (0xF, _, 3, 3) => {
                let base = self.i_reg as usize;
                if base + 2 >= 4096 {
                    Err(Chip8Error::OutOfBounds)
                } else {
                    let val = self.v_reg[x];
                    self.memory.set(base, val / 100);
                    self.memory.set(base + 1, (val / 10) % 10);
                    self.memory.set(base + 2, val % 10);
                    Ok(())
                }
            },
            (0xF, _, 5, 5) => {
                let base = self.i_reg as usize;
                if base + x >= 4096 {
                    Err(Chip8Error::OutOfBounds)
                } else {
                    self.store_registers(x);
                    Ok(())
                }
            },
            (0xF, _, 6, 5) => {
                let base = self.i_reg as usize;
                if base + x >= 4096 {
                    Err(Chip8Error::OutOfBounds)
                } else {
                    self.load_registers(x);
                    Ok(())
                }
            },
            _ => Err(Chip8Error::InvalidOpcode(opcode)),
        };
        proof {
            assert(self@ =~~= spec_execute(old(self)@, opcode).0);
        }
        res
    }

    /// Advance the machine by one whole step, exactly as [`spec_step`] says:
    /// fetch and execute one instruction, or — while awaiting a key — resume
    /// only once some key is pressed, storing the lowest pressed index.
    pub fn step(&mut self) -> (r: Result<(), Chip8Error>)
        requires
            old(self)@.wf(),
        ensures
            final(self)@ == spec_step(old(self)@).0,
            r == spec_step(old(self)@).1,
            final(self)@.wf(),
    {
        match self.mode {
            Mode::AwaitingKey(x) => {
                let mut k: usize = 0;
                while k < 16
                    invariant
                        k <= 16,
                        old(self)@.wf(),
                        self@ == old(self)@,
                        self@.mode == Mode::AwaitingKey(x),
                        x < 16,
                        forall|j: int| 0 <= j < k ==> !self@.keys[j],
                    decreases 16 - k,
                {
                    if self.keypad[k] {
                        proof {
                            lemma_first_pressed_prefix(self@.keys, k as int);
                            assert(first_pressed(self@.keys, 0) == k as int);
                        }
                        self.v_reg.set(x as usize, k as u8);
                        self.mode = Mode::Running;
                        return Ok(());
                    }
                    k += 1;
                }
                proof {
                    lemma_first_pressed_prefix(self@.keys, 16);
                    assert(first_pressed(self@.keys, 0) == 16);
                }
                Ok(())
            },
            Mode::Running => {
                let op = match self.fetch_opcode() {
                    Ok(op) => op,
                    Err(e) => {
                        return Err(e);
                    },
                };
                self.execute_opcode(op)
            },
        }
    }
}

} // verus!
