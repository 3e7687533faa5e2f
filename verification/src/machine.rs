//! The machine state of the CHIP-8 core: 4096 bytes of memory, sixteen
//! 8-bit registers, a 16-bit index register and program counter, a call stack
//! of sixteen return addresses, two countdown timers, sixteen key flags and a
//! 64x32 monochrome pixel grid.
//!
//! Every operation is specified against [`Chip8View`], a mathematical view of
//! the whole state, so that the interpreter's contracts can say exactly which
//! parts of the state change and how.

use vstd::prelude::*;

use crate::font::font_data;
use crate::font::font_seq;

verus! {

/// The execution mode of the interpreter: either ready to fetch the next
/// instruction, or suspended by the wait-for-key opcode until a key press is
/// observed (the payload is the register that receives the key index).
#[derive(Clone, Copy, Debug, PartialEq, Eq, Structural)]
pub enum Mode {
    Running,
    AwaitingKey(u8),
}

/// The failures an instruction (or program load) can surface.  None of them
/// corrupts state: a failing operation leaves the machine exactly as it was,
/// apart from the program counter having already advanced past the fetched
/// instruction.
#[derive(Clone, Copy, Debug, PartialEq, Eq, Structural)]
pub enum Chip8Error {
    /// A fetch, read or write lay outside the 4096 memory cells.
    OutOfBounds,
    /// A call was made with all sixteen stack slots in use.
    StackOverflow,
    /// A return was executed with an empty stack.
    StackUnderflow,
    /// The fetched 16-bit word matches no instruction; carries the raw word.
    InvalidOpcode(u16),
    /// A program image would extend past the end of memory.
    ProgramTooLarge,
}

/// The mathematical view of the complete machine state.
#[verifier::ext_equal]
pub ghost struct Chip8View {
    /// 4096 memory cells; the first 80 hold the font table.
    pub mem: Seq<u8>,
    /// The 16-bit index register.
    pub i_reg: u16,
    /// Sixteen general-purpose registers; register 15 is the flag register.
    pub v: Seq<u8>,
    /// The program counter.
    pub pc: u16,
    /// Sixteen return-address slots.
    pub stack: Seq<u16>,
    /// How many stack slots are in use (0 through 16).
    pub sp: u16,
    /// The delay timer.
    pub delay: u8,
    /// The sound timer; sound is active exactly while it is positive.
    pub sound: u8,
    /// Sixteen key flags, written only by the host.
    pub keys: Seq<bool>,
    /// 64x32 pixels in row-major order (index = row * 64 + column).
    pub screen: Seq<bool>,
    /// The state of the pseudo-random generator behind the random opcode.
    pub rng: u16,
    /// Running, or suspended awaiting a key press.
    pub mode: Mode,
}

impl Chip8View {
    /// Well-formedness: every buffer has its architectural size, the stack
    /// pointer is within capacity, and a pending key wait names a register.
    pub open spec fn wf(self) -> bool {
        &&& self.mem.len() == 4096
        &&& self.v.len() == 16
        &&& self.stack.len() == 16
        &&& self.keys.len() == 16
        &&& self.screen.len() == 2048
        &&& self.sp <= 16
        &&& match self.mode {
            Mode::Running => true,
            Mode::AwaitingKey(x) => x < 16,
        }
    }
}

/// The machine state itself.  The fields are public so that specifications
/// (and the host, read-only) can speak about them directly; all mutation owed
/// to instruction semantics goes through the verified operations.
pub struct Chip8 {
    pub memory: Vec<u8>,
    pub i_reg: u16,
    pub v_reg: Vec<u8>,
    pub program_counter: u16,
    pub stack: Vec<u16>,
    pub stack_pointer: u16,
    pub delay_timer: u8,
    pub sound_timer: u8,
    pub keypad: Vec<bool>,
    pub screen: Vec<bool>,
    pub rng: u16,
    pub mode: Mode,
}

impl View for Chip8 {
    type V = Chip8View;

    open spec fn view(&self) -> Chip8View {
        Chip8View {
            mem: self.memory@,
            i_reg: self.i_reg,
            v: self.v_reg@,
            pc: self.program_counter,
            stack: self.stack@,
            sp: self.stack_pointer,
            delay: self.delay_timer,
            sound: self.sound_timer,
            keys: self.keypad@,
            screen: self.screen@,
            rng: self.rng,
            mode: self.mode,
        }
    }
}

/// The state a fresh or reset machine is in: font table in the first 80
/// cells, everything else zeroed, program counter at the start-of-program
/// address 0x200, generator at its fixed seed.
pub open spec fn initial_view() -> Chip8View {
    Chip8View {
        mem: Seq::new(4096, |j: int| if 0 <= j < 80 { font_seq()[j] } else { 0u8 }),
        i_reg: 0u16,
        v: Seq::new(16, |j: int| 0u8),
        pc: 0x200u16,
        stack: Seq::new(16, |j: int| 0u16),
        sp: 0u16,
        delay: 0u8,
        sound: 0u8,
        keys: Seq::new(16, |j: int| false),
        screen: Seq::new(2048, |j: int| false),
        rng: 0x2Au16,
        mode: Mode::Running,
    }
}

/// What a push does: with a free slot, the address goes to the next slot and
/// the pointer rises; with all sixteen slots in use it fails `StackOverflow`
/// and changes nothing.
pub open spec fn spec_push(pre: Chip8View, address: u16) -> (Chip8View, Result<(), Chip8Error>) {
    if pre.sp < 16 {
        (
            Chip8View {
                stack: pre.stack.update(pre.sp as int, address),
                sp: (pre.sp + 1) as u16,
                ..pre
            },
            Ok(()),
        )
    } else {
        (pre, Err(Chip8Error::StackOverflow))
    }
}

/// What a pop does: with a non-empty stack, the pointer drops and the address
/// at the new top is returned; with an empty stack it fails `StackUnderflow`
/// and changes nothing.
pub open spec fn spec_pop(pre: Chip8View) -> (Chip8View, Result<u16, Chip8Error>) {
    if pre.sp == 0 {
        (pre, Err(Chip8Error::StackUnderflow))
    } else {
        (
            Chip8View { sp: (pre.sp - 1) as u16, ..pre },
            Ok(pre.stack[pre.sp - 1]),
        )
    }
}

/// What loading a program does: the bytes are written verbatim from address
/// 0x200 on, or the load fails `ProgramTooLarge` and changes nothing.
pub open spec fn spec_load(pre: Chip8View, bytes: Seq<u8>) -> (Chip8View, Result<(), Chip8Error>) {
    if 0x200 + bytes.len() > 4096 {
        (pre, Err(Chip8Error::ProgramTooLarge))
    } else {
        (
            Chip8View {
                mem: Seq::new(
                    4096,
                    |j: int| if 0x200 <= j < 0x200 + bytes.len() { bytes[j - 0x200] } else { pre.mem[j] },
                ),
                ..pre
            },
            Ok(()),
        )
    }
}

pub(crate) fn zero_bytes(n: usize) -> (v: Vec<u8>)
    ensures
        v@ == Seq::new(n as nat, |j: int| 0u8),
{
    let mut v: Vec<u8> = Vec::new();
    let mut k: usize = 0;
    while k < n
        invariant
            k <= n,
            v@.len() == k,
            forall|j: int| 0 <= j < k ==> v@[j] == 0u8,
        decreases n - k,
    {
        v.push(0);
        k += 1;
    }
    proof {
        assert(v@ =~= Seq::new(n as nat, |j: int| 0u8));
    }
    v
}

pub(crate) fn zero_words(n: usize) -> (v: Vec<u16>)
    ensures
        v@ == Seq::new(n as nat, |j: int| 0u16),
{
    let mut v: Vec<u16> = Vec::new();
    let mut k: usize = 0;
    while k < n
        invariant
            k <= n,
            v@.len() == k,
            forall|j: int| 0 <= j < k ==> v@[j] == 0u16,
        decreases n - k,
    {
        v.push(0);
        k += 1;
    }
    proof {
        assert(v@ =~= Seq::new(n as nat, |j: int| 0u16));
    }
    v
}

pub(crate) fn clear_cells(n: usize) -> (v: Vec<bool>)
    ensures
        v@ == Seq::new(n as nat, |j: int| false),
{
    let mut v: Vec<bool> = Vec::new();
    let mut k: usize = 0;
    while k < n
        invariant
            k <= n,
            v@.len() == k,
            forall|j: int| 0 <= j < k ==> v@[j] == false,
        decreases n - k,
    {
        v.push(false);
        k += 1;
    }
    proof {
        assert(v@ =~= Seq::new(n as nat, |j: int| false));
    }
    v
}

impl Chip8 {
    /// A fresh machine in the initial state.
    pub fn new() -> (c: Chip8)
        ensures
            c@ == initial_view(),
            c@.wf(),
    {
        let mut c = Chip8 {
            memory: zero_bytes(4096),
            i_reg: 0,
            v_reg: zero_bytes(16),
            program_counter: 0x200,
            stack: zero_words(16),
            stack_pointer: 0,
            delay_timer: 0,
            sound_timer: 0,
            keypad: clear_cells(16),
            screen: clear_cells(2048),
            rng: 0x2A,
            mode: Mode::Running,
        };
        c.load_font();
        proof {
            assert(c@ =~~= initial_view());
        }
        c
    }

    /// Return the machine to the initial state: zero every register, timer,
    /// key flag, pixel and memory cell, rewrite the font table, and put the
    /// program counter back at 0x200.
    pub fn reset(&mut self)
        ensures
            final(self)@ == initial_view(),
            final(self)@.wf(),
    {
        self.memory = zero_bytes(4096);
        self.i_reg = 0;
        self.v_reg = zero_bytes(16);
        self.program_counter = 0x200;
        self.stack = zero_words(16);
        self.stack_pointer = 0;
        self.delay_timer = 0;
        self.sound_timer = 0;
        self.keypad = clear_cells(16);
        self.screen = clear_cells(2048);
        self.rng = 0x2A;
        self.mode = Mode::Running;
        self.load_font();
        proof {
            assert(self@ =~~= initial_view());
        }
    }

    /// Write the font table into the first 80 memory cells, leaving the rest
    /// of the state alone.
    pub fn load_font(&mut self)
        requires
            old(self)@.wf(),
        ensures
            final(self)@ == (Chip8View {
                mem: Seq::new(
                    4096,
                    |j: int| if 0 <= j < 80 { font_seq()[j] } else { old(self)@.mem[j] },
                ),
                ..old(self)@
            }),
            final(self)@.wf(),
    {
        let f = font_data();
        let mut k: usize = 0;
        while k < 80
            invariant
                k <= 80,
                f@ == font_seq(),
                self@ == (Chip8View { mem: self@.mem, ..old(self)@ }),
                self@.mem.len() == 4096,
                forall|j: int| 0 <= j < k ==> self@.mem[j] == font_seq()[j],
                forall|j: int| k <= j < 4096 ==> self@.mem[j] == old(self)@.mem[j],
            decreases 80 - k,
        {
            let b = f[k];
            self.memory.set(k, b);
            k += 1;
        }
        proof {
            assert(self@ =~~= (Chip8View {
                mem: Seq::new(
                    4096,
                    |j: int| if 0 <= j < 80 { font_seq()[j] } else { old(self)@.mem[j] },
                ),
                ..old(self)@
            }));
        }
    }

    /// Push a return address; fails `StackOverflow` (changing nothing) when
    /// all sixteen slots are in use.
    pub fn push_to_stack(&mut self, address: u16) -> (r: Result<(), Chip8Error>)
        requires
            old(self)@.wf(),
        ensures
            final(self)@ == spec_push(old(self)@, address).0,
            r == spec_push(old(self)@, address).1,
            final(self)@.wf(),
    {
        if self.stack_pointer < 16 {
            let sp = self.stack_pointer as usize;
            self.stack.set(sp, address);
            self.stack_pointer = self.stack_pointer + 1;
            Ok(())
        } else {
            Err(Chip8Error::StackOverflow)
        }
    }

    /// Pop a return address; fails `StackUnderflow` (changing nothing) when
    /// the stack is empty.
    pub fn pop_from_stack(&mut self) -> (r: Result<u16, Chip8Error>)
        requires
            old(self)@.wf(),
        ensures
            final(self)@ == spec_pop(old(self)@).0,
            r == spec_pop(old(self)@).1,
            final(self)@.wf(),
    {
        if self.stack_pointer == 0 {
            Err(Chip8Error::StackUnderflow)
        } else {
            self.stack_pointer = self.stack_pointer - 1;
            let sp = self.stack_pointer as usize;
            Ok(self.stack[sp])
        }
    }

    /// One external timer tick: each timer that is positive drops by one;
    /// neither goes below zero; nothing else changes.
    pub fn timer_tick(&mut self)
        ensures
            final(self)@ == (Chip8View {
                delay: if old(self)@.delay > 0 { (old(self)@.delay - 1) as u8 } else { 0u8 },
                sound: if old(self)@.sound > 0 { (old(self)@.sound - 1) as u8 } else { 0u8 },
                ..old(self)@
            }),
    {
        if self.delay_timer > 0 {
            self.delay_timer = self.delay_timer - 1;
        }
        if self.sound_timer > 0 {
            self.sound_timer = self.sound_timer - 1;
        }
    }

    /// Record a key press or release from the host input collaborator.
    pub fn set_key(&mut self, index: usize, pressed: bool)
        requires
            old(self)@.wf(),
            index < 16,
        ensures
            final(self)@ == (Chip8View {
                keys: old(self)@.keys.update(index as int, pressed),
                ..old(self)@
            }),
            final(self)@.wf(),
    {
        self.keypad.set(index, pressed);
    }

    /// Write a program image into memory starting at address 0x200; fails
    /// `ProgramTooLarge` (changing nothing) when it would run past the end of
    /// memory.
    pub fn load_program(&mut self, program: &Vec<u8>) -> (r: Result<(), Chip8Error>)
        requires
            old(self)@.wf(),
        ensures
            final(self)@ == spec_load(old(self)@, program@).0,
            r == spec_load(old(self)@, program@).1,
            final(self)@.wf(),
    {
        if program.len() > 4096 - 0x200 {
            return Err(Chip8Error::ProgramTooLarge);
        }
        let mut k: usize = 0;
        while k < program.len()
            invariant
                k <= program@.len(),
                program@.len() <= 4096 - 0x200,
                self@ == (Chip8View { mem: self@.mem, ..old(self)@ }),
                self@.mem.len() == 4096,
                forall|j: int| 0x200 <= j < 0x200 + k ==> self@.mem[j] == program@[j - 0x200],
                forall|j: int|
                    0 <= j < 4096 && !(0x200 <= j < 0x200 + k) ==> self@.mem[j] == old(self)@.mem[j],
            decreases program@.len() - k,
        {
            let b = program[k];
            self.memory.set(0x200 + k, b);
            k += 1;
        }
        proof {
            assert(self@ =~~= spec_load(old(self)@, program@).0);
        }
        Ok(())
    }

    /// The pixel grid, row-major (index = row * 64 + column), read-only.
    pub fn pixel_grid(&self) -> (grid: &Vec<bool>)
        ensures
            grid@ == self@.screen,
    {
        &self.screen
    }

    /// One pixel of the grid, at column `x` of row `y`.
    pub fn pixel(&self, x: usize, y: usize) -> (b: bool)
        requires
            self@.wf(),
            x < 64,
            y < 32,
        ensures
            b == self@.screen[y * 64 + x],
    {
        self.screen[y * 64 + x]
    }

    /// Whether the sound collaborator should be producing audio: true exactly
    /// while the sound timer is positive.
    pub fn sound_active(&self) -> (r: bool)
        ensures
            r == (self@.sound > 0),
    {
        self.sound_timer > 0
    }
}

} // verus!
