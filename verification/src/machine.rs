//! The execution engine: owns the canonical code, its jump table, the
//! growable byte tape, the tape cursor and the instruction pointer, and
//! advances the machine one instruction per call. All interactive input
//! and output stays with the caller: a step hands back the byte to emit,
//! and takes the byte last read when the machine asks for input.

use std::collections::HashMap;
use vstd::prelude::*;

use crate::brackets::bracemap_of;
use crate::brackets::build_bracemap;
use crate::brackets::depth;
use crate::brackets::lemma_bracemap_ok;

verus! {

broadcast use vstd::std_specs::hash::group_hash_axioms;

/// The engine's two states: `Running` while the instruction pointer is
/// inside the code, `Halted` once it has reached or passed the end.
#[derive(Clone, Copy, Debug, PartialEq, Eq, Structural)]
pub enum Status {
    Running,
    Halted,
}

/// A runtime fault that stops the machine with its state unchanged.
#[derive(Clone, Copy, Debug, PartialEq, Eq, Structural)]
pub enum StepError {
    /// A move-left instruction with the cursor already at cell 0.
    CursorUnderflow,
    /// A jump-if-zero taken at a forward jump that no backward jump closes.
    UnmatchedForwardJump,
    /// The tape cannot grow to cover the cursor position.
    TapeOverflow,
}

/// The structural error found before execution begins.
#[derive(Clone, Copy, Debug, PartialEq, Eq, Structural)]
pub enum SyntaxError {
    /// A backward jump with no forward jump open, so no jump table exists.
    UnmatchedBackwardJump,
}

/// The machine's abstract state: the contracts below speak of this.
pub ghost struct MachineView {
    /// The canonical program, immutable for the run.
    pub code: Seq<char>,
    /// The jump table pairing forward and backward jumps, both directions.
    pub jumps: Map<usize, usize>,
    /// The materialized prefix of the conceptually infinite zero tape.
    pub tape: Seq<u8>,
    /// The tape cursor.
    pub cursor: usize,
    /// The instruction pointer.
    pub ip: usize,
}

/// The value of the cell at `cursor`: zero wherever the tape has not been
/// materialized yet.
pub open spec fn spec_cell(tape: Seq<u8>, cursor: usize) -> u8 {
    if cursor < tape.len() {
        tape[cursor as int]
    } else {
        0
    }
}

/// One increment of a byte cell, wrapping 255 to 0.
pub open spec fn inc_cell(v: u8) -> u8 {
    if v == 255 {
        0
    } else {
        (v + 1) as u8
    }
}

/// One decrement of a byte cell, wrapping 0 to 255.
pub open spec fn dec_cell(v: u8) -> u8 {
    if v == 0 {
        255
    } else {
        (v - 1) as u8
    }
}

/// The tape materialized up to and including `cursor`, new cells zero;
/// never grown beyond that, and never shrunk.
pub open spec fn grown(tape: Seq<u8>, cursor: usize) -> Seq<u8> {
    if cursor < tape.len() {
        tape
    } else {
        tape + Seq::new((cursor + 1 - tape.len()) as nat, |k: int| 0u8)
    }
}

impl MachineView {
    /// Well-formedness: the jump table is the one the bracket matcher
    /// builds for this code, the cursor never leads the materialized
    /// tape, and code and tape fit the machine's index type.
    pub open spec fn wf(self) -> bool {
        &&& bracemap_of(self.code) == Some(self.jumps)
        &&& self.cursor <= self.tape.len()
        &&& self.tape.len() <= usize::MAX
        &&& self.code.len() <= usize::MAX
    }

    /// The machine still has an instruction to execute.
    pub open spec fn running(self) -> bool {
        self.ip < self.code.len()
    }

    /// The value of the cell under the cursor.
    pub open spec fn cell(self) -> u8 {
        spec_cell(self.tape, self.cursor)
    }
}

/// What one step does: either a fault, leaving the state untouched, or
/// the next state together with the byte to emit, if any. The tape is
/// first materialized up to the cursor; then the instruction at `ip` is
/// dispatched; every instruction advances `ip` by one, a taken jump
/// redirecting it to the matched position first. Characters that are not
/// instructions have no effect.
pub open spec fn spec_step(s: MachineView, input: u8) -> Result<
    (MachineView, Option<u8>),
    StepError,
>
    recommends
        s.running(),
{
    let c = s.code[s.ip as int];
    let cell = spec_cell(s.tape, s.cursor);
    if s.cursor >= s.tape.len() && s.cursor == usize::MAX {
        Err(StepError::TapeOverflow)
    } else if c == '<' && s.cursor == 0 {
        Err(StepError::CursorUnderflow)
    } else if c == '[' && cell == 0 && !s.jumps.contains_key(s.ip) {
        Err(StepError::UnmatchedForwardJump)
    } else {
        let tape = grown(s.tape, s.cursor);
        let ip1 = (s.ip + 1) as usize;
        if c == '>' {
            Ok(
                (
                    MachineView {
                        tape,
                        cursor: (s.cursor + 1) as usize,
                        ip: ip1,
                        code: s.code,
                        jumps: s.jumps,
                    },
                    None,
                ),
            )
        } else if c == '<' {
            Ok(
                (
                    MachineView {
                        tape,
                        cursor: (s.cursor - 1) as usize,
                        ip: ip1,
                        code: s.code,
                        jumps: s.jumps,
                    },
                    None,
                ),
            )
        } else if c == '+' {
            Ok(
                (
                    MachineView {
                        tape: tape.update(s.cursor as int, inc_cell(cell)),
                        cursor: s.cursor,
                        ip: ip1,
                        code: s.code,
                        jumps: s.jumps,
                    },
                    None,
                ),
            )
        } else if c == '-' {
            Ok(
                (
                    MachineView {
                        tape: tape.update(s.cursor as int, dec_cell(cell)),
                        cursor: s.cursor,
                        ip: ip1,
                        code: s.code,
                        jumps: s.jumps,
                    },
                    None,
                ),
            )
        } else if c == '[' {
            let ip2 = if cell == 0 {
                (s.jumps[s.ip] + 1) as usize
            } else {
                ip1
            };
            Ok(
                (
                    MachineView { tape, cursor: s.cursor, ip: ip2, code: s.code, jumps: s.jumps },
                    None,
                ),
            )
        } else if c == ']' {
            let ip2 = if cell != 0 {
                (s.jumps[s.ip] + 1) as usize
            } else {
                ip1
            };
            Ok(
                (
                    MachineView { tape, cursor: s.cursor, ip: ip2, code: s.code, jumps: s.jumps },
                    None,
                ),
            )
        } else if c == '.' {
            Ok(
                (
                    MachineView { tape, cursor: s.cursor, ip: ip1, code: s.code, jumps: s.jumps },
                    if cell < 128 {
                        Some(cell)
                    } else {
                        None
                    },
                ),
            )
        } else if c == ',' {
            Ok(
                (
                    MachineView {
                        tape: tape.update(s.cursor as int, input),
                        cursor: s.cursor,
                        ip: ip1,
                        code: s.code,
                        jumps: s.jumps,
                    },
                    None,
                ),
            )
        } else {
            Ok(
                (
                    MachineView { tape, cursor: s.cursor, ip: ip1, code: s.code, jumps: s.jumps },
                    None,
                ),
            )
        }
    }
}

/// The execution engine.
pub struct Machine {
    code: String,
    jumps: HashMap<usize, usize>,
    tape: Vec<u8>,
    cursor: usize,
    ip: usize,
}

impl View for Machine {
    type V = MachineView;

    closed spec fn view(&self) -> MachineView {
        MachineView {
            code: self.code@,
            jumps: self.jumps@,
            tape: self.tape@,
            cursor: self.cursor,
            ip: self.ip,
        }
    }
}

/// Materialize the tape up to and including `cursor`, zero-filling.
fn grow_to(tape: &mut Vec<u8>, cursor: usize)
    requires
        cursor < usize::MAX,
    ensures
        final(tape)@ == grown(old(tape)@, cursor),
        cursor < final(tape)@.len(),
{
    if cursor < tape.len() {
        return ;
    }
    let ghost tape0 = tape@;
    while tape.len() <= cursor
        invariant
            cursor < usize::MAX,
            tape0.len() <= tape@.len() <= cursor + 1,
            tape@ =~= tape0 + Seq::new((tape@.len() - tape0.len()) as nat, |k: int| 0u8),
        decreases cursor + 1 - tape.len(),
    {
        tape.push(0u8);
    }
    assert(tape@ =~= grown(tape0, cursor));
}

impl Machine {
    /// Build the engine for a canonical program: construct its jump table,
    /// failing exactly on an unmatched backward jump, and start `Running`
    /// at instruction pointer 0, cursor 0, with an empty tape.
    pub fn new(code: String) -> (r: Result<Machine, SyntaxError>)
        ensures
            match r {
                Ok(m) => {
                    &&& m@.wf()
                    &&& m@.code == code@
                    &&& m@.tape == Seq::<u8>::empty()
                    &&& m@.cursor == 0
                    &&& m@.ip == 0
                    &&& bracemap_of(code@) == Some(m@.jumps)
                },
                Err(e) => e == SyntaxError::UnmatchedBackwardJump && bracemap_of(code@) is None,
            },
            (r is Err) <==> exists|j: int|
                0 <= j < code@.len() && code@[j] == ']' && depth(code@, j) <= 0,
    {
        let n = code.as_str().unicode_len();
        match build_bracemap(code.as_str()) {
            None => Err(SyntaxError::UnmatchedBackwardJump),
            Some(b) => Ok(Machine { code, jumps: b, tape: Vec::new(), cursor: 0, ip: 0 }),
        }
    }

    /// `Running` while the instruction pointer is a valid index into the
    /// code, `Halted` otherwise; an empty program is halted at once.
    pub fn status(&self) -> (st: Status)
        ensures
            st == if self@.running() {
                Status::Running
            } else {
                Status::Halted
            },
    {
        if self.ip < self.code.as_str().unicode_len() {
            Status::Running
        } else {
            Status::Halted
        }
    }

    /// Whether the next step will consume the input byte passed to it:
    /// true exactly when the machine is running at an input instruction.
    pub fn needs_input(&self) -> (b: bool)
        ensures
            b == (self@.running() && self@.code[self@.ip as int] == ','),
    {
        if self.ip < self.code.as_str().unicode_len() {
            self.code.as_str().get_char(self.ip) == ','
        } else {
            false
        }
    }

    /// Execute the instruction under the instruction pointer, as
    /// `spec_step` describes. `input` is stored only by an input
    /// instruction and ignored by every other; an output instruction
    /// returns `Ok(Some(byte))` for a single-unit-encodable cell value
    /// (below 128) and silently drops the rest. A fault leaves the
    /// machine exactly as it was.
    pub fn step(&mut self, input: u8) -> (r: Result<Option<u8>, StepError>)
        requires
            old(self)@.wf(),
            old(self)@.running(),
        ensures
            final(self)@.wf(),
            final(self)@.code == old(self)@.code,
            final(self)@.jumps == old(self)@.jumps,
            match spec_step(old(self)@, input) {
                Ok(res) => r == Ok::<Option<u8>, StepError>(res.1) && final(self)@ == res.0,
                Err(e) => r == Err::<Option<u8>, StepError>(e) && final(self)@ == old(self)@,
            },
    {
        proof {
            lemma_bracemap_ok(self.code@, self.jumps@);
        }
        let c = self.code.as_str().get_char(self.ip);
        let cell: u8 = if self.cursor < self.tape.len() {
            self.tape[self.cursor]
        } else {
            0
        };
        if self.cursor >= self.tape.len() && self.cursor == usize::MAX {
            return Err(StepError::TapeOverflow);
        }
        if c == '<' && self.cursor == 0 {
            return Err(StepError::CursorUnderflow);
        }
        if c == '[' && cell == 0 && !self.jumps.contains_key(&self.ip) {
            return Err(StepError::UnmatchedForwardJump);
        }
        grow_to(&mut self.tape, self.cursor);
        match c {
            '>' => {
                self.cursor = self.cursor + 1;
                self.ip = self.ip + 1;
                Ok(None)
            },
            '<' => {
                self.cursor = self.cursor - 1;
                self.ip = self.ip + 1;
                Ok(None)
            },
            '+' => {
                self.tape[self.cursor] = if cell < 255 {
                    cell + 1
                } else {
                    0
                };
                self.ip = self.ip + 1;
                Ok(None)
            },
            '-' => {
                self.tape[self.cursor] = if cell > 0 {
                    cell - 1
                } else {
                    255
                };
                self.ip = self.ip + 1;
                Ok(None)
            },
            '[' => {
                if cell == 0 {
                    let t = *self.jumps.get(&self.ip).unwrap();
                    self.ip = t + 1;
                } else {
                    self.ip = self.ip + 1;
                }
                Ok(None)
            },
            ']' => {
                if cell != 0 {
                    assert(self.jumps@.contains_key(self.ip));
                    let t = *self.jumps.get(&self.ip).unwrap();
                    self.ip = t + 1;
                } else {
                    self.ip = self.ip + 1;
                }
                Ok(None)
            },
            '.' => {
                self.ip = self.ip + 1;
                if cell < 128 {
                    Ok(Some(cell))
                } else {
                    Ok(None)
                }
            },
            ',' => {
                self.tape[self.cursor] = input;
                self.ip = self.ip + 1;
                Ok(None)
            },
            _ => {
                self.ip = self.ip + 1;
                Ok(None)
            },
        }
    }

    /// The value of cell `i`: zero wherever the tape has not been
    /// materialized.
    pub fn cell_at(&self, i: usize) -> (v: u8)
        ensures
            v == spec_cell(self@.tape, i),
    {
        if i < self.tape.len() {
            self.tape[i]
        } else {
            0
        }
    }

    /// How many cells the tape has materialized so far.
    pub fn tape_len(&self) -> (n: usize)
        ensures
            n == self@.tape.len(),
    {
        self.tape.len()
    }

    /// The tape cursor.
    pub fn cursor_pos(&self) -> (p: usize)
        ensures
            p == self@.cursor,
    {
        self.cursor
    }

    /// The instruction pointer.
    pub fn instruction_pos(&self) -> (p: usize)
        ensures
            p == self@.ip,
    {
        self.ip
    }
}

/// Incrementing then decrementing the cell under the cursor, or the
/// reverse, returns it to its original value, for every starting value:
/// increment wraps 255 to 0 and decrement wraps 0 to 255.
pub proof fn lemma_inc_dec_roundtrip(v: u8)
    ensures
        dec_cell(inc_cell(v)) == v,
        inc_cell(dec_cell(v)) == v,
{
}

/// A step on an increment instruction followed by a step on a decrement
/// instruction, with no move between, leaves the cell under the cursor
/// at its original value, whatever that value was.
pub proof fn lemma_step_inc_then_dec(s: MachineView, input1: u8, input2: u8)
    requires
        s.wf(),
        s.running(),
        s.cursor < usize::MAX,
        s.code[s.ip as int] == '+',
        s.ip + 1 < s.code.len(),
        s.code[s.ip + 1] == '-',
    ensures
        ({
            let r1 = spec_step(s, input1);
            &&& r1 is Ok
            &&& {
                let s1 = r1->Ok_0.0;
                let r2 = spec_step(s1, input2);
                &&& r2 is Ok
                &&& spec_cell(r2->Ok_0.0.tape, r2->Ok_0.0.cursor) == spec_cell(s.tape, s.cursor)
                &&& r2->Ok_0.0.cursor == s.cursor
            }
        }),
{
    let r1 = spec_step(s, input1);
    let s1 = r1->Ok_0.0;
    assert(s1.cursor == s.cursor);
    assert(s1.ip == s.ip + 1);
    assert(spec_cell(s1.tape, s1.cursor) == inc_cell(spec_cell(s.tape, s.cursor)));
    let r2 = spec_step(s1, input2);
    assert(r2 is Ok);
    let s2 = r2->Ok_0.0;
    assert(spec_cell(s2.tape, s2.cursor) == dec_cell(inc_cell(spec_cell(s.tape, s.cursor))));
}

} // verus!
