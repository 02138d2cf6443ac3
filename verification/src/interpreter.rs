//! The execution engine: a tape of byte cells, a memory pointer, a program
//! counter, and in-memory input and output streams.

use vstd::prelude::*;

use crate::cli::InterpreterConfig;
use crate::text::{decimal, joined_decimals, push_decimal, push_joined_decimals};
use crate::program::{Program, syntax_ok};
use crate::token::{Token, TokenModel};
use crate::tokenizer::{
    balanced, brackets_match, is_bracket, is_jump_table, jump_table_of, lemma_jump_table_unique, tokenization,
};

verus! {

/// Number of cells on the tape of an interpreter built by [`Interpreter::new`].
pub const DEFAULT_TAPE_SIZE: usize = 500;

/// Stored at the current cell when `,` reads past the end of input.
pub const EOF_BYTE: u8 = 0;

/// What can stop a program.
#[derive(Debug)]
pub enum RuntimeError {
    /// `<` at cell 0 or `>` past the last cell.
    MemoryPointerOutOfBounds { pc: usize, pointer: usize },
    /// Memory access outside the tape.
    MemoryAccessOutOfBounds { cell: usize, tape_size: usize },
    /// Program counter outside the program.
    InstructionFetch { pc: usize },
    /// I/O failure on the input or output stream.
    Io(std::io::Error),
}

impl RuntimeError {
    /// The error's message.
    pub fn to_string(&self) -> (s: String)
        ensures
            match self {
                RuntimeError::MemoryPointerOutOfBounds { pc, pointer } => s@ == "memory pointer "@
                    + decimal(*pointer as nat) + " out of bounds at pc="@ + decimal(*pc as nat),
                RuntimeError::MemoryAccessOutOfBounds { cell, tape_size } => s@
                    == "memory access at cell="@ + decimal(*cell as nat) + " while tape size is "@
                    + decimal(*tape_size as nat),
                RuntimeError::InstructionFetch { pc } => s@ == "failed to fetch instruction at pc="@
                    + decimal(*pc as nat),
                RuntimeError::Io(e) => exists|t: String|
                    vstd::string::to_string_from_display_ensures::<std::io::Error>(e, t) && s@
                        == "io error: "@ + t@,
            },
    {
        match self {
            RuntimeError::MemoryPointerOutOfBounds { pc, pointer } => {
                let mut s = String::from_str("memory pointer ");
                push_decimal(&mut s, *pointer);
                s.append(" out of bounds at pc=");
                push_decimal(&mut s, *pc);
                s
            },
            RuntimeError::MemoryAccessOutOfBounds { cell, tape_size } => {
                let mut s = String::from_str("memory access at cell=");
                push_decimal(&mut s, *cell);
                s.append(" while tape size is ");
                push_decimal(&mut s, *tape_size);
                s
            },
            RuntimeError::InstructionFetch { pc } => {
                let mut s = String::from_str("failed to fetch instruction at pc=");
                push_decimal(&mut s, *pc);
                s
            },
            RuntimeError::Io(e) => {
                let t = e.to_string();
                let mut s = String::from_str("io error: ");
                s.append(t.as_str());
                s
            },
        }
    }

    /// The I/O error underneath, for an I/O failure.
    pub fn source(&self) -> (r: Option<&std::io::Error>)
        ensures
            match self {
                RuntimeError::Io(e) => r == Some(e),
                _ => r is None,
            },
    {
        match self {
            RuntimeError::Io(e) => Some(e),
            _ => None,
        }
    }
}

/// The complete state of an interpreter as mathematical values.
#[verifier::ext_equal]
pub struct MachineState {
    /// Index of the next instruction.
    pub pc: usize,
    /// Index of the current cell.
    pub pointer: usize,
    /// The tape.
    pub memory: Seq<u8>,
    /// The input not read yet.
    pub input: Seq<u8>,
    /// Everything written so far.
    pub output: Seq<u8>,
    /// The program's tokens.
    pub program: Seq<TokenModel>,
    /// The program's bracket table.
    pub table: Map<usize, usize>,
}

/// A cell incremented with wrap-around (255 becomes 0).
pub open spec fn cell_inc(x: u8) -> u8 {
    if x == 255 {
        0
    } else {
        (x + 1) as u8
    }
}

/// A cell decremented with wrap-around (0 becomes 255).
pub open spec fn cell_dec(x: u8) -> u8 {
    if x == 0 {
        255
    } else {
        (x - 1) as u8
    }
}

/// The bytes by which a cell is written out: the UTF-8 encoding of the
/// character whose code is the cell's value.
pub open spec fn utf8_of(b: u8) -> Seq<u8> {
    if b < 0x80 {
        seq![b]
    } else {
        seq![(0xC0 + b / 64) as u8, (0x80 + b % 64) as u8]
    }
}

/// The memory pointer designates a cell of the tape.
pub open spec fn in_tape(s: MachineState) -> bool {
    s.pointer < s.memory.len()
}

/// The value of the current cell (meaningful when [`in_tape`]).
pub open spec fn current_cell(s: MachineState) -> u8 {
    s.memory[s.pointer as int]
}

/// The error of an access to the current cell when it is off the tape.
pub open spec fn access_error(s: MachineState) -> RuntimeError {
    RuntimeError::MemoryAccessOutOfBounds { cell: s.pointer, tape_size: s.memory.len() as usize }
}

/// The error of a pointer move off the tape.
pub open spec fn pointer_error(s: MachineState) -> RuntimeError {
    RuntimeError::MemoryPointerOutOfBounds { pc: s.pc, pointer: s.pointer }
}

/// `s` with the current cell set to `v`.
pub open spec fn with_cell(s: MachineState, v: u8) -> MachineState {
    MachineState { memory: s.memory.update(s.pointer as int, v), ..s }
}

/// `s` with the program counter set to `pc`.
pub open spec fn with_pc(s: MachineState, pc: usize) -> MachineState {
    MachineState { pc: pc, ..s }
}

/// A bracket instruction at the program counter that would jump has a
/// partner to jump to (this holds at every bracket of a well-formed program).
pub open spec fn can_execute(s: MachineState, t: TokenModel) -> bool {
    match t {
        TokenModel::LoopStart => in_tape(s) && current_cell(s) == 0 ==> s.table.contains_key(s.pc),
        TokenModel::LoopClose => in_tape(s) && current_cell(s) > 0 ==> s.table.contains_key(s.pc),
        _ => true,
    }
}

/// The effect of one instruction, before the program counter moves on: the
/// new state and whether the instruction succeeded. A failed instruction
/// changes nothing, except that `,` has already consumed its input byte.
pub open spec fn execute_spec(s: MachineState, t: TokenModel) -> (MachineState, Result<
    (),
    RuntimeError,
>) {
    match t {
        TokenModel::MoveLeft => if s.pointer == 0 {
            (s, Err(pointer_error(s)))
        } else {
            (MachineState { pointer: (s.pointer - 1) as usize, ..s }, Ok(()))
        },
        TokenModel::MoveRight => if s.pointer + 1 >= s.memory.len() {
            (s, Err(pointer_error(s)))
        } else {
            (MachineState { pointer: (s.pointer + 1) as usize, ..s }, Ok(()))
        },
        TokenModel::Increment => if !in_tape(s) {
            (s, Err(access_error(s)))
        } else {
            (with_cell(s, cell_inc(current_cell(s))), Ok(()))
        },
        TokenModel::Decrement => if !in_tape(s) {
            (s, Err(access_error(s)))
        } else {
            (with_cell(s, cell_dec(current_cell(s))), Ok(()))
        },
        TokenModel::Output => if !in_tape(s) {
            (s, Err(access_error(s)))
        } else {
            (MachineState { output: s.output + utf8_of(current_cell(s)), ..s }, Ok(()))
        },
        TokenModel::Input => {
            let byte = if s.input.len() > 0 {
                s.input[0]
            } else {
                EOF_BYTE
            };
            let s1 = MachineState {
                input: if s.input.len() > 0 {
                    s.input.drop_first()
                } else {
                    s.input
                },
                ..s
            };
            if !in_tape(s1) {
                (s1, Err(access_error(s1)))
            } else {
                (with_cell(s1, byte), Ok(()))
            }
        },
        TokenModel::LoopStart => if !in_tape(s) {
            (s, Err(access_error(s)))
        } else if current_cell(s) == 0 {
            (with_pc(s, s.table[s.pc]), Ok(()))
        } else {
            (s, Ok(()))
        },
        TokenModel::LoopClose => if !in_tape(s) {
            (s, Err(access_error(s)))
        } else if current_cell(s) > 0 {
            (with_pc(s, s.table[s.pc]), Ok(()))
        } else {
            (s, Ok(()))
        },
        TokenModel::Comment(_) => (s, Ok(())),
    }
}

/// One step: fetch the instruction at the program counter, execute it, and
/// move on to the next instruction when it succeeded.
pub open spec fn step_spec(s: MachineState) -> (MachineState, Result<(), RuntimeError>) {
    if s.pc >= s.program.len() {
        (s, Err(RuntimeError::InstructionFetch { pc: s.pc }))
    } else {
        let (s1, r) = execute_spec(s, s.program[s.pc as int]);
        match r {
            Ok(_) => (with_pc(s1, (s1.pc + 1) as usize), Ok(())),
            Err(e) => (s1, Err(e)),
        }
    }
}

/// Running for at most `fuel` steps: `Ok(true)` once the program counter is
/// past the last instruction, `Ok(false)` when the steps ran out first, or the
/// first error.
pub open spec fn run_spec(s: MachineState, fuel: nat) -> (MachineState, Result<bool, RuntimeError>)
    decreases fuel,
{
    if s.pc >= s.program.len() {
        (s, Ok(true))
    } else if fuel == 0 {
        (s, Ok(false))
    } else {
        let (s1, r) = step_spec(s);
        match r {
            Ok(_) => run_spec(s1, (fuel - 1) as nat),
            Err(e) => (s1, Err(e)),
        }
    }
}

/// The state of a fresh interpreter for `code`, with `tape_size` zero cells.
pub open spec fn initial_state(
    code: Seq<char>,
    tape_size: nat,
    input: Seq<u8>,
    output: Seq<u8>,
) -> MachineState {
    MachineState {
        pc: 0,
        pointer: 0,
        memory: Seq::new(tape_size, |i: int| 0u8),
        input: input,
        output: output,
        program: tokenization(code),
        table: jump_table_of(tokenization(code)),
    }
}

/// The program of a state is well formed: its brackets are balanced and the
/// table pairs them.
pub open spec fn machine_wf(s: MachineState) -> bool {
    &&& s.program.len() <= usize::MAX
    &&& s.memory.len() <= usize::MAX
    &&& balanced(s.program)
    &&& is_jump_table(s.program, s.table)
}

/// `+` followed by `-` on a cell of the tape gives back the state it started
/// from, and so does `-` followed by `+`.
pub proof fn lemma_increment_decrement_inverse(s: MachineState)
    requires
        in_tape(s),
    ensures
        execute_spec(execute_spec(s, TokenModel::Increment).0, TokenModel::Decrement) == (s, Ok::<
            (),
            RuntimeError,
        >(())),
        execute_spec(execute_spec(s, TokenModel::Decrement).0, TokenModel::Increment) == (s, Ok::<
            (),
            RuntimeError,
        >(())),
{
    let v = current_cell(s);
    assert(with_cell(with_cell(s, cell_inc(v)), cell_dec(cell_inc(v))).memory =~= s.memory);
    assert(with_cell(with_cell(s, cell_dec(v)), cell_inc(cell_dec(v))).memory =~= s.memory);
}

/// A `>` that succeeds is undone by a `<`.
pub proof fn lemma_move_right_left_inverse(s: MachineState)
    requires
        machine_wf(s),
        execute_spec(s, TokenModel::MoveRight).1 is Ok,
    ensures
        execute_spec(execute_spec(s, TokenModel::MoveRight).0, TokenModel::MoveLeft) == (s, Ok::<
            (),
            RuntimeError,
        >(())),
{
    let t = execute_spec(s, TokenModel::MoveRight).0;
    assert(execute_spec(t, TokenModel::MoveLeft).0 =~= s);
}

/// `t` is reachable from `s` without touching the program: the program, its
/// table and the tape length stay, the output only grows at the end, and the
/// input is only consumed from the front.
pub open spec fn evolves_to(s: MachineState, t: MachineState) -> bool {
    &&& t.program == s.program
    &&& t.table == s.table
    &&& t.memory.len() == s.memory.len()
    &&& s.output.len() <= t.output.len()
    &&& t.output.take(s.output.len() as int) == s.output
    &&& t.input.len() <= s.input.len()
    &&& s.input.skip(s.input.len() - t.input.len()) == t.input
}

/// One step changes at most the current cell, keeps the program, only
/// appends to the output and only consumes input.
pub proof fn lemma_step_frame(s: MachineState)
    ensures
        evolves_to(s, step_spec(s).0),
        forall|i: int|
            0 <= i < s.memory.len() && i != s.pointer ==> #[trigger] step_spec(s).0.memory[i]
                == s.memory[i],
{
    let t = step_spec(s).0;
    assert(s.output.take(s.output.len() as int) =~= s.output);
    assert(s.input.skip(0) =~= s.input);
    if t.output.len() > s.output.len() {
        assert(t.output.take(s.output.len() as int) =~= s.output);
    }
    if t.input.len() < s.input.len() {
        assert(s.input.skip(s.input.len() - t.input.len()) =~= t.input);
    }
}

/// A step that fails changes nothing, except that a failing `,` has still
/// consumed its input byte.
pub proof fn lemma_failed_step_keeps_state(s: MachineState)
    requires
        step_spec(s).1 is Err,
    ensures
        step_spec(s).0 == (MachineState { input: step_spec(s).0.input, ..s }),
        step_spec(s).0.input == s.input || (s.input.len() > 0 && step_spec(s).0.input
            == s.input.drop_first()),
{
    assert(step_spec(s).0 =~= (MachineState { input: step_spec(s).0.input, ..s }));
}

/// The pointer is on the tape and the program counter designates an
/// instruction or the point just past the last one.
pub open spec fn within_bounds(s: MachineState) -> bool {
    s.pointer < s.memory.len() && s.pc <= s.program.len()
}

/// A step keeps the pointer on the tape and the program counter within the
/// program (whether the step succeeds or fails), and keeps the tape length,
/// the program and its table; so a 500-cell tape stays 500 cells long.
pub proof fn lemma_step_keeps_bounds(s: MachineState)
    requires
        machine_wf(s),
        within_bounds(s),
    ensures
        within_bounds(step_spec(s).0),
        step_spec(s).0.memory.len() == s.memory.len(),
        step_spec(s).0.program == s.program,
        step_spec(s).0.table == s.table,
{
    if s.pc < s.program.len() {
        let t = s.program[s.pc as int];
        if t is LoopStart || t is LoopClose {
            assert(s.table.contains_key(s.pc));
            let j = s.table[s.pc];
            assert(brackets_match(s.program, s.pc as int, j as int) || brackets_match(
                s.program,
                j as int,
                s.pc as int,
            ));
        }
    }
}

/// Running keeps the pointer on the tape and the program counter within the
/// program, whatever the outcome, and keeps the tape length and the program.
pub proof fn lemma_run_keeps_bounds(s: MachineState, fuel: nat)
    requires
        machine_wf(s),
        within_bounds(s),
    ensures
        within_bounds(run_spec(s, fuel).0),
        run_spec(s, fuel).0.memory.len() == s.memory.len(),
        run_spec(s, fuel).0.program == s.program,
        run_spec(s, fuel).0.table == s.table,
    decreases fuel,
{
    if s.pc < s.program.len() && fuel > 0 {
        lemma_step_keeps_bounds(s);
        let (s1, r) = step_spec(s);
        if r is Ok {
            lemma_run_keeps_bounds(s1, (fuel - 1) as nat);
        }
    }
}

/// Reachability composes.
pub proof fn lemma_evolves_to_trans(s: MachineState, t: MachineState, u: MachineState)
    requires
        evolves_to(s, t),
        evolves_to(t, u),
    ensures
        evolves_to(s, u),
{
    assert(u.output.take(s.output.len() as int) =~= u.output.take(t.output.len() as int).take(
        s.output.len() as int,
    ));
    assert(s.input.skip(s.input.len() - u.input.len()) =~= s.input.skip(
        s.input.len() - t.input.len(),
    ).skip(t.input.len() - u.input.len()));
}

/// Running keeps the program, only appends to the output and only consumes
/// input.
pub proof fn lemma_run_frame(s: MachineState, fuel: nat)
    ensures
        evolves_to(s, run_spec(s, fuel).0),
    decreases fuel,
{
    assert(s.output.take(s.output.len() as int) =~= s.output);
    assert(s.input.skip(0) =~= s.input);
    if s.pc < s.program.len() && fuel > 0 {
        let (s1, r) = step_spec(s);
        lemma_step_frame(s);
        if r is Ok {
            lemma_run_frame(s1, (fuel - 1) as nat);
            lemma_evolves_to_trans(s, s1, run_spec(s1, (fuel - 1) as nat).0);
        }
    }
}

/// Running for `a + b` steps is running for `a` steps and then, if the
/// program neither halted nor failed, for `b` more.
pub proof fn lemma_run_split(s: MachineState, a: nat, b: nat)
    ensures
        run_spec(s, a + b) == (if run_spec(s, a).1 == Ok::<bool, RuntimeError>(false) {
            run_spec(run_spec(s, a).0, b)
        } else {
            run_spec(s, a)
        }),
    decreases a,
{
    if s.pc < s.program.len() && a > 0 {
        let (s1, r) = step_spec(s);
        if r is Ok {
            lemma_run_split(s1, (a - 1) as nat, b);
            assert((a - 1) as nat + b == (a + b - 1) as nat);
        }
    }
}

/// A halted program stays halted: running it changes nothing.
pub proof fn lemma_halted_is_stable(s: MachineState, fuel: nat)
    requires
        s.pc >= s.program.len(),
    ensures
        run_spec(s, fuel) == (s, Ok::<bool, RuntimeError>(true)),
{
}

/// A loop bracket that does not jump only moves on: `[` on a cell that is
/// not zero, and `]` on a cell that is zero, change nothing and succeed, so
/// the step just advances the program counter by one.
pub proof fn lemma_loop_falls_through(s: MachineState)
    requires
        machine_wf(s),
        in_tape(s),
    ensures
        current_cell(s) != 0 ==> execute_spec(s, TokenModel::LoopStart) == (s, Ok::<
            (),
            RuntimeError,
        >(())),
        current_cell(s) == 0 ==> execute_spec(s, TokenModel::LoopClose) == (s, Ok::<
            (),
            RuntimeError,
        >(())),
        s.pc < s.program.len() && ((s.program[s.pc as int] is LoopStart && current_cell(s) != 0)
            || (s.program[s.pc as int] is LoopClose && current_cell(s) == 0)) ==> {
            &&& step_spec(s).1 is Ok
            &&& step_spec(s).0.pc == s.pc + 1
            &&& step_spec(s).0.pointer == s.pointer
            &&& step_spec(s).0.memory == s.memory
            &&& step_spec(s).0.input == s.input
            &&& step_spec(s).0.output == s.output
        },
{
}

/// `>` succeeds exactly when the cell to the right lies on the tape,
/// whatever the tape's length, and then only moves the pointer one cell to
/// the right; `<` succeeds exactly when the pointer is not at cell 0, and then
/// only moves it one cell to the left. A refused move reports the program
/// counter and the pointer and changes nothing.
pub proof fn lemma_pointer_moves(s: MachineState)
    requires
        machine_wf(s),
    ensures
        ({
            let (t, r) = execute_spec(s, TokenModel::MoveRight);
            &&& (r is Ok <==> s.pointer + 1 < s.memory.len())
            &&& r is Ok ==> t.pointer == s.pointer + 1 && t.pc == s.pc && t.memory == s.memory
                && t.input == s.input && t.output == s.output && t.program == s.program
                && t.table == s.table
            &&& r is Err ==> t == s && r == Err::<(), RuntimeError>(
                RuntimeError::MemoryPointerOutOfBounds { pc: s.pc, pointer: s.pointer },
            )
        }),
        ({
            let (t, r) = execute_spec(s, TokenModel::MoveLeft);
            &&& (r is Ok <==> s.pointer > 0)
            &&& r is Ok ==> t.pointer == s.pointer - 1 && t.pc == s.pc && t.memory == s.memory
                && t.input == s.input && t.output == s.output && t.program == s.program
                && t.table == s.table
            &&& r is Err ==> t == s && r == Err::<(), RuntimeError>(
                RuntimeError::MemoryPointerOutOfBounds { pc: s.pc, pointer: s.pointer },
            )
        }),
{
}

/// `+` and `-` on a cell of the tape succeed and set that cell to its value
/// plus or minus one modulo 256, leaving every other part of the state as
/// it was.
pub proof fn lemma_cell_arithmetic(s: MachineState)
    requires
        in_tape(s),
    ensures
        ({
            let (t, r) = execute_spec(s, TokenModel::Increment);
            &&& r is Ok
            &&& t.memory.len() == s.memory.len()
            &&& t.memory[s.pointer as int] as int == (current_cell(s) + 1) % 256
            &&& forall|i: int|
                0 <= i < s.memory.len() && i != s.pointer ==> #[trigger] t.memory[i] == s.memory[i]
            &&& t == (MachineState { memory: t.memory, ..s })
        }),
        ({
            let (t, r) = execute_spec(s, TokenModel::Decrement);
            &&& r is Ok
            &&& t.memory.len() == s.memory.len()
            &&& t.memory[s.pointer as int] as int == (current_cell(s) + 255) % 256
            &&& forall|i: int|
                0 <= i < s.memory.len() && i != s.pointer ==> #[trigger] t.memory[i] == s.memory[i]
            &&& t == (MachineState { memory: t.memory, ..s })
        }),
{
    let (t, r) = execute_spec(s, TokenModel::Increment);
    assert(t =~= (MachineState { memory: t.memory, ..s }));
    let (t2, r2) = execute_spec(s, TokenModel::Decrement);
    assert(t2 =~= (MachineState { memory: t2.memory, ..s }));
}

/// `,` on a cell of the tape stores the first unread input byte there and
/// consumes it; with no input left it stores 0 and consumes nothing.
pub proof fn lemma_input_reads_front(s: MachineState)
    requires
        in_tape(s),
    ensures
        ({
            let (t, r) = execute_spec(s, TokenModel::Input);
            &&& r is Ok
            &&& t.memory == s.memory.update(
                s.pointer as int,
                if s.input.len() > 0 {
                    s.input[0]
                } else {
                    0
                },
            )
            &&& (if s.input.len() > 0 {
                t.input == s.input.subrange(1, s.input.len() as int)
            } else {
                t.input == s.input
            })
            &&& t == (MachineState { memory: t.memory, input: t.input, ..s })
        }),
{
    let (t, r) = execute_spec(s, TokenModel::Input);
    if s.input.len() > 0 {
        assert(s.input.drop_first() =~= s.input.subrange(1, s.input.len() as int));
    }
    assert(t =~= (MachineState { memory: t.memory, input: t.input, ..s }));
}

/// The character that a well-formed one- or two-byte UTF-8 sequence
/// encodes, or `None` when the bytes are not such a sequence.
pub open spec fn decode_utf8_char(bytes: Seq<u8>) -> Option<nat> {
    if bytes.len() == 1 && bytes[0] < 0x80 {
        Some(bytes[0] as nat)
    } else if bytes.len() == 2 && 0xC2 <= bytes[0] <= 0xDF && 0x80 <= bytes[1] <= 0xBF {
        Some(((bytes[0] - 0xC0) * 64 + (bytes[1] - 0x80)) as nat)
    } else {
        None
    }
}

/// The bytes by which a cell is written are valid UTF-8 for exactly one
/// character, whose code is the cell's value.
pub proof fn lemma_utf8_of_decodes(b: u8)
    ensures
        decode_utf8_char(utf8_of(b)) == Some(b as nat),
{
    if b >= 0x80 {
        assert(0xC2 <= 0xC0 + b / 64 <= 0xC3);
        assert(0x80 <= 0x80 + b % 64 <= 0xBF);
        assert((b / 64) * 64 + b % 64 == b);
    }
}

/// `.` on a cell of the tape appends bytes that decode as the one character
/// whose code is the cell's value, and changes nothing else.
pub proof fn lemma_output_writes_cell_character(s: MachineState)
    requires
        in_tape(s),
    ensures
        ({
            let (t, r) = execute_spec(s, TokenModel::Output);
            &&& r is Ok
            &&& t.output.len() > s.output.len()
            &&& t.output.take(s.output.len() as int) == s.output
            &&& decode_utf8_char(t.output.skip(s.output.len() as int)) == Some(
                current_cell(s) as nat,
            )
            &&& t == (MachineState { output: t.output, ..s })
        }),
{
    let (t, r) = execute_spec(s, TokenModel::Output);
    lemma_utf8_of_decodes(current_cell(s));
    assert(t.output.take(s.output.len() as int) =~= s.output);
    assert(t.output.skip(s.output.len() as int) =~= utf8_of(current_cell(s)));
    assert(t =~= (MachineState { output: t.output, ..s }));
}

/// At a `[` whose cell is zero, a step lands just after the matching `]`;
/// at a `]` whose cell is not zero, just after the matching `[`.
pub proof fn lemma_loop_jumps(s: MachineState)
    requires
        machine_wf(s),
        s.pc < s.program.len(),
        in_tape(s),
    ensures
        s.program[s.pc as int] is LoopStart && current_cell(s) == 0 ==> {
            &&& brackets_match(s.program, s.pc as int, step_spec(s).0.pc - 1)
            &&& step_spec(s).1 is Ok
        },
        s.program[s.pc as int] is LoopClose && current_cell(s) > 0 ==> {
            &&& brackets_match(s.program, step_spec(s).0.pc - 1, s.pc as int)
            &&& step_spec(s).1 is Ok
        },
{
    if s.program[s.pc as int] is LoopStart || s.program[s.pc as int] is LoopClose {
        assert(s.table.contains_key(s.pc));
        let j = s.table[s.pc];
        assert(brackets_match(s.program, s.pc as int, j as int) || brackets_match(
            s.program,
            j as int,
            s.pc as int,
        ));
        assert(j < s.program.len());
    }
}

/// The quoted, escaped text that `String`'s `Debug` implementation gives
/// for a string with the characters `s`.
pub uninterp spec fn string_debug_text(s: Seq<char>) -> Seq<char>;

/// Formats `s` with `format!("{:?}", s)`. Trusted: `String`'s `Debug` output
/// depends on the characters of the string alone, so it is named by
/// [`string_debug_text`]; what the quoting and escaping produce is left unsaid.
#[verifier::external_body]
fn debug_text(s: &String) -> (r: String)
    ensures
        r@ == string_debug_text(s@),
{
    format!("{:?}", s)
}

/// How a token is shown in the state text: the variant's name, and for a
/// comment its text in debug form.
pub open spec fn token_text(t: TokenModel) -> Seq<char> {
    match t {
        TokenModel::MoveLeft => "MoveLeft"@,
        TokenModel::MoveRight => "MoveRight"@,
        TokenModel::Increment => "Increment"@,
        TokenModel::Decrement => "Decrement"@,
        TokenModel::Output => "Output"@,
        TokenModel::Input => "Input"@,
        TokenModel::LoopStart => "LoopStart"@,
        TokenModel::LoopClose => "LoopClose"@,
        TokenModel::Comment(c) => "Comment("@ + string_debug_text(c) + ")"@,
    }
}

/// The text that shows an interpreter's state.
pub open spec fn state_text(s: MachineState) -> Seq<char> {
    let instruction = if s.pc < s.program.len() {
        token_text(s.program[s.pc as int])
    } else {
        "end of program"@
    };
    "---\nPC: "@ + decimal(s.pc as nat) + "\nInstruction: "@ + instruction
        + "\nMemory Pointer: "@ + decimal(s.pointer as nat) + "\nMemory Dump: ["@
        + joined_decimals(s.memory, ", "@) + "]"@
}

/// The state text starts with the program counter in decimal and ends with
/// the memory pointer in decimal followed by the whole tape.
pub proof fn lemma_state_text_fields(s: MachineState)
    ensures
        ({
            let text = state_text(s);
            let head = "---\nPC: "@ + decimal(s.pc as nat) + "\nInstruction: "@;
            let tail = "\nMemory Pointer: "@ + decimal(s.pointer as nat) + "\nMemory Dump: ["@
                + joined_decimals(s.memory, ", "@) + "]"@;
            &&& text.len() >= head.len() + tail.len()
            &&& text.take(head.len() as int) == head
            &&& text.skip(text.len() - tail.len()) == tail
        }),
{
    let text = state_text(s);
    let head = "---\nPC: "@ + decimal(s.pc as nat) + "\nInstruction: "@;
    let tail = "\nMemory Pointer: "@ + decimal(s.pointer as nat) + "\nMemory Dump: ["@
        + joined_decimals(s.memory, ", "@) + "]"@;
    let instruction = if s.pc < s.program.len() {
        token_text(s.program[s.pc as int])
    } else {
        "end of program"@
    };
    assert(text =~= head + instruction + tail);
    assert(text.take(head.len() as int) =~= head);
    assert(text.skip(text.len() - tail.len()) =~= tail);
}

/// Appends the state text of a token.
fn push_token_text(s: &mut String, t: &Token)
    ensures
        final(s)@ == old(s)@ + token_text(t@),
{
    match t {
        Token::MoveLeft => s.append("MoveLeft"),
        Token::MoveRight => s.append("MoveRight"),
        Token::Increment => s.append("Increment"),
        Token::Decrement => s.append("Decrement"),
        Token::Output => s.append("Output"),
        Token::Input => s.append("Input"),
        Token::LoopStart => s.append("LoopStart"),
        Token::LoopClose => s.append("LoopClose"),
        Token::Comment(c) => {
            s.append("Comment(");
            let d = debug_text(c);
            s.append(d.as_str());
            s.append(")");
        },
    }
}

/// A Brainfuck interpreter over in-memory input and output.
pub struct Interpreter {
    program_counter: usize,
    memory_pointer: usize,
    memory: Vec<u8>,
    program: Program,
    input: Vec<u8>,
    input_position: usize,
    output: Vec<u8>,
}

impl View for Interpreter {
    type V = MachineState;

    closed spec fn view(&self) -> MachineState {
        MachineState {
            pc: self.program_counter,
            pointer: self.memory_pointer,
            memory: self.memory@,
            input: self.input@.skip(self.input_position as int),
            output: self.output@,
            program: self.program.tokens(),
            table: self.program.jump_table@,
        }
    }
}

impl Interpreter {
    /// The program is well formed and the input position lies within the
    /// input. Every interpreter that the constructors build satisfies it, and
    /// every method keeps it.
    pub closed spec fn wf(&self) -> bool {
        &&& self.program.wf()
        &&& self.input_position <= self.input@.len()
        &&& machine_wf(self@)
    }

    /// A valid interpreter's state has a well-formed program: balanced
    /// brackets, paired by its table, and lengths that fit in `usize`.
    pub proof fn lemma_wf_machine(&self)
        requires
            self.wf(),
        ensures
            machine_wf(self@),
    {
    }

    /// An interpreter for `program_code` with [`DEFAULT_TAPE_SIZE`] zero cells.
    pub fn new(program_code: &str, input: Vec<u8>, output: Vec<u8>) -> (r: Self)
        requires
            syntax_ok(program_code@),
        ensures
            r@ == initial_state(program_code@, DEFAULT_TAPE_SIZE as nat, input@, output@),
            machine_wf(r@),
            r.wf(),
    {
        Self::with_config(program_code, &InterpreterConfig { memsize: DEFAULT_TAPE_SIZE }, input, output)
    }

    /// An interpreter for `program_code` with `config.memsize` zero cells.
    pub fn with_config(
        program_code: &str,
        config: &InterpreterConfig,
        input: Vec<u8>,
        output: Vec<u8>,
    ) -> (r: Self)
        requires
            syntax_ok(program_code@),
        ensures
            r@ == initial_state(program_code@, config.memsize as nat, input@, output@),
            machine_wf(r@),
            r.wf(),
    {
        let program = Program::from(program_code).unwrap();
        let memory = vec![0u8; config.memsize];
        proof {
            lemma_jump_table_unique(
                program.tokens(),
                program.jump_table@,
                jump_table_of(program.tokens()),
            );
            assert(memory@ =~= Seq::new(config.memsize as nat, |i: int| 0u8));
            assert(input@.skip(0) =~= input@);
            assert(program.instructions@.len() == program.instructions.len());
            assert(memory@.len() == memory.len());
        }
        Interpreter {
            program_counter: 0,
            memory_pointer: 0,
            memory,
            program,
            input,
            input_position: 0,
            output,
        }
    }

    /// The cell at `index`.
    pub fn fetch_memory(&self, index: usize) -> (r: Result<&u8, RuntimeError>)
        ensures
            match r {
                Ok(v) => index < self@.memory.len() && *v == self@.memory[index as int],
                Err(e) => index >= self@.memory.len() && e == (RuntimeError::MemoryAccessOutOfBounds {
                    cell: index,
                    tape_size: self@.memory.len() as usize,
                }),
            },
    {
        if self.memory.len() <= index {
            return Err(
                RuntimeError::MemoryAccessOutOfBounds { cell: index, tape_size: self.memory.len() },
            );
        }
        Ok(&self.memory[index])
    }

    /// `<`: moves the pointer one cell to the left; at cell 0 it fails.
    pub fn handle_move_left(&mut self) -> (r: Result<(), RuntimeError>)
        requires
            old(self).wf(),
        ensures
            final(self).wf(),
            (final(self)@, r) == execute_spec(old(self)@, TokenModel::MoveLeft),
    {
        if self.memory_pointer == 0 {
            return Err(
                RuntimeError::MemoryPointerOutOfBounds {
                    pc: self.program_counter,
                    pointer: self.memory_pointer,
                },
            );
        }
        self.memory_pointer = self.memory_pointer - 1;
        Ok(())
    }

    /// `>`: moves the pointer one cell to the right; from the last cell (or
    /// beyond) it fails.
    pub fn handle_move_right(&mut self) -> (r: Result<(), RuntimeError>)
        requires
            old(self).wf(),
        ensures
            final(self).wf(),
            (final(self)@, r) == execute_spec(old(self)@, TokenModel::MoveRight),
    {
        if self.memory.len() == 0 || self.memory_pointer >= self.memory.len() - 1 {
            return Err(
                RuntimeError::MemoryPointerOutOfBounds {
                    pc: self.program_counter,
                    pointer: self.memory_pointer,
                },
            );
        }
        self.memory_pointer = self.memory_pointer + 1;
        Ok(())
    }

    /// `+`: adds one to the current cell, wrapping 255 to 0.
    pub fn handle_increment(&mut self) -> (r: Result<(), RuntimeError>)
        requires
            old(self).wf(),
        ensures
            final(self).wf(),
            (final(self)@, r) == execute_spec(old(self)@, TokenModel::Increment),
    {
        let memory_value = self.fetch_memory_mut(self.memory_pointer)?;
        *memory_value = memory_value.wrapping_add(1);
        Ok(())
    }

    /// `-`: subtracts one from the current cell, wrapping 0 to 255.
    pub fn handle_decrement(&mut self) -> (r: Result<(), RuntimeError>)
        requires
            old(self).wf(),
        ensures
            final(self).wf(),
            (final(self)@, r) == execute_spec(old(self)@, TokenModel::Decrement),
    {
        let memory_value = self.fetch_memory_mut(self.memory_pointer)?;
        *memory_value = memory_value.wrapping_sub(1);
        Ok(())
    }

    /// The cell at `index`, to be changed in place.
    pub fn fetch_memory_mut(&mut self, index: usize) -> (r: Result<&mut u8, RuntimeError>)
        requires
            old(self).wf(),
        ensures
            final(self).wf(),
            match r {
                Ok(v) => {
                    &&& index < old(self)@.memory.len()
                    &&& *v == old(self)@.memory[index as int]
                    &&& final(self)@ == MachineState {
                        memory: old(self)@.memory.update(index as int, *final(v)),
                        ..old(self)@
                    }
                },
                Err(e) => {
                    &&& index >= old(self)@.memory.len()
                    &&& e == (RuntimeError::MemoryAccessOutOfBounds {
                        cell: index,
                        tape_size: old(self)@.memory.len() as usize,
                    })
                    &&& final(self)@ == old(self)@
                },
            },
    {
        if self.memory.len() <= index {
            return Err(
                RuntimeError::MemoryAccessOutOfBounds { cell: index, tape_size: self.memory.len() },
            );
        }
        Ok(&mut self.memory[index])
    }

    /// `.`: writes the current cell, as the UTF-8 encoding of the character
    /// with that code, to the output.
    pub fn handle_output(&mut self) -> (r: Result<(), RuntimeError>)
        requires
            old(self).wf(),
        ensures
            final(self).wf(),
            (final(self)@, r) == execute_spec(old(self)@, TokenModel::Output),
    {
        let memory_value = *self.fetch_memory(self.memory_pointer)?;
        if memory_value < 0x80 {
            self.output.push(memory_value);
        } else {
            self.output.push(0xC0 + memory_value / 64);
            self.output.push(0x80 + memory_value % 64);
        }
        proof {
            assert(self@.output =~= old(self)@.output + utf8_of(memory_value));
        }
        Ok(())
    }

    /// `,`: reads the next input byte into the current cell; past the end of
    /// the input it stores [`EOF_BYTE`].
    pub fn handle_input(&mut self) -> (r: Result<(), RuntimeError>)
        requires
            old(self).wf(),
        ensures
            final(self).wf(),
            (final(self)@, r) == execute_spec(old(self)@, TokenModel::Input),
    {
        let byte = if self.input_position < self.input.len() {
            let b = self.input[self.input_position];
            proof {
                assert(self.input@.skip(self.input_position as int)[0] == b);
                assert(self.input@.skip(self.input_position + 1) =~= self.input@.skip(
                    self.input_position as int,
                ).drop_first());
            }
            self.input_position = self.input_position + 1;
            b
        } else {
            EOF_BYTE
        };
        *self.fetch_memory_mut(self.memory_pointer)? = byte;
        Ok(())
    }

    /// Moves the program counter to the partner of the bracket it is at.
    pub fn jump_to_closest_bracket(&mut self)
        requires
            old(self).wf(),
            old(self)@.table.contains_key(old(self)@.pc),
        ensures
            final(self).wf(),
            final(self)@ == with_pc(old(self)@, old(self)@.table[old(self)@.pc]),
    {
        self.program_counter = *self.program.get_matching_bracket(self.program_counter).unwrap();
    }

    /// `[`: when the current cell is zero, jumps to the matching `]`.
    pub fn handle_loop_start(&mut self) -> (r: Result<(), RuntimeError>)
        requires
            old(self).wf(),
            can_execute(old(self)@, TokenModel::LoopStart),
        ensures
            final(self).wf(),
            (final(self)@, r) == execute_spec(old(self)@, TokenModel::LoopStart),
    {
        let memory_value = *self.fetch_memory(self.memory_pointer)?;
        if memory_value == 0 {
            self.jump_to_closest_bracket();
        }
        Ok(())
    }

    /// `]`: when the current cell is not zero, jumps back to the matching `[`.
    pub fn handle_loop_close(&mut self) -> (r: Result<(), RuntimeError>)
        requires
            old(self).wf(),
            can_execute(old(self)@, TokenModel::LoopClose),
        ensures
            final(self).wf(),
            (final(self)@, r) == execute_spec(old(self)@, TokenModel::LoopClose),
    {
        let memory_value = *self.fetch_memory(self.memory_pointer)?;
        if memory_value > 0 {
            self.jump_to_closest_bracket();
        }
        Ok(())
    }

    /// A copy of the instruction at the program counter, if there is one.
    pub fn fetch_instruction(&self) -> (t: Option<Token>)
        requires
            self.wf(),
        ensures
            match t {
                Some(tok) => self@.pc < self@.program.len() && tok@ == self@.program[self@.pc as int],
                None => self@.pc >= self@.program.len(),
            },
    {
        self.program.fetch_instruction(self.program_counter)
    }

    /// Executes one instruction, without moving on to the next one.
    pub fn execute_instruction(&mut self, instruction: Token) -> (r: Result<(), RuntimeError>)
        requires
            old(self).wf(),
            can_execute(old(self)@, instruction@),
        ensures
            final(self).wf(),
            (final(self)@, r) == execute_spec(old(self)@, instruction@),
    {
        match instruction {
            Token::MoveLeft => self.handle_move_left(),
            Token::MoveRight => self.handle_move_right(),
            Token::Increment => self.handle_increment(),
            Token::Decrement => self.handle_decrement(),
            Token::Output => self.handle_output(),
            Token::Input => self.handle_input(),
            Token::LoopStart => self.handle_loop_start(),
            Token::LoopClose => self.handle_loop_close(),
            Token::Comment(_) => Ok(()),
        }
    }

    /// Executes the instruction at the program counter and moves on to the
    /// next one; past the last instruction it fails.
    pub fn step(&mut self) -> (r: Result<(), RuntimeError>)
        requires
            old(self).wf(),
        ensures
            final(self).wf(),
            (final(self)@, r) == step_spec(old(self)@),
    {
        if let Some(instruction) = self.fetch_instruction() {
            let ghost s = self@;
            proof {
                assert(s.program[s.pc as int] == instruction@);
                if is_bracket(instruction@) {
                    assert(s.table.contains_key(s.pc));
                }
            }
            self.execute_instruction(instruction)?;
            proof {
                if self@.pc != s.pc {
                    assert(s.table.contains_key(s.pc));
                    assert(self@.pc == s.table[s.pc]);
                    assert(brackets_match(s.program, s.pc as int, s.table[s.pc] as int)
                        || brackets_match(s.program, s.table[s.pc] as int, s.pc as int));
                }
                assert(self@.pc < self@.program.len());
                assert(self@.program.len() == self.program.instructions@.len());
                assert(self.program_counter < self.program.instructions.len());
            }
            self.program_counter = self.program_counter + 1;
            Ok(())
        } else {
            Err(RuntimeError::InstructionFetch { pc: self.program_counter })
        }
    }

    /// Runs until the program counter is past the last instruction
    /// (`Ok(true)`), or `max_steps` steps have been taken (`Ok(false)`), or
    /// an instruction fails.
    pub fn run(&mut self, max_steps: usize) -> (r: Result<bool, RuntimeError>)
        requires
            old(self).wf(),
        ensures
            final(self).wf(),
            (final(self)@, r) == run_spec(old(self)@, max_steps as nat),
    {
        let mut remaining = max_steps;
        while self.program_counter < self.program.instructions.len()
            invariant
                self.wf(),
                run_spec(self@, remaining as nat) == run_spec(old(self)@, max_steps as nat),
            decreases remaining,
        {
            if remaining == 0 {
                return Ok(false);
            }
            match self.step() {
                Ok(()) => {},
                Err(e) => return Err(e),
            }
            remaining = remaining - 1;
        }
        Ok(true)
    }

    /// The program being run.
    pub fn get_program(&self) -> (p: &Program)
        requires
            self.wf(),
        ensures
            p.wf(),
            p.tokens() == self@.program,
            p.jump_table@ == self@.table,
    {
        &self.program
    }

    /// Whether the program counter designates an instruction.
    pub fn has_instruction(&self) -> (b: bool)
        ensures
            b == (self@.pc < self@.program.len()),
    {
        self.program.has_instruction(self.program_counter)
    }

    /// The program counter.
    pub fn get_current_pc(&self) -> (pc: usize)
        ensures
            pc == self@.pc,
    {
        self.program_counter
    }

    /// The memory pointer.
    pub fn get_current_memory_pointer(&self) -> (p: usize)
        ensures
            p == self@.pointer,
    {
        self.memory_pointer
    }

    /// The whole tape.
    pub fn mem_dump(&self) -> (m: &[u8])
        ensures
            m@ == self@.memory,
    {
        self.memory.as_slice()
    }

    /// Everything written so far.
    pub fn output(&self) -> (o: &[u8])
        ensures
            o@ == self@.output,
    {
        self.output.as_slice()
    }

    /// Hands out everything written so far and empties the output.
    pub fn take_output(&mut self) -> (o: Vec<u8>)
        requires
            old(self).wf(),
        ensures
            final(self).wf(),
            o@ == old(self)@.output,
            final(self)@ == (MachineState { output: Seq::empty(), ..old(self)@ }),
    {
        let mut o = Vec::new();
        std::mem::swap(&mut o, &mut self.output);
        o
    }

    /// Whether some input is waiting to be read.
    pub fn has_pending_input(&self) -> (b: bool)
        requires
            self.wf(),
        ensures
            b == (self@.input.len() > 0),
    {
        self.input_position < self.input.len()
    }

    /// Appends `byte` to the input not read yet.
    pub fn push_input(&mut self, byte: u8)
        requires
            old(self).wf(),
        ensures
            final(self).wf(),
            final(self)@ == (MachineState { input: old(self)@.input.push(byte), ..old(self)@ }),
    {
        self.input.push(byte);
        proof {
            assert(self.input@.skip(self.input_position as int) =~= old(self)@.input.push(byte));
        }
    }

    /// Moves the memory pointer to `pointer` (which may lie off the tape).
    pub fn set_memory_pointer(&mut self, pointer: usize)
        requires
            old(self).wf(),
        ensures
            final(self).wf(),
            final(self)@ == (MachineState { pointer: pointer, ..old(self)@ }),
    {
        self.memory_pointer = pointer;
    }

    /// Moves the program counter to `pc` (which may lie past the program).
    pub fn set_program_counter(&mut self, pc: usize)
        requires
            old(self).wf(),
        ensures
            final(self).wf(),
            final(self)@ == with_pc(old(self)@, pc),
    {
        self.program_counter = pc;
    }

    /// The interpreter's state as text: the program counter, the instruction
    /// there (or `end of program`), the memory pointer and the whole tape.
    pub fn to_string(&self) -> (s: String)
        requires
            self.wf(),
        ensures
            s@ == state_text(self@),
    {
        let mut s = String::from_str("---\nPC: ");
        push_decimal(&mut s, self.program_counter);
        s.append("\nInstruction: ");
        match self.fetch_instruction() {
            Some(token) => push_token_text(&mut s, &token),
            None => s.append("end of program"),
        }
        s.append("\nMemory Pointer: ");
        push_decimal(&mut s, self.memory_pointer);
        s.append("\nMemory Dump: [");
        push_joined_decimals(&mut s, self.memory.as_slice(), self.memory.len(), ", ");
        s.append("]");
        proof {
            assert(self.memory@.take(self.memory@.len() as int) =~= self.memory@);
        }
        s
    }
}

} // verus!
