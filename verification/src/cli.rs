//! Command-line settings and the text shown by the interactive mode.

use std::path::PathBuf;

use vstd::prelude::*;

use crate::program::{Program, symbols};
use crate::text::{count_char, joined_decimals, lemma_joined_spaces, push_joined_decimals};

verus! {

/// A path on the file system, carried through unchanged.
#[verifier::external_type_specification]
#[verifier::external_body]
pub struct ExPathBuf(PathBuf);

/// The settings read from the command line.
pub struct Cli {
    /// Path to program file.
    pub file: Option<PathBuf>,
    /// Program text given directly on the command line.
    pub inline_program: Option<String>,
    /// Step-by-step debugging mode.
    pub interactive_mode: bool,
    /// Number of cells on the memory tape.
    pub memsize: usize,
    /// Show the memory at the end of the run.
    pub memdump: bool,
}

/// The settings an interpreter is built with.
pub struct InterpreterConfig {
    pub memsize: usize,
}

impl Default for InterpreterConfig {
    fn default() -> (c: Self)
        ensures
            c.memsize == 30000,
    {
        InterpreterConfig { memsize: 30000 }
    }
}

impl InterpreterConfig {
    /// The interpreter settings that the command line asks for.
    pub fn from(cli: &Cli) -> (c: Self)
        ensures
            c.memsize == cli.memsize,
    {
        InterpreterConfig { memsize: cli.memsize }
    }
}

/// Runs programs as the command line asks.
pub struct CliRunner {
    pub cli: Cli,
}

impl CliRunner {
    /// A runner for the given command-line settings.
    pub fn new(cli: Cli) -> (r: Self)
        ensures
            r.cli == cli,
    {
        CliRunner { cli }
    }

    /// The text of the program to run: the inline program when one is
    /// given, else the contents read from the program file, else nothing.
    pub fn program_code(&self, file_code: Option<String>) -> (code: String)
        ensures
            code@ == match self.cli.inline_program {
                Some(inline) => inline@,
                None => match file_code {
                    Some(f) => f@,
                    None => Seq::empty(),
                },
            },
    {
        match &self.cli.inline_program {
            Some(inline) => inline.clone(),
            None => match file_code {
                Some(f) => f,
                None => String::new(),
            },
        }
    }
}

/// What the user asks for in the interactive mode.
#[derive(Debug, Clone, Copy, PartialEq, Eq, Structural)]
pub enum Command {
    /// `s`: execute one instruction.
    Step,
    /// `r`: run the program until it halts.
    Run,
    /// `p`: print the current cell.
    Print,
    /// `q`: quit.
    Quit,
    /// Anything else: show the state again.
    Other,
}

/// The command a key stands for.
pub open spec fn command_of(c: char) -> Command {
    if c == 's' {
        Command::Step
    } else if c == 'r' {
        Command::Run
    } else if c == 'p' {
        Command::Print
    } else if c == 'q' {
        Command::Quit
    } else {
        Command::Other
    }
}

impl Command {
    /// The command given by the first character of `line`; an empty line
    /// gives none.
    pub fn parse(line: &str) -> (c: Option<Command>)
        ensures
            match c {
                Some(cmd) => line@.len() > 0 && cmd == command_of(line@[0]),
                None => line@.len() == 0,
            },
    {
        if line.unicode_len() == 0 {
            return None;
        }
        let first = line.get_char(0);
        let cmd = if first == 's' {
            Command::Step
        } else if first == 'r' {
            Command::Run
        } else if first == 'p' {
            Command::Print
        } else if first == 'q' {
            Command::Quit
        } else {
            Command::Other
        };
        Some(cmd)
    }
}

/// The highest cell the interactive view shows: the larger of the previous
/// mark and the current pointer.
pub fn next_high_water(high_water: usize, pointer: usize) -> (h: usize)
    ensures
        h == (if pointer > high_water {
            pointer
        } else {
            high_water
        }),
{
    if pointer > high_water {
        pointer
    } else {
        high_water
    }
}

/// `n` spaces.
pub open spec fn spaces(n: nat) -> Seq<char> {
    Seq::new(n, |i: int| ' ')
}

/// The program text with a caret under the instruction at `pc`.
pub open spec fn program_view_text(program: &Program, pc: nat) -> Seq<char> {
    symbols(program.tokens()) + seq!['\n'] + spaces(pc) + seq!['^']
}

/// The cells up to the highest one visited, then a caret `pointer` columns in.
pub open spec fn memory_view_text(memory: Seq<u8>, pointer: nat, high_water: nat) -> Seq<char> {
    let shown = if high_water + 1 < memory.len() {
        memory.take((high_water + 1) as int)
    } else {
        memory
    };
    joined_decimals(shown, seq![' ']) + seq!['\n'] + spaces(pointer) + seq!['^']
}

/// The memory view's first line lists the values of exactly the first
/// `min(high_water + 1, memory.len())` cells, in order, one space apart;
/// the second line puts the caret `pointer` columns in.
pub proof fn lemma_memory_view_lists_cells(memory: Seq<u8>, pointer: nat, high_water: nat)
    ensures
        ({
            let n = if high_water + 1 < memory.len() {
                high_water + 1
            } else {
                memory.len()
            };
            &&& memory_view_text(memory, pointer, high_water) == joined_decimals(
                memory.subrange(0, n as int),
                seq![' '],
            ) + seq!['\n'] + spaces(pointer) + seq!['^']
            &&& n > 0 ==> count_char(joined_decimals(memory.subrange(0, n as int), seq![' ']), ' ')
                + 1 == n
        }),
{
    let n = if high_water + 1 < memory.len() {
        high_water + 1
    } else {
        memory.len()
    };
    assert(memory.subrange(0, n as int) =~= (if high_water + 1 < memory.len() {
        memory.take((high_water + 1) as int)
    } else {
        memory
    }));
    if n > 0 {
        lemma_joined_spaces(memory.subrange(0, n as int));
    }
}

/// Appends `n` spaces and a caret.
fn push_caret(s: &mut String, n: usize)
    ensures
        final(s)@ == old(s)@ + spaces(n as nat) + seq!['^'],
{
    let ghost start = s@;
    for i in 0..n
        invariant
            s@ == start + spaces(i as nat),
    {
        s.push(' ');
        assert(start + spaces((i + 1) as nat) =~= (start + spaces(i as nat)).push(' '));
    }
    s.push('^');
}

/// The program text with a caret under the instruction at `pc`.
pub fn render_program(program: &Program, pc: usize) -> (s: String)
    ensures
        s@ == program_view_text(program, pc as nat),
{
    let mut s = program.to_string();
    s.push('\n');
    push_caret(&mut s, pc);
    proof {
        assert(s@ =~= program_view_text(program, pc as nat));
    }
    s
}

/// The values of the cells up to `high_water`, separated by spaces, and on
/// the next line a caret `pointer` columns in.
pub fn render_memory(memory: &[u8], pointer: usize, high_water: usize) -> (s: String)
    requires
        high_water < usize::MAX,
    ensures
        s@ == memory_view_text(memory@, pointer as nat, high_water as nat),
{
    let count = if high_water + 1 < memory.len() {
        high_water + 1
    } else {
        memory.len()
    };
    let ghost shown = memory@.take(count as int);
    let mut s = String::new();
    push_joined_decimals(&mut s, memory, count, " ");
    proof {
        reveal_strlit(" ");
        assert(" "@ =~= seq![' ']);
    }
    s.push('\n');
    push_caret(&mut s, pointer);
    proof {
        if high_water + 1 >= memory@.len() {
            assert(shown =~= memory@);
        }
        assert(s@ =~= memory_view_text(memory@, pointer as nat, high_water as nat));
    }
    s
}

} // verus!
