use std::path::PathBuf;

use brainrust::cli::{
    next_high_water, render_memory, render_program, Cli, CliRunner, Command, InterpreterConfig,
};
use brainrust::program::Program;

#[test]
fn renders_touched_cells_and_caret_at_pointer() {
    assert_eq!(render_memory(&[1, 2, 3], 2, 2), "1 2 3\n  ^");
}

#[test]
fn renders_single_cell_and_caret_at_origin() {
    assert_eq!(render_memory(&[0], 0, 0), "0\n^");
}

#[test]
fn renders_caret_behind_high_water() {
    assert_eq!(render_memory(&[5, 6, 7, 8], 1, 3), "5 6 7 8\n ^");
}

#[test]
fn renders_only_cells_up_to_high_water() {
    assert_eq!(render_memory(&[10, 255, 7, 8], 0, 1), "10 255\n^");
}

#[test]
fn renders_program_with_caret_under_pc() {
    let program = Program::from("+[-]x").unwrap();
    assert_eq!(render_program(&program, 0), "+[-]c\n^");
    assert_eq!(render_program(&program, 3), "+[-]c\n   ^");
}

fn cli(file: Option<PathBuf>, inline: Option<&str>, memsize: usize) -> Cli {
    Cli {
        file,
        inline_program: inline.map(String::from),
        interactive_mode: false,
        memsize,
        memdump: false,
    }
}

#[test]
fn config_takes_memsize_from_cli() {
    assert_eq!(1234, InterpreterConfig::from(&cli(None, None, 1234)).memsize);
    assert_eq!(30000, InterpreterConfig::default().memsize);
}

#[test]
fn inline_program_wins_over_file() {
    let runner = CliRunner::new(cli(Some(PathBuf::from("a.b")), Some("+."), 500));
    assert_eq!("+.", runner.program_code(Some(String::from("-"))));
    let runner = CliRunner::new(cli(Some(PathBuf::from("a.b")), None, 500));
    assert_eq!("-", runner.program_code(Some(String::from("-"))));
    let runner = CliRunner::new(cli(None, None, 500));
    assert_eq!("", runner.program_code(None));
}

#[test]
fn commands_are_read_from_first_character() {
    assert_eq!(Some(Command::Step), Command::parse("s\n"));
    assert_eq!(Some(Command::Run), Command::parse("run"));
    assert_eq!(Some(Command::Print), Command::parse("p"));
    assert_eq!(Some(Command::Quit), Command::parse("q\n"));
    assert_eq!(Some(Command::Other), Command::parse("\n"));
    assert_eq!(None, Command::parse(""));
}

#[test]
fn high_water_follows_the_pointer_up_only() {
    assert_eq!(3, next_high_water(1, 3));
    assert_eq!(3, next_high_water(3, 0));
    assert_eq!(0, next_high_water(0, 0));
}
