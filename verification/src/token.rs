//! The tokens of a Brainfuck program.

use vstd::prelude::*;

verus! {

/// One lexical item of a program: one of the eight commands, or a run of
/// characters that are not commands (a comment).
#[derive(Debug, PartialEq)]
pub enum Token {
    MoveLeft,
    MoveRight,
    Increment,
    Decrement,
    Output,
    Input,
    LoopStart,
    LoopClose,
    Comment(String),
}

/// The mathematical value of a [`Token`]: a comment is modelled by its text.
pub enum TokenModel {
    MoveLeft,
    MoveRight,
    Increment,
    Decrement,
    Output,
    Input,
    LoopStart,
    LoopClose,
    Comment(Seq<char>),
}

impl View for Token {
    type V = TokenModel;

    open spec fn view(&self) -> TokenModel {
        match self {
            Token::MoveLeft => TokenModel::MoveLeft,
            Token::MoveRight => TokenModel::MoveRight,
            Token::Increment => TokenModel::Increment,
            Token::Decrement => TokenModel::Decrement,
            Token::Output => TokenModel::Output,
            Token::Input => TokenModel::Input,
            Token::LoopStart => TokenModel::LoopStart,
            Token::LoopClose => TokenModel::LoopClose,
            Token::Comment(s) => TokenModel::Comment(s@),
        }
    }
}

/// The models of a sequence of tokens, position by position.
pub open spec fn models(ts: Seq<Token>) -> Seq<TokenModel> {
    ts.map_values(|t: Token| t@)
}

/// The eight characters that are Brainfuck commands.
pub open spec fn is_command(c: char) -> bool {
    c == '<' || c == '>' || c == '+' || c == '-' || c == '.' || c == ',' || c == '['
        || c == ']'
}

/// The token that a command character stands for.
pub open spec fn command_model(c: char) -> TokenModel
    recommends
        is_command(c),
{
    if c == '<' {
        TokenModel::MoveLeft
    } else if c == '>' {
        TokenModel::MoveRight
    } else if c == '+' {
        TokenModel::Increment
    } else if c == '-' {
        TokenModel::Decrement
    } else if c == '.' {
        TokenModel::Output
    } else if c == ',' {
        TokenModel::Input
    } else if c == '[' {
        TokenModel::LoopStart
    } else {
        TokenModel::LoopClose
    }
}

/// The character by which a token is displayed; a comment shows as `c`.
pub open spec fn symbol_of(t: TokenModel) -> char {
    match t {
        TokenModel::MoveLeft => '<',
        TokenModel::MoveRight => '>',
        TokenModel::Increment => '+',
        TokenModel::Decrement => '-',
        TokenModel::Output => '.',
        TokenModel::Input => ',',
        TokenModel::LoopStart => '[',
        TokenModel::LoopClose => ']',
        TokenModel::Comment(_) => 'c',
    }
}

/// The source text a token was read from: its command character, or the
/// comment's own text.
pub open spec fn source_text(t: TokenModel) -> Seq<char> {
    match t {
        TokenModel::Comment(s) => s,
        _ => seq![symbol_of(t)],
    }
}

impl Clone for Token {
    fn clone(&self) -> (res: Self)
        ensures
            res == *self,
    {
        match self {
            Token::MoveLeft => Token::MoveLeft,
            Token::MoveRight => Token::MoveRight,
            Token::Increment => Token::Increment,
            Token::Decrement => Token::Decrement,
            Token::Output => Token::Output,
            Token::Input => Token::Input,
            Token::LoopStart => Token::LoopStart,
            Token::LoopClose => Token::LoopClose,
            Token::Comment(s) => Token::Comment(s.clone()),
        }
    }
}

impl Token {
    /// The display character of the token (`c` for a comment).
    pub fn get_symbol(&self) -> (c: char)
        ensures
            c == symbol_of(self@),
    {
        match self {
            Token::MoveLeft => '<',
            Token::MoveRight => '>',
            Token::Increment => '+',
            Token::Decrement => '-',
            Token::Output => '.',
            Token::Input => ',',
            Token::LoopStart => '[',
            Token::LoopClose => ']',
            Token::Comment(_) => 'c',
        }
    }
}

} // verus!
