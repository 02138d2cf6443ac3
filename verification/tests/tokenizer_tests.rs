use std::collections::HashMap;

use brainrust::error::SyntaxError;
use brainrust::token::Token;
use brainrust::tokenizer::{JumpTable, Tokenizer};

#[test]
fn tokenizes_properly() {
    let code = "<>+-.,[comment]c[c]";
    let expected = vec![
        Token::MoveLeft,
        Token::MoveRight,
        Token::Increment,
        Token::Decrement,
        Token::Output,
        Token::Input,
        Token::LoopStart,
        Token::Comment(String::from("comment")),
        Token::LoopClose,
        Token::Comment(String::from("c")),
        Token::LoopStart,
        Token::Comment(String::from("c")),
        Token::LoopClose,
    ];

    assert_eq!(expected, Tokenizer::tokenize(code));
}

#[test]
fn trailing_comment_tokenized_properly1() {
    let code = "+>comment+<+comment";
    let expected = vec![
        Token::Increment,
        Token::MoveRight,
        Token::Comment(String::from("comment")),
        Token::Increment,
        Token::MoveLeft,
        Token::Increment,
        Token::Comment(String::from("comment")),
    ];

    assert_eq!(expected, Tokenizer::tokenize(code));
}

#[test]
fn trailing_comment_tokenized_properly2() {
    let code = "comment";
    let expected = vec![Token::Comment(String::from("comment"))];

    assert_eq!(expected, Tokenizer::tokenize(code));
}

#[test]
fn well_formed_jump_table() {
    let code = "[[[+++]]]";
    let mut expected: HashMap<usize, usize> = HashMap::new();
    expected.insert(0, 8);
    expected.insert(1, 7);
    expected.insert(2, 6);
    expected.insert(8, 0);
    expected.insert(7, 1);
    expected.insert(6, 2);

    assert_eq!(expected, JumpTable::from(&Tokenizer::tokenize(code)));
}

#[test]
#[should_panic]
fn malformed_jump_table_panics1() {
    let code = "[";
    JumpTable::from(&Tokenizer::tokenize(code));
}

#[test]
#[should_panic]
fn malformed_jump_table_panics2() {
    let code = "]";
    JumpTable::from(&Tokenizer::tokenize(code));
}

#[test]
fn malformed_jump_table_reports_open_bracket() {
    assert_eq!(
        Err(SyntaxError::UnmatchedLoopLeftBracket { position: 0 }),
        JumpTable::try_from(&Tokenizer::tokenize("["))
    );
}

#[test]
fn malformed_jump_table_reports_close_bracket() {
    assert_eq!(
        Err(SyntaxError::UnmatchedLoopRightBracket { position: 0 }),
        JumpTable::try_from(&Tokenizer::tokenize("]"))
    );
}

#[test]
fn first_unclosed_bracket_is_reported() {
    // Tokens: [ [ ] [ + — brackets 0 and 3 stay open; 0 is the first.
    assert_eq!(
        Err(SyntaxError::UnmatchedLoopLeftBracket { position: 0 }),
        JumpTable::try_from(&Tokenizer::tokenize("[[][+"))
    );
    // Tokens: [ ] [ [ ] — only the bracket at 2 stays open.
    assert_eq!(
        Err(SyntaxError::UnmatchedLoopLeftBracket { position: 2 }),
        JumpTable::try_from(&Tokenizer::tokenize("[][[]"))
    );
}

#[test]
fn first_stray_close_bracket_is_reported() {
    // Tokens: [ ] ] [ — the stray `]` at 2 comes before the open `[`.
    assert_eq!(
        Err(SyntaxError::UnmatchedLoopRightBracket { position: 2 }),
        JumpTable::try_from(&Tokenizer::tokenize("[]]["))
    );
}

#[test]
fn brackets_separated_by_comments_pair_up() {
    // Tokens: [ Comment(ab) [ ] ]
    let table = JumpTable::from(&Tokenizer::tokenize("[ab[]]"));
    assert_eq!(Some(&4), table.get(&0));
    assert_eq!(Some(&0), table.get(&4));
    assert_eq!(Some(&3), table.get(&2));
    assert_eq!(None, table.get(&1));
    assert_eq!(4, table.len());
}

#[test]
fn jump_table_is_its_own_inverse() {
    let table = JumpTable::from(&Tokenizer::tokenize("+[>[-]<[->+<]]"));
    for (a, b) in table.iter() {
        assert_eq!(Some(a), table.get(b));
    }
}

#[test]
fn tokens_read_back_as_the_source() {
    let code = "hello, world! [->+<] bye";
    let tokens = Tokenizer::tokenize(code);
    let mut text = String::new();
    for t in &tokens {
        match t {
            Token::Comment(s) => text.push_str(s),
            other => text.push(other.get_symbol()),
        }
    }
    assert_eq!(code, text);
    for w in tokens.windows(2) {
        assert!(!(matches!(w[0], Token::Comment(_)) && matches!(w[1], Token::Comment(_))));
    }
}

#[test]
fn empty_source_has_no_tokens() {
    assert!(Tokenizer::tokenize("").is_empty());
}

#[test]
fn multibyte_comment_characters_are_kept() {
    assert_eq!(
        vec![Token::Comment(String::from("é")), Token::Increment],
        Tokenizer::tokenize("é+")
    );
}

#[test]
fn symbols_of_tokens() {
    assert_eq!('<', Token::MoveLeft.get_symbol());
    assert_eq!('>', Token::MoveRight.get_symbol());
    assert_eq!('+', Token::Increment.get_symbol());
    assert_eq!('-', Token::Decrement.get_symbol());
    assert_eq!('.', Token::Output.get_symbol());
    assert_eq!(',', Token::Input.get_symbol());
    assert_eq!('[', Token::LoopStart.get_symbol());
    assert_eq!(']', Token::LoopClose.get_symbol());
    assert_eq!('c', Token::Comment(String::from("x")).get_symbol());
}

#[test]
fn clone_keeps_comment_text() {
    let t = Token::Comment(String::from("note"));
    assert_eq!(t, t.clone());
}

#[test]
fn tokenizing_a_join_at_a_command_joins_the_tokens() {
    let pairs = [("ab+", "cd"), ("ab", "+cd"), ("", "xy"), ("x[", "]y"), ("q", "")];
    for (a, b) in pairs {
        let joined = format!("{a}{b}");
        let mut expected = Tokenizer::tokenize(a);
        expected.extend(Tokenizer::tokenize(b));
        assert_eq!(expected, Tokenizer::tokenize(&joined));
    }
    // Two comments joined become one comment: the condition matters.
    assert_eq!(vec![Token::Comment(String::from("abcd"))], Tokenizer::tokenize("abcd"));
}
