//! A program ready to run: its tokens and the table that pairs its brackets.

use std::collections::HashMap;

use vstd::prelude::*;

use crate::error::SyntaxError;
use crate::token::{Token, TokenModel, models, symbol_of};
use crate::tokenizer::{
    JumpTable, Tokenizer, balanced, is_jump_table, jump_table_outcome, tokenization,
};

verus! {

/// The source text reads as a program whose brackets all pair up.
pub open spec fn syntax_ok(code: Seq<char>) -> bool {
    balanced(tokenization(code))
}

/// The text by which a token sequence is displayed: one symbol per token.
pub open spec fn symbols(ts: Seq<TokenModel>) -> Seq<char> {
    ts.map_values(|t: TokenModel| symbol_of(t))
}

/// A tokenized program and its bracket table.
pub struct Program {
    pub instructions: Vec<Token>,
    pub jump_table: HashMap<usize, usize>,
}

impl Program {
    /// The program's tokens as mathematical values.
    pub open spec fn tokens(&self) -> Seq<TokenModel> {
        models(self.instructions@)
    }

    /// The bracket table pairs the brackets of the instructions, which are
    /// balanced.
    pub open spec fn wf(&self) -> bool {
        &&& balanced(self.tokens())
        &&& is_jump_table(self.tokens(), self.jump_table@)
    }

    /// Tokenizes `program_code` and pairs its brackets; a bracket that does
    /// not pair up is reported.
    pub fn from(program_code: &str) -> (r: Result<Self, SyntaxError>)
        ensures
            r is Ok <==> syntax_ok(program_code@),
            match r {
                Ok(p) => p.tokens() == tokenization(program_code@) && p.wf(),
                Err(e) => jump_table_outcome(tokenization(program_code@), Err(e)),
            },
    {
        let instructions = Tokenizer::tokenize(program_code);
        let jump_table = match JumpTable::try_from(instructions.as_slice()) {
            Ok(t) => t,
            Err(e) => return Err(e),
        };
        Ok(Program { instructions, jump_table })
    }

    /// Whether there is an instruction at `index`.
    pub fn has_instruction(&self, index: usize) -> (b: bool)
        ensures
            b == (index < self.instructions@.len()),
    {
        self.instructions.len() > index
    }

    /// The number of instructions.
    pub fn get_instruction_count(&self) -> (n: usize)
        ensures
            n == self.instructions@.len(),
    {
        self.instructions.len()
    }

    /// A copy of the instruction at `index`, if there is one.
    pub fn fetch_instruction(&self, index: usize) -> (t: Option<Token>)
        ensures
            match t {
                Some(tok) => index < self.instructions@.len() && tok == self.instructions@[index as int],
                None => index >= self.instructions@.len(),
            },
    {
        if index < self.instructions.len() {
            Some(self.instructions[index].clone())
        } else {
            None
        }
    }

    /// The partner of the bracket at `index`, if `index` holds a bracket.
    pub fn get_matching_bracket(&self, index: usize) -> (j: Option<&usize>)
        ensures
            match j {
                Some(j) => self.jump_table@.contains_key(index) && *j == self.jump_table@[index],
                None => !self.jump_table@.contains_key(index),
            },
    {
        broadcast use vstd::std_specs::hash::group_hash_axioms;

        self.jump_table.get(&index)
    }

    /// The program as text: one symbol per instruction, `c` for a comment.
    pub fn to_string(&self) -> (s: String)
        ensures
            s@ == symbols(self.tokens()),
    {
        let mut code = String::new();
        let n = self.instructions.len();
        for i in 0..n
            invariant
                n == self.instructions@.len(),
                code@ == symbols(self.tokens()).take(i as int),
        {
            let c = self.instructions[i].get_symbol();
            code.push(c);
            assert(symbols(self.tokens()).take(i + 1) =~= symbols(self.tokens()).take(
                i as int,
            ).push(c));
        }
        assert(symbols(self.tokens()).take(n as int) =~= symbols(self.tokens()));
        code
    }
}

impl Clone for Program {
    fn clone(&self) -> (r: Self)
        ensures
            r.instructions@ == self.instructions@,
            r.jump_table@ == self.jump_table@,
    {
        let instructions = self.instructions.clone();
        proof {
            assert forall|i: int| 0 <= i < self.instructions@.len() implies instructions@[i]
                == self.instructions@[i] by {
                assert(cloned::<Token>(self.instructions[i], instructions[i]));
            }
            assert(instructions@ =~= self.instructions@);
        }
        Program { instructions, jump_table: self.jump_table.clone() }
    }
}

} // verus!
