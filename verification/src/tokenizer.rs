//! Source text to tokens, and the bracket table of a token sequence.

use std::collections::HashMap;

use vstd::prelude::*;

use crate::error::SyntaxError;
use crate::token::{Token, TokenModel, models, is_command, source_text, symbol_of, command_model};

verus! {

/// The source text a token sequence was read from: the texts of its tokens,
/// one after the other.
pub open spec fn flatten(ts: Seq<TokenModel>) -> Seq<char>
    decreases ts.len(),
{
    if ts.len() == 0 {
        Seq::empty()
    } else {
        flatten(ts.drop_last()) + source_text(ts.last())
    }
}

/// A comment is a non-empty run of characters none of which is a command.
pub open spec fn is_comment_text(s: Seq<char>) -> bool {
    &&& s.len() > 0
    &&& forall|i: int| 0 <= i < s.len() ==> !is_command(#[trigger] s[i])
}

/// Whether a token is a comment.
pub open spec fn is_comment(t: TokenModel) -> bool {
    t is Comment
}

/// Every comment holds a comment text, and no two comments are adjacent
/// (a comment always takes the whole run of non-command characters).
pub open spec fn tokens_well_formed(ts: Seq<TokenModel>) -> bool {
    &&& forall|i: int|
        0 <= i < ts.len() ==> match #[trigger] ts[i] {
            TokenModel::Comment(s) => is_comment_text(s),
            _ => true,
        }
    &&& forall|i: int, j: int|
        #![trigger ts[i], ts[j]]
        0 <= i && j == i + 1 && j < ts.len() ==> !(is_comment(ts[i]) && is_comment(ts[j]))
}

/// `ts` is the tokenization of `input`: it reads back as `input`, and it is
/// well formed.
pub open spec fn is_tokenization_of(ts: Seq<TokenModel>, input: Seq<char>) -> bool {
    &&& flatten(ts) == input
    &&& tokens_well_formed(ts)
}

/// The tokenization of `input` (there is exactly one: see
/// [`lemma_tokenization_unique`]).
pub open spec fn tokenization(input: Seq<char>) -> Seq<TokenModel> {
    choose|ts: Seq<TokenModel>| is_tokenization_of(ts, input)
}

proof fn lemma_flatten_push(ts: Seq<TokenModel>, t: TokenModel)
    ensures
        flatten(ts.push(t)) == flatten(ts) + source_text(t),
{
    assert(ts.push(t).drop_last() =~= ts);
}

proof fn lemma_models_push(ts: Seq<Token>, t: Token)
    ensures
        models(ts.push(t)) == models(ts).push(t@),
{
    assert(models(ts.push(t)) =~= models(ts).push(t@));
}

proof fn lemma_well_formed_drop_last(ts: Seq<TokenModel>)
    requires
        tokens_well_formed(ts),
        ts.len() > 0,
    ensures
        tokens_well_formed(ts.drop_last()),
{
    let p = ts.drop_last();
    assert forall|i: int, j: int|
        #![trigger p[i], p[j]]
        0 <= i && j == i + 1 && j < p.len() implies !(is_comment(p[i]) && is_comment(p[j])) by {
        assert(p[i] == ts[i] && p[j] == ts[j]);
    }
    assert forall|i: int| 0 <= i < p.len() implies match #[trigger] p[i] {
        TokenModel::Comment(s) => is_comment_text(s),
        _ => true,
    } by {
        assert(p[i] == ts[i]);
    }
}

/// The source text of a well-formed non-empty token sequence is not empty,
/// and when its last token is a command, the text ends with that command.
proof fn lemma_flatten_last(ts: Seq<TokenModel>)
    requires
        tokens_well_formed(ts),
        ts.len() > 0,
    ensures
        flatten(ts).len() > 0,
        !is_comment(ts.last()) ==> flatten(ts).last() == symbol_of(ts.last()) && is_command(
            flatten(ts).last(),
        ),
        is_comment(ts.last()) ==> !is_command(flatten(ts).last()),
{
    let t = ts.last();
    assert(ts[ts.len() - 1] == t);
    match t {
        TokenModel::Comment(x) => {
            assert(is_comment_text(x));
            assert(flatten(ts).last() == x[x.len() - 1]);
        },
        _ => {},
    }
}

/// The first character of the text of a well-formed non-empty token
/// sequence is a command exactly when the first token is not a comment.
proof fn lemma_flatten_first(ts: Seq<TokenModel>)
    requires
        tokens_well_formed(ts),
        ts.len() > 0,
    ensures
        flatten(ts).len() > 0,
        is_command(flatten(ts)[0]) <==> !is_comment(ts[0]),
    decreases ts.len(),
{
    if ts.len() == 1 {
        lemma_flatten_last(ts);
        assert(ts.last() == ts[0]);
        assert(ts.drop_last() =~= Seq::<TokenModel>::empty());
        assert(flatten(ts.drop_last()) =~= Seq::<char>::empty());
        assert(flatten(ts) =~= source_text(ts[0]));
        match ts[0] {
            TokenModel::Comment(x) => {
                assert(is_comment_text(x));
            },
            _ => {},
        }
    } else {
        let p = ts.drop_last();
        lemma_well_formed_drop_last(ts);
        lemma_flatten_first(p);
        assert(p[0] == ts[0]);
        assert(flatten(ts)[0] == flatten(p)[0]);
    }
}

proof fn lemma_well_formed_push(ts: Seq<TokenModel>, t: TokenModel)
    requires
        tokens_well_formed(ts),
        match t {
            TokenModel::Comment(x) => is_comment_text(x),
            _ => true,
        },
        !(ts.len() > 0 && is_comment(ts.last()) && is_comment(t)),
    ensures
        tokens_well_formed(ts.push(t)),
{
    let r = ts.push(t);
    assert forall|i: int| 0 <= i < r.len() implies match #[trigger] r[i] {
        TokenModel::Comment(s) => is_comment_text(s),
        _ => true,
    } by {
        if i < ts.len() {
            assert(r[i] == ts[i]);
        }
    }
    assert forall|i: int, j: int|
        #![trigger r[i], r[j]]
        0 <= i && j == i + 1 && j < r.len() implies !(is_comment(r[i]) && is_comment(r[j])) by {
        if j < ts.len() {
            assert(r[i] == ts[i] && r[j] == ts[j]);
        } else {
            assert(r[i] == ts.last());
        }
    }
}

/// Every text has a tokenization, built one character at a time.
proof fn lemma_tokenization_witness(s: Seq<char>) -> (ts: Seq<TokenModel>)
    ensures
        is_tokenization_of(ts, s),
    decreases s.len(),
{
    if s.len() == 0 {
        assert(flatten(Seq::<TokenModel>::empty()) =~= s);
        Seq::empty()
    } else {
        let p = s.drop_last();
        let c = s.last();
        let ts = lemma_tokenization_witness(p);
        assert(s =~= p.push(c));
        if is_command(c) {
            let t = command_model(c);
            lemma_flatten_push(ts, t);
            assert(source_text(t) =~= seq![c]);
            assert(p + seq![c] =~= s);
            lemma_well_formed_push(ts, t);
            ts.push(t)
        } else if ts.len() > 0 && is_comment(ts.last()) {
            let x = ts.last()->Comment_0;
            let q = ts.drop_last();
            assert(ts =~= q.push(TokenModel::Comment(x)));
            assert(ts[ts.len() - 1] == ts.last());
            assert(is_comment_text(x));
            lemma_well_formed_drop_last(ts);
            lemma_flatten_push(q, TokenModel::Comment(x));
            lemma_flatten_push(q, TokenModel::Comment(x.push(c)));
            assert(is_comment_text(x.push(c))) by {
                assert forall|i: int| 0 <= i < x.push(c).len() implies !is_command(
                    #[trigger] x.push(c)[i],
                ) by {
                    if i < x.len() {
                        assert(x.push(c)[i] == x[i]);
                    }
                }
            }
            if q.len() > 0 {
                assert(q.last() == ts[ts.len() - 2]);
                assert(!(is_comment(ts[ts.len() - 2]) && is_comment(ts[ts.len() - 1])));
            }
            lemma_well_formed_push(q, TokenModel::Comment(x.push(c)));
            assert(flatten(q) + x.push(c) =~= (flatten(q) + x).push(c));
            assert(flatten(q) + x == flatten(ts));
            assert(flatten(ts).push(c) =~= s);
            q.push(TokenModel::Comment(x.push(c)))
        } else {
            let t = TokenModel::Comment(seq![c]);
            lemma_flatten_push(ts, t);
            assert(is_comment_text(seq![c]));
            assert(p + seq![c] =~= s);
            lemma_well_formed_push(ts, t);
            ts.push(t)
        }
    }
}

/// The chosen tokenization of a text is a tokenization of it.
pub proof fn lemma_tokenization_exists(s: Seq<char>)
    ensures
        is_tokenization_of(tokenization(s), s),
{
    let _ = lemma_tokenization_witness(s);
}

proof fn lemma_flatten_concat(a: Seq<TokenModel>, b: Seq<TokenModel>)
    ensures
        flatten(a + b) == flatten(a) + flatten(b),
    decreases b.len(),
{
    if b.len() == 0 {
        assert(a + b =~= a);
        assert(flatten(a) + flatten(b) =~= flatten(a));
    } else {
        lemma_flatten_concat(a, b.drop_last());
        assert((a + b).drop_last() =~= a + b.drop_last());
        assert((a + b).last() == b.last());
        assert(flatten(a) + flatten(b) =~= flatten(a) + flatten(b.drop_last()) + source_text(
            b.last(),
        ));
    }
}

proof fn lemma_well_formed_concat(a: Seq<TokenModel>, b: Seq<TokenModel>)
    requires
        tokens_well_formed(a),
        tokens_well_formed(b),
        !(a.len() > 0 && b.len() > 0 && is_comment(a.last()) && is_comment(b[0])),
    ensures
        tokens_well_formed(a + b),
{
    let r = a + b;
    assert forall|i: int| 0 <= i < r.len() implies match #[trigger] r[i] {
        TokenModel::Comment(s) => is_comment_text(s),
        _ => true,
    } by {
        if i < a.len() {
            assert(r[i] == a[i]);
        } else {
            assert(r[i] == b[i - a.len()]);
        }
    }
    assert forall|i: int, j: int|
        #![trigger r[i], r[j]]
        0 <= i && j == i + 1 && j < r.len() implies !(is_comment(r[i]) && is_comment(r[j])) by {
        if j < a.len() {
            assert(r[i] == a[i] && r[j] == a[j]);
        } else if i >= a.len() {
            assert(r[i] == b[i - a.len()] && r[j] == b[j - a.len()]);
        } else {
            assert(r[i] == a.last());
            assert(r[j] == b[0]);
        }
    }
}

/// Tokenizing two texts joined where one of them is empty, the first ends
/// with a command or the second starts with one gives the tokens of the
/// first followed by those of the second.
pub proof fn lemma_tokenization_concat(a: Seq<char>, b: Seq<char>)
    requires
        a.len() == 0 || b.len() == 0 || is_command(a.last()) || is_command(b[0]),
    ensures
        tokenization(a + b) == tokenization(a) + tokenization(b),
{
    lemma_tokenization_exists(a);
    lemma_tokenization_exists(b);
    lemma_tokenization_exists(a + b);
    let ta = tokenization(a);
    let tb = tokenization(b);
    if ta.len() > 0 && tb.len() > 0 {
        lemma_flatten_last(ta);
        lemma_flatten_first(tb);
        if a.len() > 0 && is_command(a.last()) {
            assert(!is_comment(ta.last()));
        } else {
            assert(b.len() > 0 && is_command(b[0]));
            assert(!is_comment(tb[0]));
        }
    }
    lemma_flatten_concat(ta, tb);
    lemma_well_formed_concat(ta, tb);
    lemma_tokenization_unique(tokenization(a + b), ta + tb, a + b);
}

/// An empty text has only the empty tokenization.
proof fn lemma_flatten_empty(ts: Seq<TokenModel>)
    requires
        tokens_well_formed(ts),
        flatten(ts).len() == 0,
    ensures
        ts.len() == 0,
{
    if ts.len() > 0 {
        lemma_flatten_last(ts);
    }
}

/// A text has only one tokenization: commands are single tokens and each
/// maximal run of other characters is one comment.
pub proof fn lemma_tokenization_unique(a: Seq<TokenModel>, b: Seq<TokenModel>, input: Seq<char>)
    requires
        is_tokenization_of(a, input),
        is_tokenization_of(b, input),
    ensures
        a == b,
    decreases a.len() + b.len(),
{
    if input.len() == 0 {
        lemma_flatten_empty(a);
        lemma_flatten_empty(b);
        assert(a =~= b);
        return;
    }
    if a.len() == 0 || b.len() == 0 {
        assert(flatten(Seq::<TokenModel>::empty()) =~= Seq::<char>::empty());
        assert(false);
    }
    let a1 = a.drop_last();
    let b1 = b.drop_last();
    let ta = a.last();
    let tb = b.last();
    assert(a[a.len() - 1] == ta);
    assert(b[b.len() - 1] == tb);
    let xa = source_text(ta);
    let xb = source_text(tb);
    assert(input == flatten(a1) + xa);
    assert(input == flatten(b1) + xb);
    lemma_well_formed_drop_last(a);
    lemma_well_formed_drop_last(b);
    if let TokenModel::Comment(x) = ta {
        assert(is_comment_text(x));
    }
    if let TokenModel::Comment(y) = tb {
        assert(is_comment_text(y));
    }
    assert(xa.len() > 0 && xb.len() > 0);
    assert(input.last() == xa.last());
    assert(input.last() == xb.last());
    if is_comment(ta) != is_comment(tb) {
        assert(false);
    }
    if is_comment(ta) {
        // Both end in a comment; the comments are the same run of characters.
        if a1.len() > 0 {
            assert(!(is_comment(a[a.len() - 2]) && is_comment(a[a.len() - 1])));
            assert(a1.last() == a[a.len() - 2]);
            lemma_flatten_last(a1);
        }
        if b1.len() > 0 {
            assert(!(is_comment(b[b.len() - 2]) && is_comment(b[b.len() - 1])));
            assert(b1.last() == b[b.len() - 2]);
            lemma_flatten_last(b1);
        }
        if xa.len() < xb.len() {
            let k = flatten(a1).len() - 1;
            assert(a1.len() > 0);
            assert(input[k] == flatten(a1)[k]);
            assert(input[k] == xb[k - flatten(b1).len()]);
            assert(false);
        }
        if xb.len() < xa.len() {
            let k = flatten(b1).len() - 1;
            assert(b1.len() > 0);
            assert(input[k] == flatten(b1)[k]);
            assert(input[k] == xa[k - flatten(a1).len()]);
            assert(false);
        }
    } else {
        assert(xa =~= seq![symbol_of(ta)]);
        assert(xb =~= seq![symbol_of(tb)]);
        assert(symbol_of(ta) == symbol_of(tb));
    }
    assert(xa.len() == xb.len());
    assert(flatten(a1) =~= input.subrange(0, input.len() - xa.len()));
    assert(flatten(b1) =~= input.subrange(0, input.len() - xb.len()));
    assert(xa =~= input.subrange(input.len() - xa.len(), input.len() as int));
    assert(xb =~= input.subrange(input.len() - xb.len(), input.len() as int));
    lemma_tokenization_unique(a1, b1, flatten(a1));
    assert(ta == tb);
    assert(a =~= a1.push(ta));
    assert(b =~= b1.push(tb));
}

/// Splits source text into tokens.
pub struct Tokenizer {}

impl Tokenizer {
    /// Reads `input` into commands and comments. Each command character gives
    /// its token; each maximal run of other characters gives one comment.
    pub fn tokenize(input: &str) -> (tokens: Vec<Token>)
        ensures
            is_tokenization_of(models(tokens@), input@),
            models(tokens@) == tokenization(input@),
    {
        broadcast use vstd::string::group_string_axioms;

        let mut tokens: Vec<Token> = Vec::new();
        let mut comment = String::new();
        let mut comment_open: bool = false;
        let ghost mut consumed: Seq<char> = Seq::empty();
        for ch in it: input.chars()
            invariant
                it.seq() == input@,
                consumed == input@.take(it.index()),
                comment_open == (comment@.len() > 0),
                forall|i: int| 0 <= i < comment@.len() ==> !is_command(#[trigger] comment@[i]),
                tokens@.len() > 0 ==> !is_comment(models(tokens@).last()),
                tokens_well_formed(models(tokens@)),
                flatten(models(tokens@)) + comment@ == consumed,
        {
            let current = match ch {
                '<' => Some(Token::MoveLeft),
                '>' => Some(Token::MoveRight),
                '+' => Some(Token::Increment),
                '-' => Some(Token::Decrement),
                '.' => Some(Token::Output),
                ',' => Some(Token::Input),
                '[' => Some(Token::LoopStart),
                ']' => Some(Token::LoopClose),
                _ => None,
            };
            proof {
                assert(input@.take(it.index() + 1) =~= consumed.push(ch));
                consumed = consumed.push(ch);
            }
            match current {
                Some(t) => {
                    if comment_open {
                        let ghost before = tokens@;
                        let done = comment;
                        comment = String::new();
                        comment_open = false;
                        proof {
                            lemma_models_push(before, Token::Comment(done));
                            lemma_flatten_push(models(before), TokenModel::Comment(done@));
                        }
                        tokens.push(Token::Comment(done));
                    }
                    let ghost before = tokens@;
                    proof {
                        lemma_models_push(before, t);
                        lemma_flatten_push(models(before), t@);
                        assert(source_text(t@) =~= seq![ch]);
                    }
                    tokens.push(t);
                },
                None => {
                    comment.push(ch);
                    comment_open = true;
                },
            }
        }
        if comment_open {
            let ghost before = tokens@;
            proof {
                lemma_models_push(before, Token::Comment(comment));
                lemma_flatten_push(models(before), TokenModel::Comment(comment@));
            }
            tokens.push(Token::Comment(comment));
        }
        proof {
            assert(input@.take(input@.len() as int) =~= input@);
            assert(is_tokenization_of(models(tokens@), input@));
            lemma_tokenization_unique(models(tokens@), tokenization(input@), input@);
        }
        tokens
    }
}


/// How a token changes the bracket depth: `[` opens, `]` closes.
pub open spec fn depth_change(t: TokenModel) -> int {
    match t {
        TokenModel::LoopStart => 1,
        TokenModel::LoopClose => -1,
        _ => 0,
    }
}

/// The bracket depth after the first `k` tokens: the number of `[` among them
/// minus the number of `]`.
pub open spec fn depth(ts: Seq<TokenModel>, k: int) -> int
    decreases k,
{
    if k <= 0 {
        0
    } else {
        depth(ts, k - 1) + depth_change(ts[k - 1])
    }
}

/// Whether the token is `[` or `]`.
pub open spec fn is_bracket(t: TokenModel) -> bool {
    t is LoopStart || t is LoopClose
}

/// No prefix of `ts` closes more brackets than it opens.
pub open spec fn never_negative(ts: Seq<TokenModel>) -> bool {
    forall|k: int| 0 <= k <= ts.len() ==> depth(ts, k) >= 0
}

/// Every bracket of `ts` pairs up.
pub open spec fn balanced(ts: Seq<TokenModel>) -> bool {
    never_negative(ts) && depth(ts, ts.len() as int) == 0
}

/// The `[` at `i` and the `]` at `j` enclose each other: the `]` at `j` is
/// the first point after `i` where the depth falls back to that before `i`.
pub open spec fn brackets_match(ts: Seq<TokenModel>, i: int, j: int) -> bool {
    &&& 0 <= i < j < ts.len()
    &&& ts[i] is LoopStart
    &&& ts[j] is LoopClose
    &&& depth(ts, j + 1) == depth(ts, i)
    &&& forall|k: int| i < k <= j ==> depth(ts, k) > depth(ts, i)
}

/// `position` holds the first `]` that closes no `[`.
pub open spec fn is_unmatched_close(ts: Seq<TokenModel>, position: int) -> bool {
    &&& 0 <= position < ts.len()
    &&& ts[position] is LoopClose
    &&& depth(ts, position) == 0
    &&& forall|k: int| 0 <= k <= position ==> depth(ts, k) >= 0
}

/// `position` holds the first of the `[` that are never closed: the depth
/// before it is zero and never comes back to zero afterwards.
pub open spec fn is_unmatched_open(ts: Seq<TokenModel>, position: int) -> bool {
    &&& 0 <= position < ts.len()
    &&& ts[position] is LoopStart
    &&& depth(ts, position) == 0
    &&& forall|k: int| position < k <= ts.len() ==> depth(ts, k) > 0
}

/// `m` maps each bracket of `ts` to its partner, and nothing else.
pub open spec fn is_jump_table(ts: Seq<TokenModel>, m: Map<usize, usize>) -> bool {
    &&& forall|a: usize| #[trigger] m.contains_key(a) <==> (a < ts.len() && is_bracket(ts[a as int]))
    &&& forall|a: usize|
        #[trigger] m.contains_key(a) ==> (brackets_match(ts, a as int, m[a] as int)
            || brackets_match(ts, m[a] as int, a as int))
}

/// What reading the bracket table of `ts` gives: the table when the brackets
/// are balanced, else the error that names the offending bracket.
pub open spec fn jump_table_outcome(
    ts: Seq<TokenModel>,
    r: Result<Map<usize, usize>, SyntaxError>,
) -> bool {
    match r {
        Ok(m) => balanced(ts) && is_jump_table(ts, m),
        Err(SyntaxError::UnmatchedLoopRightBracket { position }) => is_unmatched_close(
            ts,
            position as int,
        ),
        Err(SyntaxError::UnmatchedLoopLeftBracket { position }) => never_negative(ts)
            && is_unmatched_open(ts, position as int),
    }
}

/// The result of [`JumpTable::from`] as a mathematical value.
pub open spec fn table_view(r: Result<HashMap<usize, usize>, SyntaxError>) -> Result<
    Map<usize, usize>,
    SyntaxError,
> {
    match r {
        Ok(m) => Ok(m@),
        Err(e) => Err(e),
    }
}

/// A bracket has at most one partner: a `[` matches at most one `]`, and a
/// `]` is matched by at most one `[`.
pub proof fn lemma_partner_unique(ts: Seq<TokenModel>, i: int, j: int, i2: int, j2: int)
    ensures
        brackets_match(ts, i, j) && brackets_match(ts, i, j2) ==> j == j2,
        brackets_match(ts, i, j) && brackets_match(ts, i2, j) ==> i == i2,
{
    if brackets_match(ts, i, j) && brackets_match(ts, i, j2) && j != j2 {
        if j < j2 {
            assert(depth(ts, j + 1) > depth(ts, i));
        } else {
            assert(depth(ts, j2 + 1) > depth(ts, i));
        }
    }
    if brackets_match(ts, i, j) && brackets_match(ts, i2, j) && i != i2 {
        if i < i2 {
            assert(depth(ts, i2) > depth(ts, i));
        } else {
            assert(depth(ts, i) > depth(ts, i2));
        }
    }
}

/// A bracket table is its own inverse: the partner of a bracket's partner is
/// the bracket itself.
pub proof fn lemma_jump_table_involution(ts: Seq<TokenModel>, m: Map<usize, usize>, a: usize)
    requires
        is_jump_table(ts, m),
        m.contains_key(a),
    ensures
        m.contains_key(m[a]),
        m[m[a]] == a,
{
    let b = m[a];
    assert(m.contains_key(b));
    let c = m[b];
    if brackets_match(ts, a as int, b as int) {
        lemma_partner_unique(ts, a as int, b as int, c as int, b as int);
    } else {
        lemma_partner_unique(ts, b as int, a as int, b as int, c as int);
    }
}

/// The bracket table of `ts` (there is at most one: see
/// [`lemma_jump_table_unique`]).
pub open spec fn jump_table_of(ts: Seq<TokenModel>) -> Map<usize, usize> {
    choose|m: Map<usize, usize>| is_jump_table(ts, m)
}

/// A token sequence has at most one bracket table.
pub proof fn lemma_jump_table_unique(ts: Seq<TokenModel>, m1: Map<usize, usize>, m2: Map<usize, usize>)
    requires
        is_jump_table(ts, m1),
        is_jump_table(ts, m2),
    ensures
        m1 == m2,
{
    assert forall|a: usize| m1.contains_key(a) implies m1[a] == m2[a] by {
        assert(m2.contains_key(a));
        let x = m1[a];
        let y = m2[a];
        if ts[a as int] is LoopStart {
            lemma_partner_unique(ts, a as int, x as int, a as int, y as int);
        } else {
            lemma_partner_unique(ts, x as int, a as int, y as int, a as int);
        }
    }
    assert(m1 =~= m2);
}

/// Pairs the brackets of a token sequence.
pub struct JumpTable {}

impl JumpTable {
    /// Maps each `[` to its `]` and back. The brackets must be balanced: on
    /// tokens whose brackets do not pair up this panics (use
    /// [`JumpTable::try_from`] to get the offending bracket as an error).
    pub fn from(tokens: &[Token]) -> (m: HashMap<usize, usize>)
        requires
            balanced(models(tokens@)),
        ensures
            is_jump_table(models(tokens@), m@),
    {
        match Self::try_from(tokens) {
            Ok(m) => m,
            Err(_) => unreached(),
        }
    }

    /// Maps each `[` to its `]` and back. A `]` that closes nothing, or a `[`
    /// left open at the end, is reported with its token index; this is the
    /// error that [`crate::program::Program::from`] passes on.
    pub fn try_from(tokens: &[Token]) -> (r: Result<HashMap<usize, usize>, SyntaxError>)
        ensures
            jump_table_outcome(models(tokens@), table_view(r)),
            r is Ok <==> balanced(models(tokens@)),
    {
        broadcast use vstd::std_specs::hash::group_hash_axioms;

        let ghost ts = models(tokens@);
        let mut stack: Vec<usize> = Vec::new();
        let mut jump_table: HashMap<usize, usize> = HashMap::new();
        let n = tokens.len();
        for i in 0..n
            invariant
                n == tokens@.len(),
                ts == models(tokens@),
                forall|k: int| 0 <= k <= i ==> depth(ts, k) >= 0,
                stack@.len() == depth(ts, i as int),
                forall|d: int|
                    0 <= d < stack@.len() ==> {
                        &&& #[trigger] stack@[d] < i
                        &&& ts[stack@[d] as int] is LoopStart
                        &&& depth(ts, stack@[d] as int) == d
                        &&& forall|q: int| stack@[d] < q <= i ==> depth(ts, q) > d
                    },
                forall|a: usize|
                    #[trigger] jump_table@.contains_key(a) <==> (a < i && is_bracket(ts[a as int])
                        && !(ts[a as int] is LoopStart && forall|q: int|
                        a < q <= i ==> depth(ts, q) > depth(ts, a as int))),
                forall|a: usize|
                    #[trigger] jump_table@.contains_key(a) ==> (brackets_match(
                        ts,
                        a as int,
                        jump_table@[a] as int,
                    ) || brackets_match(ts, jump_table@[a] as int, a as int)),
        {
            assert(ts[i as int] == tokens@[i as int]@);
            match &tokens[i] {
                Token::LoopStart => {
                    stack.push(i);
                },
                Token::LoopClose => {
                    if stack.len() == 0 {
                        assert(depth(ts, i + 1) < 0);
                        return Err(SyntaxError::UnmatchedLoopRightBracket { position: i });
                    }
                    let top = stack[stack.len() - 1];
                    jump_table.insert(top, i);
                    jump_table.insert(i, top);
                    stack.pop();
                },
                _ => {},
            }
        }
        if stack.len() > 0 {
            return Err(SyntaxError::UnmatchedLoopLeftBracket { position: stack[0] });
        }
        Ok(jump_table)
    }
}

} // verus!
