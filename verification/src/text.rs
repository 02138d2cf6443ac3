//! String building shared by the tokenizer, the error messages and the
//! renderers: appending characters and decimal numbers.

use vstd::prelude::*;

verus! {

/// `String::push` appends one character at the end of the string.
/// Trusted: the standard library documents that `push` appends the given
/// `char` to the end of the `String`; nothing else about the string changes.
pub assume_specification[ String::push ](s: &mut String, ch: char)
    ensures
        final(s)@ == old(s)@.push(ch),
;

/// The character of a decimal digit.
pub open spec fn digit_char(d: nat) -> char
    recommends
        d < 10,
{
    ((48 + d) as u8) as char
}

/// The decimal text of `n`, without leading zeros (`0` is `"0"`).
pub open spec fn decimal(n: nat) -> Seq<char>
    decreases n,
{
    if n < 10 {
        seq![digit_char(n)]
    } else {
        decimal(n / 10).push(digit_char(n % 10))
    }
}

/// Appends the decimal text of `n` to `s`.
pub fn push_decimal(s: &mut String, n: usize)
    ensures
        final(s)@ == old(s)@ + decimal(n as nat),
    decreases n,
{
    if n >= 10 {
        push_decimal(s, n / 10);
    }
    let d = (n % 10) as u8;
    s.push((48u8 + d) as char);
    proof {
        assert(old(s)@ + decimal(n as nat) =~= (if n >= 10 {
            old(s)@ + decimal((n / 10) as nat)
        } else {
            old(s)@
        }).push(digit_char((n % 10) as nat)));
    }
}

/// The decimal values of `cells`, with `sep` between neighbours.
pub open spec fn joined_decimals(cells: Seq<u8>, sep: Seq<char>) -> Seq<char>
    decreases cells.len(),
{
    if cells.len() == 0 {
        Seq::empty()
    } else if cells.len() == 1 {
        decimal(cells[0] as nat)
    } else {
        joined_decimals(cells.drop_last(), sep) + sep + decimal(cells.last() as nat)
    }
}

/// Appends the decimal values of the first `count` cells, with `sep`
/// between neighbours.
pub fn push_joined_decimals(s: &mut String, cells: &[u8], count: usize, sep: &str)
    requires
        count <= cells@.len(),
    ensures
        final(s)@ == old(s)@ + joined_decimals(cells@.take(count as int), sep@),
{
    let ghost start = s@;
    for i in 0..count
        invariant
            count <= cells@.len(),
            s@ == start + joined_decimals(cells@.take(i as int), sep@),
    {
        let ghost prev = cells@.take(i as int);
        if i > 0 {
            s.append(sep);
        }
        push_decimal(s, cells[i] as usize);
        proof {
            let next = cells@.take(i + 1);
            assert(next.drop_last() =~= prev);
            assert(next.last() == cells@[i as int]);
            assert(s@ =~= start + joined_decimals(next, sep@));
        }
    }
}

/// How many times `c` occurs in `s`.
pub open spec fn count_char(s: Seq<char>, c: char) -> nat
    decreases s.len(),
{
    if s.len() == 0 {
        0
    } else {
        count_char(s.drop_last(), c) + if s.last() == c {
            1nat
        } else {
            0nat
        }
    }
}

proof fn lemma_count_char_concat(a: Seq<char>, b: Seq<char>, c: char)
    ensures
        count_char(a + b, c) == count_char(a, c) + count_char(b, c),
    decreases b.len(),
{
    if b.len() == 0 {
        assert(a + b =~= a);
    } else {
        lemma_count_char_concat(a, b.drop_last(), c);
        assert((a + b).drop_last() =~= a + b.drop_last());
        assert((a + b).last() == b.last());
    }
}

/// A decimal text holds no space.
pub proof fn lemma_decimal_has_no_space(n: nat)
    ensures
        count_char(decimal(n), ' ') == 0,
    decreases n,
{
    let d = n % 10;
    assert(digit_char(d) != ' ') by {
        assert(48 <= 48 + d < 58);
    }
    assert(decimal(n).last() == digit_char(d));
    assert(count_char(Seq::<char>::empty(), ' ') == 0);
    if n < 10 {
        assert(decimal(n).drop_last() =~= Seq::<char>::empty());
    } else {
        lemma_decimal_has_no_space(n / 10);
        assert(decimal(n).drop_last() =~= decimal(n / 10));
    }
}

/// Values joined by single spaces hold one space fewer than values.
pub proof fn lemma_joined_spaces(cells: Seq<u8>)
    requires
        cells.len() > 0,
    ensures
        count_char(joined_decimals(cells, seq![' ']), ' ') + 1 == cells.len(),
    decreases cells.len(),
{
    lemma_decimal_has_no_space(cells.last() as nat);
    if cells.len() == 1 {
        lemma_decimal_has_no_space(cells[0] as nat);
    } else {
        let p = cells.drop_last();
        lemma_joined_spaces(p);
        let j = joined_decimals(p, seq![' ']);
        lemma_count_char_concat(j, seq![' '], ' ');
        lemma_count_char_concat(j + seq![' '], decimal(cells.last() as nat), ' ');
        assert(seq![' '].drop_last() =~= Seq::<char>::empty());
        assert(count_char(Seq::<char>::empty(), ' ') == 0);
        assert(count_char(seq![' '], ' ') == 1);
    }
}

} // verus!
