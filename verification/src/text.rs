//! Decimal rendering of integers and Discord user mentions.

use vstd::prelude::*;

verus! {

/// The character of the decimal digit `d` (`0 <= d < 10`).
pub open spec fn digit_char(d: int) -> char {
    if d == 0 { '0' }
    else if d == 1 { '1' }
    else if d == 2 { '2' }
    else if d == 3 { '3' }
    else if d == 4 { '4' }
    else if d == 5 { '5' }
    else if d == 6 { '6' }
    else if d == 7 { '7' }
    else if d == 8 { '8' }
    else { '9' }
}

/// The decimal representation of `n`, most significant digit first, without
/// leading zeros (`0` is the single digit `'0'`).
pub open spec fn decimal(n: nat) -> Seq<char>
    decreases n,
{
    if n < 10 {
        seq![digit_char(n as int)]
    } else {
        decimal(n / 10).push(digit_char((n % 10) as int))
    }
}

fn digit_str(d: u64) -> (s: &'static str)
    requires
        d < 10,
    ensures
        s@ == seq![digit_char(d as int)],
{
    if d == 0 {
        proof { reveal_strlit("0"); }
        "0"
    } else if d == 1 {
        proof { reveal_strlit("1"); }
        "1"
    } else if d == 2 {
        proof { reveal_strlit("2"); }
        "2"
    } else if d == 3 {
        proof { reveal_strlit("3"); }
        "3"
    } else if d == 4 {
        proof { reveal_strlit("4"); }
        "4"
    } else if d == 5 {
        proof { reveal_strlit("5"); }
        "5"
    } else if d == 6 {
        proof { reveal_strlit("6"); }
        "6"
    } else if d == 7 {
        proof { reveal_strlit("7"); }
        "7"
    } else if d == 8 {
        proof { reveal_strlit("8"); }
        "8"
    } else {
        proof { reveal_strlit("9"); }
        "9"
    }
}

/// Renders `n` in decimal, as `n.to_string()` does.
pub fn u64_to_decimal(n: u64) -> (s: String)
    ensures
        s@ == decimal(n as nat),
    decreases n,
{
    if n < 10 {
        String::from_str(digit_str(n))
    } else {
        let mut s = u64_to_decimal(n / 10);
        s.append(digit_str(n % 10));
        s
    }
}


/// Whether `c` is one of the ten decimal digits.
pub open spec fn is_digit(c: char) -> bool {
    '0' <= c <= '9'
}

/// The decimal representation of a signed integer: a `'-'` before the
/// digits of its magnitude when it is negative.
pub open spec fn signed_decimal(i: int) -> Seq<char> {
    if i < 0 {
        seq!['-'] + decimal((-i) as nat)
    } else {
        decimal(i as nat)
    }
}

/// How Discord's message syntax mentions the user with id `id`.
pub open spec fn mention(id: u64) -> Seq<char> {
    "<@"@ + decimal(id as nat) + ">"@
}

/// Every character of a decimal representation is a digit, and there is at
/// least one; numbers from ten on have at least two.
pub proof fn lemma_decimal_shape(n: nat)
    ensures
        decimal(n).len() >= 1,
        n >= 10 ==> decimal(n).len() >= 2,
        forall|i: int| 0 <= i < decimal(n).len() ==> is_digit(#[trigger] decimal(n)[i]),
    decreases n,
{
    if n >= 10 {
        lemma_decimal_shape(n / 10);
    }
}

/// Distinct numbers have distinct decimal representations.
pub proof fn lemma_decimal_injective(a: nat, b: nat)
    requires
        decimal(a) == decimal(b),
    ensures
        a == b,
    decreases a,
{
    lemma_decimal_shape(a);
    lemma_decimal_shape(b);
    if a >= 10 && b >= 10 {
        assert(decimal(a).drop_last() =~= decimal(a / 10));
        assert(decimal(b).drop_last() =~= decimal(b / 10));
        lemma_decimal_injective(a / 10, b / 10);
        assert(decimal(a).last() == digit_char((a % 10) as int));
        assert(decimal(b).last() == digit_char((b % 10) as int));
        lemma_digit_char_injective((a % 10) as int, (b % 10) as int);
    } else if a < 10 && b < 10 {
        assert(decimal(a)[0] == digit_char(a as int));
        assert(decimal(b)[0] == digit_char(b as int));
        lemma_digit_char_injective(a as int, b as int);
    }
}

proof fn lemma_digit_char_injective(x: int, y: int)
    requires
        0 <= x < 10,
        0 <= y < 10,
        digit_char(x) == digit_char(y),
    ensures
        x == y,
{
}

/// Two numbers joined by a separator that is not a digit determine both
/// numbers.
pub proof fn lemma_decimal_pair_injective(a: nat, c: nat, b: nat, d: nat, sep: char)
    requires
        !is_digit(sep),
        decimal(a) + seq![sep] + decimal(c) == decimal(b) + seq![sep] + decimal(d),
    ensures
        a == b,
        c == d,
{
    let x = decimal(a);
    let y = decimal(b);
    let s1 = x + seq![sep] + decimal(c);
    let s2 = y + seq![sep] + decimal(d);
    lemma_decimal_shape(a);
    lemma_decimal_shape(b);
    lemma_decimal_shape(c);
    lemma_decimal_shape(d);
    if x.len() < y.len() {
        assert(s1[x.len() as int] == sep);
        assert(s2[x.len() as int] == y[x.len() as int]);
        assert(false);
    }
    if y.len() < x.len() {
        assert(s2[y.len() as int] == sep);
        assert(s1[y.len() as int] == x[y.len() as int]);
        assert(false);
    }
    assert(x =~= s1.subrange(0, x.len() as int));
    assert(y =~= s2.subrange(0, y.len() as int));
    lemma_decimal_injective(a, b);
    assert(decimal(c) =~= s1.subrange(x.len() as int + 1, s1.len() as int));
    assert(decimal(d) =~= s2.subrange(y.len() as int + 1, s2.len() as int));
    lemma_decimal_injective(c, d);
}

/// Renders `n` in decimal, with a leading `-` when negative, as
/// `n.to_string()` does.
pub fn i64_to_decimal(n: i64) -> (s: String)
    ensures
        s@ == signed_decimal(n as int),
{
    if n < 0 {
        let magnitude: u64 = (-(n + 1)) as u64 + 1;
        let digits = u64_to_decimal(magnitude);
        let mut s = String::from_str("-");
        s.append(digits.as_str());
        proof {
            reveal_strlit("-");
        }
        s
    } else {
        u64_to_decimal(n as u64)
    }
}

/// Renders `usize` values in decimal.
pub fn usize_to_decimal(n: usize) -> (s: String)
    ensures
        s@ == decimal(n as nat),
{
    u64_to_decimal(n as u64)
}

/// The mention of user `id`, `<@id>`, as serenity's `Mention` displays it.
pub fn mention_user(id: u64) -> (s: String)
    ensures
        s@ == mention(id),
{
    let mut s = String::from_str("<@");
    let digits = u64_to_decimal(id);
    s.append(digits.as_str());
    s.append(">");
    s
}

/// Whether `piece` occurs in `text` as one unbroken stretch.
pub open spec fn contains_text(text: Seq<char>, piece: Seq<char>) -> bool {
    exists|before: Seq<char>, after: Seq<char>| #[trigger] (before + piece + after) == text
}

/// Whether `first` and then, further on, `second` occur in `text`, each as
/// one unbroken stretch.
pub open spec fn appear_in_order(text: Seq<char>, first: Seq<char>, second: Seq<char>) -> bool {
    exists|before: Seq<char>, between: Seq<char>, after: Seq<char>|
        #[trigger] (before + first + between + second + after) == text
}

/// The middle of three joined texts occurs in them.
pub proof fn lemma_contains_middle(before: Seq<char>, piece: Seq<char>, after: Seq<char>)
    ensures
        contains_text(before + piece + after, piece),
{
    assert((before + piece + after) == before + piece + after);
}

/// What occurs in a text occurs in any text that surrounds it.
pub proof fn lemma_contains_within(text: Seq<char>, piece: Seq<char>, before: Seq<char>, after: Seq<char>)
    requires
        contains_text(text, piece),
    ensures
        contains_text(before + text + after, piece),
{
    let (p, q) = choose|p: Seq<char>, q: Seq<char>| #[trigger] (p + piece + q) == text;
    assert((before + p) + piece + (q + after) =~= before + text + after);
}

} // verus!
