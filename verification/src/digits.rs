//! Decimal digit strings: printing a non-negative number and reading one
//! back, used for response status codes, URL ports and positions in error
//! messages.

use vstd::prelude::*;

verus! {

/// The digit character for a value between 0 and 9.
pub open spec fn digit_char(d: int) -> char {
    if d == 0 {
        '0'
    } else if d == 1 {
        '1'
    } else if d == 2 {
        '2'
    } else if d == 3 {
        '3'
    } else if d == 4 {
        '4'
    } else if d == 5 {
        '5'
    } else if d == 6 {
        '6'
    } else if d == 7 {
        '7'
    } else if d == 8 {
        '8'
    } else {
        '9'
    }
}

/// Whether `c` is a decimal digit.
pub open spec fn is_digit(c: char) -> bool {
    c == '0' || c == '1' || c == '2' || c == '3' || c == '4' || c == '5' || c == '6' || c == '7'
        || c == '8' || c == '9'
}

/// The value of a digit character; anything beyond '8' counts as 9.
pub open spec fn digit_val(c: char) -> int {
    if c == '0' {
        0
    } else if c == '1' {
        1
    } else if c == '2' {
        2
    } else if c == '3' {
        3
    } else if c == '4' {
        4
    } else if c == '5' {
        5
    } else if c == '6' {
        6
    } else if c == '7' {
        7
    } else if c == '8' {
        8
    } else {
        9
    }
}

/// The decimal representation of `n`, most significant digit first, without
/// leading zeros (`0` itself prints as "0").
pub open spec fn dec_rep(n: int) -> Seq<char>
    decreases n,
{
    if n <= 0 {
        seq!['0']
    } else if n < 10 {
        seq![digit_char(n)]
    } else {
        dec_rep(n / 10) + seq![digit_char(n % 10)]
    }
}

/// The number a digit string denotes, most significant digit first.
pub open spec fn num_val(s: Seq<char>) -> int
    decreases s.len(),
{
    if s.len() == 0 {
        0
    } else {
        num_val(s.drop_last()) * 10 + digit_val(s.last())
    }
}

/// Whether every character of `s` is a decimal digit.
pub open spec fn all_digits(s: Seq<char>) -> bool {
    forall|i: int| 0 <= i < s.len() ==> is_digit(s[i])
}

/// A digit string denotes a non-negative number.
pub proof fn lemma_num_val_nonneg(s: Seq<char>)
    ensures
        num_val(s) >= 0,
    decreases s.len(),
{
    if s.len() > 0 {
        lemma_num_val_nonneg(s.drop_last());
    }
}

/// Printing a number yields digits that read back as the same number.
pub proof fn lemma_dec_rep(n: int)
    requires
        n >= 0,
    ensures
        all_digits(dec_rep(n)),
        dec_rep(n).len() >= 1,
        num_val(dec_rep(n)) == n,
    decreases n,
{
    if n < 10 {
        let s = dec_rep(n);
        assert(s.drop_last() =~= Seq::<char>::empty());
        assert(s.last() == digit_char(n));
        assert(num_val(Seq::<char>::empty()) == 0);
        lemma_digit_round_trip(n);
        assert(num_val(s) == num_val(s.drop_last()) * 10 + digit_val(s.last()));
    } else {
        lemma_dec_rep(n / 10);
        let s = dec_rep(n);
        let a = dec_rep(n / 10);
        assert(s.drop_last() =~= a);
        assert(s.last() == digit_char(n % 10));
        lemma_digit_round_trip(n % 10);
        assert(num_val(s) == num_val(a) * 10 + digit_val(s.last()));
        assert forall|i: int| 0 <= i < s.len() implies is_digit(s[i]) by {
            if i < a.len() {
                assert(s[i] == a[i]);
            }
        }
    }
}

/// A digit value below ten reads back from its character.
pub proof fn lemma_digit_round_trip(d: int)
    requires
        0 <= d < 10,
    ensures
        digit_val(digit_char(d)) == d,
        is_digit(digit_char(d)),
{
}

/// Reading a longer prefix of a digit string never shrinks the value.
pub proof fn lemma_num_val_prefix(s: Seq<char>, i: int)
    requires
        0 <= i <= s.len(),
    ensures
        num_val(s.take(i)) <= num_val(s),
    decreases s.len() - i,
{
    if i < s.len() {
        lemma_num_val_prefix(s, i + 1);
        assert(s.take(i + 1).drop_last() =~= s.take(i));
        assert(s.take(i + 1).last() == s[i]);
        lemma_num_val_nonneg(s.take(i));
    } else {
        assert(s.take(i) =~= s);
    }
}

/// The printed form of a digit value below ten.
pub fn digit_str(d: u64) -> (r: &'static str)
    requires
        d < 10,
    ensures
        r@ == seq![digit_char(d as int)],
{
    let r: &'static str = if d == 0 {
        "0"
    } else if d == 1 {
        "1"
    } else if d == 2 {
        "2"
    } else if d == 3 {
        "3"
    } else if d == 4 {
        "4"
    } else if d == 5 {
        "5"
    } else if d == 6 {
        "6"
    } else if d == 7 {
        "7"
    } else if d == 8 {
        "8"
    } else {
        "9"
    };
    proof {
        reveal_strlit("0");
        reveal_strlit("1");
        reveal_strlit("2");
        reveal_strlit("3");
        reveal_strlit("4");
        reveal_strlit("5");
        reveal_strlit("6");
        reveal_strlit("7");
        reveal_strlit("8");
        reveal_strlit("9");
        assert(r@ =~= seq![digit_char(d as int)]);
    }
    r
}

/// Prints `n` in decimal.
pub fn dec_string(n: u64) -> (r: String)
    ensures
        r@ == dec_rep(n as int),
    decreases n,
{
    if n < 10 {
        digit_str(n).to_owned()
    } else {
        let mut s = dec_string(n / 10);
        s.append(digit_str(n % 10));
        s
    }
}

/// Whether `c` is a decimal digit.
pub fn is_digit_char(c: char) -> (r: bool)
    ensures
        r == is_digit(c),
{
    c == '0' || c == '1' || c == '2' || c == '3' || c == '4' || c == '5' || c == '6' || c == '7'
        || c == '8' || c == '9'
}

/// The value of a digit character.
pub fn digit_value(c: char) -> (r: u32)
    requires
        is_digit(c),
    ensures
        r as int == digit_val(c),
{
    if c == '0' {
        0
    } else if c == '1' {
        1
    } else if c == '2' {
        2
    } else if c == '3' {
        3
    } else if c == '4' {
        4
    } else if c == '5' {
        5
    } else if c == '6' {
        6
    } else if c == '7' {
        7
    } else if c == '8' {
        8
    } else {
        9
    }
}

/// Reads a number of at most `bound` from a digit string: the whole of `s`
/// must be digits and the value must not exceed `bound`.
pub fn parse_bounded(s: &str, bound: u32) -> (r: Option<u32>)
    requires
        bound <= u32::MAX / 16,
    ensures
        match r {
            Some(v) => s@.len() > 0 && all_digits(s@) && num_val(s@) == v as int && v <= bound,
            None => !(s@.len() > 0 && all_digits(s@) && num_val(s@) <= bound as int),
        },
{
    let n: usize = s.unicode_len();
    if n == 0 {
        return None;
    }
    let mut acc: u32 = 0;
    let mut i: usize = 0;
    while i < n
        invariant
            n == s@.len(),
            0 <= i <= n,
            bound <= u32::MAX / 16,
            forall|j: int| 0 <= j < i ==> is_digit(s@[j]),
            acc as int == num_val(s@.take(i as int)),
            acc <= bound,
        decreases n - i,
    {
        let c = s.get_char(i);
        if !is_digit_char(c) {
            return None;
        }
        let next: u32 = acc * 10 + digit_value(c);
        proof {
            assert(s@.take(i + 1).drop_last() =~= s@.take(i as int));
            assert(s@.take(i + 1).last() == s@[i as int]);
        }
        if next > bound {
            proof {
                lemma_num_val_prefix(s@, i + 1);
            }
            return None;
        }
        acc = next;
        i += 1;
    }
    proof {
        assert(s@.take(n as int) =~= s@);
    }
    Some(acc)
}

} // verus!
