//! Character-level text utilities shared by the template compiler and the
//! raw request/response parser: first-occurrence search, whitespace
//! trimming, and line splitting with CRLF or LF line endings.

use vstd::prelude::*;

verus! {

/// Whitespace that is trimmed around header names, header values and URLs.
pub open spec fn is_ws(c: char) -> bool {
    c == ' ' || c == '\t'
}

/// Index of the first occurrence of `c` in `s`, if any.
pub open spec fn find_char(s: Seq<char>, c: char) -> Option<int>
    decreases s.len(),
{
    if s.len() == 0 {
        None
    } else if s[0] == c {
        Some(0int)
    } else {
        match find_char(s.drop_first(), c) {
            Some(i) => Some(i + 1),
            None => None,
        }
    }
}

/// `find_char` returns the least index holding `c`, or `None` when `c` does
/// not occur.
pub proof fn lemma_find_char_spec(s: Seq<char>, c: char)
    ensures
        match find_char(s, c) {
            Some(i) => 0 <= i < s.len() && s[i] == c && (forall|j: int| 0 <= j < i ==> s[j] != c),
            None => forall|j: int| 0 <= j < s.len() ==> s[j] != c,
        },
    decreases s.len(),
{
    if s.len() > 0 && s[0] != c {
        let t = s.drop_first();
        lemma_find_char_spec(t, c);
        match find_char(t, c) {
            Some(i) => {
                assert(s[i + 1] == t[i]);
                assert forall|j: int| 0 <= j < i + 1 implies s[j] != c by {
                    if j > 0 {
                        assert(s[j] == t[j - 1]);
                    }
                }
            },
            None => {
                assert forall|j: int| 0 <= j < s.len() implies s[j] != c by {
                    if j > 0 {
                        assert(s[j] == t[j - 1]);
                    }
                }
            },
        }
    }
}

/// If `c` first occurs at `i`, then `find_char` finds exactly `i`.
pub proof fn lemma_find_char_at(s: Seq<char>, c: char, i: int)
    requires
        0 <= i < s.len(),
        s[i] == c,
        forall|j: int| 0 <= j < i ==> s[j] != c,
    ensures
        find_char(s, c) == Some(i),
{
    lemma_find_char_spec(s, c);
    match find_char(s, c) {
        Some(k) => {
            if k < i {
                assert(s[k] != c);
            } else if k > i {
                assert(s[i] != c);
            }
        },
        None => {
            assert(s[i] != c);
        },
    }
}

/// Finds the first occurrence of `c` in `s`, scanning left to right.
pub fn find_char_in(s: &str, c: char) -> (r: Option<usize>)
    ensures
        match r {
            Some(i) => find_char(s@, c) == Some(i as int),
            None => find_char(s@, c) is None,
        },
{
    let n: usize = s.unicode_len();
    let mut i: usize = 0;
    while i < n
        invariant
            n == s@.len(),
            0 <= i <= n,
            forall|j: int| 0 <= j < i ==> s@[j] != c,
        decreases n - i,
    {
        if s.get_char(i) == c {
            proof {
                lemma_find_char_at(s@, c, i as int);
            }
            return Some(i);
        }
        i += 1;
    }
    proof {
        lemma_find_char_spec(s@, c);
    }
    None
}

/// True when two `&str` hold the same characters.
pub fn str_eq(a: &str, b: &str) -> (r: bool)
    ensures
        r == (a@ == b@),
{
    let n: usize = a.unicode_len();
    if n != b.unicode_len() {
        return false;
    }
    let mut i: usize = 0;
    while i < n
        invariant
            n == a@.len(),
            n == b@.len(),
            0 <= i <= n,
            forall|j: int| 0 <= j < i ==> a@[j] == b@[j],
        decreases n - i,
    {
        if a.get_char(i) != b.get_char(i) {
            return false;
        }
        i += 1;
    }
    proof {
        assert(a@ =~= b@);
    }
    true
}

/// The suffix of `s` after its leading whitespace.
pub open spec fn drop_leading_ws(s: Seq<char>) -> Seq<char>
    decreases s.len(),
{
    if s.len() > 0 && is_ws(s[0]) {
        drop_leading_ws(s.drop_first())
    } else {
        s
    }
}

/// The prefix of `s` before its trailing whitespace.
pub open spec fn drop_trailing_ws(s: Seq<char>) -> Seq<char>
    decreases s.len(),
{
    if s.len() > 0 && is_ws(s.last()) {
        drop_trailing_ws(s.drop_last())
    } else {
        s
    }
}

/// `s` with surrounding whitespace removed.
pub open spec fn trim(s: Seq<char>) -> Seq<char> {
    drop_trailing_ws(drop_leading_ws(s))
}

/// True when `s` carries no surrounding whitespace, so `trim` leaves it alone.
pub open spec fn is_trimmed(s: Seq<char>) -> bool {
    s.len() > 0 ==> !is_ws(s[0]) && !is_ws(s[s.len() - 1])
}

pub proof fn lemma_drop_leading_ws_skip(s: Seq<char>, a: int)
    requires
        0 <= a <= s.len(),
        forall|j: int| 0 <= j < a ==> is_ws(s[j]),
        a < s.len() ==> !is_ws(s[a]),
    ensures
        drop_leading_ws(s) == s.skip(a),
    decreases a,
{
    if a == 0 {
        assert(s.skip(0) =~= s);
    } else {
        lemma_drop_leading_ws_skip(s.drop_first(), a - 1);
        assert(s.drop_first().skip(a - 1) =~= s.skip(a));
    }
}

pub proof fn lemma_drop_trailing_ws_take(s: Seq<char>, b: int)
    requires
        0 <= b <= s.len(),
        forall|j: int| b <= j < s.len() ==> is_ws(s[j]),
        b > 0 ==> !is_ws(s[b - 1]),
    ensures
        drop_trailing_ws(s) == s.take(b),
    decreases s.len() - b,
{
    if b == s.len() {
        assert(s.take(b) =~= s);
    } else {
        lemma_drop_trailing_ws_take(s.drop_last(), b);
        assert(s.drop_last().take(b) =~= s.take(b));
    }
}

/// Trimming is the identity on already-trimmed text.
pub proof fn lemma_trim_trimmed(s: Seq<char>)
    requires
        is_trimmed(s),
    ensures
        trim(s) == s,
{
    if s.len() == 0 {
        assert(drop_leading_ws(s) == s);
        assert(drop_trailing_ws(s) == s);
    } else {
        assert(drop_leading_ws(s) == s);
        assert(s.last() == s[s.len() - 1]);
        assert(drop_trailing_ws(s) == s);
    }
}

/// A single leading space disappears under trimming.
pub proof fn lemma_trim_space_prefix(s: Seq<char>)
    requires
        is_trimmed(s),
    ensures
        trim(seq![' '] + s) == s,
{
    let t = seq![' '] + s;
    assert(is_ws(t[0]));
    assert(t.drop_first() =~= s);
    assert(drop_leading_ws(t) == drop_leading_ws(s));
    if s.len() == 0 {
        assert(drop_leading_ws(s) == s);
        assert(drop_trailing_ws(s) == s);
    } else {
        assert(drop_leading_ws(s) == s);
        assert(s.last() == s[s.len() - 1]);
        assert(drop_trailing_ws(s) == s);
    }
}

/// Copies `s` without its surrounding whitespace.
pub fn trim_str(s: &str) -> (r: String)
    ensures
        r@ == trim(s@),
{
    let n: usize = s.unicode_len();
    let mut a: usize = 0;
    while a < n && is_ws_char(s.get_char(a))
        invariant
            n == s@.len(),
            0 <= a <= n,
            forall|j: int| 0 <= j < a ==> is_ws(s@[j]),
        decreases n - a,
    {
        a += 1;
    }
    let mut b: usize = n;
    while b > a && is_ws_char(s.get_char(b - 1))
        invariant
            n == s@.len(),
            a <= b <= n,
            forall|j: int| b <= j < n ==> is_ws(s@[j]),
        decreases b,
    {
        b -= 1;
    }
    proof {
        lemma_drop_leading_ws_skip(s@, a as int);
        lemma_drop_trailing_ws_take(s@.skip(a as int), b - a);
        assert(s@.skip(a as int).take(b - a) =~= s@.subrange(a as int, b as int));
    }
    s.substring_char(a, b).to_owned()
}

/// Whether `c` is trimming whitespace.
pub fn is_ws_char(c: char) -> (r: bool)
    ensures
        r == is_ws(c),
{
    c == ' ' || c == '\t'
}

/// A line with a trailing carriage return loses it; CRLF input thereby reads
/// like LF input.
pub open spec fn strip_cr(l: Seq<char>) -> Seq<char> {
    if l.len() > 0 && l.last() == '\r' {
        l.drop_last()
    } else {
        l
    }
}

/// The first line of `s`: text before the first line feed, without a
/// trailing carriage return; the whole of `s` when no line feed occurs.
pub open spec fn line_of(s: Seq<char>) -> Seq<char> {
    match find_char(s, '\n') {
        Some(i) => if 0 <= i <= s.len() {
            strip_cr(s.take(i))
        } else {
            s
        },
        None => strip_cr(s),
    }
}

/// What follows the first line of `s`: text after the first line feed, or
/// empty when no line feed occurs.
pub open spec fn rest_after_line(s: Seq<char>) -> Seq<char> {
    match find_char(s, '\n') {
        Some(i) => if 0 <= i && i + 1 <= s.len() {
            s.skip(i + 1)
        } else {
            Seq::<char>::empty()
        },
        None => Seq::<char>::empty(),
    }
}

/// True when `s` holds neither line feeds nor carriage returns, so it can
/// stand as one line of a serialized message.
pub open spec fn line_clean(s: Seq<char>) -> bool {
    forall|j: int| 0 <= j < s.len() ==> s[j] != '\n' && s[j] != '\r'
}

/// Splitting a serialized line off a longer text recovers the line and the
/// remainder exactly.
pub proof fn lemma_split_concat(a: Seq<char>, b: Seq<char>)
    requires
        line_clean(a),
    ensures
        line_of(a + seq!['\n'] + b) == a,
        rest_after_line(a + seq!['\n'] + b) == b,
{
    let s = a + seq!['\n'] + b;
    assert(s[a.len() as int] == '\n');
    assert forall|j: int| 0 <= j < a.len() implies s[j] != '\n' by {
        assert(s[j] == a[j]);
    }
    lemma_find_char_at(s, '\n', a.len() as int);
    assert(s.take(a.len() as int) =~= a);
    if a.len() > 0 {
        assert(a.last() != '\r');
    }
    assert(strip_cr(a) == a);
    assert(s.skip(a.len() as int + 1) =~= b);
}

/// Splits `s` into its first line (without the line ending) and the text
/// after that line.
pub fn split_line(s: &str) -> (r: (String, String))
    ensures
        r.0@ == line_of(s@),
        r.1@ == rest_after_line(s@),
{
    let n: usize = s.unicode_len();
    match find_char_in(s, '\n') {
        Some(i) => {
            proof {
                lemma_find_char_spec(s@, '\n');
            }
            let line = s.substring_char(0, i);
            let rest = s.substring_char(i + 1, n);
            proof {
                assert(s@.subrange(0, i as int) =~= s@.take(i as int));
                assert(s@.subrange(i + 1, n as int) =~= s@.skip(i + 1));
            }
            (strip_cr_str(line), rest.to_owned())
        },
        None => (strip_cr_str(s), String::new()),
    }
}

/// Copies `l` without a trailing carriage return.
pub fn strip_cr_str(l: &str) -> (r: String)
    ensures
        r@ == strip_cr(l@),
{
    let n: usize = l.unicode_len();
    if n > 0 && l.get_char(n - 1) == '\r' {
        proof {
            assert(l@.subrange(0, n - 1) =~= l@.drop_last());
        }
        l.substring_char(0, n - 1).to_owned()
    } else {
        l.to_owned()
    }
}

/// View of a list of owned key/value pairs as a list of character-sequence
/// pairs.
pub open spec fn kv_view(s: Seq<(String, String)>) -> Seq<(Seq<char>, Seq<char>)> {
    s.map_values(|p: (String, String)| (p.0@, p.1@))
}

} // verus!
