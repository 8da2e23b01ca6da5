//! Text: decimal identifiers, case folding and substring search.

use vstd::prelude::*;
use crate::trusted::{lowercase, to_lowercase};

verus! {

/// The character that writes the digit `d`.
pub open spec fn digit_char(d: int) -> char {
    if d == 0 {
        '0'
    } else if d == 1 {
        '1'
    } else if d == 2 {
        '2'
    } else if d == 3 {
        '3'
    } else if d == 4 {
        '4'
    } else if d == 5 {
        '5'
    } else if d == 6 {
        '6'
    } else if d == 7 {
        '7'
    } else if d == 8 {
        '8'
    } else {
        '9'
    }
}

/// The digit that a character writes; zero for any other character.
pub open spec fn digit_value(c: char) -> int {
    if c == '1' {
        1
    } else if c == '2' {
        2
    } else if c == '3' {
        3
    } else if c == '4' {
        4
    } else if c == '5' {
        5
    } else if c == '6' {
        6
    } else if c == '7' {
        7
    } else if c == '8' {
        8
    } else if c == '9' {
        9
    } else {
        0
    }
}

/// The decimal digits of a natural number, most significant first, without a
/// leading zero.
pub open spec fn digits(n: nat) -> Seq<char>
    decreases n,
{
    if n < 10 {
        seq![digit_char(n as int)]
    } else {
        digits(n / 10).push(digit_char((n % 10) as int))
    }
}

/// The number that a run of digits writes.
pub open spec fn digits_value(s: Seq<char>) -> int
    decreases s.len(),
{
    if s.len() == 0 {
        0
    } else {
        digits_value(s.drop_last()) * 10 + digit_value(s.last())
    }
}

/// The decimal text of an integer: its digits, behind a minus sign when it is
/// negative.
pub open spec fn decimal(n: int) -> Seq<char> {
    if n < 0 {
        seq!['-'] + digits((-n) as nat)
    } else {
        digits(n as nat)
    }
}

/// The size of an integer without its sign.
pub open spec fn magnitude(n: int) -> nat {
    if n < 0 {
        (-n) as nat
    } else {
        n as nat
    }
}

/// The integer that a text writes in decimal: the number that its digits
/// write, negated behind a minus sign.
pub open spec fn decimal_value(s: Seq<char>) -> int {
    if s.len() > 0 && s[0] == '-' {
        -digits_value(s.skip(1))
    } else {
        digits_value(s)
    }
}

/// Whether a text is a key: the decimal text of a 64-bit integer, as
/// `decimal` writes it.
pub open spec fn is_key(s: Seq<char>) -> bool {
    &&& i64::MIN <= decimal_value(s) <= i64::MAX
    &&& s == decimal(decimal_value(s))
}

/// Reading the digits of a number gives the number back.
pub proof fn lemma_digits_value(n: nat)
    ensures
        digits_value(digits(n)) == n,
        digits(n).len() > 0,
        digits(n)[0] != '-',
    decreases n,
{
    if n < 10 {
        assert(digits(n).drop_last() =~= Seq::<char>::empty());
        assert(digits_value(digits(n).drop_last()) == 0);
    } else {
        lemma_digits_value(n / 10);
        assert(digits(n).drop_last() =~= digits(n / 10));
    }
}

/// Reading the decimal text of an integer gives the integer back; so the
/// decimal text of a 64-bit integer is a key.
pub proof fn lemma_decimal_value(n: int)
    ensures
        decimal_value(decimal(n)) == n,
        i64::MIN <= n <= i64::MAX ==> is_key(decimal(n)),
{
    lemma_digits_value(magnitude(n));
    if n < 0 {
        assert(decimal(n)[0] == '-');
        assert(decimal(n).skip(1) =~= digits(magnitude(n)));
    }
}

/// Two integers with the same decimal text are the same integer.
pub proof fn lemma_decimal_injective(a: int, b: int)
    requires
        decimal(a) == decimal(b),
    ensures
        a == b,
{
    let x = if a < 0 { (-a) as nat } else { a as nat };
    let y = if b < 0 { (-b) as nat } else { b as nat };
    lemma_digits_value(x);
    lemma_digits_value(y);
    if a < 0 {
        assert(decimal(a)[0] == '-');
        assert(decimal(a).subrange(1, decimal(a).len() as int) =~= digits(x));
    }
    if b < 0 {
        assert(decimal(b)[0] == '-');
        assert(decimal(b).subrange(1, decimal(b).len() as int) =~= digits(y));
    }
}

/// The one-character text of a digit.
fn digit_text(d: u64) -> (r: &'static str)
    requires
        d < 10,
    ensures
        r@ == seq![digit_char(d as int)],
{
    proof {
        reveal_strlit("0");
        reveal_strlit("1");
        reveal_strlit("2");
        reveal_strlit("3");
        reveal_strlit("4");
        reveal_strlit("5");
        reveal_strlit("6");
        reveal_strlit("7");
        reveal_strlit("8");
        reveal_strlit("9");
    }
    let r = if d == 0 {
        "0"
    } else if d == 1 {
        "1"
    } else if d == 2 {
        "2"
    } else if d == 3 {
        "3"
    } else if d == 4 {
        "4"
    } else if d == 5 {
        "5"
    } else if d == 6 {
        "6"
    } else if d == 7 {
        "7"
    } else if d == 8 {
        "8"
    } else {
        "9"
    };
    assert(r@ =~= seq![digit_char(d as int)]);
    r
}

/// Appends the digits of `n` to `out`.
fn push_digits(out: &mut String, n: u64)
    ensures
        final(out)@ == old(out)@ + digits(n as nat),
    decreases n,
{
    if n >= 10 {
        push_digits(out, n / 10);
    }
    out.append(digit_text(n % 10));
    assert(out@ =~= old(out)@ + digits(n as nat));
}

/// Writes an integer in decimal.
pub fn decimal_text(n: i64) -> (r: String)
    ensures
        r@ == decimal(n as int),
{
    let mut out = String::new();
    if n < 0 {
        proof {
            reveal_strlit("-");
        }
        out.append("-");
        let magnitude: u64 = if n == i64::MIN {
            9223372036854775808u64
        } else {
            (-n) as u64
        };
        push_digits(&mut out, magnitude);
        assert(out@ =~= decimal(n as int));
    } else {
        push_digits(&mut out, n as u64);
        assert(out@ =~= decimal(n as int));
    }
    out
}

/// The number that a run of digits writes is not negative, and no smaller
/// than what any of its beginnings writes.
pub proof fn lemma_digits_value_grows(s: Seq<char>, i: int)
    requires
        0 <= i <= s.len(),
    ensures
        0 <= digits_value(s.take(i)) <= digits_value(s),
    decreases s.len(),
{
    if i == s.len() {
        assert(s.take(i) =~= s);
        if s.len() > 0 {
            lemma_digits_value_grows(s.drop_last(), i - 1);
            assert(s.drop_last().take(i - 1) =~= s.drop_last());
        }
    } else {
        lemma_digits_value_grows(s.drop_last(), i);
        assert(s.drop_last().take(i) =~= s.take(i));
    }
}

/// The digit that a character writes; zero for any other character.
fn digit_of(c: char) -> (d: u64)
    ensures
        d == digit_value(c),
        d <= 9,
{
    if c == '1' {
        1
    } else if c == '2' {
        2
    } else if c == '3' {
        3
    } else if c == '4' {
        4
    } else if c == '5' {
        5
    } else if c == '6' {
        6
    } else if c == '7' {
        7
    } else if c == '8' {
        8
    } else if c == '9' {
        9
    } else {
        0
    }
}

/// Reads an integer from its decimal text. Only the text that `decimal_text`
/// writes is read: no sign but a minus, no leading zeros, no spaces.
pub fn parse_decimal(text: &str) -> (r: Option<i64>)
    ensures
        match r {
            Some(n) => text@ == decimal(n as int),
            None => forall|n: i64| text@ != decimal(n as int),
        },
        r is Some <==> is_key(text@),
        r is Some ==> r->0 == decimal_value(text@),
{
    proof {
        if is_key(text@) {
            // A key is the decimal text of the integer it writes.
            let n = decimal_value(text@) as i64;
            assert(text@ == decimal(n as int));
        }
        assert forall|n: i64| text@ == decimal(n as int) implies is_key(text@) && decimal_value(
            text@,
        ) == n by {
            lemma_decimal_value(n as int);
        }
    }
    let chars = characters(text);
    let negative = chars.len() > 0 && chars[0] == '-';
    let start: usize = if negative {
        1
    } else {
        0
    };
    let ghost run = chars@.skip(start as int);
    // What the text must be if it is the decimal text of some number.
    assert forall|n: i64| text@ == decimal(n as int) implies (n < 0) == negative && run == digits(
        magnitude(n as int),
    ) && digits_value(run) == magnitude(n as int) by {
        lemma_digits_value(magnitude(n as int));
        if n < 0 {
            assert(decimal(n as int)[0] == '-');
            assert(decimal(n as int).skip(1) =~= digits(magnitude(n as int)));
        } else {
            assert(decimal(n as int)[0] != '-');
            assert(decimal(n as int).skip(0) =~= digits(magnitude(n as int)));
        }
    }
    let mut value: u64 = 0;
    let mut i: usize = start;
    while i < chars.len()
        invariant
            start <= i <= chars.len(),
            run == chars@.skip(start as int),
            value == digits_value(run.take(i - start)),
            forall|n: i64| text@ == decimal(n as int) ==> digits_value(run) == magnitude(n as int),
        decreases chars.len() - i,
    {
        let d = digit_of(chars[i]);
        proof {
            let k = i - start;
            assert(run.take(k + 1).drop_last() =~= run.take(k));
            assert(run.take(k + 1).last() == chars[i as int]);
            lemma_digits_value_grows(run, k + 1);
        }
        if value > (u64::MAX - d) / 10 {
            // The number would not fit in 64 bits.
            assert(digits_value(run) > u64::MAX);
            return None;
        }
        value = value * 10 + d;
        i += 1;
    }
    assert(run.take(i - start) =~= run);
    let candidate: i64 = if negative {
        if value > 9223372036854775808u64 {
            return None;
        } else if value == 9223372036854775808u64 {
            i64::MIN
        } else {
            -(value as i64)
        }
    } else {
        if value > 9223372036854775807u64 {
            return None;
        }
        value as i64
    };
    let written = decimal_text(candidate);
    if same_text(written.as_str(), text) {
        Some(candidate)
    } else {
        assert forall|n: i64| text@ != decimal(n as int) by {
            if text@ == decimal(n as int) {
                assert(candidate == n);
            }
        }
        None
    }
}

/// A copy of a list of texts.
pub fn clone_texts(texts: &Vec<String>) -> (r: Vec<String>)
    ensures
        r.deep_view() == texts.deep_view(),
{
    let mut r: Vec<String> = Vec::new();
    let mut i: usize = 0;
    while i < texts.len()
        invariant
            i <= texts.len(),
            r.len() == i,
            forall|k: int| 0 <= k < i ==> r[k]@ == texts[k]@,
        decreases texts.len() - i,
    {
        r.push(texts[i].clone());
        i += 1;
    }
    assert(r.deep_view() =~= texts.deep_view());
    r
}

/// A copy of a text that may be absent.
pub fn clone_optional_text(text: &Option<String>) -> (r: Option<String>)
    ensures
        r.deep_view() == text.deep_view(),
{
    match text {
        Some(t) => Some(t.clone()),
        None => None,
    }
}

/// Whether two texts are the same.
pub fn same_text(a: &str, b: &str) -> (r: bool)
    ensures
        r == (a@ == b@),
{
    let left: String = a.to_owned();
    let right: String = b.to_owned();
    left == right
}

/// Whether `needle` occurs in `hay` as a run of consecutive characters.
pub open spec fn is_infix(needle: Seq<char>, hay: Seq<char>) -> bool {
    exists|at: int| occurs_at(needle, hay, at)
}

/// Whether `needle` occurs in `hay` starting at position `at`.
pub open spec fn occurs_at(needle: Seq<char>, hay: Seq<char>, at: int) -> bool {
    &&& 0 <= at
    &&& at + needle.len() <= hay.len()
    &&& hay.subrange(at, at + needle.len()) == needle
}

/// The characters of a text.
pub fn characters(s: &str) -> (v: Vec<char>)
    ensures
        v@ == s@,
{
    let mut v: Vec<char> = Vec::new();
    for c in it: s.chars()
        invariant
            v@ == it.seq().take(it.index()),
            it.seq() == s@,
    {
        v.push(c);
    }
    v
}

/// Whether `needle` stands in `hay` at position `at`.
fn matches_at(needle: &Vec<char>, hay: &Vec<char>, at: usize) -> (r: bool)
    requires
        at + needle.len() <= hay.len(),
    ensures
        r == occurs_at(needle@, hay@, at as int),
{
    let mut k: usize = 0;
    while k < needle.len()
        invariant
            k <= needle.len(),
            at + needle.len() <= hay.len(),
            forall|j: int| 0 <= j < k ==> hay[at + j] == needle[j],
        decreases needle.len() - k,
    {
        if hay[at + k] != needle[k] {
            proof {
                let window = hay@.subrange(at as int, at + needle.len());
                assert(window[k as int] == hay[at + k]);
            }
            return false;
        }
        k += 1;
    }
    assert(hay@.subrange(at as int, at + needle.len()) =~= needle@);
    true
}

/// Whether `needle` occurs in `hay`, character by character.
pub fn contains_chars(hay: &Vec<char>, needle: &Vec<char>) -> (r: bool)
    ensures
        r == is_infix(needle@, hay@),
{
    if needle.len() > hay.len() {
        return false;
    }
    let last: usize = hay.len() - needle.len();
    let mut at: usize = 0;
    while at < last
        invariant
            last == hay.len() - needle.len(),
            needle.len() <= hay.len(),
            at <= last,
            forall|j: int| 0 <= j < at ==> !occurs_at(needle@, hay@, j),
        decreases last - at,
    {
        if matches_at(needle, hay, at) {
            return true;
        }
        at += 1;
    }
    matches_at(needle, hay, last)
}

/// Whether `text` begins with `prefix`.
pub fn starts_with(text: &str, prefix: &str) -> (r: bool)
    ensures
        r == occurs_at(prefix@, text@, 0),
{
    let t = characters(text);
    let p = characters(prefix);
    if p.len() > t.len() {
        return false;
    }
    matches_at(&p, &t, 0)
}

/// Whether `needle` occurs in `hay`.
pub fn contains_text(hay: &str, needle: &str) -> (r: bool)
    ensures
        r == is_infix(needle@, hay@),
{
    let h = characters(hay);
    let n = characters(needle);
    contains_chars(&h, &n)
}

/// Whether `needle` occurs in the lower-case form of `hay`.
pub fn mentions(hay: &str, needle: &str) -> (r: bool)
    ensures
        r == is_infix(needle@, lowercase(hay@)),
{
    let folded = to_lowercase(hay);
    contains_text(folded.as_str(), needle)
}

} // verus!
