//! Text as a sequence of characters: trimming, replacing, comparing and decimal numbers.

use vstd::prelude::*;

verus! {

/// `String::push` appends the given character to the end of the string.
pub assume_specification[ String::push ](s: &mut String, c: char)
    ensures
        final(s)@ == old(s)@.push(c),
;

/// `text` without the longest prefix whose characters all occur in `drop`.
pub open spec fn trimmed_start(text: Seq<char>, drop: Seq<char>) -> Seq<char>
    decreases text.len(),
{
    if text.len() > 0 && drop.contains(text[0]) {
        trimmed_start(text.skip(1), drop)
    } else {
        text
    }
}

/// `text` with every occurrence of the non-empty `pattern` replaced by `with`; the
/// occurrences are found from left to right and do not overlap.
pub open spec fn replaced(text: Seq<char>, pattern: Seq<char>, with: Seq<char>) -> Seq<char>
    recommends
        pattern.len() > 0,
    decreases text.len(),
{
    if pattern.len() == 0 || text.len() < pattern.len() {
        text
    } else if text.take(pattern.len() as int) == pattern {
        with + replaced(text.skip(pattern.len() as int), pattern, with)
    } else {
        seq![text[0]] + replaced(text.skip(1), pattern, with)
    }
}

/// The decimal digits of `n`, most significant first, without leading zeros.
pub open spec fn decimal(n: nat) -> Seq<char>
    decreases n,
{
    if n < 10 {
        seq![digit(n)]
    } else {
        decimal(n / 10).push(digit(n % 10))
    }
}

/// The character that stands for the decimal digit `d`.
pub open spec fn digit(d: nat) -> char
    recommends
        d < 10,
{
    ('0' as int + d) as char
}

/// The characters of `text`, in order.
pub(crate) fn to_chars(text: &str) -> (chars: Vec<char>)
    ensures
        chars@ == text@,
{
    let mut chars: Vec<char> = Vec::new();
    for c in it: text.chars()
        invariant
            chars@ == it.seq().take(it.index() as int),
            it.seq() == text@,
    {
        chars.push(c);
    }
    assert(text@.take(text@.len() as int) == text@);
    chars
}

/// The string whose characters are `chars`.
pub(crate) fn from_chars(chars: &Vec<char>) -> (text: String)
    ensures
        text@ == chars@,
{
    let mut text: String = String::new();
    for i in 0..chars.len()
        invariant
            text@ == chars@.take(i as int),
    {
        text.push(chars[i]);
        assert(chars@.take(i + 1) == chars@.take(i as int).push(chars@[i as int]));
    }
    assert(chars@.take(chars@.len() as int) == chars@);
    text
}

/// Whether the two texts hold the same characters.
pub(crate) fn same_text(a: &str, b: &str) -> (same: bool)
    ensures
        same == (a@ == b@),
{
    a.to_owned() == b.to_owned()
}

/// `text` without the longest prefix whose characters all occur in `drop`.
pub(crate) fn trim_start(text: &Vec<char>, drop: &Vec<char>) -> (rest: Vec<char>)
    ensures
        rest@ == trimmed_start(text@, drop@),
{
    let mut start: usize = 0;
    assert(text@.skip(0) == text@);
    while start < text.len() && contains_char(drop, text[start])
        invariant
            start <= text.len(),
            trimmed_start(text@, drop@) == trimmed_start(text@.skip(start as int), drop@),
        decreases text.len() - start,
    {
        assert(text@.skip(start as int).skip(1) == text@.skip(start + 1));
        start = start + 1;
    }
    let mut rest: Vec<char> = Vec::new();
    for i in start..text.len()
        invariant
            start <= text.len(),
            rest@ == text@.subrange(start as int, i as int),
    {
        rest.push(text[i]);
        assert(text@.subrange(start as int, i + 1) == text@.subrange(start as int, i as int).push(
            text@[i as int],
        ));
    }
    assert(rest@ == text@.skip(start as int));
    rest
}

/// Whether `c` occurs in `chars`.
pub(crate) fn contains_char(chars: &Vec<char>, c: char) -> (found: bool)
    ensures
        found == chars@.contains(c),
{
    for i in 0..chars.len()
        invariant
            forall|j: int| 0 <= j < i ==> chars@[j] != c,
    {
        if chars[i] == c {
            return true;
        }
    }
    false
}

/// Whether `pattern` stands in `text` at index `at`.
fn stands_at(text: &Vec<char>, at: usize, pattern: &Vec<char>) -> (found: bool)
    requires
        at + pattern.len() <= text.len(),
    ensures
        found == (text@.skip(at as int).take(pattern@.len() as int) == pattern@),
{
    for i in 0..pattern.len()
        invariant
            at + pattern.len() <= text.len(),
            forall|j: int| 0 <= j < i ==> text@[at + j] == pattern@[j],
    {
        if text[at + i] != pattern[i] {
            assert(text@.skip(at as int).take(pattern@.len() as int)[i as int] != pattern@[i as int]);
            return false;
        }
    }
    assert(text@.skip(at as int).take(pattern@.len() as int) == pattern@);
    true
}

/// Appends `more` to `chars`.
fn append_chars(chars: &mut Vec<char>, more: &Vec<char>)
    ensures
        final(chars)@ == old(chars)@ + more@,
{
    for i in 0..more.len()
        invariant
            chars@ == old(chars)@ + more@.take(i as int),
    {
        chars.push(more[i]);
        assert(more@.take(i + 1) == more@.take(i as int).push(more@[i as int]));
    }
    assert(more@.take(more@.len() as int) == more@);
}

/// `text` with every occurrence of `pattern` replaced by `with`.
pub(crate) fn replace_all(text: &Vec<char>, pattern: &Vec<char>, with: &Vec<char>) -> (out: Vec<
    char,
>)
    requires
        pattern@.len() > 0,
    ensures
        out@ == replaced(text@, pattern@, with@),
{
    let mut out: Vec<char> = Vec::new();
    let mut at: usize = 0;
    assert(text@.skip(0) == text@);
    while at < text.len()
        invariant
            pattern@.len() > 0,
            at <= text.len(),
            out@ + replaced(text@.skip(at as int), pattern@, with@) == replaced(
                text@,
                pattern@,
                with@,
            ),
        decreases text.len() - at,
    {
        let ghost rest = text@.skip(at as int);
        if text.len() - at >= pattern.len() && stands_at(text, at, pattern) {
            append_chars(&mut out, with);
            assert(rest.skip(pattern@.len() as int) == text@.skip(at + pattern@.len()));
            at = at + pattern.len();
        } else {
            out.push(text[at]);
            proof {
                lemma_replaced_step(rest, pattern@, with@);
            }
            assert(rest.skip(1) == text@.skip(at + 1));
            at = at + 1;
        }
    }
    assert(text@.skip(at as int) == Seq::<char>::empty());
    out
}

/// Where the pattern does not stand at the front, the first character stays.
proof fn lemma_replaced_step(text: Seq<char>, pattern: Seq<char>, with: Seq<char>)
    requires
        text.len() > 0,
        pattern.len() > 0,
        text.len() < pattern.len() || text.take(pattern.len() as int) != pattern,
    ensures
        replaced(text, pattern, with) == seq![text[0]] + replaced(text.skip(1), pattern, with),
{
    assert(text == seq![text[0]] + text.skip(1));
}

/// The decimal digits of `n`.
pub(crate) fn to_decimal(n: usize) -> (text: String)
    ensures
        text@ == decimal(n as nat),
    decreases n,
{
    let last: char = digit_char(n % 10);
    let mut text: String = if n < 10 {
        String::new()
    } else {
        to_decimal(n / 10)
    };
    text.push(last);
    assert(text@ == decimal(n as nat));
    text
}

/// The character that stands for the decimal digit `d`.
fn digit_char(d: usize) -> (c: char)
    requires
        d < 10,
    ensures
        c == digit(d as nat),
{
    let code: u8 = 48 + d as u8;
    code as char
}

/// The number that decimal digits stand for.
pub open spec fn number(digits: Seq<char>) -> int
    decreases digits.len(),
{
    if digits.len() == 0 {
        0
    } else {
        number(digits.drop_last()) * 10 + (digits.last() as int - '0' as int)
    }
}

/// A number is written in decimal digits that stand for it, and starts with a zero only where it is
/// zero.
pub proof fn decimal_stands_for_the_number(n: nat)
    ensures
        number(decimal(n)) == n,
        decimal(n).len() > 0,
        forall|i: int| 0 <= i < decimal(n).len() ==> '0' <= #[trigger] decimal(n)[i] <= '9',
        n > 0 ==> decimal(n)[0] != '0',
        n == 0 ==> decimal(n).len() == 1,
    decreases n,
{
    let last = n % 10;
    assert(digit(last) as int == '0' as int + last);
    if n >= 10 {
        decimal_stands_for_the_number(n / 10);
        assert(decimal(n).drop_last() == decimal(n / 10));
        assert(decimal(n)[0] == decimal(n / 10)[0]);
    } else {
        assert(decimal(n).drop_last() == Seq::<char>::empty());
        assert(number(Seq::<char>::empty()) == 0);
    }
}

} // verus!
