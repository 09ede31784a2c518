//! Text building and comparison.

use vstd::arithmetic::power::pow;
use vstd::prelude::*;

verus! {

/// `a` followed by `b`.
pub fn join2(a: &str, b: &str) -> (r: String)
    ensures
        r@ == a@ + b@,
{
    let mut r = a.to_owned();
    r.append(b);
    r
}

/// `a`, `b` and `c`, one after the other.
pub fn join3(a: &str, b: &str, c: &str) -> (r: String)
    ensures
        r@ == a@ + b@ + c@,
{
    let mut r = join2(a, b);
    r.append(c);
    r
}

/// Four texts, one after the other.
pub fn join4(a: &str, b: &str, c: &str, d: &str) -> (r: String)
    ensures
        r@ == a@ + b@ + c@ + d@,
{
    let mut r = join3(a, b, c);
    r.append(d);
    r
}

/// Five texts, one after the other.
pub fn join5(a: &str, b: &str, c: &str, d: &str, e: &str) -> (r: String)
    ensures
        r@ == a@ + b@ + c@ + d@ + e@,
{
    let mut r = join3(a, b, c);
    r.append(d);
    r.append(e);
    r
}

/// Whether two texts are equal, character by character.
pub fn same_text(a: &str, b: &str) -> (r: bool)
    ensures
        r == (a@ == b@),
{
    let n: usize = a.unicode_len();
    if n != b.unicode_len() {
        return false;
    }
    let mut i: usize = 0;
    while i < n
        invariant
            i <= n,
            n == a@.len(),
            n == b@.len(),
            forall|j: int| 0 <= j < i ==> a@[j] == b@[j],
        decreases n - i,
    {
        if a.get_char(i) != b.get_char(i) {
            return false;
        }
        i = i + 1;
    }
    assert(a@ =~= b@);
    true
}

/// Whether `text` ends with `suffix`.
pub open spec fn is_suffix(suffix: Seq<char>, text: Seq<char>) -> bool {
    suffix.len() <= text.len() && text.skip(text.len() - suffix.len()) == suffix
}

/// Whether `text` ends with `suffix`.
pub fn ends_with(text: &str, suffix: &str) -> (r: bool)
    ensures
        r == is_suffix(suffix@, text@),
{
    let n: usize = text.unicode_len();
    let m: usize = suffix.unicode_len();
    if m > n {
        return false;
    }
    let start: usize = n - m;
    let mut i: usize = 0;
    while i < m
        invariant
            i <= m <= n,
            start == n - m,
            n == text@.len(),
            m == suffix@.len(),
            forall|j: int| 0 <= j < i ==> text@[start + j] == suffix@[j],
        decreases m - i,
    {
        if text.get_char(start + i) != suffix.get_char(i) {
            assert(text@.skip(start as int)[i as int] != suffix@[i as int]);
            return false;
        }
        i = i + 1;
    }
    assert(text@.skip(start as int) =~= suffix@);
    true
}

/// Whether `text` starts with `prefix`.
pub open spec fn is_prefix(prefix: Seq<char>, text: Seq<char>) -> bool {
    prefix.len() <= text.len() && text.take(prefix.len() as int) == prefix
}

/// Whether `text` starts with `prefix`.
pub fn starts_with(text: &str, prefix: &str) -> (r: bool)
    ensures
        r == is_prefix(prefix@, text@),
{
    let n: usize = text.unicode_len();
    let m: usize = prefix.unicode_len();
    if m > n {
        return false;
    }
    let mut i: usize = 0;
    while i < m
        invariant
            i <= m <= n,
            n == text@.len(),
            m == prefix@.len(),
            forall|j: int| 0 <= j < i ==> text@[j] == prefix@[j],
        decreases m - i,
    {
        if text.get_char(i) != prefix.get_char(i) {
            assert(text@.take(m as int)[i as int] != prefix@[i as int]);
            return false;
        }
        i = i + 1;
    }
    assert(text@.take(m as int) =~= prefix@);
    true
}

/// The views of a list of texts.
pub open spec fn texts(list: Seq<String>) -> Seq<Seq<char>> {
    list.map_values(|s: String| s@)
}

/// Whether `list` holds the text `needle`.
pub fn contains_text(list: &Vec<String>, needle: &String) -> (r: bool)
    ensures
        r == texts(list@).contains(needle@),
{
    let mut i: usize = 0;
    while i < list.len()
        invariant
            i <= list.len(),
            forall|j: int| 0 <= j < i ==> (#[trigger] list@[j])@ != needle@,
        decreases list.len() - i,
    {
        if list[i] == *needle {
            assert(texts(list@)[i as int] == needle@);
            return true;
        }
        i = i + 1;
    }
    assert forall|j: int| 0 <= j < texts(list@).len() implies texts(list@)[j] != needle@ by {
        assert(list@[j]@ != needle@);
    }
    false
}

/// A copy of a list of texts.
pub fn copy_texts(list: &Vec<String>) -> (r: Vec<String>)
    ensures
        r@ == list@,
{
    let mut r: Vec<String> = Vec::new();
    let mut i: usize = 0;
    while i < list.len()
        invariant
            i <= list.len(),
            r@ == list@.take(i as int),
        decreases list.len() - i,
    {
        r.push(list[i].clone());
        i = i + 1;
        assert(list@.take(i as int) =~= list@.take(i - 1).push(list@[i - 1]));
    }
    assert(list@.take(i as int) =~= list@);
    r
}

/// The character of a digit, decimal or hexadecimal.
pub open spec fn digit_text(d: int) -> Seq<char> {
    if d == 0 {
        "0"@
    } else if d == 1 {
        "1"@
    } else if d == 2 {
        "2"@
    } else if d == 3 {
        "3"@
    } else if d == 4 {
        "4"@
    } else if d == 5 {
        "5"@
    } else if d == 6 {
        "6"@
    } else if d == 7 {
        "7"@
    } else if d == 8 {
        "8"@
    } else if d == 9 {
        "9"@
    } else if d == 10 {
        "a"@
    } else if d == 11 {
        "b"@
    } else if d == 12 {
        "c"@
    } else if d == 13 {
        "d"@
    } else if d == 14 {
        "e"@
    } else {
        "f"@
    }
}

fn digit(d: u64) -> (r: &'static str)
    requires
        d < 16,
    ensures
        r@ == digit_text(d as int),
{
    if d == 0 {
        "0"
    } else if d == 1 {
        "1"
    } else if d == 2 {
        "2"
    } else if d == 3 {
        "3"
    } else if d == 4 {
        "4"
    } else if d == 5 {
        "5"
    } else if d == 6 {
        "6"
    } else if d == 7 {
        "7"
    } else if d == 8 {
        "8"
    } else if d == 9 {
        "9"
    } else if d == 10 {
        "a"
    } else if d == 11 {
        "b"
    } else if d == 12 {
        "c"
    } else if d == 13 {
        "d"
    } else if d == 14 {
        "e"
    } else {
        "f"
    }
}

/// `n` in decimal, without leading zeros.
pub open spec fn decimal_text(n: nat) -> Seq<char>
    decreases n,
{
    if n < 10 {
        digit_text(n as int)
    } else {
        decimal_text(n / 10) + digit_text((n % 10) as int)
    }
}

/// `n` in decimal.
pub fn decimal(n: u64) -> (r: String)
    ensures
        r@ == decimal_text(n as nat),
    decreases n,
{
    if n < 10 {
        digit(n).to_owned()
    } else {
        let mut r = decimal(n / 10);
        r.append(digit(n % 10));
        r
    }
}

/// The lowest `digits` hexadecimal digits of `n`, most significant first.
pub open spec fn hex_text(n: nat, digits: nat) -> Seq<char>
    decreases digits,
{
    if digits == 0 {
        Seq::empty()
    } else {
        hex_text(n / 16, (digits - 1) as nat) + digit_text((n % 16) as int)
    }
}

/// The lowest `digits` hexadecimal digits of `n`.
pub fn hex(n: u64, digits: u64) -> (r: String)
    ensures
        r@ == hex_text(n as nat, digits as nat),
    decreases digits,
{
    if digits == 0 {
        String::new()
    } else {
        let mut r = hex(n / 16, digits - 1);
        r.append(digit(n % 16));
        r
    }
}

/// What a digit stands for.
pub open spec fn digit_value(c: char) -> int {
    if '0' <= c <= '9' {
        c as int - '0' as int
    } else {
        c as int - 'a' as int + 10
    }
}

/// The number that digits to a base stand for, the highest first.
pub open spec fn number_of(text: Seq<char>, base: int) -> int
    decreases text.len(),
{
    if text.len() == 0 {
        0
    } else {
        number_of(text.drop_last(), base) * base + digit_value(text.last())
    }
}

/// A digit is one character, and stands for itself.
proof fn lemma_digit_text(d: int)
    requires
        0 <= d < 16,
    ensures
        digit_text(d).len() == 1,
        digit_value(digit_text(d)[0]) == d,
        d > 0 ==> digit_text(d)[0] != '0',
{
    reveal_strlit("0");
    reveal_strlit("1");
    reveal_strlit("2");
    reveal_strlit("3");
    reveal_strlit("4");
    reveal_strlit("5");
    reveal_strlit("6");
    reveal_strlit("7");
    reveal_strlit("8");
    reveal_strlit("9");
    reveal_strlit("a");
    reveal_strlit("b");
    reveal_strlit("c");
    reveal_strlit("d");
    reveal_strlit("e");
    reveal_strlit("f");
}

/// A number that is spelled to the base ten reads back as itself, and starts with
/// a zero only where it is zero.
pub proof fn lemma_decimal_reads_back(n: nat)
    ensures
        number_of(decimal_text(n), 10) == n,
        decimal_text(n).len() > 0,
        n > 0 ==> decimal_text(n)[0] != '0',
    decreases n,
{
    lemma_digit_text((n % 10) as int);
    let text = decimal_text(n);
    if n < 10 {
        assert(number_of(text.drop_last(), 10) == 0);
    } else {
        lemma_decimal_reads_back(n / 10);
        assert(text.drop_last() =~= decimal_text(n / 10));
    }
}

/// A number that is spelled to the base sixteen has as many digits as are asked
/// for, and reads back as itself where it fits into them.
pub proof fn lemma_hex_reads_back(n: nat, digits: nat)
    ensures
        hex_text(n, digits).len() == digits,
        n < pow(16, digits) ==> number_of(hex_text(n, digits), 16) == n,
    decreases digits,
{
    reveal(pow);
    if digits > 0 {
        let less = (digits - 1) as nat;
        lemma_digit_text((n % 16) as int);
        lemma_hex_reads_back(n / 16, less);
        assert(hex_text(n, digits).drop_last() =~= hex_text(n / 16, less));
        assert(pow(16, digits) == 16 * pow(16, less));
    }
}

/// A text starts with another where something can be put after that to make it
/// up.
pub proof fn lemma_prefix_is_the_beginning(prefix: Seq<char>, rest: Seq<char>, text: Seq<char>)
    ensures
        is_prefix(prefix, prefix + rest),
        is_prefix(prefix, text) ==> text == prefix + text.skip(prefix.len() as int),
{
    assert((prefix + rest).take(prefix.len() as int) =~= prefix);
    if is_prefix(prefix, text) {
        assert(text =~= text.take(prefix.len() as int) + text.skip(prefix.len() as int));
    }
}

/// A text ends with another where something can be put before that to make it
/// up.
pub proof fn lemma_suffix_is_the_end(suffix: Seq<char>, rest: Seq<char>, text: Seq<char>)
    ensures
        is_suffix(suffix, rest + suffix),
        is_suffix(suffix, text) ==> text == text.take(text.len() - suffix.len()) + suffix,
{
    assert((rest + suffix).skip(rest.len() as int) =~= suffix);
    if is_suffix(suffix, text) {
        let n = text.len() - suffix.len();
        assert(text =~= text.take(n) + text.skip(n));
    }
}

} // verus!
