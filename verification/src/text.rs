//! Text that ends up in file names and reports: decimal numbers, hexadecimal
//! digests, and the removal of control characters.

use vstd::prelude::*;
use vstd::string::*;

verus! {

/// `String::push` appends one character to the end of the string.
pub assume_specification[ String::push ](s: &mut String, c: char)
    ensures
        final(s)@ == old(s)@.push(c),
;

/// Whether `c` is in the Unicode category Cc: U+0000..U+001F or U+007F..U+009F.
pub open spec fn is_control_char(c: char) -> bool {
    c as u32 <= 0x1f || 0x7f <= c as u32 <= 0x9f
}

/// Whether `c` is a control character.
pub fn is_control(c: char) -> (b: bool)
    ensures
        b == is_control_char(c),
{
    let code: u32 = c as u32;
    code <= 0x1f || (0x7f <= code && code <= 0x9f)
}

/// `s` with each control character replaced by U+FFFD.
pub open spec fn sanitized(s: Seq<char>) -> Seq<char> {
    s.map_values(|c: char| if is_control_char(c) { '\u{FFFD}' } else { c })
}

/// The characters of `s`, in order.
pub(crate) fn chars_of(s: &str) -> (chars: Vec<char>)
    ensures
        chars@ == s@,
{
    let mut chars: Vec<char> = Vec::new();
    for c in it: s.chars()
        invariant
            it.seq() == s@,
            chars@ == s@.take(it.index() as int),
    {
        chars.push(c);
    }
    chars
}

/// Strips control characters out of anything an attacker controls before it is
/// written into a report or handed to a notify hook.
pub fn sanitize(s: &str) -> (clean: String)
    ensures
        clean@ == sanitized(s@),
{
    let mut clean = String::new();
    for c in it: s.chars()
        invariant
            it.seq() == s@,
            clean@ == sanitized(s@).take(it.index() as int),
    {
        if is_control(c) {
            clean.push('\u{FFFD}');
        } else {
            clean.push(c);
        }
    }
    clean
}

/// Nothing that `sanitize` returns holds a control character, it has as many
/// characters as its input, and text without control characters is unchanged.
pub proof fn sanitized_text_is_free_of_control_characters(s: Seq<char>)
    ensures
        sanitized(s).len() == s.len(),
        forall|i: int| 0 <= i < s.len() ==> !is_control_char(#[trigger] sanitized(s)[i]),
        (forall|i: int| 0 <= i < s.len() ==> !is_control_char(#[trigger] s[i])) ==> sanitized(s)
            == s,
{
    if forall|i: int| 0 <= i < s.len() ==> !is_control_char(#[trigger] s[i]) {
        assert(sanitized(s) =~= s);
    }
}

/// The decimal digit of value `d`.
pub open spec fn digit(d: nat) -> char {
    ('0' as u32 + d) as char
}

pub open spec fn is_digit(c: char) -> bool {
    '0' as u32 <= c as u32 <= '9' as u32
}

/// `n` in decimal, without leading zeros.
pub open spec fn decimal(n: nat) -> Seq<char>
    decreases n,
{
    if n < 10 {
        seq![digit(n)]
    } else {
        decimal(n / 10).push(digit(n % 10))
    }
}

/// `n` in decimal, with a leading minus sign where it is negative.
pub open spec fn signed_decimal(n: int) -> Seq<char> {
    if n < 0 {
        seq!['-'] + decimal((-n) as nat)
    } else {
        decimal(n as nat)
    }
}

/// The character for a digit.
fn digit_char(d: u8) -> (c: char)
    requires
        d < 10,
    ensures
        c == digit(d as nat),
{
    let code: u8 = 48 + d;
    code as char
}

/// Appends `n` in decimal to `out`.
pub fn push_decimal(out: &mut String, n: u128)
    ensures
        final(out)@ == old(out)@ + decimal(n as nat),
    decreases n,
{
    if n >= 10 {
        push_decimal(out, n / 10);
    }
    let d: u8 = (n % 10) as u8;
    out.push(digit_char(d));
}

/// Appends `n` in decimal to `out`, with a minus sign where it is negative.
pub fn push_signed_decimal(out: &mut String, n: i32)
    ensures
        final(out)@ == old(out)@ + signed_decimal(n as int),
{
    if n < 0 {
        out.push('-');
        let magnitude: u128 = (-(n as i64)) as u128;
        push_decimal(out, magnitude);
    } else {
        push_decimal(out, n as u128);
    }
}

/// A decimal number is made of digits, has at least one, and at most `width`
/// of them where it is less than ten to the power of `width`.
pub proof fn decimal_shape(n: nat, width: nat)
    requires
        width >= 1,
        n < vstd::arithmetic::power::pow(10, width),
    ensures
        1 <= decimal(n).len() <= width,
        forall|i: int| 0 <= i < decimal(n).len() ==> is_digit(#[trigger] decimal(n)[i]),
    decreases width,
{
    vstd::arithmetic::power::lemma_pow1(10);
    if n >= 10 {
        assert(width > 1);
        vstd::arithmetic::power::lemma_pow_adds(10, (width - 1) as nat, 1);
        assert(n / 10 < vstd::arithmetic::power::pow(10, (width - 1) as nat));
        decimal_shape(n / 10, (width - 1) as nat);
    }
}

/// Two numbers with the same decimal text are the same number.
pub proof fn decimal_is_injective(a: nat, b: nat)
    requires
        decimal(a) == decimal(b),
    ensures
        a == b,
    decreases a,
{
    assert(decimal(a).last() == digit(a % 10));
    assert(decimal(b).last() == digit(b % 10));
    assert(a % 10 == b % 10);
    decimal_is_not_empty(a / 10);
    decimal_is_not_empty(b / 10);
    if a >= 10 {
        assert(b >= 10);
        assert(decimal(a).drop_last() =~= decimal(a / 10));
        assert(decimal(b).drop_last() =~= decimal(b / 10));
        decimal_is_injective(a / 10, b / 10);
    }
}

proof fn decimal_is_not_empty(n: nat)
    ensures
        decimal(n).len() >= 1,
{
}

/// `n` in octal, without leading zeros.
pub open spec fn octal(n: nat) -> Seq<char>
    decreases n,
{
    if n < 8 {
        seq![digit(n)]
    } else {
        octal(n / 8).push(digit(n % 8))
    }
}

/// Appends `n` in octal to `out`.
pub fn push_octal(out: &mut String, n: u32)
    ensures
        final(out)@ == old(out)@ + octal(n as nat),
    decreases n,
{
    if n >= 8 {
        push_octal(out, n / 8);
    }
    let d: u8 = (n % 8) as u8;
    out.push(digit_char(d));
}

/// The lower-case hexadecimal digit of value `d`.
pub open spec fn hex_digit(d: nat) -> char {
    if d < 10 {
        ('0' as u32 + d) as char
    } else {
        ('a' as u32 + d - 10) as char
    }
}

/// `bytes` in lower-case hexadecimal, two digits for each byte.
pub open spec fn hex(bytes: Seq<u8>) -> Seq<char>
    decreases bytes.len(),
{
    if bytes.len() == 0 {
        Seq::empty()
    } else {
        hex(bytes.drop_last()).push(hex_digit(bytes.last() as nat / 16)).push(
            hex_digit(bytes.last() as nat % 16),
        )
    }
}

fn hex_digit_char(d: u8) -> (c: char)
    requires
        d < 16,
    ensures
        c == hex_digit(d as nat),
{
    let code: u8 = if d < 10 {
        48 + d
    } else {
        87 + d
    };
    code as char
}

/// The lower-case hexadecimal text of `bytes`.
pub fn to_hex(bytes: &[u8]) -> (out: String)
    ensures
        out@ == hex(bytes@),
{
    let mut out = String::new();
    let mut i: usize = 0;
    while i < bytes.len()
        invariant
            i <= bytes.len(),
            out@ == hex(bytes@.take(i as int)),
        decreases bytes.len() - i,
    {
        assert(bytes@.take(i + 1).drop_last() =~= bytes@.take(i as int));
        out.push(hex_digit_char(bytes[i] / 16));
        out.push(hex_digit_char(bytes[i] % 16));
        i = i + 1;
    }
    assert(bytes@.take(i as int) =~= bytes@);
    out
}

/// Two digits for each byte.
pub proof fn hex_length(bytes: Seq<u8>)
    ensures
        hex(bytes).len() == 2 * bytes.len(),
        forall|i: int| 0 <= i < hex(bytes).len() ==> 0x30 <= (#[trigger] hex(bytes)[i]) as u32 <= 0x66,
    decreases bytes.len(),
{
    if bytes.len() > 0 {
        hex_length(bytes.drop_last());
    }
}

/// Byte strings with the same hexadecimal text are the same.
pub proof fn hex_is_injective(a: Seq<u8>, b: Seq<u8>)
    requires
        hex(a) == hex(b),
    ensures
        a == b,
    decreases a.len(),
{
    hex_length(a);
    hex_length(b);
    if a.len() > 0 {
        let x = hex(a);
        let y = hex(b);
        assert(x[x.len() - 1] == hex_digit(a.last() as nat % 16));
        assert(y[y.len() - 1] == hex_digit(b.last() as nat % 16));
        assert(x[x.len() - 2] == hex_digit(a.last() as nat / 16));
        assert(y[y.len() - 2] == hex_digit(b.last() as nat / 16));
        assert(a.last() == b.last());
        assert(x.take(x.len() - 2) =~= hex(a.drop_last()));
        assert(y.take(y.len() - 2) =~= hex(b.drop_last()));
        hex_is_injective(a.drop_last(), b.drop_last());
        assert(a =~= a.drop_last().push(a.last()));
        assert(b =~= b.drop_last().push(b.last()));
    } else {
        assert(a =~= b);
    }
}

/// `c` with an ASCII upper-case letter turned into its lower-case one.
pub open spec fn ascii_lower(c: char) -> char {
    if 'A' as u32 <= c as u32 <= 'Z' as u32 {
        (c as u32 + 32) as char
    } else {
        c
    }
}

/// Whether `a` and `b` differ at most in the case of ASCII letters.
pub open spec fn same_ignoring_ascii_case(a: Seq<char>, b: Seq<char>) -> bool {
    a.map_values(|c: char| ascii_lower(c)) == b.map_values(|c: char| ascii_lower(c))
}

fn to_ascii_lower(c: char) -> (l: char)
    ensures
        l == ascii_lower(c),
{
    let code: u32 = c as u32;
    if 65 <= code && code <= 90 {
        let lower: u8 = (code + 32) as u8;
        lower as char
    } else {
        c
    }
}

/// Whether two strings are equal up to the case of ASCII letters.
pub fn eq_ignore_ascii_case(a: &str, b: &str) -> (same: bool)
    ensures
        same == same_ignoring_ascii_case(a@, b@),
{
    let x = chars_of(a);
    let y = chars_of(b);
    let ghost lx = a@.map_values(|c: char| ascii_lower(c));
    let ghost ly = b@.map_values(|c: char| ascii_lower(c));
    if x.len() != y.len() {
        assert(lx.len() != ly.len());
        return false;
    }
    let mut i: usize = 0;
    while i < x.len()
        invariant
            x@ == a@,
            y@ == b@,
            lx == a@.map_values(|c: char| ascii_lower(c)),
            ly == b@.map_values(|c: char| ascii_lower(c)),
            x.len() == y.len(),
            i <= x.len(),
            forall|j: int| 0 <= j < i ==> lx[j] == ly[j],
        decreases x.len() - i,
    {
        if to_ascii_lower(x[i]) != to_ascii_lower(y[i]) {
            assert(lx[i as int] != ly[i as int]);
            return false;
        }
        i = i + 1;
    }
    assert(lx =~= ly);
    true
}

/// Whether `c` has the Unicode property White_Space.
pub open spec fn is_whitespace_char(c: char) -> bool {
    let code = c as u32;
    ||| 0x09 <= code <= 0x0d
    ||| code == 0x20
    ||| code == 0x85
    ||| code == 0xa0
    ||| code == 0x1680
    ||| 0x2000 <= code <= 0x200a
    ||| code == 0x2028
    ||| code == 0x2029
    ||| code == 0x202f
    ||| code == 0x205f
    ||| code == 0x3000
}

/// Whether `c` is white space.
pub fn is_whitespace(c: char) -> (b: bool)
    ensures
        b == is_whitespace_char(c),
{
    let code: u32 = c as u32;
    (0x09 <= code && code <= 0x0d) || code == 0x20 || code == 0x85 || code == 0xa0 || code == 0x1680
        || (0x2000 <= code && code <= 0x200a) || code == 0x2028 || code == 0x2029 || code == 0x202f
        || code == 0x205f || code == 0x3000
}

/// The words of `s`: its longest runs of characters other than white space.
pub open spec fn words(s: Seq<char>) -> Seq<Seq<char>>
    decreases s.len(),
{
    if s.len() == 0 {
        Seq::empty()
    } else {
        let before = words(s.drop_last());
        if is_whitespace_char(s.last()) {
            before
        } else if s.len() >= 2 && !is_whitespace_char(s[s.len() - 2]) {
            before.drop_last().push(before.last().push(s.last()))
        } else {
            before.push(seq![s.last()])
        }
    }
}

/// The `n`th word of `s`, counted from zero.
pub open spec fn nth_word(s: Seq<char>, n: int) -> Option<Seq<char>> {
    if 0 <= n < words(s).len() {
        Some(words(s)[n])
    } else {
        None
    }
}

/// The words of the characters of `s` from `start` on.
pub fn split_words(s: &Vec<char>, start: usize) -> (out: Vec<Vec<char>>)
    requires
        start <= s.len(),
    ensures
        out@.map_values(|w: Vec<char>| w@) == words(s@.skip(start as int)),
{
    let ghost t = s@.skip(start as int);
    let mut done: Vec<Vec<char>> = Vec::new();
    let mut word: Vec<char> = Vec::new();
    let mut i: usize = start;
    assert(t.take(0) =~= Seq::<char>::empty());
    while i < s.len()
        invariant
            start <= i <= s.len(),
            t == s@.skip(start as int),
            word@.len() > 0 <==> (i > start && !is_whitespace_char(s@[i - 1])),
            words(t.take(i - start)) =~= if word@.len() > 0 {
                done@.map_values(|w: Vec<char>| w@).push(word@)
            } else {
                done@.map_values(|w: Vec<char>| w@)
            },
        decreases s.len() - i,
    {
        let ghost n = i - start;
        assert(t.take(n + 1).drop_last() =~= t.take(n));
        assert(t.take(n + 1).last() == s@[i as int]);
        let ghost parts = done@.map_values(|w: Vec<char>| w@);
        if is_whitespace(s[i]) {
            if word.len() > 0 {
                done.push(word);
                word = Vec::new();
                assert(done@.map_values(|w: Vec<char>| w@) =~= words(t.take(n)));
            }
        } else {
            let ghost before = word@;
            word.push(s[i]);
            proof {
                if before.len() > 0 {
                    assert(t.take(n + 1)[n - 1] == s@[i - 1]);
                    assert(words(t.take(n)).drop_last() =~= parts);
                    assert(words(t.take(n)).last() == before);
                } else {
                    assert(word@ =~= seq![s@[i as int]]);
                    if n > 0 {
                        assert(t.take(n + 1)[n - 1] == s@[i - 1]);
                    }
                }
            }
        }
        i = i + 1;
    }
    assert(t.take(i - start) =~= t);
    if word.len() > 0 {
        let ghost parts = done@.map_values(|w: Vec<char>| w@);
        let ghost last = word@;
        done.push(word);
        assert(done@.map_values(|w: Vec<char>| w@) =~= parts.push(last));
    }
    done
}

/// The number that a string of digits stands for.
pub open spec fn digits_value(s: Seq<char>) -> nat
    decreases s.len(),
{
    if s.len() == 0 {
        0
    } else {
        (10 * digits_value(s.drop_last()) + (s.last() as u32 - '0' as u32)) as nat
    }
}

/// `s` without the plus sign that may stand in front of a number.
pub open spec fn without_plus(s: Seq<char>) -> Seq<char> {
    if s.len() > 1 && s[0] == '+' {
        s.skip(1)
    } else {
        s
    }
}

pub open spec fn all_digits(s: Seq<char>) -> bool {
    forall|i: int| 0 <= i < s.len() ==> is_digit(#[trigger] s[i])
}

/// The `u64` that `s` stands for: digits, at least one, with an optional plus
/// sign in front; `None` for other text and for a number too large for the type.
pub open spec fn parsed_u64(s: Seq<char>) -> Option<u64> {
    let digits = without_plus(s);
    if digits.len() > 0 && all_digits(digits) && digits_value(digits) <= u64::MAX {
        Some(digits_value(digits) as u64)
    } else {
        None
    }
}

proof fn digits_value_grows(s: Seq<char>, n: int)
    requires
        0 <= n <= s.len(),
        all_digits(s),
    ensures
        digits_value(s.take(n)) <= digits_value(s),
    decreases s.len() - n,
{
    if n < s.len() {
        digits_value_grows(s, n + 1);
        assert(s.take(n + 1).drop_last() =~= s.take(n));
    } else {
        assert(s.take(n) =~= s);
    }
}

/// Parses a `u64` from decimal text.
pub fn parse_u64(s: &Vec<char>) -> (value: Option<u64>)
    ensures
        value == parsed_u64(s@),
{
    let start: usize = if s.len() > 1 && s[0] == '+' {
        1
    } else {
        0
    };
    let ghost digits = without_plus(s@);
    assert(digits =~= s@.skip(start as int));
    if s.len() == 0 {
        return None;
    }
    let mut acc: u128 = 0;
    let mut i: usize = start;
    assert(digits.take(0) =~= Seq::<char>::empty());
    while i < s.len()
        invariant
            start <= i <= s.len(),
            digits == s@.skip(start as int),
            digits == without_plus(s@),
            forall|j: int| 0 <= j < i - start ==> is_digit(#[trigger] digits[j]),
            acc == digits_value(digits.take(i - start)),
            acc <= u64::MAX,
        decreases s.len() - i,
    {
        let code: u32 = s[i] as u32;
        assert(digits[i - start] == s@[i as int]);
        if code < 48 || code > 57 {
            assert(!is_digit(digits[i - start]));
            return None;
        }
        assert(digits.take(i - start + 1).drop_last() =~= digits.take(i - start));
        acc = 10 * acc + (code - 48) as u128;
        if acc > u64::MAX as u128 {
            proof {
                if all_digits(digits) {
                    digits_value_grows(digits, i - start + 1);
                }
            }
            return None;
        }
        i = i + 1;
    }
    assert(digits.take(i - start) =~= digits);
    Some(acc as u64)
}

/// Sanitizing goes character by character: what is below U+0020, and what is from
/// U+007F to U+009F, gives way to U+FFFD, and every other character stays.
pub proof fn sanitizing_goes_character_by_character(s: Seq<char>, i: int)
    requires
        0 <= i < s.len(),
    ensures
        sanitized(s).len() == s.len(),
        (s[i] as u32) < 0x20 || 0x7f <= s[i] as u32 && (s[i] as u32) < 0xa0 ==> sanitized(s)[i]
            as u32 == 0xfffd,
        !((s[i] as u32) < 0x20 || 0x7f <= s[i] as u32 && (s[i] as u32) < 0xa0) ==> sanitized(s)[i]
            == s[i],
{
}

/// A text is sanitized part by part.
pub proof fn parts_are_sanitized_apart(a: Seq<char>, b: Seq<char>)
    ensures
        sanitized(a + b) == sanitized(a) + sanitized(b),
{
    assert(sanitized(a + b) =~= sanitized(a) + sanitized(b));
}

/// A number of one digit is that digit, and ten times a number and a digit more is
/// that number with the digit behind it.
pub proof fn a_further_digit_stands_behind(n: nat, d: nat)
    requires
        d < 10,
    ensures
        decimal(d).len() == 1,
        decimal(d)[0] as u32 == 48 + d,
        n > 0 ==> decimal(10 * n + d).drop_last() == decimal(n),
        n > 0 ==> decimal(10 * n + d).last() as u32 == 48 + d,
{
    if n > 0 {
        let more = 10 * n + d;
        assert(more / 10 == n && more % 10 == d);
        assert(decimal(more).drop_last() =~= decimal(n));
    }
}

/// A number of one octal digit is that digit, and eight times a number and a digit
/// more is that number with the digit behind it.
pub proof fn a_further_octal_digit_stands_behind(n: nat, d: nat)
    requires
        d < 8,
    ensures
        octal(d).len() == 1,
        octal(d)[0] as u32 == 48 + d,
        n > 0 ==> octal(8 * n + d).drop_last() == octal(n),
        n > 0 ==> octal(8 * n + d).last() as u32 == 48 + d,
{
    if n > 0 {
        let more = 8 * n + d;
        assert(more / 8 == n && more % 8 == d);
        assert(octal(more).drop_last() =~= octal(n));
    }
}

/// A negative number is its opposite behind a minus sign.
pub proof fn a_minus_sign_stands_in_front(n: nat)
    ensures
        signed_decimal(n as int) == decimal(n),
        n > 0 ==> signed_decimal(-n).len() == decimal(n).len() + 1,
        n > 0 ==> signed_decimal(-n)[0] == '-',
        n > 0 ==> signed_decimal(-n).skip(1) == decimal(n),
{
    if n > 0 {
        assert(signed_decimal(-n).skip(1) =~= decimal(n));
    }
}

/// Each byte is two hexadecimal digits, the one for its upper half first: figures
/// below ten, and the letters from `a` on for the rest.
pub proof fn each_byte_is_two_digits(bytes: Seq<u8>, i: int)
    requires
        0 <= i < bytes.len(),
    ensures
        hex(bytes).len() == 2 * bytes.len(),
        bytes[i] / 16 < 10 ==> hex(bytes)[2 * i] as u32 == 48 + bytes[i] / 16,
        bytes[i] / 16 >= 10 ==> hex(bytes)[2 * i] as u32 == 97 + (bytes[i] / 16 - 10),
        bytes[i] % 16 < 10 ==> hex(bytes)[2 * i + 1] as u32 == 48 + bytes[i] % 16,
        bytes[i] % 16 >= 10 ==> hex(bytes)[2 * i + 1] as u32 == 97 + (bytes[i] % 16 - 10),
    decreases bytes.len(),
{
    hex_length(bytes);
    hex_length(bytes.drop_last());
    let shorter = bytes.drop_last();
    if i < shorter.len() {
        each_byte_is_two_digits(shorter, i);
        assert(shorter[i] == bytes[i]);
        assert(hex(bytes)[2 * i] == hex(shorter)[2 * i]);
        assert(hex(bytes)[2 * i + 1] == hex(shorter)[2 * i + 1]);
    }
}

/// Two texts are the same but for the case of ASCII letters exactly where they are
/// equally long and each character equals its counterpart, or is an upper-case letter
/// where that is the lower-case one, or the other way round.
pub proof fn only_the_case_of_letters_is_ignored(a: Seq<char>, b: Seq<char>)
    ensures
        same_ignoring_ascii_case(a, b) <==> a.len() == b.len() && forall|i: int|
            #![trigger a[i]]
            0 <= i < a.len() ==> {
                let x = a[i] as u32;
                let y = b[i] as u32;
                ||| x == y
                ||| 65 <= x <= 90 && y == x + 32
                ||| 65 <= y <= 90 && x == y + 32
            },
{
    let la = a.map_values(|c: char| ascii_lower(c));
    let lb = b.map_values(|c: char| ascii_lower(c));
    assert forall|i: int| #![trigger a[i]] 0 <= i < a.len() && a.len() == b.len() implies (la[i]
        == lb[i] <==> {
        let x = a[i] as u32;
        let y = b[i] as u32;
        ||| x == y
        ||| 65 <= x <= 90 && y == x + 32
        ||| 65 <= y <= 90 && x == y + 32
    }) by {
        lower_case_meets(a[i], b[i]);
    }
    if la == lb {
        assert(la.len() == a.len() && lb.len() == b.len());
        assert forall|i: int| #![trigger a[i]] 0 <= i < a.len() implies {
            let x = a[i] as u32;
            let y = b[i] as u32;
            ||| x == y
            ||| 65 <= x <= 90 && y == x + 32
            ||| 65 <= y <= 90 && x == y + 32
        } by {
            assert(la[i] == lb[i]);
        }
    } else if a.len() == b.len() {
        assert(!(la =~= lb));
        let i = choose|i: int| 0 <= i < la.len() && la[i] != lb[i];
        assert(a[i] == a[i]);
    }
}

proof fn lower_case_meets(c: char, d: char)
    ensures
        ascii_lower(c) == ascii_lower(d) <==> c as u32 == d as u32 || 65 <= c as u32 <= 90 && d as u32
            == c as u32 + 32 || 65 <= d as u32 <= 90 && c as u32 == d as u32 + 32,
{
}

/// White space is what Unicode lists as such, and nothing else.
pub proof fn white_space_is_what_unicode_lists(c: char)
    ensures
        is_whitespace_char(c) <==> seq![
            0x9u32,
            0xa,
            0xb,
            0xc,
            0xd,
            0x20,
            0x85,
            0xa0,
            0x1680,
            0x2000,
            0x2001,
            0x2002,
            0x2003,
            0x2004,
            0x2005,
            0x2006,
            0x2007,
            0x2008,
            0x2009,
            0x200a,
            0x2028,
            0x2029,
            0x202f,
            0x205f,
            0x3000,
        ].contains(c as u32),
{
    let listed = seq![
        0x9u32, 0xa, 0xb, 0xc, 0xd, 0x20, 0x85, 0xa0, 0x1680, 0x2000, 0x2001, 0x2002, 0x2003,
        0x2004, 0x2005, 0x2006, 0x2007, 0x2008, 0x2009, 0x200a, 0x2028, 0x2029, 0x202f, 0x205f,
        0x3000,
    ];
    let code = c as u32;
    if is_whitespace_char(c) {
        let at: int = if code <= 0xd {
            code - 0x9
        } else if code == 0x20 {
            5
        } else if code == 0x85 {
            6
        } else if code == 0xa0 {
            7
        } else if code == 0x1680 {
            8
        } else if code <= 0x200a {
            code - 0x2000 + 9
        } else if code == 0x2028 {
            20
        } else if code == 0x2029 {
            21
        } else if code == 0x202f {
            22
        } else if code == 0x205f {
            23
        } else {
            24
        };
        assert(listed[at] == code);
    } else if listed.contains(code) {
        let at = choose|at: int| 0 <= at < listed.len() && listed[at] == code;
        assert(listed[at] == code);
    }
}

/// A text has no words where it is empty, and is its own only word where it holds no
/// white space.
pub proof fn a_text_without_white_space_is_one_word(s: Seq<char>)
    requires
        forall|i: int| 0 <= i < s.len() ==> !is_whitespace_char(#[trigger] s[i]),
    ensures
        s.len() == 0 ==> words(s).len() == 0,
        s.len() > 0 ==> words(s) == seq![s],
    decreases s.len(),
{
    if s.len() > 0 {
        let shorter = s.drop_last();
        assert forall|i: int| 0 <= i < shorter.len() implies !is_whitespace_char(
            #[trigger] shorter[i],
        ) by {
            assert(shorter[i] == s[i]);
        }
        a_text_without_white_space_is_one_word(shorter);
        assert(!is_whitespace_char(s[s.len() - 1]));
        if s.len() >= 2 {
            assert(!is_whitespace_char(s[s.len() - 2]));
            assert(words(shorter).drop_last() =~= Seq::<Seq<char>>::empty());
            assert(shorter.push(s.last()) =~= s);
            assert(words(s) =~= seq![s]);
        } else {
            assert(words(shorter) =~= Seq::<Seq<char>>::empty());
            assert(seq![s.last()] =~= s);
            assert(words(s) =~= seq![s]);
        }
    }
}

/// White space parts words: those of two texts with white space between them are those
/// of the one and then those of the other.
pub proof fn white_space_parts_words(a: Seq<char>, c: char, b: Seq<char>)
    requires
        is_whitespace_char(c),
    ensures
        words(a.push(c) + b) == words(a) + words(b),
    decreases b.len(),
{
    let whole = a.push(c) + b;
    if b.len() == 0 {
        assert(whole =~= a.push(c));
        assert(whole.drop_last() =~= a);
        assert(words(a) + words(b) =~= words(a));
    } else {
        let shorter = b.drop_last();
        white_space_parts_words(a, c, shorter);
        assert(whole.drop_last() =~= a.push(c) + shorter);
        assert(whole.last() == b.last());
        let before = words(a.push(c) + shorter);
        if is_whitespace_char(b.last()) {
        } else if b.len() >= 2 && !is_whitespace_char(b[b.len() - 2]) {
            assert(whole[whole.len() - 2] == b[b.len() - 2]);
            words_are_there(shorter);
            assert(shorter.last() == b[b.len() - 2]);
            assert(before.drop_last() =~= words(a) + words(shorter).drop_last());
            assert(before.last() == words(shorter).last());
            assert(words(whole) =~= words(a) + words(b));
        } else {
            if b.len() >= 2 {
                assert(whole[whole.len() - 2] == b[b.len() - 2]);
            } else {
                assert(whole[whole.len() - 2] == c);
            }
            assert(words(whole) =~= words(a) + words(b));
        }
    }
}

proof fn words_are_there(s: Seq<char>)
    requires
        s.len() > 0,
        !is_whitespace_char(s.last()),
    ensures
        words(s).len() > 0,
{
}

proof fn decimal_is_made_of_digits(n: nat)
    ensures
        all_digits(decimal(n)),
        decimal(n).len() > 0,
        digits_value(decimal(n)) == n,
    decreases n,
{
    if n >= 10 {
        decimal_is_made_of_digits(n / 10);
        assert(decimal(n).drop_last() =~= decimal(n / 10));
        assert(decimal(n).last() == digit(n % 10));
    } else {
        assert(decimal(n).drop_last() =~= Seq::<char>::empty());
        assert(digits_value(decimal(n).drop_last()) == 0);
    }
}

/// What was written in decimal is read back, with a plus sign in front or without.
pub proof fn a_decimal_number_is_read_back(n: u64)
    ensures
        parsed_u64(decimal(n as nat)) == Some(n),
        parsed_u64(seq!['+'] + decimal(n as nat)) == Some(n),
{
    let s = decimal(n as nat);
    decimal_is_made_of_digits(n as nat);
    assert(is_digit(s[0]));
    assert((seq!['+'] + s).skip(1) =~= s);
}

/// A number that is too large for the type is not read.
pub proof fn a_number_that_is_too_large_is_not_read(n: nat)
    requires
        n > u64::MAX,
    ensures
        parsed_u64(decimal(n)) is None,
{
    decimal_is_made_of_digits(n);
    assert(is_digit(decimal(n)[0]));
}

/// Only digits are read as a number, at least one of them, but for a plus sign in
/// front.
pub proof fn only_digits_are_read(s: Seq<char>)
    requires
        parsed_u64(s) is Some,
    ensures
        s.len() > 0,
        forall|i: int| 0 < i < s.len() ==> 48 <= (#[trigger] s[i]) as u32 <= 57,
        48 <= s[0] as u32 <= 57 || s[0] == '+' && s.len() > 1,
{
    let d = without_plus(s);
    assert(is_digit(d[0]));
    assert forall|i: int| 0 < i < s.len() implies 48 <= (#[trigger] s[i]) as u32 <= 57 by {
        if s.len() > 1 && s[0] == '+' {
            assert(d[i - 1] == s[i]);
            assert(is_digit(d[i - 1]));
        } else {
            assert(is_digit(d[i]));
        }
    }
}

/// Reading one digit more multiplies by ten and adds it, as far as that fits the type;
/// leading zeros make no difference.
pub proof fn a_digit_more_is_read(s: Seq<char>, c: char)
    requires
        s.len() > 0,
        forall|i: int| 0 <= i < s.len() ==> 48 <= (#[trigger] s[i]) as u32 <= 57,
        48 <= c as u32 <= 57,
    ensures
        parsed_u64(s) matches Some(v) && 10 * v + (c as u32 - 48) <= u64::MAX ==> parsed_u64(
            s.push(c),
        ) == Some((10 * parsed_u64(s)->0 + (c as u32 - 48)) as u64),
        parsed_u64(s) matches Some(v) ==> (10 * v + (c as u32 - 48) > u64::MAX ==> parsed_u64(
            s.push(c),
        ) is None),
        parsed_u64(s) is None ==> parsed_u64(s.push(c)) is None,
        parsed_u64(seq!['0'] + s) == parsed_u64(s),
{
    let more = s.push(c);
    assert(forall|i: int| 0 <= i < s.len() ==> is_digit(#[trigger] s[i]));
    assert(is_digit(s[0]) && more[0] == s[0]);
    assert(more.drop_last() =~= s);
    assert forall|i: int| 0 <= i < more.len() implies is_digit(#[trigger] more[i]) by {
        if i < s.len() {
            assert(is_digit(s[i]));
        }
    }
    let padded = seq!['0'] + s;
    leading_zero(s);
    assert forall|i: int| 0 <= i < padded.len() implies is_digit(#[trigger] padded[i]) by {
        if i > 0 {
            assert(is_digit(s[i - 1]));
        }
    }
}

proof fn leading_zero(s: Seq<char>)
    ensures
        digits_value(seq!['0'] + s) == digits_value(s),
    decreases s.len(),
{
    let padded = seq!['0'] + s;
    if s.len() > 0 {
        leading_zero(s.drop_last());
        assert(padded.drop_last() =~= seq!['0'] + s.drop_last());
        assert(padded.last() == s.last());
    } else {
        assert(padded.drop_last() =~= Seq::<char>::empty());
        assert(digits_value(padded.drop_last()) == 0);
    }
}

/// A row of fields, each with a character in front of it.
pub open spec fn row(gaps: Seq<char>, fields: Seq<Seq<char>>) -> Seq<char>
    decreases fields.len(),
{
    if fields.len() == 0 {
        Seq::empty()
    } else {
        row(gaps, fields.drop_last()).push(gaps[fields.len() - 1]) + fields.last()
    }
}

/// Whether `fields` are words: not empty, and without white space.
pub open spec fn are_words(fields: Seq<Seq<char>>) -> bool {
    forall|i: int|
        #![trigger fields[i]]
        0 <= i < fields.len() ==> fields[i].len() > 0 && forall|j: int|
            0 <= j < fields[i].len() ==> !is_whitespace_char(#[trigger] fields[i][j])
}

/// The words of a row are its fields, where white space stands in front of each.
pub proof fn the_words_of_a_row_are_its_fields(gaps: Seq<char>, fields: Seq<Seq<char>>)
    requires
        are_words(fields),
        forall|i: int| 0 <= i < fields.len() ==> is_whitespace_char(#[trigger] gaps[i]),
    ensures
        words(row(gaps, fields)) == fields,
    decreases fields.len(),
{
    if fields.len() > 0 {
        let before = fields.drop_last();
        let last = fields[fields.len() - 1];
        assert forall|i: int| #![trigger before[i]] 0 <= i < before.len() implies before[i].len() > 0
            && forall|j: int|
            0 <= j < before[i].len() ==> !is_whitespace_char(#[trigger] before[i][j]) by {
            assert(before[i] == fields[i]);
        }
        the_words_of_a_row_are_its_fields(gaps, before);
        assert forall|j: int| 0 <= j < last.len() implies !is_whitespace_char(
            #[trigger] last[j],
        ) by {
            assert(!is_whitespace_char(fields[fields.len() - 1][j]));
        }
        a_text_without_white_space_is_one_word(last);
        white_space_parts_words(row(gaps, before), gaps[fields.len() - 1], last);
        assert(before + seq![last] =~= fields);
    } else {
        assert(words(row(gaps, fields)) =~= fields);
    }
}

/// A number that is written is read back, and is written behind what was there.
pub proof fn a_written_number_is_read_back(
    out: &mut String,
    n: u64,
    written: &Vec<char>,
    value: Option<u64>,
)
    requires
        call_ensures(push_decimal, (out, n as u128), ()),
        written@ == final(out)@.skip(old(out)@.len() as int),
        call_ensures(parse_u64, (written,), value),
    ensures
        final(out)@.take(old(out)@.len() as int) == old(out)@,
        value == Some(n),
{
    assert(final(out)@.take(old(out)@.len() as int) =~= old(out)@);
    assert(written@ =~= decimal(n as nat));
    a_decimal_number_is_read_back(n);
}

/// What comes out of sanitizing has a character for each that went in: the same one, or
/// U+FFFD where that was a control character.
pub proof fn sanitized_text_has_its_characters_in_place(s: &str, clean: String, i: int)
    requires
        call_ensures(sanitize, (s,), clean),
        0 <= i < s@.len(),
    ensures
        clean@.len() == s@.len(),
        clean@[i] == s@[i] <==> !((s@[i] as u32) < 0x20 || 0x7f <= s@[i] as u32 && (s@[i] as u32)
            < 0xa0),
        clean@[i] == s@[i] || clean@[i] as u32 == 0xfffd,
{
    sanitizing_goes_character_by_character(s@, i);
}

/// The hexadecimal text of some bytes gives them back: the two digits of each, read in base
/// sixteen, are its value, and letters are in lower case.
pub proof fn hexadecimal_text_gives_the_bytes_back(bytes: &[u8], out: String, i: int)
    requires
        call_ensures(to_hex, (bytes,), out),
        0 <= i < bytes@.len(),
    ensures
        ({
            let high = out@[2 * i] as u32;
            let low = out@[2 * i + 1] as u32;
            &&& out@.len() == 2 * bytes@.len()
            &&& 48 <= high <= 57 || 97 <= high <= 102
            &&& 48 <= low <= 57 || 97 <= low <= 102
            &&& bytes@[i] == 16 * (if high <= 57 {
                high - 48
            } else {
                high - 87
            }) + (if low <= 57 {
                low - 48
            } else {
                low - 87
            })
        }),
{
    each_byte_is_two_digits(bytes@, i);
}

/// Two strings are found equal up to the case of letters exactly where they are as long as
/// each other and every character of the one is that of the other, or the same letter of A
/// to Z in the other case.
pub proof fn strings_are_compared_letter_by_letter(a: &str, b: &str, same: bool)
    requires
        call_ensures(eq_ignore_ascii_case, (a, b), same),
    ensures
        same <==> a@.len() == b@.len() && forall|i: int|
            #![trigger a@[i]]
            0 <= i < a@.len() ==> {
                let x = a@[i] as u32;
                let y = b@[i] as u32;
                ||| x == y
                ||| 65 <= x <= 90 && y == x + 32
                ||| 65 <= y <= 90 && x == y + 32
            },
{
    only_the_case_of_letters_is_ignored(a@, b@);
}

} // verus!
