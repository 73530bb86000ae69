//! Text as sequences of characters.

use vstd::prelude::*;

verus! {

/// `String::push` appends one character.
pub assume_specification[ String::push ](s: &mut String, ch: char)
    ensures
        final(s)@ == old(s)@.push(ch),
;

/// `char::from_u32` gives the character with a code, if there is one: codes end
/// at 10FFFF, and those from D800 to DFFF are no characters.
pub assume_specification[ char::from_u32 ](code: u32) -> (c: Option<char>)
    ensures
        c == if code < 0xD800 || 0xE000 <= code <= 0x10FFFF {
            Some(code as char)
        } else {
            None
        },
;

/// The lower-case form of an ASCII letter; any other character as it is.
pub open spec fn ascii_lower(c: char) -> char {
    if 'A' <= c <= 'Z' {
        ((c as u32) + 32) as char
    } else {
        c
    }
}

/// A text with its ASCII letters in lower case.
pub open spec fn lowercase(s: Seq<char>) -> Seq<char> {
    Seq::new(s.len(), |i: int| ascii_lower(s[i]))
}

/// Whether `part` stands in `s` from position `i` on.
pub open spec fn stands_at(s: Seq<char>, part: Seq<char>, i: int) -> bool {
    0 <= i <= s.len() - part.len() && s.subrange(i, i + part.len()) == part
}

/// Whether `part` stands somewhere in `s`.
pub open spec fn contains(s: Seq<char>, part: Seq<char>) -> bool {
    exists|i: int| stands_at(s, part, i)
}

/// The characters with the Unicode property `White_Space`.
pub open spec fn is_space(c: char) -> bool {
    let code = c as u32;
    ||| 0x9 <= code <= 0xD
    ||| code == 0x20
    ||| code == 0x85
    ||| code == 0xA0
    ||| code == 0x1680
    ||| 0x2000 <= code <= 0x200A
    ||| code == 0x2028
    ||| code == 0x2029
    ||| code == 0x202F
    ||| code == 0x205F
    ||| code == 0x3000
}

/// A text without the white space at its ends.
pub open spec fn trimmed(s: Seq<char>) -> Seq<char>
    decreases s.len(),
{
    if s.len() > 0 && is_space(s[0]) {
        trimmed(s.subrange(1, s.len() as int))
    } else if s.len() > 0 && is_space(s[s.len() - 1]) {
        trimmed(s.subrange(0, s.len() - 1))
    } else {
        s
    }
}

/// Trimming takes nothing away from a text that was trimmed.
pub proof fn lemma_trimmed(s: Seq<char>)
    ensures
        trimmed(trimmed(s)) == trimmed(s),
        trimmed(s).len() <= s.len(),
    decreases s.len(),
{
    if s.len() > 0 && is_space(s[0]) {
        lemma_trimmed(s.subrange(1, s.len() as int));
    } else if s.len() > 0 && is_space(s[s.len() - 1]) {
        lemma_trimmed(s.subrange(0, s.len() - 1));
    }
}

/// A number in decimal digits stands for itself.
pub proof fn lemma_decimal_parsed(n: nat, max: nat)
    requires
        n <= max,
    ensures
        parsed(decimal(n), max) == Some(n),
{
    lemma_decimal_digits(n);
    assert(is_digit(decimal(n)[0]));
}

proof fn lemma_decimal_digits(n: nat)
    ensures
        all_digits(decimal(n)),
        digits_value(decimal(n)) == n,
    decreases n,
{
    let s = decimal(n);
    if n < 10 {
        assert(s.drop_last() =~= Seq::empty());
        assert(digits_value(s.drop_last()) == 0);
    } else {
        lemma_decimal_digits(n / 10);
        assert(s.drop_last() =~= decimal(n / 10));
        assert forall|i: int| 0 <= i < s.len() implies is_digit(#[trigger] s[i]) by {
            if i < s.len() - 1 {
                assert(s[i] == decimal(n / 10)[i]);
            }
        }
    }
}

/// A text without as many copies of `prefix` as it starts with.
pub open spec fn without_prefixes(s: Seq<char>, prefix: Seq<char>) -> Seq<char>
    decreases s.len(),
{
    if prefix.len() > 0 && stands_at(s, prefix, 0) {
        without_prefixes(s.subrange(prefix.len() as int, s.len() as int), prefix)
    } else {
        s
    }
}

/// The decimal digit of a number below ten.
pub open spec fn digit_char(digit: nat) -> char {
    ((48 + digit) as u32) as char
}

/// Whether the character is a decimal digit.
pub open spec fn is_digit(c: char) -> bool {
    '0' <= c <= '9'
}

/// The number that a row of decimal digits stands for.
pub open spec fn digits_value(s: Seq<char>) -> nat
    decreases s.len(),
{
    if s.len() == 0 {
        0
    } else {
        10 * digits_value(s.drop_last()) + ((s.last() as u32) - 48) as nat
    }
}

/// Whether the text is a row of at least one decimal digit.
pub open spec fn all_digits(s: Seq<char>) -> bool {
    s.len() > 0 && forall|i: int| 0 <= i < s.len() ==> is_digit(#[trigger] s[i])
}

/// A text without one leading plus sign.
pub open spec fn unsigned_digits(s: Seq<char>) -> Seq<char> {
    if s.len() > 0 && s[0] == '+' {
        s.subrange(1, s.len() as int)
    } else {
        s
    }
}

/// The number that a text stands for: decimal digits, with an optional plus
/// sign before them, for a number up to `max`.
pub open spec fn parsed(s: Seq<char>, max: nat) -> Option<nat> {
    let digits = unsigned_digits(s);
    if all_digits(digits) && digits_value(digits) <= max {
        Some(digits_value(digits))
    } else {
        None
    }
}

/// A number in decimal digits.
pub open spec fn decimal(n: nat) -> Seq<char>
    decreases n,
{
    if n < 10 {
        seq![digit_char(n)]
    } else {
        decimal(n / 10).push(digit_char(n % 10))
    }
}

/// The text that UTF-16 code units stand for. Each unit that belongs to no
/// pair of surrogates, though it is one, becomes the replacement character.
pub open spec fn utf16_text(units: Seq<u16>) -> Seq<char>
    decreases units.len(),
{
    if units.len() == 0 {
        Seq::empty()
    } else if units[0] < 0xD800 || units[0] > 0xDFFF {
        seq![units[0] as char] + utf16_text(units.subrange(1, units.len() as int))
    } else if units[0] < 0xDC00 && units.len() > 1 && 0xDC00 <= units[1] <= 0xDFFF {
        seq![surrogate_pair(units[0], units[1])] + utf16_text(
            units.subrange(2, units.len() as int),
        )
    } else {
        seq!['\u{FFFD}'] + utf16_text(units.subrange(1, units.len() as int))
    }
}

/// The character that a pair of surrogates stands for.
pub open spec fn surrogate_pair(high: u16, low: u16) -> char {
    (0x10000 + (high - 0xD800) * 0x400 + (low - 0xDC00)) as char
}

/// The characters of a text.
pub fn chars_of(text: &str) -> (chars: Vec<char>)
    ensures
        chars@ == text@,
{
    let mut chars: Vec<char> = Vec::new();
    for c in it: text.chars()
        invariant
            chars@ == it.seq().take(it.index() as int),
    {
        chars.push(c);
    }
    chars
}

/// A text with its ASCII letters in lower case.
pub fn to_ascii_lowercase(text: &str) -> (lower: String)
    ensures
        lower@ == lowercase(text@),
{
    let chars = chars_of(text);
    let mut lower = String::new();
    let mut i: usize = 0;
    while i < chars.len()
        invariant
            i <= chars.len(),
            chars@ == text@,
            lower@ == lowercase(text@).subrange(0, i as int),
        decreases chars.len() - i,
    {
        lower.push(lower_char(chars[i]));
        i = i + 1;
        assert(lower@ =~= lowercase(text@).subrange(0, i as int));
    }
    assert(lower@ =~= lowercase(text@));
    lower
}

fn lower_char(c: char) -> (lower: char)
    ensures
        lower == ascii_lower(c),
{
    if 'A' <= c && c <= 'Z' {
        (c as u8 + 32) as char
    } else {
        c
    }
}

/// Whether two texts hold the same characters.
pub fn same_text(left: &str, right: &str) -> (same: bool)
    ensures
        same == (left@ == right@),
{
    let left_chars = chars_of(left);
    let right_chars = chars_of(right);
    if left_chars.len() != right_chars.len() {
        return false;
    }
    stands_from(&left_chars, &right_chars, 0)
}

/// Whether two texts differ at most in the case of their ASCII letters.
pub fn eq_ignore_ascii_case(left: &str, right: &str) -> (same: bool)
    ensures
        same == (lowercase(left@) == lowercase(right@)),
{
    let left_lower = to_ascii_lowercase(left);
    let right_lower = to_ascii_lowercase(right);
    same_text(left_lower.as_str(), right_lower.as_str())
}

/// Whether `part` stands in the text from position `at` on.
fn stands_from(chars: &Vec<char>, part: &Vec<char>, at: usize) -> (stands: bool)
    requires
        at + part.len() <= chars.len(),
    ensures
        stands == stands_at(chars@, part@, at as int),
        at == 0 && part.len() == chars.len() ==> stands == (chars@ == part@),
{
    let mut i: usize = 0;
    while i < part.len()
        invariant
            i <= part.len(),
            at + part.len() <= chars.len(),
            forall|j: int| 0 <= j < i ==> chars[at + j] == part[j],
        decreases part.len() - i,
    {
        if chars[at + i] != part[i] {
            proof {
                let standing = chars@.subrange(at as int, at + part.len());
                assert(standing[i as int] != part@[i as int]);
            }
            return false;
        }
        i = i + 1;
    }
    assert(chars@.subrange(at as int, at + part.len()) =~= part@);
    assert(part.len() == chars.len() && at == 0 ==> chars@ =~= part@);
    true
}

/// Whether `part` stands somewhere in the text.
pub fn contains_text(text: &str, part: &str) -> (found: bool)
    ensures
        found == contains(text@, part@),
{
    let chars = chars_of(text);
    let sought = chars_of(part);
    let mut i: usize = 0;
    while i <= chars.len() && sought.len() <= chars.len() - i
        invariant
            i <= chars.len() + 1,
            chars@ == text@,
            sought@ == part@,
            forall|j: int| 0 <= j < i ==> !stands_at(text@, part@, j),
        decreases chars.len() + 1 - i,
    {
        if stands_from(&chars, &sought, i) {
            return true;
        }
        if i == chars.len() {
            return false;
        }
        i = i + 1;
    }
    false
}

fn is_white_space(c: char) -> (space: bool)
    ensures
        space == is_space(c),
{
    let code: u32 = c as u32;
    (0x9 <= code && code <= 0xD) || code == 0x20 || code == 0x85 || code == 0xA0 || code == 0x1680
        || (0x2000 <= code && code <= 0x200A) || code == 0x2028 || code == 0x2029 || code == 0x202F
        || code == 0x205F || code == 0x3000
}

/// The text without the white space at its ends.
pub fn trim(text: &str) -> (inner: &str)
    ensures
        inner@ == trimmed(text@),
{
    let chars = chars_of(text);
    let mut from: usize = 0;
    let mut to: usize = chars.len();
    assert(text@.subrange(0, to as int) =~= text@);
    while from < to && is_white_space(chars[from])
        invariant
            from <= to <= chars.len(),
            chars@ == text@,
            trimmed(text@) == trimmed(text@.subrange(from as int, to as int)),
        decreases to - from,
    {
        proof {
            let inner = text@.subrange(from as int, to as int);
            assert(inner.subrange(1, inner.len() as int) =~= text@.subrange(from + 1, to as int));
        }
        from = from + 1;
    }
    while from < to && is_white_space(chars[to - 1])
        invariant
            from <= to <= chars.len(),
            chars@ == text@,
            from < to ==> !is_space(text@[from as int]),
            trimmed(text@) == trimmed(text@.subrange(from as int, to as int)),
        decreases to - from,
    {
        proof {
            let inner = text@.subrange(from as int, to as int);
            assert(inner.subrange(0, inner.len() - 1) =~= text@.subrange(from as int, to - 1));
        }
        to = to - 1;
    }
    text.substring_char(from, to)
}

/// The text after `prefix`, if it starts with it.
pub fn strip_prefix<'a>(text: &'a str, prefix: &str) -> (rest: Option<&'a str>)
    ensures
        rest is Some <==> stands_at(text@, prefix@, 0),
        rest matches Some(inner) ==> inner@ == text@.subrange(
            prefix@.len() as int,
            text@.len() as int,
        ),
{
    let chars = chars_of(text);
    let start = chars_of(prefix);
    if start.len() <= chars.len() && stands_from(&chars, &start, 0) {
        Some(text.substring_char(start.len(), chars.len()))
    } else {
        None
    }
}

/// The text without as many copies of `prefix` as it starts with.
pub fn trim_start_matches<'a>(text: &'a str, prefix: &str) -> (rest: &'a str)
    requires
        prefix@.len() > 0,
    ensures
        rest@ == without_prefixes(text@, prefix@),
{
    let chars = chars_of(text);
    let start = chars_of(prefix);
    let mut from: usize = 0;
    assert(text@.subrange(0, chars.len() as int) =~= text@);
    while start.len() <= chars.len() - from && stands_from(&chars, &start, from)
        invariant
            from <= chars.len(),
            chars@ == text@,
            start@ == prefix@,
            start.len() > 0,
            without_prefixes(text@, prefix@) == without_prefixes(
                text@.subrange(from as int, chars.len() as int),
                prefix@,
            ),
        decreases chars.len() - from,
    {
        proof {
            let rest = text@.subrange(from as int, chars.len() as int);
            let n = prefix@.len() as int;
            assert(rest.subrange(0, n) =~= text@.subrange(from as int, from + n));
            assert(stands_at(rest, prefix@, 0));
            assert(rest.subrange(n, rest.len() as int) =~= text@.subrange(
                from + n,
                chars.len() as int,
            ));
        }
        from = from + start.len();
    }
    proof {
        let rest = text@.subrange(from as int, chars.len() as int);
        let n = prefix@.len() as int;
        if stands_at(rest, prefix@, 0) {
            assert(rest.subrange(0, n) =~= text@.subrange(from as int, from + n));
            assert(stands_at(text@, prefix@, from as int));
        }
    }
    text.substring_char(from, chars.len())
}

/// The number up to `max` that a text stands for.
pub fn parse_up_to(text: &str, max: u64) -> (number: Option<u64>)
    ensures
        match number {
            Some(n) => parsed(text@, max as nat) == Some(n as nat),
            None => parsed(text@, max as nat) is None,
        },
{
    let chars = chars_of(text);
    let from: usize = if chars.len() > 0 && chars[0] == '+' {
        1
    } else {
        0
    };
    let ghost digits = unsigned_digits(text@);
    assert(digits =~= text@.subrange(from as int, chars.len() as int));
    if from == chars.len() {
        return None;
    }
    let mut value: u64 = 0;
    let mut i: usize = from;
    assert(digits.subrange(0, 0) =~= Seq::empty());
    while i < chars.len()
        invariant
            from <= i <= chars.len(),
            chars@ == text@,
            digits == text@.subrange(from as int, chars.len() as int),
            digits == unsigned_digits(text@),
            forall|j: int| 0 <= j < i - from ==> is_digit(#[trigger] digits[j]),
            value == digits_value(digits.subrange(0, i - from)),
            value <= max,
        decreases chars.len() - i,
    {
        let c: char = chars[i];
        proof {
            let next = digits.subrange(0, i - from + 1);
            assert(digits[i - from] == c);
            assert(next.drop_last() =~= digits.subrange(0, i - from));
            assert(next.last() == c);
        }
        if !('0' <= c && c <= '9') {
            assert(!is_digit(digits[i - from]));
            return None;
        }
        let digit: u64 = (c as u32 - 48) as u64;
        let wide: u128 = 10 * (value as u128) + digit as u128;
        if wide > max as u128 {
            proof {
                if all_digits(digits) {
                    lemma_digits_value_grows(digits, i - from + 1);
                }
            }
            return None;
        }
        value = wide as u64;
        i = i + 1;
    }
    assert(digits.subrange(0, i - from) =~= digits);
    Some(value)
}

/// More digits do not make the number smaller.
proof fn lemma_digits_value_grows(s: Seq<char>, n: int)
    requires
        all_digits(s),
        0 <= n <= s.len(),
    ensures
        digits_value(s.subrange(0, n)) <= digits_value(s),
    decreases s.len(),
{
    if n == s.len() {
        assert(s.subrange(0, n) =~= s);
    } else {
        let shorter = s.drop_last();
        assert(s.subrange(0, n) =~= shorter.subrange(0, n));
        if shorter.len() > 0 {
            assert(all_digits(shorter)) by {
                assert forall|i: int| 0 <= i < shorter.len() implies is_digit(
                    #[trigger] shorter[i],
                ) by {
                    assert(is_digit(s[i]));
                }
            }
            lemma_digits_value_grows(shorter, n);
        } else {
            assert(s.subrange(0, n) =~= shorter);
        }
        assert(is_digit(s[s.len() - 1]));
    }
}

/// Appends a number in decimal digits.
pub fn push_decimal(text: &mut String, n: u64)
    ensures
        final(text)@ == old(text)@ + decimal(n as nat),
    decreases n,
{
    if n >= 10 {
        push_decimal(text, n / 10);
    }
    let digit: u8 = 48 + (n % 10) as u8;
    text.push(digit as char);
    assert(text@ =~= old(text)@ + decimal(n as nat));
}

/// The text that UTF-16 code units stand for, with the replacement character
/// for what stands for none.
pub fn utf16_lossy(units: &Vec<u16>) -> (text: String)
    ensures
        text@ == utf16_text(units@),
{
    let mut text = String::new();
    let mut i: usize = 0;
    assert(units@.subrange(0, units.len() as int) =~= units@);
    while i < units.len()
        invariant
            i <= units.len(),
            utf16_text(units@) == text@ + utf16_text(units@.subrange(i as int, units.len() as int)),
        decreases units.len() - i,
    {
        let unit: u16 = units[i];
        let ghost rest = units@.subrange(i as int, units.len() as int);
        let ghost before = text@;
        assert(rest.subrange(1, rest.len() as int) =~= units@.subrange(i + 1, units.len() as int));
        let mut width: usize = 1;
        let mut decoded: Option<char> = None;
        if unit < 0xD800 || unit > 0xDFFF {
            decoded = char::from_u32(unit as u32);
        } else if unit < 0xDC00 && i + 1 < units.len() {
            let next: u16 = units[i + 1];
            if 0xDC00 <= next && next <= 0xDFFF {
                proof {
                    assert(rest.subrange(2, rest.len() as int) =~= units@.subrange(
                        i + 2,
                        units.len() as int,
                    ));
                    assert(rest[1] == next);
                }
                width = 2;
                decoded = char::from_u32(
                    0x10000 + (unit as u32 - 0xD800) * 0x400 + (next as u32 - 0xDC00),
                );
            }
        }
        let c: char = match decoded {
            Some(decoded_char) => decoded_char,
            None => '\u{FFFD}',
        };
        text.push(c);
        i = i + width;
        proof {
            let after = utf16_text(units@.subrange(i as int, units.len() as int));
            assert(utf16_text(rest) == seq![c] + after);
            assert(before + (seq![c] + after) =~= text@ + after);
        }
    }
    assert(units@.subrange(i as int, units.len() as int) =~= Seq::empty());
    assert(text@ + Seq::<char>::empty() =~= text@);
    text
}

} // verus!
