//! Laws of texts.

use crate::text;
use vstd::prelude::*;

verus! {

/// Whether two characters are the same up to the case of an ASCII letter.
pub open spec fn same_letter(left: char, right: char) -> bool {
    ||| left == right
    ||| 'a' <= left <= 'z' && left as u32 == right as u32 + 32
    ||| 'a' <= right <= 'z' && right as u32 == left as u32 + 32
}

/// Whether two texts are the same up to the case of their ASCII letters.
pub open spec fn same_letters(left: Seq<char>, right: Seq<char>) -> bool {
    left.len() == right.len() && forall|i: int|
        0 <= i < left.len() ==> same_letter(#[trigger] left[i], right[i])
}

/// Whether the text is white space throughout.
pub open spec fn blank(s: Seq<char>) -> bool {
    forall|i: int| 0 <= i < s.len() ==> text::is_space(#[trigger] s[i])
}

/// Whether the text has no white space at its ends.
pub open spec fn bare(s: Seq<char>) -> bool {
    s.len() > 0 ==> !text::is_space(s[0]) && !text::is_space(s[s.len() - 1])
}

/// Whether the part stands in the text from position `i` on, in any case of its
/// ASCII letters.
pub open spec fn mentioned_at(s: Seq<char>, part: Seq<char>, i: int) -> bool {
    0 <= i <= s.len() - part.len() && same_letters(s.subrange(i, i + part.len()), part)
}

/// Whether the part stands somewhere in the text, in any case of its ASCII
/// letters.
pub open spec fn mentions(s: Seq<char>, part: Seq<char>) -> bool {
    exists|i: int| mentioned_at(s, part, i)
}

/// Lower-case texts are equal exactly where the texts differ at most in case.
pub proof fn law_case_ignored(left: Seq<char>, right: Seq<char>)
    ensures
        text::lowercase(left) == text::lowercase(right) <==> same_letters(left, right),
{
    let lower_left = text::lowercase(left);
    let lower_right = text::lowercase(right);
    if lower_left == lower_right {
        assert(left.len() == lower_left.len() && right.len() == lower_right.len());
        assert forall|i: int| 0 <= i < left.len() implies same_letter(
            #[trigger] left[i],
            right[i],
        ) by {
            assert(lower_left[i] == lower_right[i]);
        }
    }
    if same_letters(left, right) {
        assert forall|i: int| 0 <= i < left.len() implies lower_left[i] == lower_right[i] by {
            assert(same_letter(left[i], right[i]));
        }
        assert(lower_left =~= lower_right);
    }
}

/// No upper-case ASCII letter is left in a lower-case text, and nothing else
/// has changed.
pub proof fn law_lowercase(s: Seq<char>)
    ensures
        same_letters(text::lowercase(s), s),
        forall|i: int|
            0 <= i < s.len() ==> !('A' <= #[trigger] text::lowercase(s)[i] <= 'Z'),
        forall|i: int|
            0 <= i < s.len() && !('A' <= s[i] <= 'Z') ==> #[trigger] text::lowercase(s)[i] == s[i],
{
}

/// A text holds its parts, wherever they stand.
pub proof fn law_contains_part(before: Seq<char>, part: Seq<char>, after: Seq<char>)
    ensures
        text::contains(before + part + after, part),
{
    let s = before + part + after;
    assert(s.subrange(before.len() as int, (before.len() + part.len()) as int) =~= part);
    assert(text::stands_at(s, part, before.len() as int));
}

/// What a text holds is a part of it.
pub proof fn law_contained_is_part(s: Seq<char>, part: Seq<char>)
    requires
        text::contains(s, part),
    ensures
        exists|before: Seq<char>, after: Seq<char>| s == #[trigger] (before + part + after),
{
    let i = choose|i: int| text::stands_at(s, part, i);
    let before = s.subrange(0, i);
    let after = s.subrange(i + part.len(), s.len() as int);
    assert(s =~= before + part + after);
}

/// The lower-case form of a text holds the lower-case form of a part exactly
/// where the text mentions the part.
pub proof fn law_mentions(s: Seq<char>, part: Seq<char>)
    ensures
        text::contains(text::lowercase(s), text::lowercase(part)) <==> mentions(s, part),
{
    let lower = text::lowercase(s);
    let n = part.len();
    assert forall|i: int| 0 <= i <= s.len() - n implies mentioned_at(s, part, i)
        == text::stands_at(lower, text::lowercase(part), i) by {
        law_case_ignored(s.subrange(i, i + n), part);
        assert(lower.subrange(i, i + n) =~= text::lowercase(s.subrange(i, i + n)));
    }
    if text::contains(lower, text::lowercase(part)) {
        let i = choose|i: int| text::stands_at(lower, text::lowercase(part), i);
        assert(mentioned_at(s, part, i));
    }
    if mentions(s, part) {
        let i = choose|i: int| mentioned_at(s, part, i);
        assert(text::stands_at(lower, text::lowercase(part), i));
    }
}

/// A text mentions what stands in it.
pub proof fn law_mentions_part(before: Seq<char>, part: Seq<char>, after: Seq<char>)
    ensures
        mentions(before + part + after, part),
{
    let s = before + part + after;
    assert(s.subrange(before.len() as int, (before.len() + part.len()) as int) =~= part);
    assert(mentioned_at(s, part, before.len() as int));
}

/// Trimming takes the white space before and after a text away, and nothing
/// else.
pub proof fn law_trimmed(before: Seq<char>, inner: Seq<char>, after: Seq<char>)
    requires
        blank(before),
        blank(after),
        bare(inner),
    ensures
        text::trimmed(before + inner + after) == inner,
    decreases before.len() + after.len(),
{
    let s = before + inner + after;
    if inner.len() == 0 && s.len() > 0 {
        let rest = s.subrange(1, s.len() as int);
        if before.len() > 0 {
            assert(s[0] == before[0]);
            let shorter = before.subrange(1, before.len() as int);
            assert(rest =~= shorter + inner + after);
            law_trimmed(shorter, inner, after);
        } else {
            assert(s[0] == after[0]);
            let shorter = after.subrange(1, after.len() as int);
            assert(rest =~= before + inner + shorter);
            law_trimmed(before, inner, shorter);
        }
    } else if before.len() > 0 {
        assert(s[0] == before[0]);
        let shorter = before.subrange(1, before.len() as int);
        assert(s.subrange(1, s.len() as int) =~= shorter + inner + after);
        law_trimmed(shorter, inner, after);
    } else if after.len() > 0 {
        assert(s[0] == inner[0]);
        assert(s[s.len() - 1] == after[after.len() - 1]);
        let shorter = after.subrange(0, after.len() - 1);
        assert(s.subrange(0, s.len() - 1) =~= before + inner + shorter);
        law_trimmed(before, inner, shorter);
    } else {
        assert(s =~= inner);
        if inner.len() > 0 {
            assert(s[0] == inner[0]);
        }
    }
}

/// What trimming leaves has no white space at its ends, and is empty only where
/// the text is white space throughout.
pub proof fn law_trimmed_bare(s: Seq<char>)
    ensures
        bare(text::trimmed(s)),
        text::trimmed(s).len() == 0 <==> blank(s),
    decreases s.len(),
{
    if s.len() > 0 && text::is_space(s[0]) {
        let rest = s.subrange(1, s.len() as int);
        law_trimmed_bare(rest);
        if blank(rest) {
            assert forall|i: int| 0 <= i < s.len() implies text::is_space(#[trigger] s[i]) by {
                if i > 0 {
                    assert(rest[i - 1] == s[i]);
                }
            }
        }
        if blank(s) {
            assert forall|i: int| 0 <= i < rest.len() implies text::is_space(
                #[trigger] rest[i],
            ) by {
                assert(s[i + 1] == rest[i]);
            }
        }
    } else if s.len() > 0 && text::is_space(s[s.len() - 1]) {
        law_trimmed_bare(s.subrange(0, s.len() - 1));
        assert(s.subrange(0, s.len() - 1).len() > 0);
        assert(s.subrange(0, s.len() - 1)[0] == s[0]);
    }
}

/// The digits of a number stand for it, with or without white space around
/// them, as far as numbers go.
pub proof fn law_number_read(n: nat, max: nat, before: Seq<char>, after: Seq<char>)
    requires
        blank(before),
        blank(after),
    ensures
        text::trimmed(before + text::decimal(n) + after) == text::decimal(n),
        text::parsed(text::decimal(n), max) == if n <= max {
            Some(n)
        } else {
            None
        },
{
    lemma_decimal_bare(n);
    law_trimmed(before, text::decimal(n), after);
    text::lemma_decimal_parsed(n, n);
}

pub proof fn lemma_decimal_bare(n: nat)
    ensures
        text::decimal(n).len() > 0,
        forall|i: int|
            0 <= i < text::decimal(n).len() ==> '0' <= #[trigger] text::decimal(n)[i] <= '9',
    decreases n,
{
    if n >= 10 {
        lemma_decimal_bare(n / 10);
    }
}

/// A plus sign before the digits of a number changes nothing, nor does a zero.
pub proof fn law_number_signed(n: nat, max: nat)
    ensures
        text::parsed(seq!['+'] + text::decimal(n), max) == text::parsed(text::decimal(n), max),
        text::parsed(seq!['0'] + text::decimal(n), max) == text::parsed(text::decimal(n), max),
{
    let digits = text::decimal(n);
    let signed = seq!['+'] + digits;
    let padded = seq!['0'] + digits;
    lemma_decimal_bare(n);
    assert(digits[0] != '+');
    assert(signed.subrange(1, signed.len() as int) =~= digits);
    assert(padded[0] == '0');
    assert forall|i: int| 0 <= i < padded.len() implies text::is_digit(#[trigger] padded[i]) by {
        if i > 0 {
            assert(padded[i] == digits[i - 1]);
        }
    }
    assert forall|i: int| 0 <= i < digits.len() implies text::is_digit(#[trigger] digits[i]) by {}
    lemma_leading_zero(digits);
}

proof fn lemma_leading_zero(s: Seq<char>)
    ensures
        text::digits_value(seq!['0'] + s) == text::digits_value(s),
    decreases s.len(),
{
    let padded = seq!['0'] + s;
    if s.len() == 0 {
        assert(padded.drop_last() =~= s);
    } else {
        assert(padded.drop_last() =~= seq!['0'] + s.drop_last());
        lemma_leading_zero(s.drop_last());
    }
}

/// A text with anything but digits, one plus sign before them aside, is no
/// number.
pub proof fn law_no_number(s: Seq<char>, max: nat, i: int)
    requires
        s.len() == 0 || 0 <= i < s.len() && !('0' <= s[i] <= '9') && (i > 0 || s[0] != '+'),
    ensures
        text::parsed(s, max) is None,
{
    let digits = text::unsigned_digits(s);
    if s.len() > 0 && text::all_digits(digits) {
        let at = if s[0] == '+' {
            i - 1
        } else {
            i
        };
        assert(digits[at] == s[i]);
    }
}

/// Every copy of a prefix is taken away, and no more.
pub proof fn law_without_prefixes(prefix: Seq<char>, rest: Seq<char>)
    requires
        prefix.len() > 0,
    ensures
        text::without_prefixes(prefix + rest, prefix) == text::without_prefixes(rest, prefix),
        (forall|end: Seq<char>| rest != #[trigger] (prefix + end)) ==> text::without_prefixes(
            rest,
            prefix,
        ) == rest,
{
    let s = prefix + rest;
    assert(s.subrange(0, prefix.len() as int) =~= prefix);
    assert(text::stands_at(s, prefix, 0));
    assert(s.subrange(prefix.len() as int, s.len() as int) =~= rest);
    if text::stands_at(rest, prefix, 0) {
        let end = rest.subrange(prefix.len() as int, rest.len() as int);
        assert(rest =~= prefix + end);
    }
}

/// Code units that are no surrogates stand for the characters with their codes.
pub proof fn law_utf16_plain(units: Seq<u16>)
    requires
        forall|i: int| 0 <= i < units.len() ==> !(0xD800 <= #[trigger] units[i] <= 0xDFFF),
    ensures
        text::utf16_text(units).len() == units.len(),
        forall|i: int|
            0 <= i < units.len() ==> #[trigger] text::utf16_text(units)[i] as u32 == units[i],
    decreases units.len(),
{
    if units.len() > 0 {
        let rest = units.subrange(1, units.len() as int);
        assert forall|i: int| 0 <= i < rest.len() implies !(0xD800 <= #[trigger] rest[i]
            <= 0xDFFF) by {
            assert(units[i + 1] == rest[i]);
        }
        law_utf16_plain(rest);
        assert(!(0xD800 <= units[0] <= 0xDFFF));
        assert forall|i: int| 0 <= i < units.len() implies #[trigger] text::utf16_text(
            units,
        )[i] as u32 == units[i] by {
            if i > 0 {
                assert(text::utf16_text(units)[i] == text::utf16_text(rest)[i - 1]);
                assert(rest[i - 1] == units[i]);
            }
        }
    }
}

/// A pair of surrogates stands for one character, and what follows it for what
/// it stands for by itself.
pub proof fn law_utf16_pair(high: u16, low: u16, rest: Seq<u16>)
    requires
        0xD800 <= high <= 0xDBFF,
        0xDC00 <= low <= 0xDFFF,
    ensures
        ({
            let decoded = text::utf16_text(seq![high, low] + rest);
            &&& decoded.len() == 1 + text::utf16_text(rest).len()
            &&& decoded[0] as u32 == 0x10000 + (high - 0xD800) * 0x400 + (low - 0xDC00)
            &&& decoded.subrange(1, decoded.len() as int) == text::utf16_text(rest)
        }),
{
    let units = seq![high, low] + rest;
    assert(units.subrange(2, units.len() as int) =~= rest);
    let decoded = text::utf16_text(units);
    assert(decoded.subrange(1, decoded.len() as int) =~= text::utf16_text(rest));
}

} // verus!
