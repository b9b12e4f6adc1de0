//! What holds of every text, stated of the text itself.

use crate::text;
use vstd::prelude::*;

verus! {

// ---------------------------------------------------------------------------
// Splitting
// ---------------------------------------------------------------------------

/// A text without whitespace is one word, unless it is empty; whitespace alone
/// is no word.
pub proof fn law_words_of_one_kind(s: Seq<char>)
    ensures
        s.len() > 0 && (forall|i: int| 0 <= i < s.len() ==> !text::whitespace(#[trigger] s[i]))
            ==> text::words(s) == seq![s],
        (forall|i: int| 0 <= i < s.len() ==> text::whitespace(#[trigger] s[i])) ==> text::words(s)
            == Seq::<Seq<char>>::empty(),
    decreases s.len(),
{
    if s.len() > 0 {
        let front = s.drop_last();
        law_words_of_one_kind(front);
        assert(forall|i: int| 0 <= i < front.len() ==> front[i] == s[i]);
        assert(s.last() == s[s.len() - 1]);
        if forall|i: int| 0 <= i < s.len() ==> !text::whitespace(#[trigger] s[i]) {
            if front.len() > 0 {
                assert(!text::whitespace(s[s.len() - 2]));
                assert(text::words(front) == seq![front]);
                assert(front.push(s.last()) =~= s);
                assert(text::words(s) =~= seq![s]);
            } else {
                assert(text::words(front) =~= Seq::<Seq<char>>::empty());
                assert(seq![s.last()] =~= s);
                assert(text::words(s) =~= seq![s]);
            }
        }
    }
}

proof fn lemma_some_word(s: Seq<char>)
    requires
        s.len() > 0,
        !text::whitespace(s.last()),
    ensures
        text::words(s).len() > 0,
{
}

/// The words on the two sides of a whitespace character are the words of the
/// whole.
pub proof fn law_words_part_at_whitespace(a: Seq<char>, c: char, b: Seq<char>)
    requires
        text::whitespace(c),
    ensures
        text::words(a.push(c) + b) == text::words(a) + text::words(b),
    decreases b.len(),
{
    let s = a.push(c) + b;
    if b.len() == 0 {
        assert(s =~= a.push(c));
        assert(s.drop_last() =~= a);
        assert(text::words(a) + text::words(b) =~= text::words(a));
    } else {
        let front = b.drop_last();
        law_words_part_at_whitespace(a, c, front);
        assert(s.drop_last() =~= a.push(c) + front);
        assert(s.last() == b.last());
        if b.len() > 1 {
            assert(s[s.len() - 2] == b[b.len() - 2]);
            if !text::whitespace(b[b.len() - 2]) {
                assert(front.last() == b[b.len() - 2]);
                lemma_some_word(front);
                assert((text::words(a) + text::words(front)).drop_last() =~= text::words(a)
                    + text::words(front).drop_last());
            }
        } else {
            assert(s[s.len() - 2] == c);
        }
        assert(text::words(s) =~= text::words(a) + text::words(b));
    }
}

/// A text without the separator is one piece.
pub proof fn law_one_field<T>(s: Seq<T>, sep: T)
    requires
        !s.contains(sep),
    ensures
        text::fields(s, sep) == seq![s],
{
    let parts = seq![s];
    text::law_split_undoes_join(parts, sep);
    law_join_of_few(s, s, sep);
}

/// Joining one part gives that part, joining two gives them with the separator
/// between them, joining none gives nothing.
pub proof fn law_join_of_few<T>(a: Seq<T>, b: Seq<T>, sep: T)
    ensures
        text::join(Seq::<Seq<T>>::empty(), sep) == Seq::<T>::empty(),
        text::join(seq![a], sep) == a,
        text::join(seq![a, b], sep) == a.push(sep) + b,
{
    reveal_with_fuel(text::join, 3);
    assert(seq![a, b].drop_last() =~= seq![a]);
}

/// The pieces on the two sides of a separator are the pieces of the whole.
pub proof fn law_fields_part_at_separator<T>(a: Seq<T>, b: Seq<T>, sep: T)
    ensures
        text::fields(a.push(sep) + b, sep) == text::fields(a, sep) + text::fields(b, sep),
    decreases b.len(),
{
    let s = a.push(sep) + b;
    if b.len() == 0 {
        assert(s =~= a.push(sep));
        assert(s.drop_last() =~= a);
        assert(text::fields(s, sep) =~= text::fields(a, sep) + text::fields(b, sep));
    } else {
        let front = b.drop_last();
        law_fields_part_at_separator(a, front, sep);
        assert(s.drop_last() =~= a.push(sep) + front);
        assert(s.last() == b.last());
        lemma_some_field(front, sep);
        let fa = text::fields(a, sep);
        let fb = text::fields(front, sep);
        assert((fa + fb).drop_last() =~= fa + fb.drop_last());
        assert((fa + fb).last() == fb.last());
        assert(text::fields(s, sep) =~= fa + text::fields(b, sep));
    }
}

proof fn lemma_some_field<T>(s: Seq<T>, sep: T)
    ensures
        text::fields(s, sep).len() > 0,
    decreases s.len(),
{
    if s.len() > 0 {
        lemma_some_field(s.drop_last(), sep);
    }
}

/// A text begins with a prefix exactly if it is the prefix and something after
/// it.
pub proof fn law_prefix_is_what_comes_first(s: Seq<char>, prefix: Seq<char>, rest: Seq<char>)
    ensures
        s == prefix + rest ==> text::starts_with(s, prefix) && s.skip(prefix.len() as int) == rest,
        text::starts_with(s, prefix) ==> s == prefix + s.skip(prefix.len() as int),
{
    if s == prefix + rest {
        assert(s.take(prefix.len() as int) =~= prefix);
        assert(s.skip(prefix.len() as int) =~= rest);
    }
    if text::starts_with(s, prefix) {
        assert(s =~= s.take(prefix.len() as int) + s.skip(prefix.len() as int));
    }
}

/// The first index of a character is where it stands for the first time.
pub proof fn law_first_index_is_the_first(s: Seq<char>, c: char, i: int)
    requires
        0 <= i < s.len(),
        s[i] == c,
        forall|j: int| 0 <= j < i ==> s[j] != c,
    ensures
        text::first_index(s, c) == i,
    decreases s.len(),
{
    if i > 0 {
        let rest = s.drop_first();
        assert(rest[i - 1] == c);
        assert forall|j: int| 0 <= j < i - 1 implies rest[j] != c by {
            assert(rest[j] == s[j + 1]);
        }
        law_first_index_is_the_first(rest, c, i - 1);
    }
}

// ---------------------------------------------------------------------------
// Trimming
// ---------------------------------------------------------------------------

/// Whitespace around a text that neither starts nor ends with any is what
/// trimming takes off, all of it and nothing else.
pub proof fn law_trimming_takes_off_the_margins(
    left: Seq<char>,
    body: Seq<char>,
    right: Seq<char>,
)
    requires
        forall|i: int| 0 <= i < left.len() ==> text::whitespace(#[trigger] left[i]),
        forall|i: int| 0 <= i < right.len() ==> text::whitespace(#[trigger] right[i]),
        body.len() > 0 ==> !text::whitespace(body[0]) && !text::whitespace(body[body.len() - 1]),
    ensures
        text::trimmed(left + body + right) == body,
    decreases left.len() + right.len(),
{
    let s = left + body + right;
    if left.len() > 0 {
        let rest = left.drop_first();
        assert forall|i: int| 0 <= i < rest.len() implies text::whitespace(#[trigger] rest[i]) by {
            assert(rest[i] == left[i + 1]);
        }
        assert(text::whitespace(left[0]));
        assert(s[0] == left[0]);
        assert(s.drop_first() =~= rest + body + right);
        law_trimming_takes_off_the_margins(rest, body, right);
    } else if body.len() == 0 {
        assert(s =~= right);
        lemma_blank_start(right);
    } else {
        assert(s[0] == body[0]);
        assert(text::trim_start(s) == s);
        assert(s =~= body + right);
        lemma_margin_end(body, right);
    }
}

proof fn lemma_blank_start(s: Seq<char>)
    requires
        forall|i: int| 0 <= i < s.len() ==> text::whitespace(#[trigger] s[i]),
    ensures
        text::trim_start(s) == Seq::<char>::empty(),
        text::trim_end(Seq::<char>::empty()) == Seq::<char>::empty(),
    decreases s.len(),
{
    if s.len() > 0 {
        let rest = s.drop_first();
        assert forall|i: int| 0 <= i < rest.len() implies text::whitespace(#[trigger] rest[i]) by {
            assert(rest[i] == s[i + 1]);
        }
        assert(text::whitespace(s[0]));
        lemma_blank_start(rest);
    } else {
        assert(s =~= Seq::<char>::empty());
    }
}

proof fn lemma_margin_end(body: Seq<char>, right: Seq<char>)
    requires
        forall|i: int| 0 <= i < right.len() ==> text::whitespace(#[trigger] right[i]),
        body.len() > 0,
        !text::whitespace(body[body.len() - 1]),
    ensures
        text::trim_end(body + right) == body,
    decreases right.len(),
{
    let s = body + right;
    if right.len() == 0 {
        assert(s =~= body);
    } else {
        let front = right.drop_last();
        assert forall|i: int| 0 <= i < front.len() implies text::whitespace(
            #[trigger] front[i],
        ) by {
            assert(front[i] == right[i]);
        }
        assert(text::whitespace(right[right.len() - 1]));
        assert(s.drop_last() =~= body + front);
        lemma_margin_end(body, front);
    }
}

/// Which ASCII characters are whitespace, and what their lower case is.
pub proof fn law_ascii_characters(c: char)
    requires
        c as u32 <= 0x7f,
    ensures
        text::whitespace(c) <==> c == ' ' || c == '\t' || c == '\n' || c == '\r' || c as u32 == 0x0b
            || c as u32 == 0x0c,
        'A' <= c <= 'Z' ==> text::ascii_lowercase(c) as u32 == c as u32 + 32,
        !('A' <= c <= 'Z') ==> text::ascii_lowercase(c) == c,
{
}

// ---------------------------------------------------------------------------
// Numbers
// ---------------------------------------------------------------------------

/// Ten to the power `n`.
pub open spec fn power_of_ten(n: nat) -> nat
    decreases n,
{
    if n == 0 {
        1
    } else {
        10 * power_of_ten((n - 1) as nat)
    }
}

/// Digits denote numbers in the decimal system: a digit its distance from `0`,
/// and each place ten times the one to its right.
pub proof fn law_digits_are_decimal(a: Seq<char>, b: Seq<char>, c: char)
    ensures
        text::value(seq![c]) == c as int - 48,
        text::value(Seq::<char>::empty()) == 0,
        text::value(a + b) == text::value(a) * power_of_ten(b.len()) + text::value(b),
    decreases b.len(),
{
    reveal_with_fuel(text::value, 2);
    assert(seq![c].drop_last() =~= Seq::<char>::empty());
    let va = text::value(a);
    if b.len() == 0 {
        assert(a + b =~= a);
        assert(power_of_ten(b.len()) == 1);
        assert(va * 1 == va);
    } else {
        law_digits_are_decimal(a, b.drop_last(), c);
        assert((a + b).drop_last() =~= a + b.drop_last());
        let p = power_of_ten(b.drop_last().len()) as int;
        assert(power_of_ten(b.len()) == 10 * p);
        assert(va * (10 * p) == (va * p) * 10) by (nonlinear_arith);
        assert(va * power_of_ten(b.len()) == (va * p) * 10);
        assert((a + b).last() == b.last());
    }
}

/// Whether `s` is one or more of the characters `0` to `9`.
pub open spec fn are_digits(s: Seq<char>) -> bool {
    s.len() > 0 && forall|i: int| 0 <= i < s.len() ==> '0' <= #[trigger] s[i] <= '9'
}

/// Digits parse to their value, with or without a sign in front, as long as the
/// number fits.
pub proof fn law_numbers_parse(digits: Seq<char>)
    requires
        are_digits(digits),
    ensures
        text::as_i32(digits) == text::as_i32(seq!['+'] + digits),
        text::as_i32(digits) == (if text::value(digits) <= 0x7fff_ffff {
            Some(text::value(digits) as i32)
        } else {
            None
        }),
        text::as_i32(seq!['-'] + digits) == (if text::value(digits) <= 0x8000_0000 {
            Some((-text::value(digits)) as i32)
        } else {
            None
        }),
        text::as_u32(digits) == text::as_u32(seq!['+'] + digits),
        text::as_u32(digits) == (if text::value(digits) <= 0xffff_ffff {
            Some(text::value(digits) as u32)
        } else {
            None
        }),
        text::value(digits) >= 0,
{
    assert(text::all_digits(digits)) by {
        assert forall|i: int| 0 <= i < digits.len() implies text::is_digit(
            #[trigger] digits[i],
        ) by {}
    }
    assert((seq!['+'] + digits).drop_first() =~= digits);
    assert((seq!['-'] + digits).drop_first() =~= digits);
    assert('0' <= digits[0]);
    lemma_value_not_negative(digits);
}

proof fn lemma_value_not_negative(s: Seq<char>)
    requires
        forall|i: int| 0 <= i < s.len() ==> '0' <= #[trigger] s[i] <= '9',
    ensures
        text::value(s) >= 0,
    decreases s.len(),
{
    if s.len() > 0 {
        let front = s.drop_last();
        assert forall|i: int| 0 <= i < front.len() implies '0' <= #[trigger] front[i] <= '9' by {
            assert(front[i] == s[i]);
        }
        lemma_value_not_negative(front);
        assert(s.last() == s[s.len() - 1]);
    }
}

/// Nothing else parses: what does is digits, with at most one sign in front.
pub proof fn law_only_numbers_parse(s: Seq<char>)
    ensures
        text::as_i32(s) is Some ==> are_digits(s) || s.len() > 0 && (s[0] == '+' || s[0] == '-')
            && are_digits(s.skip(1)),
        text::as_u32(s) is Some ==> are_digits(s) || s.len() > 0 && s[0] == '+' && are_digits(
            s.skip(1),
        ),
{
    assert(s.len() > 0 ==> s.skip(1) =~= s.drop_first());
    assert(text::all_digits(s) ==> are_digits(s)) by {
        if text::all_digits(s) {
            assert forall|i: int| 0 <= i < s.len() implies '0' <= #[trigger] s[i] <= '9' by {
                assert(text::is_digit(s[i]));
            }
        }
    }
    let rest = s.drop_first();
    assert(s.len() > 0 && text::all_digits(rest) ==> are_digits(rest)) by {
        if s.len() > 0 && text::all_digits(rest) {
            assert forall|i: int| 0 <= i < rest.len() implies '0' <= #[trigger] rest[i] <= '9' by {
                assert(text::is_digit(rest[i]));
            }
        }
    }
}

/// A number is printed in digits without a needless zero in front, and those
/// digits denote it; a negative one with a `-` in front of them.
pub proof fn law_printed_numbers_are_plain(n: nat)
    ensures
        are_digits(text::decimal(n)),
        text::value(text::decimal(n)) == n,
        text::decimal(n)[0] == '0' ==> n == 0 && text::decimal(n).len() == 1,
        n > 0 ==> text::signed_decimal(-n) == seq!['-'] + text::decimal(n),
        text::signed_decimal(n as int) == text::decimal(n),
    decreases n,
{
    text::law_decimal_round_trip(n);
    let d = text::decimal(n);
    assert forall|i: int| 0 <= i < d.len() implies '0' <= #[trigger] d[i] <= '9' by {
        assert(text::is_digit(d[i]));
    }
    if n >= 10 {
        law_printed_numbers_are_plain(n / 10);
        assert(d[0] == text::decimal(n / 10)[0]);
    }
}

/// Different numbers are printed differently.
pub proof fn law_printed_numbers_differ(a: nat, b: nat)
    requires
        text::decimal(a) == text::decimal(b),
    ensures
        a == b,
{
    law_printed_numbers_are_plain(a);
    law_printed_numbers_are_plain(b);
}

/// The views of a list of vectors are the views of its elements.
pub proof fn law_views_are_elementwise<T>(v: Seq<Vec<T>>)
    ensures
        text::views(v).len() == v.len(),
        forall|i: int| 0 <= i < v.len() ==> #[trigger] text::views(v)[i] == v[i]@,
{
}

} // verus!
