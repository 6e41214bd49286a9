//! What holds of every text: what trimming takes off, what case and numbers keep.

use vstd::prelude::*;

use crate::text::{
    decimal, digits_value, is_bracket, is_digit, is_white_space, last_index, lemma_decimal,
    lemma_last_index, lemma_last_index_is, lemma_trim_both, lower, lower_char, parse_number,
    rsplit_once, signed_decimal, trim, trim_brackets, trim_end_of, trim_start_of,
    unsigned_digits,
};

verus! {

/// Whether a text holds white space only.
pub open spec fn is_blank(s: Seq<char>) -> bool {
    forall|i: int| 0 <= i < s.len() ==> is_white_space(#[trigger] s[i])
}

/// Whether a text holds square brackets only.
pub open spec fn is_all_brackets(s: Seq<char>) -> bool {
    forall|i: int| 0 <= i < s.len() ==> is_bracket(#[trigger] s[i])
}

/// Trimming takes off the white space around a text and nothing of the text, which may hold white
/// space inside.
pub proof fn law_trim_takes_off_what_surrounds(a: Seq<char>, m: Seq<char>, b: Seq<char>)
    requires
        is_blank(a),
        is_blank(b),
        m.len() > 0 ==> !is_white_space(m[0]) && !is_white_space(m.last()),
    ensures
        trim(a + m + b) == m,
{
    lemma_surrounded(a, m, b, |c: char| is_white_space(c));
}

/// Trimming brackets takes off the brackets around a text and nothing of the text.
pub proof fn law_brackets_are_taken_off(a: Seq<char>, m: Seq<char>, b: Seq<char>)
    requires
        is_all_brackets(a),
        is_all_brackets(b),
        m.len() > 0 ==> !is_bracket(m[0]) && !is_bracket(m.last()),
    ensures
        trim_brackets(a + m + b) == m,
{
    lemma_surrounded(a, m, b, |c: char| is_bracket(c));
}

/// What is trimmed of a surrounded text.
proof fn lemma_surrounded(a: Seq<char>, m: Seq<char>, b: Seq<char>, p: spec_fn(char) -> bool)
    requires
        forall|i: int| 0 <= i < a.len() ==> p(#[trigger] a[i]),
        forall|i: int| 0 <= i < b.len() ==> p(#[trigger] b[i]),
        m.len() > 0 ==> !p(m[0]) && !p(m.last()),
    ensures
        trim_end_of(trim_start_of(a + m + b, p), p) == m,
{
    let s = a + m + b;
    if m.len() == 0 {
        assert forall|k: int| 0 <= k < s.len() implies p(#[trigger] s[k]) by {
            if k < a.len() {
                assert(s[k] == a[k]);
            } else {
                assert(s[k] == b[k - a.len()]);
            }
        }
        lemma_trim_both(s, p, s.len() as int, s.len() as int);
        assert(s.subrange(s.len() as int, s.len() as int) =~= m);
    } else {
        let i = a.len() as int;
        let j = (a.len() + m.len()) as int;
        assert forall|k: int| 0 <= k < i implies p(#[trigger] s[k]) by {
            assert(s[k] == a[k]);
        }
        assert forall|k: int| j <= k < s.len() implies p(#[trigger] s[k]) by {
            assert(s[k] == b[k - j]);
        }
        assert(s[i] == m[0]);
        assert(s[j - 1] == m.last());
        lemma_trim_both(s, p, i, j);
        assert(s.subrange(i, j) =~= m);
    }
}

/// Lower case keeps the length and every character but the letters from `A` to `Z`, which become
/// those from `a` to `z`; it is made of the lower case of the parts, and lowering twice is lowering
/// once.
pub proof fn law_lower(s: Seq<char>, t: Seq<char>)
    ensures
        lower(s).len() == s.len(),
        forall|i: int|
            0 <= i < s.len() ==> {
                let c = s[i] as u32;
                #[trigger] lower(s)[i] as u32 == if 65 <= c <= 90 {
                    c + 32
                } else {
                    c as int
                }
            },
        lower(s + t) == lower(s) + lower(t),
        lower(lower(s)) == lower(s),
{
    assert forall|i: int| 0 <= i < s.len() implies {
        let c = s[i] as u32;
        #[trigger] lower(s)[i] as u32 == if 65 <= c <= 90 {
            c + 32
        } else {
            c as int
        }
    } by {
        assert(lower(s)[i] == lower_char(s[i]));
    }
    assert(lower(s + t) =~= lower(s) + lower(t));
    assert(lower(lower(s)) =~= lower(s));
}

/// A number in decimal holds digits only, begins with a zero only if it is zero, and its digits add
/// up to the number; so no two numbers are written alike.
pub proof fn law_decimal(n: nat, m: nat)
    ensures
        decimal(n).len() > 0,
        forall|i: int| 0 <= i < decimal(n).len() ==> is_digit(#[trigger] decimal(n)[i]),
        digits_value(decimal(n)) == n,
        n > 0 ==> decimal(n)[0] != '0',
        n == 0 ==> decimal(n) == seq!['0'],
        decimal(n) == decimal(m) ==> n == m,
    decreases n,
{
    lemma_decimal(n);
    lemma_decimal(m);
    if n >= 10 {
        law_decimal(n / 10, m);
        assert(decimal(n)[0] == decimal(n / 10)[0]);
    }
}

/// A signed number begins with a minus sign exactly if it is negative, behind which its absolute
/// value stands.
pub proof fn law_signed_decimal(n: int, m: int)
    ensures
        signed_decimal(n)[0] == '-' <==> n < 0,
        n >= 0 ==> digits_value(signed_decimal(n)) == n,
        n < 0 ==> digits_value(signed_decimal(n).skip(1)) == -n,
        signed_decimal(n) == signed_decimal(m) ==> n == m,
{
    lemma_signed(n);
    lemma_signed(m);
}

proof fn lemma_signed(n: int)
    ensures
        signed_decimal(n)[0] == '-' <==> n < 0,
        n >= 0 ==> digits_value(signed_decimal(n)) == n,
        n < 0 ==> digits_value(signed_decimal(n).skip(1)) == -n,
{
    if n < 0 {
        lemma_decimal((-n) as nat);
        assert(signed_decimal(n).skip(1) =~= decimal((-n) as nat));
    } else {
        lemma_decimal(n as nat);
        assert(is_digit(decimal(n as nat)[0]));
    }
}

/// The digit that a character stands for.
pub open spec fn digit_of(c: char) -> int {
    c as int - '0' as int
}

/// How numbers are read, digit by digit: one digit is its value, a digit behind a number makes it
/// ten times as large and adds its own, up to what 16 bits hold; anything else than a digit behind
/// a text spoils it, and what is spoiled stays so. A sign alone, two signs, and nothing at all are
/// no numbers, and a plus sign in front changes nothing.
pub proof fn law_reading_numbers(s: Seq<char>, c: char)
    ensures
        parse_number(Seq::empty()) is None,
        parse_number(seq!['+']) is None,
        is_digit(c) ==> parse_number(seq![c]) == Some(digit_of(c) as u16),
        s.len() > 0 && !is_digit(c) ==> parse_number(s.push(c)) is None,
        parse_number(s) matches Some(n) ==> (is_digit(c) ==> parse_number(s.push(c)) == (if 10 * n
            + digit_of(c) <= 65535 {
            Some((10 * n + digit_of(c)) as u16)
        } else {
            None
        })),
        parse_number(s) is None && s.len() > 0 && s != seq!['+'] ==> parse_number(s.push(c)) is None,
        s.len() > 0 && s[0] != '+' ==> parse_number(seq!['+'] + s) == parse_number(s),
        s.len() > 0 && s[0] == '+' ==> parse_number(seq!['+'] + s) is None,
{
    assert(unsigned_digits(Seq::<char>::empty()).len() == 0);
    assert(unsigned_digits(seq!['+']).len() == 0);
    let one = seq![c];
    assert(one.drop_last() =~= Seq::<char>::empty());
    assert(digits_value(Seq::<char>::empty()) == 0);
    if is_digit(c) {
        assert(unsigned_digits(one) == one);
        assert(digits_value(one) == digit_of(c));
    }
    let longer = s.push(c);
    if s.len() > 0 {
        let digits = unsigned_digits(s);
        let more = unsigned_digits(longer);
        assert(longer[0] == s[0]);
        assert(more =~= digits.push(c));
        assert(more.drop_last() =~= digits);
        assert(more.last() == c);
        assert(digits_value(more) == digits_value(digits) * 10 + (c as nat - 0x30) as nat);
        if !is_digit(c) {
            assert(!is_digit(more[more.len() - 1]));
        }
        if parse_number(s) is Some && is_digit(c) {
            assert forall|i: int| 0 <= i < more.len() implies is_digit(#[trigger] more[i]) by {
                if i < digits.len() {
                    assert(more[i] == digits[i]);
                }
            }
        }
        if parse_number(s) is None && s != seq!['+'] && is_digit(c) {
            if digits.len() == 0 {
                assert(s =~= seq!['+']);
            }
            if exists|i: int| 0 <= i < digits.len() && !is_digit(#[trigger] digits[i]) {
                let i = choose|i: int| 0 <= i < digits.len() && !is_digit(#[trigger] digits[i]);
                assert(more[i] == digits[i]);
            }
        }
        let signed = seq!['+'] + s;
        assert(signed.skip(1) =~= s);
        assert(unsigned_digits(signed) == s);
        if s[0] == '+' {
            assert(!is_digit(unsigned_digits(signed)[0]));
        }
    }
}

/// A text is split at its last `c`: behind it stands what holds no other.
pub proof fn law_split_at_the_last(front: Seq<char>, c: char, back: Seq<char>)
    requires
        !back.contains(c),
    ensures
        rsplit_once(front + seq![c] + back, c) == Some((front, back)),
        rsplit_once(back, c) is None,
{
    let s = front + seq![c] + back;
    assert forall|j: int| front.len() < j < s.len() implies #[trigger] s[j] != c by {
        assert(s[j] == back[j - front.len() - 1]);
        assert(back.contains(s[j]));
    }
    lemma_last_index_is(s, c, front.len() as int);
    assert(s.take(front.len() as int) =~= front);
    assert(s.skip(front.len() as int + 1) =~= back);
    lemma_last_index(back, c);
    if let Some(k) = last_index(back, c) {
        assert(back.contains(back[k]));
    }
}

} // verus!
