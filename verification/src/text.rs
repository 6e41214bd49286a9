//! Operations on text, stated over the sequence of characters that a string holds.

use vstd::prelude::*;
use vstd::string::*;

verus! {

/// The characters of Unicode's `White_Space` property.
pub open spec fn is_white_space(c: char) -> bool {
    let u = c as u32;
    ||| 0x9 <= u <= 0xd
    ||| u == 0x20
    ||| u == 0x85
    ||| u == 0xa0
    ||| u == 0x1680
    ||| 0x2000 <= u <= 0x200a
    ||| u == 0x2028
    ||| u == 0x2029
    ||| u == 0x202f
    ||| u == 0x205f
    ||| u == 0x3000
}

/// The characters of Unicode's general category `Cc`: the C0 and C1 controls and DEL.
pub open spec fn is_control_code(c: char) -> bool {
    let u = c as u32;
    u <= 0x1f || 0x7f <= u <= 0x9f
}

/// `char::is_whitespace` tells the characters with Unicode's `White_Space` property from the others.
pub assume_specification[ char::is_whitespace ](c: char) -> (white: bool)
    ensures
        white == is_white_space(c),
;

/// `char::is_control` tells the characters of Unicode's general category `Cc` from the others.
pub assume_specification[ char::is_control ](c: char) -> (control: bool)
    ensures
        control == is_control_code(c),
;

/// `String::push` appends one character to the end of a string.
pub assume_specification[ String::push ](text: &mut String, c: char)
    ensures
        final(text)@ == old(text)@.push(c),
;

/// The characters of `s`, in order.
pub fn chars_of(s: &str) -> (chars: Vec<char>)
    ensures
        chars@ == s@,
{
    let mut chars: Vec<char> = Vec::new();
    for c in it: s.chars()
        invariant
            chars@ == it.seq().take(it.index() as int),
            it.seq() == s@,
    {
        chars.push(c);
    }
    chars
}

/// The characters of `chars` from `from` up to `to`, as a string.
pub fn text_between(chars: &Vec<char>, from: usize, to: usize) -> (text: String)
    requires
        from <= to <= chars@.len(),
    ensures
        text@ == chars@.subrange(from as int, to as int),
{
    let mut text = String::new();
    let mut i: usize = from;
    while i < to
        invariant
            from <= i <= to <= chars@.len(),
            text@ == chars@.subrange(from as int, i as int),
        decreases to - i,
    {
        text.push(chars[i]);
        i += 1;
    }
    text
}

/// Whether two strings hold the same characters.
pub fn same_text(a: &str, b: &str) -> (same: bool)
    ensures
        same == (a@ == b@),
{
    let left = chars_of(a);
    let right = chars_of(b);
    if left.len() != right.len() {
        return false;
    }
    let mut i: usize = 0;
    while i < left.len()
        invariant
            left@ == a@,
            right@ == b@,
            i <= left@.len() == right@.len(),
            forall|j: int| 0 <= j < i ==> left@[j] == right@[j],
        decreases left@.len() - i,
    {
        if left[i] != right[i] {
            assert(a@[i as int] != b@[i as int]);
            return false;
        }
        i += 1;
    }
    assert(left@ =~= right@);
    true
}

/// A string without the leading characters for which `p` holds.
pub open spec fn trim_start_of(s: Seq<char>, p: spec_fn(char) -> bool) -> Seq<char>
    decreases s.len(),
{
    if s.len() > 0 && p(s[0]) {
        trim_start_of(s.drop_first(), p)
    } else {
        s
    }
}

/// A string without the trailing characters for which `p` holds.
pub open spec fn trim_end_of(s: Seq<char>, p: spec_fn(char) -> bool) -> Seq<char>
    decreases s.len(),
{
    if s.len() > 0 && p(s.last()) {
        trim_end_of(s.drop_last(), p)
    } else {
        s
    }
}

/// A string without leading and trailing white space.
pub open spec fn trim(s: Seq<char>) -> Seq<char> {
    trim_end_of(trim_start_of(s, |c: char| is_white_space(c)), |c: char| is_white_space(c))
}

pub open spec fn is_bracket(c: char) -> bool {
    c == '[' || c == ']'
}

/// A string without leading and trailing square brackets.
pub open spec fn trim_brackets(s: Seq<char>) -> Seq<char> {
    trim_end_of(trim_start_of(s, |c: char| is_bracket(c)), |c: char| is_bracket(c))
}

/// `trim_start_of` keeps a suffix that begins at the first character that stays.
pub proof fn lemma_trim_start_of(s: Seq<char>, p: spec_fn(char) -> bool, k: int)
    requires
        0 <= k <= s.len(),
        forall|j: int| 0 <= j < k ==> p(#[trigger] s[j]),
        k < s.len() ==> !p(s[k]),
    ensures
        trim_start_of(s, p) == s.skip(k),
    decreases k,
{
    if k == 0 {
        assert(s.skip(0) =~= s);
    } else {
        assert forall|j: int| 0 <= j < k - 1 implies p(#[trigger] s.drop_first()[j]) by {
            assert(s.drop_first()[j] == s[j + 1]);
        }
        lemma_trim_start_of(s.drop_first(), p, k - 1);
        assert(p(s[0]));
        assert(s.drop_first().skip(k - 1) =~= s.skip(k));
    }
}

/// `trim_end_of` keeps a prefix that ends at the last character that stays.
proof fn lemma_trim_end_of(s: Seq<char>, p: spec_fn(char) -> bool, k: int)
    requires
        0 <= k <= s.len(),
        forall|j: int| k <= j < s.len() ==> p(#[trigger] s[j]),
        k > 0 ==> !p(s[k - 1]),
    ensures
        trim_end_of(s, p) == s.take(k),
    decreases s.len(),
{
    if k == s.len() {
        assert(s.take(k) =~= s);
    } else {
        assert forall|j: int| k <= j < s.drop_last().len() implies p(
            #[trigger] s.drop_last()[j],
        ) by {
            assert(s.drop_last()[j] == s[j]);
        }
        lemma_trim_end_of(s.drop_last(), p, k);
        assert(p(s.last()));
        assert(s.drop_last().take(k) =~= s.take(k));
    }
}

/// The trimmed string when the characters before `i` and from `j` on go.
pub proof fn lemma_trim_both(s: Seq<char>, p: spec_fn(char) -> bool, i: int, j: int)
    requires
        0 <= i <= j <= s.len(),
        forall|k: int| 0 <= k < i ==> p(#[trigger] s[k]),
        i < s.len() ==> !p(s[i]),
        forall|k: int| j <= k < s.len() ==> p(#[trigger] s[k]),
        j > i ==> !p(s[j - 1]),
        i == s.len() ==> j == i,
    ensures
        trim_end_of(trim_start_of(s, p), p) == s.subrange(i, j),
{
    lemma_trim_start_of(s, p, i);
    let rest = s.skip(i);
    assert forall|k: int| j - i <= k < rest.len() implies p(#[trigger] rest[k]) by {
        assert(rest[k] == s[k + i]);
    }
    lemma_trim_end_of(rest, p, j - i);
    assert(rest.take(j - i) =~= s.subrange(i, j));
}

/// Trimming at the end keeps a front part, and trimming at the start leaves a first character that
/// stays.
proof fn lemma_trim_parts(s: Seq<char>, p: spec_fn(char) -> bool)
    ensures
        trim_end_of(s, p).len() <= s.len(),
        trim_end_of(s, p) == s.take(trim_end_of(s, p).len() as int),
        trim_end_of(s, p).len() > 0 ==> !p(trim_end_of(s, p).last()),
        trim_start_of(s, p).len() > 0 ==> !p(trim_start_of(s, p)[0]),
    decreases s.len(),
{
    if s.len() > 0 && p(s.last()) {
        lemma_trim_parts(s.drop_last(), p);
        assert(trim_end_of(s, p) =~= s.take(trim_end_of(s, p).len() as int));
    } else {
        assert(s.take(s.len() as int) =~= s);
    }
    if s.len() > 0 && p(s[0]) {
        lemma_trim_parts(s.drop_first(), p);
    }
}

/// Trimming a trimmed string changes nothing.
pub proof fn law_trim_is_idempotent(s: Seq<char>)
    ensures
        trim(trim(s)) == trim(s),
{
    let p = |c: char| is_white_space(c);
    lemma_trim_parts(s, p);
    lemma_trim_parts(trim_start_of(s, p), p);
    let t = trim(s);
    if t.len() > 0 {
        assert(t[0] == trim_start_of(s, p)[0]);
    }
}

/// A string that begins with something else than white space keeps its first character when it is
/// trimmed.
pub proof fn lemma_trim_keeps_first(s: Seq<char>)
    requires
        s.len() > 0,
        !is_white_space(s[0]),
    ensures
        trim(s).len() > 0,
        trim(s)[0] == s[0],
{
    let p = |c: char| is_white_space(c);
    lemma_trim_parts(s, p);
    assert(trim_start_of(s, p) == s);
    lemma_trim_end_keeps_first(s, p);
}

proof fn lemma_trim_end_keeps_first(s: Seq<char>, p: spec_fn(char) -> bool)
    requires
        s.len() > 0,
        !p(s[0]),
    ensures
        trim_end_of(s, p).len() > 0,
        trim_end_of(s, p)[0] == s[0],
    decreases s.len(),
{
    if p(s.last()) {
        lemma_trim_end_keeps_first(s.drop_last(), p);
    }
}

/// `s` without leading and trailing white space.
pub fn trimmed(s: &str) -> (text: String)
    ensures
        text@ == trim(s@),
{
    let chars = chars_of(s);
    let mut i: usize = 0;
    while i < chars.len() && chars[i].is_whitespace()
        invariant
            i <= chars@.len(),
            forall|k: int| 0 <= k < i ==> is_white_space(#[trigger] chars@[k]),
        decreases chars@.len() - i,
    {
        i += 1;
    }
    let mut j: usize = chars.len();
    while j > i && chars[j - 1].is_whitespace()
        invariant
            i <= j <= chars@.len(),
            forall|k: int| j <= k < chars@.len() ==> is_white_space(#[trigger] chars@[k]),
        decreases j,
    {
        j -= 1;
    }
    proof {
        lemma_trim_both(chars@, |c: char| is_white_space(c), i as int, j as int);
    }
    text_between(&chars, i, j)
}

/// `s` without leading and trailing square brackets.
pub fn without_brackets(s: &str) -> (text: String)
    ensures
        text@ == trim_brackets(s@),
{
    let chars = chars_of(s);
    let mut i: usize = 0;
    while i < chars.len() && (chars[i] == '[' || chars[i] == ']')
        invariant
            i <= chars@.len(),
            forall|k: int| 0 <= k < i ==> is_bracket(#[trigger] chars@[k]),
        decreases chars@.len() - i,
    {
        i += 1;
    }
    let mut j: usize = chars.len();
    while j > i && (chars[j - 1] == '[' || chars[j - 1] == ']')
        invariant
            i <= j <= chars@.len(),
            forall|k: int| j <= k < chars@.len() ==> is_bracket(#[trigger] chars@[k]),
        decreases j,
    {
        j -= 1;
    }
    proof {
        lemma_trim_both(chars@, |c: char| is_bracket(c), i as int, j as int);
    }
    text_between(&chars, i, j)
}

/// The ASCII lower case of a character; every other character stays.
pub open spec fn lower_char(c: char) -> char {
    if 'A' <= c && c <= 'Z' {
        ((c as u32) + 32) as char
    } else {
        c
    }
}

/// A string in ASCII lower case.
pub open spec fn lower(s: Seq<char>) -> Seq<char> {
    s.map_values(|c: char| lower_char(c))
}

fn lower_ascii_char(c: char) -> (l: char)
    ensures
        l == lower_char(c),
{
    if 'A' <= c && c <= 'Z' {
        ((c as u8) + 32) as char
    } else {
        c
    }
}

/// `s` in ASCII lower case.
pub fn lowered(s: &str) -> (text: String)
    ensures
        text@ == lower(s@),
{
    let mut text = String::new();
    for c in it: s.chars()
        invariant
            text@ == lower(it.seq().take(it.index() as int)),
            it.seq() == s@,
    {
        text.push(lower_ascii_char(c));
        assert(text@ =~= lower(it.seq().take(it.index() as int + 1)));
    }
    assert(s@.take(s@.len() as int) =~= s@);
    text
}

/// The characters of each string of a list.
pub open spec fn texts(list: Seq<String>) -> Seq<Seq<char>> {
    list.map_values(|t: String| t@)
}

/// The characters of each string slice of a list.
pub open spec fn str_texts(list: Seq<&str>) -> Seq<Seq<char>> {
    list.map_values(|t: &str| t@)
}

/// Whether `s` is one of `names`.
pub fn is_one_of(s: &str, names: &[&str]) -> (found: bool)
    ensures
        found == str_texts(names@).contains(s@),
{
    let mut i: usize = 0;
    while i < names.len()
        invariant
            i <= names@.len(),
            forall|j: int| 0 <= j < i ==> #[trigger] str_texts(names@)[j] != s@,
        decreases names@.len() - i,
    {
        if same_text(names[i], s) {
            assert(str_texts(names@)[i as int] == s@);
            return true;
        }
        i += 1;
    }
    false
}

/// A copy of a list of strings.
pub fn copied_texts(list: &[String]) -> (copy: Vec<String>)
    ensures
        texts(copy@) == texts(list@),
{
    let mut copy: Vec<String> = Vec::new();
    push_texts(&mut copy, list);
    assert(texts(copy@) =~= texts(list@));
    copy
}

/// Appends a copy of each string of `list`.
pub fn push_texts(target: &mut Vec<String>, list: &[String])
    ensures
        texts(final(target)@) == texts(old(target)@) + texts(list@),
{
    let mut i: usize = 0;
    while i < list.len()
        invariant
            i <= list@.len(),
            texts(target@) =~= texts(old(target)@) + texts(list@).take(i as int),
        decreases list@.len() - i,
    {
        let ghost before = target@;
        let copy = list[i].clone();
        target.push(copy);
        assert(texts(target@) =~= texts(before).push(copy@));
        assert(texts(list@).take(i + 1) =~= texts(list@).take(i as int).push(copy@));
        i += 1;
    }
}

/// The position of the last `c` in `s`, if there is one.
pub open spec fn last_index(s: Seq<char>, c: char) -> Option<int>
    decreases s.len(),
{
    if s.len() == 0 {
        None
    } else if s.last() == c {
        Some(s.len() - 1)
    } else {
        last_index(s.drop_last(), c)
    }
}

/// The parts of `s` before and behind its last `c`, if there is one.
pub open spec fn rsplit_once(s: Seq<char>, c: char) -> Option<(Seq<char>, Seq<char>)> {
    match last_index(s, c) {
        Some(i) => Some((s.take(i), s.skip(i + 1))),
        None => None,
    }
}

/// What `last_index` finds: the position `k` of a `c` with none behind it.
pub proof fn lemma_last_index(s: Seq<char>, c: char)
    ensures
        match last_index(s, c) {
            Some(k) => 0 <= k < s.len() && s[k] == c && forall|j: int|
                k < j < s.len() ==> #[trigger] s[j] != c,
            None => forall|j: int| 0 <= j < s.len() ==> #[trigger] s[j] != c,
        },
    decreases s.len(),
{
    if s.len() > 0 && s.last() != c {
        lemma_last_index(s.drop_last(), c);
        assert forall|j: int| 0 <= j < s.len() - 1 implies s.drop_last()[j] == #[trigger] s[j] by {}
    }
}

/// A `c` with none behind it is the one that `last_index` finds.
pub proof fn lemma_last_index_is(s: Seq<char>, c: char, k: int)
    requires
        0 <= k < s.len(),
        s[k] == c,
        forall|j: int| k < j < s.len() ==> #[trigger] s[j] != c,
    ensures
        last_index(s, c) == Some(k),
{
    lemma_last_index(s, c);
}

/// A string without `c` has no last `c`.
pub proof fn lemma_last_index_none(s: Seq<char>, c: char)
    requires
        forall|j: int| 0 <= j < s.len() ==> #[trigger] s[j] != c,
    ensures
        last_index(s, c) is None,
{
    lemma_last_index(s, c);
}

/// The position of the last `c` among the first `len` characters.
pub fn last_index_of(chars: &Vec<char>, len: usize, c: char) -> (found: Option<usize>)
    requires
        len <= chars@.len(),
    ensures
        match found {
            Some(k) => last_index(chars@.take(len as int), c) == Some(k as int) && k < len
                && chars@[k as int] == c,
            None => last_index(chars@.take(len as int), c) is None,
        },
{
    let ghost part = chars@.take(len as int);
    let mut k: usize = len;
    while k > 0
        invariant
            k <= len <= chars@.len(),
            part == chars@.take(len as int),
            forall|j: int| k <= j < len ==> #[trigger] part[j] != c,
        decreases k,
    {
        if chars[k - 1] == c {
            assert(part[k - 1] == c);
            proof {
                lemma_last_index_is(part, c, k - 1);
            }
            return Some(k - 1);
        }
        k -= 1;
    }
    proof {
        lemma_last_index_none(part, c);
    }
    None
}

/// Whether `c` occurs in `s`.
pub fn has_char(s: &str, c: char) -> (found: bool)
    ensures
        found == s@.contains(c),
{
    for d in it: s.chars()
        invariant
            it.seq() == s@,
            forall|j: int| 0 <= j < it.index() ==> s@[j] != c,
    {
        if d == c {
            assert(s@[it.index() as int] == c);
            return true;
        }
    }
    false
}

/// The digit that stands for `d`, which is below ten.
pub open spec fn digit_char(d: nat) -> char {
    (0x30 + d) as char
}

/// A natural number in decimal, without leading zeros.
pub open spec fn decimal(n: nat) -> Seq<char>
    decreases n,
{
    if n < 10 {
        seq![digit_char(n)]
    } else {
        decimal(n / 10).push(digit_char(n % 10))
    }
}

/// An integer in decimal, with a minus sign in front where it is negative.
pub open spec fn signed_decimal(n: int) -> Seq<char> {
    if n < 0 {
        seq!['-'] + decimal((-n) as nat)
    } else {
        decimal(n as nat)
    }
}

/// Appends `n` in decimal.
pub fn push_decimal(text: &mut String, n: u64)
    ensures
        final(text)@ == old(text)@ + decimal(n as nat),
    decreases n,
{
    if n >= 10 {
        push_decimal(text, n / 10);
    }
    let d: u8 = (n % 10) as u8;
    text.push((0x30 + d) as char);
}

/// `n` in decimal.
pub fn decimal_text(n: u64) -> (text: String)
    ensures
        text@ == decimal(n as nat),
{
    let mut text = String::new();
    push_decimal(&mut text, n);
    text
}

/// Appends `n` in decimal, with its sign where it is negative.
pub fn push_signed_decimal(text: &mut String, n: i32)
    ensures
        final(text)@ == old(text)@ + signed_decimal(n as int),
{
    if n < 0 {
        text.push('-');
        push_decimal(text, (-(n as i64)) as u64);
    } else {
        push_decimal(text, n as u64);
    }
}

pub open spec fn is_digit(c: char) -> bool {
    '0' <= c && c <= '9'
}

/// The number that a string of digits writes in decimal.
pub open spec fn digits_value(s: Seq<char>) -> nat
    decreases s.len(),
{
    if s.len() == 0 {
        0
    } else {
        digits_value(s.drop_last()) * 10 + (s.last() as nat - 0x30) as nat
    }
}

/// The digits of a number that may have a plus sign in front.
pub open spec fn unsigned_digits(s: Seq<char>) -> Seq<char> {
    if s.len() > 0 && s[0] == '+' {
        s.skip(1)
    } else {
        s
    }
}

/// The 16-bit number that `s` writes: digits only, at least one, with an optional plus sign in
/// front, for a value that 16 bits can hold.
pub open spec fn parse_number(s: Seq<char>) -> Option<u16> {
    let digits = unsigned_digits(s);
    if digits.len() > 0 && (forall|i: int| 0 <= i < digits.len() ==> is_digit(#[trigger] digits[i]))
        && digits_value(digits) <= 65535 {
        Some(digits_value(digits) as u16)
    } else {
        None
    }
}

/// The 16-bit number that `s` writes in decimal, if it writes one.
pub fn number_of(s: &str) -> (number: Option<u16>)
    ensures
        number == parse_number(s@),
{
    let chars = chars_of(s);
    let start: usize = if chars.len() > 0 && chars[0] == '+' {
        1
    } else {
        0
    };
    let ghost digits = unsigned_digits(s@);
    assert(digits =~= s@.skip(start as int));
    if start == chars.len() {
        return None;
    }
    let mut value: u32 = 0;
    let mut i: usize = start;
    assert(digits.take(0).len() == 0);
    while i < chars.len()
        invariant
            chars@ == s@,
            start <= i <= chars@.len(),
            digits == s@.skip(start as int),
            digits == unsigned_digits(s@),
            forall|j: int| 0 <= j < i - start ==> is_digit(#[trigger] digits[j]),
            value <= 65536,
            value < 65536 ==> value == digits_value(digits.take(i - start)),
            value == 65536 ==> digits_value(digits.take(i - start)) >= 65536,
        decreases chars@.len() - i,
    {
        let c = chars[i];
        assert(digits[i - start] == c);
        if c < '0' || c > '9' {
            assert(!is_digit(digits[i - start]));
            return None;
        }
        assert(digits.take(i - start + 1).drop_last() =~= digits.take(i - start));
        assert(digits.take(i - start + 1).last() == c);
        let next: u32 = value * 10 + (c as u32 - 0x30);
        value = if next > 65536 {
            65536
        } else {
            next
        };
        i += 1;
    }
    assert(digits.take(digits.len() as int) =~= digits);
    if value == 65536 {
        None
    } else {
        Some(value as u16)
    }
}

/// Reading a number that was written in decimal gives the number back.
pub proof fn law_number_round_trip(n: u16)
    ensures
        parse_number(decimal(n as nat)) == Some(n),
{
    lemma_decimal(n as nat);
    let s = decimal(n as nat);
    assert(is_digit(s[0]));
    assert(unsigned_digits(s) == s);
}

/// A decimal is one digit or more, and its value is the number that it was made of.
pub proof fn lemma_decimal(n: nat)
    ensures
        decimal(n).len() > 0,
        forall|i: int| 0 <= i < decimal(n).len() ==> is_digit(#[trigger] decimal(n)[i]),
        digits_value(decimal(n)) == n,
    decreases n,
{
    if n < 10 {
        assert(decimal(n).drop_last() =~= Seq::<char>::empty());
        assert(digits_value(Seq::<char>::empty()) == 0);
    } else {
        lemma_decimal(n / 10);
        assert(decimal(n).drop_last() =~= decimal(n / 10));
    }
}

} // verus!
