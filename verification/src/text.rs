use vstd::prelude::*;
use vstd::string::*;

verus! {

/// `String::push` appends one character at the end of the string.
pub assume_specification[ String::push ](s: &mut String, ch: char)
    ensures
        final(s)@ == old(s)@.push(ch),
;

/// The Unicode `White_Space` property: the class `\s` of the regular
/// expressions in the source formats, and what `str::trim` and
/// `str::split_whitespace` strip.
pub open spec fn is_white_space(c: char) -> bool {
    let n = c as u32;
    ||| 0x9 <= n <= 0xd
    ||| n == 0x20
    ||| n == 0x85
    ||| n == 0xa0
    ||| n == 0x1680
    ||| 0x2000 <= n <= 0x200a
    ||| n == 0x2028
    ||| n == 0x2029
    ||| n == 0x202f
    ||| n == 0x205f
    ||| n == 0x3000
}

pub fn white_space(c: char) -> (r: bool)
    ensures
        r == is_white_space(c),
{
    let n: u32 = c as u32;
    (0x9 <= n && n <= 0xd) || n == 0x20 || n == 0x85 || n == 0xa0 || n == 0x1680 || (0x2000 <= n
        && n <= 0x200a) || n == 0x2028 || n == 0x2029 || n == 0x202f || n == 0x205f || n == 0x3000
}

pub open spec fn all_white_space(s: Seq<char>) -> bool {
    forall|i: int| 0 <= i < s.len() ==> #[trigger] is_white_space(s[i])
}

pub open spec fn no_white_space(s: Seq<char>) -> bool {
    forall|i: int| 0 <= i < s.len() ==> !#[trigger] is_white_space(s[i])
}

/// ASCII decimal digit `0`..`9`.
pub open spec fn is_digit(c: char) -> bool {
    '0' <= c <= '9'
}

pub open spec fn all_digits(s: Seq<char>) -> bool {
    forall|i: int| 0 <= i < s.len() ==> #[trigger] is_digit(s[i])
}

/// The Unicode class `\w` of the `regex` crate, as `regex_syntax::is_word_character`
/// decides it (`Alphabetic`, `Join_Control`, `Decimal_Number`, `Mark`,
/// `Connector_Punctuation`).
pub uninterp spec fn unicode_word_character(c: char) -> bool;

/// The Unicode class `\d` of the `regex` crate (`Decimal_Number`), as a regular
/// expression of that crate matches it.
pub uninterp spec fn unicode_decimal_digit(c: char) -> bool;

/// `regex_syntax::is_word_character`: whether `c` is in the class `\w`.
#[verifier::external_body]
fn regex_word_character(c: char) -> (r: bool)
    ensures
        r == unicode_word_character(c),
{
    regex_syntax::is_word_character(c)
}

/// `regex::Regex::is_match` of the pattern `\A\d\z` on the one-character text
/// `c`: whether `c` is in the class `\d`. The pattern is valid, so compiling
/// it does not fail.
#[verifier::external_body]
fn regex_decimal_digit(c: char) -> (r: bool)
    ensures
        r == unicode_decimal_digit(c),
{
    match regex::Regex::new(r"\A\d\z") {
        Ok(re) => re.is_match(&c.to_string()),
        Err(_) => false,
    }
}

/// Whether `c` is an ASCII character.
pub open spec fn is_ascii_char(c: char) -> bool {
    (c as u32) < 128
}

/// A word character (`\w`): an ASCII letter, digit or underscore, or a
/// character outside ASCII of the Unicode class `\w`. (No white space is in
/// `\w`; the definition says so for the characters outside ASCII.)
pub open spec fn is_word(c: char) -> bool {
    if is_ascii_char(c) {
        ||| 'a' <= c <= 'z'
        ||| 'A' <= c <= 'Z'
        ||| '0' <= c <= '9'
        ||| c == '_'
    } else {
        !is_white_space(c) && unicode_word_character(c)
    }
}

/// A decimal digit of the Unicode class `\d`: `0` to `9`, or a character
/// outside ASCII of the class. (Every character of `\d` is in `\w`; the
/// definition says so for the characters outside ASCII.)
pub open spec fn is_decimal_digit(c: char) -> bool {
    if is_ascii_char(c) {
        '0' <= c <= '9'
    } else {
        is_word(c) && unicode_decimal_digit(c)
    }
}

pub open spec fn all_decimal_digits(s: Seq<char>) -> bool {
    forall|i: int| 0 <= i < s.len() ==> #[trigger] is_decimal_digit(s[i])
}

pub open spec fn all_word(s: Seq<char>) -> bool {
    forall|i: int| 0 <= i < s.len() ==> #[trigger] is_word(s[i])
}

pub fn digit(c: char) -> (r: bool)
    ensures
        r == is_digit(c),
{
    '0' <= c && c <= '9'
}

pub fn word(c: char) -> (r: bool)
    ensures
        r == is_word(c),
{
    if (c as u32) < 128 {
        ('a' <= c && c <= 'z') || ('A' <= c && c <= 'Z') || ('0' <= c && c <= '9') || c == '_'
    } else {
        !white_space(c) && regex_word_character(c)
    }
}

pub fn decimal_digit(c: char) -> (r: bool)
    ensures
        r == is_decimal_digit(c),
{
    if (c as u32) < 128 {
        '0' <= c && c <= '9'
    } else {
        word(c) && regex_decimal_digit(c)
    }
}

/// The plain value of an optional string.
pub open spec fn opt_view(s: Option<String>) -> Option<Seq<char>> {
    match s {
        None => None,
        Some(t) => Some(t@),
    }
}

/// Characters of a string slice, in order.
pub fn to_chars(s: &str) -> (r: Vec<char>)
    ensures
        r@ == s@,
{
    let mut r: Vec<char> = Vec::new();
    for c in it: s.chars()
        invariant
            r@ == it.seq().take(it.index() as int),
            it.seq() == s@,
    {
        r.push(c);
    }
    r
}

/// A string made of the given characters.
pub fn from_chars(v: &[char]) -> (r: String)
    ensures
        r@ == v@,
{
    let mut r: String = String::new();
    let mut i: usize = 0;
    while i < v.len()
        invariant
            i <= v.len(),
            r@ == v@.take(i as int),
        decreases v.len() - i,
    {
        r.push(v[i]);
        i = i + 1;
        assert(v@.take(i as int) == v@.take((i - 1) as int).push(v@[i - 1]));
    }
    assert(v@.take(v@.len() as int) == v@);
    r
}

/// Appends the characters of `t` to `s`.
pub fn push_str(s: &mut String, t: &str)
    ensures
        final(s)@ == old(s)@ + t@,
{
    s.append(t);
}

/// `s` without its leading white space.
pub open spec fn trim_start(s: Seq<char>) -> Seq<char>
    decreases s.len(),
{
    if s.len() > 0 && is_white_space(s[0]) {
        trim_start(s.drop_first())
    } else {
        s
    }
}

/// `s` without its trailing white space.
pub open spec fn trim_end(s: Seq<char>) -> Seq<char>
    decreases s.len(),
{
    if s.len() > 0 && is_white_space(s.last()) {
        trim_end(s.drop_last())
    } else {
        s
    }
}

/// `str::trim`: `s` without leading and trailing white space.
pub open spec fn trim(s: Seq<char>) -> Seq<char> {
    trim_end(trim_start(s))
}

pub fn trim_chars(s: &[char]) -> (r: Vec<char>)
    ensures
        r@ == trim(s@),
{
    let mut a: usize = 0;
    assert(s@.skip(0) == s@);
    while a < s.len() && white_space(s[a])
        invariant
            a <= s.len(),
            trim_start(s@.skip(a as int)) == trim_start(s@),
        decreases s.len() - a,
    {
        assert(s@.skip((a + 1) as int) == s@.skip(a as int).drop_first());
        a = a + 1;
    }
    let mut b: usize = s.len();
    assert(s@.subrange(a as int, b as int) == s@.skip(a as int));
    while b > a && white_space(s[b - 1])
        invariant
            a <= b <= s.len(),
            trim_end(s@.subrange(a as int, b as int)) == trim(s@),
            trim_start(s@.skip(a as int)) == s@.skip(a as int),
        decreases b - a,
    {
        assert(s@.subrange(a as int, (b - 1) as int) == s@.subrange(a as int, b as int).drop_last());
        b = b - 1;
    }
    let mut r: Vec<char> = Vec::new();
    let mut i: usize = a;
    while i < b
        invariant
            a <= i <= b <= s.len(),
            r@ == s@.subrange(a as int, i as int),
        decreases b - i,
    {
        r.push(s[i]);
        i = i + 1;
        assert(s@.subrange(a as int, i as int) == s@.subrange(a as int, (i - 1) as int).push(s@[i - 1]));
    }
    r
}

/// Whether `a` and `b` hold the same characters.
pub fn chars_eq(a: &[char], b: &str) -> (r: bool)
    ensures
        r == (a@ == b@),
{
    let n: usize = b.unicode_len();
    if a.len() != n {
        return false;
    }
    let mut i: usize = 0;
    while i < n
        invariant
            i <= n,
            n == a@.len(),
            n == b@.len(),
            forall|j: int| 0 <= j < i ==> a@[j] == b@[j],
        decreases n - i,
    {
        if a[i] != b.get_char(i) {
            return false;
        }
        i = i + 1;
    }
    assert(a@ == b@);
    true
}

/// Whether `p` occurs in `s` at index `i`.
pub open spec fn occurs_at(s: Seq<char>, p: Seq<char>, i: int) -> bool {
    0 <= i && i + p.len() <= s.len() && s.subrange(i, i + p.len()) == p
}

/// The first index at or after `i` where `p` occurs in `s`.
pub open spec fn find_from(s: Seq<char>, p: Seq<char>, i: int) -> Option<int>
    decreases s.len() + 1 - i,
{
    if i < 0 || i + p.len() > s.len() {
        None
    } else if s.subrange(i, i + p.len()) == p {
        Some(i)
    } else {
        find_from(s, p, i + 1)
    }
}

/// The first index where `p` occurs in `s`.
pub open spec fn find(s: Seq<char>, p: Seq<char>) -> Option<int> {
    find_from(s, p, 0)
}

/// `str::split_once`: the text before and after the first occurrence of `p`.
pub open spec fn split_once(s: Seq<char>, p: Seq<char>) -> Option<(Seq<char>, Seq<char>)> {
    match find(s, p) {
        Some(i) => Some((s.take(i), s.skip(i + p.len()))),
        None => None,
    }
}

fn occurs(s: &[char], p: &[char], i: usize) -> (r: bool)
    requires
        i <= s.len(),
    ensures
        r == occurs_at(s@, p@, i as int),
{
    if p.len() > s.len() - i {
        return false;
    }
    let mut j: usize = 0;
    while j < p.len()
        invariant
            i + p.len() <= s.len(),
            j <= p.len(),
            forall|k: int| 0 <= k < j ==> s@[i + k] == p@[k],
        decreases p.len() - j,
    {
        if s[i + j] != p[j] {
            assert(s@.subrange(i as int, i + p@.len())[j as int] != p@[j as int]);
            return false;
        }
        j = j + 1;
    }
    assert(s@.subrange(i as int, i + p@.len()) == p@);
    true
}

/// `str::find`: the first index where `p` occurs in `s`.
pub fn find_chars(s: &[char], p: &str) -> (r: Option<usize>)
    ensures
        r matches Some(i) ==> find(s@, p@) == Some(i as int),
        r is None ==> find(s@, p@) is None,
{
    let pat: Vec<char> = to_chars(p);
    let mut i: usize = 0;
    while i <= s.len()
        invariant
            i <= s.len() + 1,
            pat@ == p@,
            find_from(s@, p@, 0) == find_from(s@, p@, i as int),
        decreases s.len() + 1 - i,
    {
        if occurs(s, &pat, i) {
            return Some(i);
        }
        if pat.len() >= s.len() - i {
            assert(find_from(s@, p@, i + 1) is None);
            return None;
        }
        i = i + 1;
    }
    None
}

pub proof fn lemma_find_from(s: Seq<char>, p: Seq<char>, j: int)
    ensures
        find_from(s, p, j) matches Some(i) ==> j <= i && occurs_at(s, p, i),
    decreases s.len() + 1 - j,
{
    if !(j < 0 || j + p.len() > s.len()) && s.subrange(j, j + p.len()) != p {
        lemma_find_from(s, p, j + 1);
    }
}

/// The part of `s` before and after the first occurrence of `p`.
pub fn split_once_chars(s: &[char], p: &str) -> (r: Option<(Vec<char>, Vec<char>)>)
    ensures
        r is None ==> split_once(s@, p@) is None,
        r matches Some((a, b)) ==> split_once(s@, p@) == Some((a@, b@)),
{
    match find_chars(s, p) {
        None => None,
        Some(i) => {
            proof {
                lemma_find_from(s@, p@, 0);
            }
            let n: usize = p.unicode_len();
            let a: Vec<char> = slice_chars(s, 0, i);
            let b: Vec<char> = slice_chars(s, i + n, s.len());
            assert(a@ == s@.take(i as int));
            assert(b@ == s@.skip(i + p@.len()));
            Some((a, b))
        },
    }
}

/// The characters of `s` from index `a` up to `b`.
pub fn slice_chars(s: &[char], a: usize, b: usize) -> (r: Vec<char>)
    requires
        a <= b <= s.len(),
    ensures
        r@ == s@.subrange(a as int, b as int),
{
    let mut r: Vec<char> = Vec::new();
    let mut i: usize = a;
    while i < b
        invariant
            a <= i <= b <= s.len(),
            r@ == s@.subrange(a as int, i as int),
        decreases b - i,
    {
        r.push(s[i]);
        i = i + 1;
        assert(s@.subrange(a as int, i as int) == s@.subrange(a as int, (i - 1) as int).push(
            s@[i - 1],
        ));
    }
    r
}

/// `s` with every white space character removed.
pub open spec fn remove_white_space(s: Seq<char>) -> Seq<char>
    decreases s.len(),
{
    if s.len() == 0 {
        s
    } else if is_white_space(s.last()) {
        remove_white_space(s.drop_last())
    } else {
        remove_white_space(s.drop_last()).push(s.last())
    }
}

pub fn remove_white_space_chars(s: &[char]) -> (r: Vec<char>)
    ensures
        r@ == remove_white_space(s@),
{
    let mut r: Vec<char> = Vec::new();
    let mut i: usize = 0;
    while i < s.len()
        invariant
            i <= s.len(),
            r@ == remove_white_space(s@.take(i as int)),
        decreases s.len() - i,
    {
        assert(s@.take((i + 1) as int).drop_last() == s@.take(i as int));
        if !white_space(s[i]) {
            r.push(s[i]);
        }
        i = i + 1;
    }
    assert(s@.take(s@.len() as int) == s@);
    r
}

/// The character of a decimal digit.
pub open spec fn digit_char(d: nat) -> char {
    (d + 48) as char
}

/// The value of a decimal digit character.
pub open spec fn digit_value(c: char) -> nat {
    (c as int - 48) as nat
}

/// The decimal notation of `n`, without leading zeros.
pub open spec fn decimal(n: nat) -> Seq<char>
    decreases n,
{
    if n < 10 {
        seq![digit_char(n)]
    } else {
        decimal(n / 10).push(digit_char(n % 10))
    }
}

/// The value of a sequence of decimal digits.
pub open spec fn decimal_value(s: Seq<char>) -> nat
    decreases s.len(),
{
    if s.len() == 0 {
        0
    } else {
        decimal_value(s.drop_last()) * 10 + digit_value(s.last())
    }
}

/// `u16::from_str_radix(s, 10)`: an optional `+` and then one or more decimal
/// digits, whose value fits in a `u16`.
pub open spec fn parse_u16(s: Seq<char>) -> Option<u16> {
    let digits = if s.len() > 0 && s[0] == '+' {
        s.drop_first()
    } else {
        s
    };
    if digits.len() > 0 && all_digits(digits) && decimal_value(digits) <= u16::MAX {
        Some(decimal_value(digits) as u16)
    } else {
        None
    }
}

/// The `width` lowest bits of `n` in binary, most significant first.
pub open spec fn binary(n: nat, width: nat) -> Seq<char>
    decreases width,
{
    if width == 0 {
        seq![]
    } else {
        binary(n / 2, (width - 1) as nat).push(
            if n % 2 == 1 {
                '1'
            } else {
                '0'
            },
        )
    }
}

fn digit_to_char(d: u16) -> (r: char)
    requires
        d < 10,
    ensures
        r == digit_char(d as nat),
{
    let b: u8 = 48 + d as u8;
    b as char
}

/// Appends the decimal notation of `n`.
pub fn push_decimal(s: &mut String, n: u16)
    ensures
        final(s)@ == old(s)@ + decimal(n as nat),
    decreases n,
{
    if n >= 10 {
        push_decimal(s, n / 10);
    }
    s.push(digit_to_char(n % 10));
}

/// Appends the `width` lowest bits of `n` in binary.
pub fn push_binary(s: &mut String, n: u16, width: u8)
    ensures
        final(s)@ == old(s)@ + binary(n as nat, width as nat),
    decreases width,
{
    if width > 0 {
        push_binary(s, n / 2, width - 1);
        if n % 2 == 1 {
            s.push('1');
        } else {
            s.push('0');
        }
    }
}

proof fn lemma_decimal_value_prefix(s: Seq<char>, k: int)
    requires
        0 <= k <= s.len(),
    ensures
        decimal_value(s.take(k)) <= decimal_value(s),
    decreases s.len(),
{
    if k < s.len() {
        assert(s.drop_last().take(k) == s.take(k));
        lemma_decimal_value_prefix(s.drop_last(), k);
    } else {
        assert(s.take(k) == s);
    }
}

/// `u16::from_str_radix(s, 10)`.
pub fn parse_u16_chars(s: &[char]) -> (r: Option<u16>)
    ensures
        r == parse_u16(s@),
{
    let start: usize = if s.len() > 0 && s[0] == '+' {
        1
    } else {
        0
    };
    let ghost digits: Seq<char> = s@.skip(start as int);
    assert(digits == (if s@.len() > 0 && s@[0] == '+' {
        s@.drop_first()
    } else {
        s@
    }));
    if start == s.len() {
        return None;
    }
    let mut acc: u32 = 0;
    let mut i: usize = start;
    while i < s.len()
        invariant
            start <= i <= s.len(),
            digits == s@.skip(start as int),
            digits == (if s@.len() > 0 && s@[0] == '+' {
                s@.drop_first()
            } else {
                s@
            }),
            all_digits(digits.take(i - start)),
            acc == decimal_value(digits.take(i - start)),
            acc <= u16::MAX,
        decreases s.len() - i,
    {
        assert(digits.take(i + 1 - start).drop_last() == digits.take(i - start));
        if !digit(s[i]) {
            assert(!is_digit(digits[i - start]));
            return None;
        }
        let d: u32 = s[i] as u32 - 48;
        let next: u32 = acc * 10 + d;
        i = i + 1;
        if next > 65535 {
            proof {
                lemma_decimal_value_prefix(digits, i - start);
            }
            return None;
        }
        acc = next;
    }
    assert(digits.take(i - start) == digits);
    Some(acc as u16)
}

/// The length of the longest prefix of `s` without white space.
pub open spec fn non_white_space_prefix(s: Seq<char>) -> nat
    decreases s.len(),
{
    if s.len() > 0 && !is_white_space(s[0]) {
        1 + non_white_space_prefix(s.drop_first())
    } else {
        0
    }
}

/// Whether `s` begins with `p`.
pub open spec fn starts_with(s: Seq<char>, p: Seq<char>) -> bool {
    p.len() <= s.len() && s.take(p.len() as int) == p
}

/// The index of the first character of `s` that is not white space (the
/// length of `s` where there is none).
pub fn trim_start_index(s: &[char]) -> (r: usize)
    ensures
        r <= s.len(),
        s@.skip(r as int) == trim_start(s@),
        all_white_space(s@.take(r as int)),
{
    let mut a: usize = 0;
    assert(s@.skip(0) == s@);
    while a < s.len() && white_space(s[a])
        invariant
            a <= s.len(),
            trim_start(s@.skip(a as int)) == trim_start(s@),
            all_white_space(s@.take(a as int)),
        decreases s.len() - a,
    {
        assert(s@.skip((a + 1) as int) == s@.skip(a as int).drop_first());
        a = a + 1;
    }
    a
}

/// The index where the first white space at or after `k` stands in `s` (the
/// length of `s` where there is none).
pub fn non_white_space_end(s: &[char], k: usize) -> (r: usize)
    requires
        k <= s.len(),
    ensures
        k <= r <= s.len(),
        r - k == non_white_space_prefix(s@.skip(k as int)),
{
    let mut e: usize = k;
    while e < s.len() && !white_space(s[e])
        invariant
            k <= e <= s.len(),
            non_white_space_prefix(s@.skip(k as int)) == (e - k) + non_white_space_prefix(
                s@.skip(e as int),
            ),
        decreases s.len() - e,
    {
        assert(s@.skip((e + 1) as int) == s@.skip(e as int).drop_first());
        e = e + 1;
    }
    e
}

/// Whether every character of `s` from index `k` on is white space.
pub fn white_space_from(s: &[char], k: usize) -> (r: bool)
    requires
        k <= s.len(),
    ensures
        r == all_white_space(s@.skip(k as int)),
{
    let mut i: usize = k;
    while i < s.len()
        invariant
            k <= i <= s.len(),
            all_white_space(s@.subrange(k as int, i as int)),
        decreases s.len() - i,
    {
        if !white_space(s[i]) {
            assert(s@.skip(k as int)[i - k] == s@[i as int]);
            return false;
        }
        i = i + 1;
        assert(forall|j: int|
            0 <= j < i - k ==> s@.subrange(k as int, i as int)[j] == s@[k + j]);
    }
    assert(s@.subrange(k as int, i as int) == s@.skip(k as int));
    true
}

/// A sequence without a character outside white space loses nothing but white space.
pub proof fn lemma_remove_white_space_empty(s: Seq<char>)
    ensures
        remove_white_space(s).len() == 0 ==> all_white_space(s),
    decreases s.len(),
{
    if s.len() > 0 {
        lemma_remove_white_space_empty(s.drop_last());
        if remove_white_space(s).len() == 0 {
            assert forall|i: int| 0 <= i < s.len() implies #[trigger] is_white_space(s[i]) by {
                if i < s.len() - 1 {
                    assert(s[i] == s.drop_last()[i]);
                }
            }
        }
    }
}

proof fn lemma_trim_start_white_space(s: Seq<char>)
    ensures
        all_white_space(trim_start(s)) ==> all_white_space(s),
    decreases s.len(),
{
    if s.len() > 0 && is_white_space(s[0]) {
        lemma_trim_start_white_space(s.drop_first());
        if all_white_space(s.drop_first()) {
            assert forall|i: int| 0 <= i < s.len() implies #[trigger] is_white_space(s[i]) by {
                if i > 0 {
                    assert(s[i] == s.drop_first()[i - 1]);
                }
            }
        }
    }
}

proof fn lemma_trim_end_white_space(s: Seq<char>)
    ensures
        all_white_space(trim_end(s)) ==> all_white_space(s),
    decreases s.len(),
{
    if s.len() > 0 && is_white_space(s.last()) {
        lemma_trim_end_white_space(s.drop_last());
        if all_white_space(s.drop_last()) {
            assert forall|i: int| 0 <= i < s.len() implies #[trigger] is_white_space(s[i]) by {
                if i < s.len() - 1 {
                    assert(s[i] == s.drop_last()[i]);
                }
            }
        }
    }
}

/// Trimming keeps every character that is not white space.
pub proof fn lemma_trim_white_space(s: Seq<char>)
    ensures
        all_white_space(trim(s)) ==> all_white_space(s),
{
    lemma_trim_end_white_space(trim_start(s));
    lemma_trim_start_white_space(s);
}

/// After a prefix of white space, `trim_start` stops at the first other character.
pub proof fn lemma_trim_start_at(s: Seq<char>, i: int)
    requires
        0 <= i < s.len(),
        all_white_space(s.take(i)),
        !is_white_space(s[i]),
    ensures
        trim_start(s) == s.skip(i),
    decreases i,
{
    if i == 0 {
        assert(s.skip(0) == s);
    } else {
        assert(is_white_space(s.take(i)[0]));
        assert(s.drop_first().skip(i - 1) == s.skip(i));
        assert forall|j: int| 0 <= j < i - 1 implies #[trigger] is_white_space(
            s.drop_first().take(i - 1)[j],
        ) by {
            assert(s.drop_first().take(i - 1)[j] == s.take(i)[j + 1]);
        }
        lemma_trim_start_at(s.drop_first(), i - 1);
    }
}

/// A character outside white space survives `remove_white_space`.
pub proof fn lemma_remove_white_space_keeps(s: Seq<char>)
    ensures
        all_white_space(s) ==> remove_white_space(s).len() == 0,
    decreases s.len(),
{
    if s.len() > 0 {
        if all_white_space(s) {
            assert(is_white_space(s[s.len() - 1]));
            assert forall|i: int| 0 <= i < s.len() - 1 implies #[trigger] is_white_space(
                s.drop_last()[i],
            ) by {
                assert(s.drop_last()[i] == s[i]);
            }
        }
        lemma_remove_white_space_keeps(s.drop_last());
    }
}

/// The length of the longest prefix of `s` made of word characters.
pub open spec fn word_prefix(s: Seq<char>) -> nat
    decreases s.len(),
{
    if s.len() > 0 && is_word(s[0]) {
        1 + word_prefix(s.drop_first())
    } else {
        0
    }
}

/// The length of the longest prefix of `s` made of white space.
pub open spec fn white_space_prefix(s: Seq<char>) -> nat
    decreases s.len(),
{
    if s.len() > 0 && is_white_space(s[0]) {
        1 + white_space_prefix(s.drop_first())
    } else {
        0
    }
}

/// The index where the run of word characters that starts at `k` ends.
pub fn word_end(s: &[char], k: usize) -> (r: usize)
    requires
        k <= s.len(),
    ensures
        k <= r <= s.len(),
        r - k == word_prefix(s@.skip(k as int)),
{
    let mut e: usize = k;
    while e < s.len() && word(s[e])
        invariant
            k <= e <= s.len(),
            word_prefix(s@.skip(k as int)) == (e - k) + word_prefix(s@.skip(e as int)),
        decreases s.len() - e,
    {
        assert(s@.skip((e + 1) as int) == s@.skip(e as int).drop_first());
        e = e + 1;
    }
    e
}

/// The index where the run of white space that starts at `k` ends.
pub fn white_space_end(s: &[char], k: usize) -> (r: usize)
    requires
        k <= s.len(),
    ensures
        k <= r <= s.len(),
        r - k == white_space_prefix(s@.skip(k as int)),
{
    let mut e: usize = k;
    while e < s.len() && white_space(s[e])
        invariant
            k <= e <= s.len(),
            white_space_prefix(s@.skip(k as int)) == (e - k) + white_space_prefix(
                s@.skip(e as int),
            ),
        decreases s.len() - e,
    {
        assert(s@.skip((e + 1) as int) == s@.skip(e as int).drop_first());
        e = e + 1;
    }
    e
}

/// Whether every character of `s` from index `k` on is in the class `\d`.
pub fn decimal_digits_from(s: &[char], k: usize) -> (r: bool)
    requires
        k <= s.len(),
    ensures
        r == all_decimal_digits(s@.skip(k as int)),
{
    let mut i: usize = k;
    while i < s.len()
        invariant
            k <= i <= s.len(),
            forall|j: int| k <= j < i ==> #[trigger] is_decimal_digit(s@[j]),
        decreases s.len() - i,
    {
        if !decimal_digit(s[i]) {
            assert(s@.skip(k as int)[i - k] == s@[i as int]);
            return false;
        }
        i = i + 1;
    }
    assert forall|j: int| 0 <= j < s@.skip(k as int).len() implies #[trigger] is_decimal_digit(
        s@.skip(k as int)[j],
    ) by {
        assert(s@.skip(k as int)[j] == s@[k + j]);
    }
    true
}

/// The plain values of a list of strings.
pub open spec fn strings_view(v: Seq<String>) -> Seq<Seq<char>> {
    v.map_values(|s: String| s@)
}

/// The line `@x`, which loads `x` into the A register.
pub open spec fn at(x: Seq<char>) -> Seq<char> {
    "@"@ + x
}

/// Appends a line.
pub fn push_line(v: &mut Vec<String>, line: String)
    ensures
        strings_view(final(v)@) == strings_view(old(v)@).push(line@),
{
    v.push(line);
    assert(strings_view(v@) == strings_view(old(v)@).push(line@));
}

/// Appends a line that a literal gives.
pub fn push_lit(v: &mut Vec<String>, line: &str)
    ensures
        strings_view(final(v)@) == strings_view(old(v)@).push(line@),
{
    push_line(v, String::from_str(line));
}

/// Appends the line `@x`.
pub fn push_at(v: &mut Vec<String>, x: &str)
    ensures
        strings_view(final(v)@) == strings_view(old(v)@).push(at(x@)),
{
    let mut line: String = String::from_str("@");
    push_str(&mut line, x);
    push_line(v, line);
}

/// Appends the line `@n`, with `n` in decimal.
pub fn push_at_number(v: &mut Vec<String>, n: u16)
    ensures
        strings_view(final(v)@) == strings_view(old(v)@).push(at(decimal(n as nat))),
{
    let mut line: String = String::from_str("@");
    push_decimal(&mut line, n);
    push_line(v, line);
}

/// Appends all the lines of `w`.
pub fn push_lines(v: &mut Vec<String>, w: Vec<String>)
    ensures
        strings_view(final(v)@) == strings_view(old(v)@) + strings_view(w@),
{
    let ghost start: Seq<Seq<char>> = strings_view(v@);
    for line in it: w.into_iter()
        invariant
            it.seq() == w@,
            strings_view(v@) == start + strings_view(w@.take(it.index() as int)),
    {
        let ghost k: int = it.index() as int;
        assert(strings_view(w@.take(k + 1)) == strings_view(w@.take(k)).push(line@));
        push_line(v, line);
    }
    assert(w@.take(w@.len() as int) == w@);
}

/// Two to the power `n`.
pub open spec fn pow2(n: nat) -> nat
    decreases n,
{
    if n == 0 {
        1
    } else {
        2 * pow2((n - 1) as nat)
    }
}

/// The value of a sequence of binary digits, most significant first.
pub open spec fn binary_value(s: Seq<char>) -> nat
    decreases s.len(),
{
    if s.len() == 0 {
        0
    } else {
        binary_value(s.drop_last()) * 2 + if s.last() == '1' {
            1nat
        } else {
            0nat
        }
    }
}

/// A number below `2^width` written in `width` binary digits reads back as
/// itself, and its first digit is 0 when it is below `2^(width - 1)`.
pub proof fn lemma_binary_roundtrip(n: nat, width: nat)
    requires
        n < pow2(width),
    ensures
        binary(n, width).len() == width,
        binary_value(binary(n, width)) == n,
        width > 0 && n < pow2((width - 1) as nat) ==> binary(n, width)[0] == '0',
    decreases width,
{
    if width > 0 {
        let w1: nat = (width - 1) as nat;
        let b = binary(n / 2, w1);
        lemma_binary_roundtrip(n / 2, w1);
        assert(binary(n, width).drop_last() == b);
        if width > 1 {
            assert(pow2(w1) == 2 * pow2((w1 - 1) as nat));
            assert(binary(n, width)[0] == b[0]);
        }
    }
}

proof fn lemma_digit_char(d: nat)
    requires
        d < 10,
    ensures
        is_digit(digit_char(d)),
        digit_value(digit_char(d)) == d,
{
    assert(digit_char(d) as int == d + 48);
}

/// The decimal notation of `n` is a non-empty run of digits that reads back as `n`.
pub proof fn lemma_decimal_roundtrip(n: nat)
    ensures
        decimal(n).len() > 0,
        all_digits(decimal(n)),
        decimal_value(decimal(n)) == n,
    decreases n,
{
    lemma_digit_char(n % 10);
    if n < 10 {
        lemma_digit_char(n);
        assert(decimal(n).drop_last() == Seq::<char>::empty());
        assert(decimal(n).last() == digit_char(n));
        assert(is_digit(decimal(n)[0]));
        assert(decimal_value(decimal(n)) == decimal_value(Seq::<char>::empty()) * 10 + digit_value(
            digit_char(n),
        ));
    } else {
        lemma_decimal_roundtrip(n / 10);
        let d = decimal(n / 10);
        assert(decimal(n).drop_last() == d);
        assert(decimal(n).last() == digit_char(n % 10));
        assert((n / 10) * 10 + n % 10 == n);
        assert(decimal_value(decimal(n)) == decimal_value(d) * 10 + digit_value(
            digit_char(n % 10),
        ));
        assert forall|i: int| 0 <= i < decimal(n).len() implies #[trigger] is_digit(
            decimal(n)[i],
        ) by {
            if i < d.len() {
                assert(decimal(n)[i] == d[i]);
            }
        }
    }
}

/// `u16::from_str_radix` reads back the decimal notation of a `u16`.
pub proof fn lemma_parse_decimal(n: u16)
    ensures
        parse_u16(decimal(n as nat)) == Some(n),
{
    lemma_decimal_roundtrip(n as nat);
    assert(is_digit(decimal(n as nat)[0]));
}

/// Different numbers have different decimal notations.
pub proof fn lemma_decimal_injective(i: nat, j: nat)
    ensures
        decimal(i) == decimal(j) ==> i == j,
{
    lemma_decimal_roundtrip(i);
    lemma_decimal_roundtrip(j);
}

/// `trim_start` drops the longest prefix of white space.
pub proof fn lemma_trim_start_split(s: Seq<char>)
    ensures
        trim_start(s).len() <= s.len(),
        trim_start(s) == s.skip(s.len() - trim_start(s).len()),
        all_white_space(s.take(s.len() - trim_start(s).len())),
        trim_start(s).len() > 0 ==> !is_white_space(trim_start(s)[0]),
    decreases s.len(),
{
    if s.len() > 0 && is_white_space(s[0]) {
        lemma_trim_start_split(s.drop_first());
        let k: int = s.len() - trim_start(s).len();
        assert(s.drop_first().skip(k - 1) == s.skip(k));
        assert forall|j: int| 0 <= j < k implies #[trigger] is_white_space(s.take(k)[j]) by {
            if j > 0 {
                assert(s.take(k)[j] == s.drop_first().take(k - 1)[j - 1]);
            }
        }
    } else {
        assert(s.skip(0) == s);
    }
}

/// The longest prefix without white space ends where white space begins.
pub proof fn lemma_non_white_space_prefix_split(r: Seq<char>)
    ensures
        non_white_space_prefix(r) <= r.len(),
        no_white_space(r.take(non_white_space_prefix(r) as int)),
        non_white_space_prefix(r) < r.len() ==> is_white_space(r[non_white_space_prefix(r) as int]),
    decreases r.len(),
{
    if r.len() > 0 && !is_white_space(r[0]) {
        lemma_non_white_space_prefix_split(r.drop_first());
        let k: int = non_white_space_prefix(r) as int;
        assert forall|j: int| 0 <= j < k implies !#[trigger] is_white_space(r.take(k)[j]) by {
            if j > 0 {
                assert(r.take(k)[j] == r.drop_first().take(k - 1)[j - 1]);
            }
        }
    }
}

/// A run without white space followed by white space (or nothing) is the
/// longest prefix without white space.
pub proof fn lemma_non_white_space_prefix_of(x: Seq<char>, w: Seq<char>)
    requires
        no_white_space(x),
        w.len() == 0 || is_white_space(w[0]),
    ensures
        non_white_space_prefix(x + w) == x.len(),
    decreases x.len(),
{
    if x.len() > 0 {
        assert((x + w).drop_first() == x.drop_first() + w);
        assert(!is_white_space(x[0]));
        lemma_non_white_space_prefix_of(x.drop_first(), w);
    } else {
        assert(x + w == w);
    }
}

/// The longest prefix of word characters is made of word characters and ends
/// before a character that is not one.
pub proof fn lemma_word_prefix_split(r: Seq<char>)
    ensures
        word_prefix(r) <= r.len(),
        all_word(r.take(word_prefix(r) as int)),
        word_prefix(r) < r.len() ==> !is_word(r[word_prefix(r) as int]),
    decreases r.len(),
{
    if r.len() > 0 && is_word(r[0]) {
        lemma_word_prefix_split(r.drop_first());
        let k: int = word_prefix(r) as int;
        assert forall|j: int| 0 <= j < k implies #[trigger] is_word(r.take(k)[j]) by {
            if j > 0 {
                assert(r.take(k)[j] == r.drop_first().take(k - 1)[j - 1]);
            }
        }
    }
}

/// The longest prefix of white space is white space and ends before a
/// character that is not.
pub proof fn lemma_white_space_prefix_split(r: Seq<char>)
    ensures
        white_space_prefix(r) <= r.len(),
        all_white_space(r.take(white_space_prefix(r) as int)),
        white_space_prefix(r) < r.len() ==> !is_white_space(r[white_space_prefix(r) as int]),
    decreases r.len(),
{
    if r.len() > 0 && is_white_space(r[0]) {
        lemma_white_space_prefix_split(r.drop_first());
        let k: int = white_space_prefix(r) as int;
        assert forall|j: int| 0 <= j < k implies #[trigger] is_white_space(r.take(k)[j]) by {
            if j > 0 {
                assert(r.take(k)[j] == r.drop_first().take(k - 1)[j - 1]);
            }
        }
    }
}

/// A run of word characters followed by something else is the longest prefix
/// of word characters.
pub proof fn lemma_word_prefix_of(x: Seq<char>, w: Seq<char>)
    requires
        all_word(x),
        w.len() == 0 || !is_word(w[0]),
    ensures
        word_prefix(x + w) == x.len(),
    decreases x.len(),
{
    if x.len() > 0 {
        assert((x + w).drop_first() == x.drop_first() + w);
        assert(is_word(x[0]));
        lemma_word_prefix_of(x.drop_first(), w);
    } else {
        assert(x + w == w);
    }
}

/// A run of white space followed by something else is the longest prefix of
/// white space.
pub proof fn lemma_white_space_prefix_of(x: Seq<char>, w: Seq<char>)
    requires
        all_white_space(x),
        w.len() == 0 || !is_white_space(w[0]),
    ensures
        white_space_prefix(x + w) == x.len(),
    decreases x.len(),
{
    if x.len() > 0 {
        assert((x + w).drop_first() == x.drop_first() + w);
        assert(is_white_space(x[0]));
        lemma_white_space_prefix_of(x.drop_first(), w);
    } else {
        assert(x + w == w);
    }
}

} // verus!
