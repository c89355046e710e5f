//! Text as sequences of characters: numbers in decimal and hexadecimal, padding,
//! trimming, lines, and the few facts about characters that the rest of the crate
//! is stated in.

use vstd::prelude::*;
use vstd::string::*;

verus! {

// ---------------------------------------------------------------------------
// Building text
// ---------------------------------------------------------------------------

/// `String::push` appends the given character to the end of the string.
pub assume_specification[ String::push ](s: &mut String, c: char)
    ensures
        final(s)@ == old(s)@.push(c),
;

/// The contents of a list of strings.
pub open spec fn texts(list: Seq<String>) -> Seq<Seq<char>> {
    list.map_values(|t: String| t@)
}

/// The contents of a list of pairs of strings.
pub open spec fn pairs(list: Seq<(String, String)>) -> Seq<(Seq<char>, Seq<char>)> {
    list.map_values(|p: (String, String)| (p.0@, p.1@))
}

/// The contents of a string that may be absent.
pub open spec fn maybe(text: Option<String>) -> Option<Seq<char>> {
    match text {
        Some(t) => Some(t@),
        None => None,
    }
}

/// The characters of `s`, in order.
pub fn chars_of(s: &str) -> (v: Vec<char>)
    ensures
        v@ == s@,
{
    let mut v: Vec<char> = Vec::new();
    for c in it: s.chars()
        invariant
            v@ == it.seq().take(it.index() as int),
            it.seq() == s@,
    {
        v.push(c);
    }
    v
}

/// The string whose characters are `chars[from..to]`.
pub fn text_between(chars: &[char], from: usize, to: usize) -> (s: String)
    requires
        from <= to <= chars@.len(),
    ensures
        s@ == chars@.subrange(from as int, to as int),
{
    let mut s = String::new();
    let mut i: usize = from;
    while i < to
        invariant
            from <= i <= to <= chars@.len(),
            s@ == chars@.subrange(from as int, i as int),
        decreases to - i,
    {
        s.push(chars[i]);
        i = i + 1;
    }
    s
}

/// Whether two strings hold the same characters.
pub fn same_text(a: &str, b: &str) -> (r: bool)
    ensures
        r == (a@ == b@),
{
    let left: String = a.to_owned();
    let right: String = b.to_owned();
    left == right
}

/// `count` copies of `c`.
pub open spec fn repeated(c: char, count: nat) -> Seq<char> {
    Seq::new(count, |i: int| c)
}

/// `text` with spaces in front of it, up to `width` characters in all.
pub open spec fn pad_left(text: Seq<char>, width: nat) -> Seq<char> {
    if text.len() >= width {
        text
    } else {
        repeated(' ', (width - text.len()) as nat) + text
    }
}

/// `text` with spaces behind it, up to `width` characters in all.
pub open spec fn pad_right(text: Seq<char>, width: nat) -> Seq<char> {
    if text.len() >= width {
        text
    } else {
        text + repeated(' ', (width - text.len()) as nat)
    }
}

fn spaces(count: usize) -> (s: String)
    ensures
        s@ == repeated(' ', count as nat),
{
    let mut s = String::new();
    let mut i: usize = 0;
    while i < count
        invariant
            i <= count,
            s@ == repeated(' ', i as nat),
        decreases count - i,
    {
        s.push(' ');
        i = i + 1;
    }
    s
}

/// Right-align `text` in a column of `width` characters.
pub fn right_aligned(text: &str, width: usize) -> (s: String)
    ensures
        s@ == pad_left(text@, width as nat),
{
    let len: usize = text.unicode_len();
    if len >= width {
        text.to_owned()
    } else {
        let mut s = spaces(width - len);
        s.append(text);
        s
    }
}

/// Left-align `text` in a column of `width` characters.
pub fn left_aligned(text: &str, width: usize) -> (s: String)
    ensures
        s@ == pad_right(text@, width as nat),
{
    let len: usize = text.unicode_len();
    if len >= width {
        text.to_owned()
    } else {
        let mut s = text.to_owned();
        s.append(spaces(width - len).as_str());
        s
    }
}

/// The items of `list` with `sep` between each two of them.
pub open spec fn joined(list: Seq<Seq<char>>, sep: Seq<char>) -> Seq<char>
    decreases list.len(),
{
    if list.len() == 0 {
        Seq::empty()
    } else if list.len() == 1 {
        list[0]
    } else {
        joined(list.drop_last(), sep) + sep + list.last()
    }
}

/// Join `list` with `sep`.
pub fn join(list: &[&str], sep: &str) -> (s: String)
    ensures
        s@ == joined(list@.map_values(|t: &str| t@), sep@),
{
    let mut s = String::new();
    let mut i: usize = 0;
    let ghost all = list@.map_values(|t: &str| t@);
    while i < list.len()
        invariant
            i <= list@.len(),
            all == list@.map_values(|t: &str| t@),
            s@ == joined(all.take(i as int), sep@),
        decreases list@.len() - i,
    {
        proof {
            assert(all.take(i + 1).drop_last() =~= all.take(i as int));
            assert(all.take(i + 1).last() == list@[i as int]@);
        }
        if i > 0 {
            s.append(sep);
        }
        s.append(list[i]);
        i = i + 1;
    }
    proof {
        assert(all.take(i as int) =~= all);
    }
    s
}

// ---------------------------------------------------------------------------
// Numbers
// ---------------------------------------------------------------------------

/// The character for the digit `d`, in lower case from ten on.
pub open spec fn digit_char(d: nat) -> char {
    if d < 10 {
        (48 + d) as char
    } else {
        (87 + d) as char
    }
}

/// `n` written in decimal, without leading zeros.
pub open spec fn decimal(n: nat) -> Seq<char>
    decreases n,
{
    if n < 10 {
        seq![digit_char(n)]
    } else {
        decimal(n / 10).push(digit_char(n % 10))
    }
}

/// The last `width` hexadecimal digits of `n`, in lower case, zeros included.
pub open spec fn hex_digits(n: nat, width: nat) -> Seq<char>
    decreases width,
{
    if width == 0 {
        Seq::empty()
    } else {
        hex_digits(n / 16, (width - 1) as nat).push(digit_char(n % 16))
    }
}

/// Whether `c` is one of the ten ASCII digits.
pub open spec fn is_digit(c: char) -> bool {
    '0' <= c <= '9'
}

/// Whether every character of `s` is an ASCII digit.
pub open spec fn all_digits(s: Seq<char>) -> bool {
    forall|i: int| 0 <= i < s.len() ==> is_digit(#[trigger] s[i])
}

/// The number that a sequence of ASCII digits stands for.
pub open spec fn decimal_value(s: Seq<char>) -> nat
    decreases s.len(),
{
    if s.len() == 0 {
        0
    } else {
        decimal_value(s.drop_last()) * 10 + (s.last() as nat - 48) as nat
    }
}

/// The character for one digit.
fn digit(d: u8) -> (c: char)
    requires
        d < 16,
    ensures
        c == digit_char(d as nat),
{
    if d < 10 {
        (48u8 + d) as char
    } else {
        (87u8 + d) as char
    }
}

/// Write `n` in decimal.
pub fn decimal_text(n: u64) -> (s: String)
    ensures
        s@ == decimal(n as nat),
    decreases n,
{
    if n < 10 {
        let mut s = String::new();
        s.push(digit(n as u8));
        assert(s@ =~= seq![digit_char(n as nat)]);
        s
    } else {
        let mut s = decimal_text(n / 10);
        s.push(digit((n % 10) as u8));
        s
    }
}

/// Write the last `width` hexadecimal digits of `n`.
pub fn hex_text(n: u64, width: usize) -> (s: String)
    ensures
        s@ == hex_digits(n as nat, width as nat),
    decreases width,
{
    if width == 0 {
        String::new()
    } else {
        let mut s = hex_text(n / 16, width - 1);
        s.push(digit((n % 16) as u8));
        s
    }
}

/// The value of `chars[from..to]` read as ASCII digits, if it is at least one digit,
/// digits only, and no more than `max`.
pub fn parse_digits(chars: &[char], from: usize, to: usize, max: u64) -> (r: Option<u64>)
    requires
        from <= to <= chars@.len(),
    ensures
        ({
            let digits = chars@.subrange(from as int, to as int);
            match r {
                Some(v) => digits.len() > 0 && all_digits(digits) && v == decimal_value(digits)
                    && v <= max,
                None => digits.len() == 0 || !all_digits(digits) || decimal_value(digits) > max,
            }
        }),
{
    if from == to {
        return None;
    }
    let ghost digits = chars@.subrange(from as int, to as int);
    let mut i: usize = from;
    let mut value: u64 = 0;
    let mut fits: bool = true;
    while i < to
        invariant
            from <= i <= to <= chars@.len(),
            digits == chars@.subrange(from as int, to as int),
            all_digits(digits.take(i - from)),
            value <= max,
            fits ==> value == decimal_value(digits.take(i - from)),
            !fits ==> decimal_value(digits.take(i - from)) > max,
        decreases to - i,
    {
        let c: char = chars[i];
        proof {
            assert(digits[i - from] == c);
        }
        if !('0' <= c && c <= '9') {
            return None;
        }
        let d: u64 = (c as u32 - 48) as u64;
        proof {
            let next = digits.take(i + 1 - from);
            assert(next.drop_last() =~= digits.take(i - from));
            assert(next.last() == c);
            assert(decimal_value(next) == decimal_value(digits.take(i - from)) * 10 + d);
            assert forall|j: int| 0 <= j < next.len() implies is_digit(#[trigger] next[j]) by {
                if j < i - from {
                    assert(next[j] == digits.take(i - from)[j]);
                }
            }
        }
        if fits {
            let tenfold: u128 = value as u128 * 10 + d as u128;
            if tenfold <= max as u128 {
                value = tenfold as u64;
            } else {
                fits = false;
            }
        }
        i = i + 1;
    }
    proof {
        assert(digits.take(i - from) =~= digits);
    }
    if fits {
        Some(value)
    } else {
        None
    }
}

// ---------------------------------------------------------------------------
// Facts about numbers in text
// ---------------------------------------------------------------------------

/// What `decimal` writes is digits only, at least one, and reads back as the number
/// that was written.
pub proof fn decimal_reads_back(n: nat)
    ensures
        decimal(n).len() > 0,
        all_digits(decimal(n)),
        decimal_value(decimal(n)) == n,
    decreases n,
{
    if n < 10 {
        assert(decimal(n).drop_last() =~= Seq::<char>::empty());
        assert(decimal_value(decimal(n).drop_last()) == 0);
    } else {
        decimal_reads_back(n / 10);
        assert(decimal(n).drop_last() =~= decimal(n / 10));
        assert(decimal(n).last() == digit_char(n % 10));
    }
}

/// Two numbers with the same decimal form are the same number.
pub proof fn decimal_is_injective(a: nat, b: nat)
    requires
        decimal(a) == decimal(b),
    ensures
        a == b,
{
    decimal_reads_back(a);
    decimal_reads_back(b);
}

/// Two numbers that fit in `width` hexadecimal digits and have the same ones are the
/// same number.
pub proof fn hex_digits_are_injective(a: nat, b: nat, width: nat)
    requires
        hex_digits(a, width) == hex_digits(b, width),
        a < vstd::arithmetic::power::pow(16, width),
        b < vstd::arithmetic::power::pow(16, width),
    ensures
        a == b,
        hex_digits(a, width).len() == width,
    decreases width,
{
    broadcast use vstd::arithmetic::power::lemma_pow0;

    hex_digits_len(a, width);
    if width > 0 {
        let w = (width - 1) as nat;
        assert(vstd::arithmetic::power::pow(16, width) == 16 * vstd::arithmetic::power::pow(16, w))
            by {
            reveal(vstd::arithmetic::power::pow);
        }
        hex_digits_len(a / 16, w);
        hex_digits_len(b / 16, w);
        assert(hex_digits(a, width).drop_last() =~= hex_digits(a / 16, w));
        assert(hex_digits(b, width).drop_last() =~= hex_digits(b / 16, w));
        assert(hex_digits(a, width).last() == digit_char(a % 16));
        assert(hex_digits(b, width).last() == digit_char(b % 16));
        hex_digits_are_injective(a / 16, b / 16, w);
    }
}

/// `hex_digits` has the width that was asked for.
pub proof fn hex_digits_len(n: nat, width: nat)
    ensures
        hex_digits(n, width).len() == width,
    decreases width,
{
    if width > 0 {
        hex_digits_len(n / 16, (width - 1) as nat);
    }
}

// ---------------------------------------------------------------------------
// Characters
// ---------------------------------------------------------------------------

/// Whether `c` has the Unicode property `White_Space`.
pub open spec fn is_white_space(c: char) -> bool {
    ||| '\u{9}' <= c <= '\u{d}'
    ||| c == '\u{20}'
    ||| c == '\u{85}'
    ||| c == '\u{a0}'
    ||| c == '\u{1680}'
    ||| '\u{2000}' <= c <= '\u{200a}'
    ||| c == '\u{2028}'
    ||| c == '\u{2029}'
    ||| c == '\u{202f}'
    ||| c == '\u{205f}'
    ||| c == '\u{3000}'
}

/// `char::is_whitespace` tells whether a character has the property `White_Space`, which
/// `PropList.txt` of the Unicode character database gives to the characters listed in
/// [`is_white_space`].
pub assume_specification[ char::is_whitespace ](c: char) -> (b: bool)
    ensures
        b == is_white_space(c),
;

/// Whether `c` is an ASCII letter or digit.
pub open spec fn is_ascii_alphanumeric(c: char) -> bool {
    'a' <= c <= 'z' || 'A' <= c <= 'Z' || '0' <= c <= '9'
}

/// Whether `char::is_alphanumeric` holds of a character outside ASCII: whether Unicode
/// gives it the property `Alphabetic` or one of the general categories `Nd`, `Nl` and `No`.
pub uninterp spec fn unicode_alphanumeric(c: char) -> bool;

/// Whether `c` is a letter or a digit in the sense of Unicode.
pub open spec fn is_alphanumeric(c: char) -> bool {
    if c <= '\u{7f}' {
        is_ascii_alphanumeric(c)
    } else {
        unicode_alphanumeric(c)
    }
}

/// `char::is_alphanumeric`: within ASCII the letters and the digits; outside it, what the
/// Unicode tables say.
pub assume_specification[ char::is_alphanumeric ](c: char) -> (b: bool)
    ensures
        c <= '\u{7f}' ==> b == is_ascii_alphanumeric(c),
        c > '\u{7f}' ==> b == unicode_alphanumeric(c),
;

/// Whether `c` is an ASCII control character.
pub open spec fn is_control(c: char) -> bool {
    c < '\u{20}' || c == '\u{7f}'
}

/// Whether `s` holds no ASCII control character.
pub open spec fn control_free(s: Seq<char>) -> bool {
    forall|i: int| 0 <= i < s.len() ==> !is_control(#[trigger] s[i])
}

/// What the `Debug` implementation of `str` writes for a string.
pub uninterp spec fn debug_form(s: Seq<char>) -> Seq<char>;

/// `format!("{:?}", text)`: the string in double quotes, with the characters escaped that
/// would not show. No ASCII control character comes out of it unescaped.
#[verifier::external_body]
pub(crate) fn debug_text(text: &str) -> (s: String)
    ensures
        s@ == debug_form(text@),
        control_free(s@),
{
    format!("{:?}", text)
}

// ---------------------------------------------------------------------------
// Trimming and prefixes
// ---------------------------------------------------------------------------

/// `s` without the white space in front.
pub open spec fn trim_start(s: Seq<char>) -> Seq<char>
    decreases s.len(),
{
    if s.len() > 0 && is_white_space(s[0]) {
        trim_start(s.drop_first())
    } else {
        s
    }
}

/// `s` without the white space at the end.
pub open spec fn trim_end(s: Seq<char>) -> Seq<char>
    decreases s.len(),
{
    if s.len() > 0 && is_white_space(s.last()) {
        trim_end(s.drop_last())
    } else {
        s
    }
}

/// `s` without the white space at both ends.
pub open spec fn trimmed(s: Seq<char>) -> Seq<char> {
    trim_end(trim_start(s))
}

/// Whether neither end of `s` is white space.
pub open spec fn is_trimmed(s: Seq<char>) -> bool {
    s.len() > 0 ==> !is_white_space(s[0]) && !is_white_space(s.last())
}

/// Drop the white space in front of `s`.
pub fn trim_start_text(s: &str) -> (r: String)
    ensures
        r@ == trim_start(s@),
{
    let chars = chars_of(s);
    let from = white_prefix(&chars);
    text_between(chars.as_slice(), from, chars.len())
}

/// Drop the white space at both ends of `s`.
pub fn trim_text(s: &str) -> (r: String)
    ensures
        r@ == trimmed(s@),
{
    let chars = chars_of(s);
    let from = white_prefix(&chars);
    let mut to: usize = chars.len();
    proof {
        assert(chars@.subrange(from as int, to as int) =~= chars@.skip(from as int));
    }
    while to > from && chars[to - 1].is_whitespace()
        invariant
            from <= to <= chars@.len(),
            trim_end(chars@.subrange(from as int, to as int)) == trimmed(s@),
        decreases to,
    {
        proof {
            let now = chars@.subrange(from as int, to as int);
            assert(now.last() == chars@[to - 1]);
            assert(now.drop_last() =~= chars@.subrange(from as int, to - 1));
        }
        to = to - 1;
    }
    proof {
        let now = chars@.subrange(from as int, to as int);
        if to > from {
            assert(now.last() == chars@[to - 1]);
        }
    }
    text_between(chars.as_slice(), from, to)
}

fn white_prefix(chars: &Vec<char>) -> (from: usize)
    ensures
        from <= chars@.len(),
        chars@.skip(from as int) == trim_start(chars@),
        chars@.subrange(from as int, chars@.len() as int) == trim_start(chars@),
{
    let mut from: usize = 0;
    proof {
        assert(chars@.skip(0) =~= chars@);
    }
    while from < chars.len() && chars[from].is_whitespace()
        invariant
            from <= chars@.len(),
            trim_start(chars@.skip(from as int)) == trim_start(chars@),
        decreases chars@.len() - from,
    {
        proof {
            let now = chars@.skip(from as int);
            assert(now[0] == chars@[from as int]);
            assert(now.drop_first() =~= chars@.skip(from + 1));
        }
        from = from + 1;
    }
    proof {
        let now = chars@.skip(from as int);
        if from < chars@.len() {
            assert(now[0] == chars@[from as int]);
        }
        assert(now =~= chars@.subrange(from as int, chars@.len() as int));
    }
    from
}

/// The number of characters of `s` in front of the first `c`, or all of them.
pub open spec fn run_before(s: Seq<char>, c: char) -> nat
    decreases s.len(),
{
    if s.len() == 0 || s[0] == c {
        0
    } else {
        1 + run_before(s.drop_first(), c)
    }
}

/// A run ends in front of the character that it stops at, and holds none.
pub proof fn run_before_stops(s: Seq<char>, c: char)
    ensures
        run_before(s, c) <= s.len(),
        forall|i: int| 0 <= i < run_before(s, c) ==> #[trigger] s[i] != c,
        run_before(s, c) < s.len() ==> s[run_before(s, c) as int] == c,
    decreases s.len(),
{
    if s.len() > 0 && s[0] != c {
        let rest = s.drop_first();
        run_before_stops(rest, c);
        assert forall|i: int| 0 <= i < run_before(s, c) implies #[trigger] s[i] != c by {
            if i > 0 {
                assert(s[i] == rest[i - 1]);
            }
        }
        if run_before(s, c) < s.len() {
            assert(s[run_before(s, c) as int] == rest[run_before(s, c) - 1]);
        }
    }
}

/// Find the first `c` at or behind `from`, or the end.
pub fn find_char(chars: &[char], from: usize, c: char) -> (to: usize)
    requires
        from <= chars@.len(),
    ensures
        from <= to <= chars@.len(),
        to - from == run_before(chars@.skip(from as int), c),
{
    let ghost rest = chars@.skip(from as int);
    let mut to: usize = from;
    proof {
        assert(rest.skip(0) =~= rest);
    }
    while to < chars.len() && chars[to] != c
        invariant
            from <= to <= chars@.len(),
            rest == chars@.skip(from as int),
            run_before(rest, c) == (to - from) + run_before(rest.skip(to - from), c),
        decreases chars@.len() - to,
    {
        proof {
            let now = rest.skip(to - from);
            assert(now[0] == chars@[to as int]);
            assert(now.drop_first() =~= rest.skip(to + 1 - from));
        }
        to = to + 1;
    }
    proof {
        let now = rest.skip(to - from);
        if to < chars@.len() {
            assert(now[0] == chars@[to as int]);
        }
    }
    to
}

/// Whether `s` begins with `prefix`.
pub fn begins_with(s: &str, prefix: &str) -> (r: bool)
    ensures
        r == prefix@.is_prefix_of(s@),
{
    let chars = chars_of(s);
    let wanted = chars_of(prefix);
    if wanted.len() > chars.len() {
        return false;
    }
    let mut i: usize = 0;
    while i < wanted.len()
        invariant
            i <= wanted@.len() <= chars@.len(),
            chars@ == s@,
            wanted@ == prefix@,
            forall|j: int| 0 <= j < i ==> chars@[j] == wanted@[j],
        decreases wanted@.len() - i,
    {
        if chars[i] != wanted[i] {
            return false;
        }
        i = i + 1;
    }
    proof {
        assert(s@.subrange(0, prefix@.len() as int) =~= prefix@);
    }
    true
}

/// Trimming leaves a piece of the text that has no white space at its ends.
pub proof fn trimming_trims(s: Seq<char>)
    ensures
        is_trimmed(trimmed(s)),
        is_trimmed(s) ==> trimmed(s) == s,
        trimmed(trimmed(s)) == trimmed(s),
{
    trim_start_trims(s);
    trim_end_trims(trim_start(s));
    let t = trimmed(s);
    trim_start_trims(t);
    trim_end_trims(trim_start(t));
}

proof fn trim_start_trims(s: Seq<char>)
    ensures
        trim_start(s).len() > 0 ==> !is_white_space(trim_start(s)[0]),
        s.len() > 0 && !is_white_space(s[0]) ==> trim_start(s) == s,
        s.len() == 0 ==> trim_start(s) == s,
    decreases s.len(),
{
    if s.len() > 0 && is_white_space(s[0]) {
        trim_start_trims(s.drop_first());
    }
}

proof fn trim_end_trims(s: Seq<char>)
    ensures
        trim_end(s).len() > 0 ==> !is_white_space(trim_end(s).last()) && s.len() > 0 && trim_end(
            s,
        )[0] == s[0],
        s.len() > 0 && !is_white_space(s.last()) ==> trim_end(s) == s,
        s.len() == 0 ==> trim_end(s) == s,
    decreases s.len(),
{
    if s.len() > 0 && is_white_space(s.last()) {
        trim_end_trims(s.drop_last());
    }
}

// ---------------------------------------------------------------------------
// Lines
// ---------------------------------------------------------------------------

/// Each line followed by a line feed.
pub open spec fn unlines(lines: Seq<Seq<char>>) -> Seq<char>
    decreases lines.len(),
{
    if lines.len() == 0 {
        Seq::empty()
    } else {
        unlines(lines.drop_last()) + lines.last() + seq!['\n']
    }
}

/// The lines of two runs of lines are those of the first, then those of the second.
pub proof fn unlines_append(a: Seq<Seq<char>>, b: Seq<Seq<char>>)
    ensures
        unlines(a + b) == unlines(a) + unlines(b),
    decreases b.len(),
{
    if b.len() == 0 {
        assert(a + b =~= a);
        assert(unlines(a) + unlines(b) =~= unlines(a));
    } else {
        unlines_append(a, b.drop_last());
        assert((a + b).drop_last() =~= a + b.drop_last());
        assert((a + b).last() == b.last());
        assert(unlines(a + b) =~= unlines(a) + unlines(b));
    }
}

/// A single line.
pub proof fn unlines_one(line: Seq<char>)
    ensures
        unlines(seq![line]) == line + seq!['\n'],
{
    assert(seq![line].drop_last() =~= Seq::<Seq<char>>::empty());
    assert(unlines(seq![line].drop_last()) =~= Seq::<char>::empty());
    assert(unlines(seq![line]) =~= line + seq!['\n']);
}

/// Append `line` and a line feed to `out`.
pub fn push_line(out: &mut String, line: &str)
    ensures
        final(out)@ == old(out)@ + unlines(seq![line@]),
{
    out.append(line);
    out.push('\n');
    proof {
        unlines_one(line@);
        assert(out@ =~= old(out)@ + unlines(seq![line@]));
    }
}

/// A line without the carriage return at its end.
pub open spec fn without_return(line: Seq<char>) -> Seq<char> {
    if line.len() > 0 && line.last() == '\r' {
        line.drop_last()
    } else {
        line
    }
}

/// The lines of `s`. A line ends with a line feed, with or without a carriage return in front
/// of it; the last one may also end where the text does.
pub open spec fn lines(s: Seq<char>) -> Seq<Seq<char>>
    decreases s.len(),
{
    if s.len() == 0 {
        Seq::empty()
    } else if run_before(s, '\n') < s.len() {
        seq![without_return(s.take(run_before(s, '\n') as int))] + lines(s.skip(run_before(s, '\n') as int + 1))
    } else {
        seq![s]
    }
}

/// Split a text into its lines.
pub fn split_lines(s: &str) -> (r: Vec<String>)
    ensures
        texts(r@) == lines(s@),
{
    let chars = chars_of(s);
    let mut out: Vec<String> = Vec::new();
    let mut from: usize = 0;
    proof {
        assert(chars@.skip(0) =~= chars@);
        assert(texts(out@) + lines(chars@) =~= lines(chars@));
    }
    while from < chars.len()
        invariant
            from <= chars@.len(),
            texts(out@) + lines(chars@.skip(from as int)) == lines(chars@),
        decreases chars@.len() - from,
    {
        let ghost rest = chars@.skip(from as int);
        let ghost before = out@;
        let to = find_char(chars.as_slice(), from, '\n');
        if to < chars.len() {
            let end: usize = if to > from && chars[to - 1] == '\r' {
                to - 1
            } else {
                to
            };
            let line = text_between(chars.as_slice(), from, end);
            out.push(line);
            proof {
                let whole = rest.take(to - from);
                if to > from {
                    assert(whole.last() == chars@[to - 1]);
                }
                assert(without_return(whole) =~= line@);
                assert(rest.skip(to - from + 1) =~= chars@.skip(to + 1));
                assert(texts(out@) =~= texts(before).push(line@));
                assert(texts(out@) + lines(chars@.skip(to + 1)) =~= texts(before) + lines(rest));
            }
            from = to + 1;
        } else {
            let line = text_between(chars.as_slice(), from, to);
            out.push(line);
            proof {
                assert(line@ =~= rest);
                assert(texts(out@) =~= texts(before).push(line@));
                assert(chars@.skip(to as int) =~= Seq::<char>::empty());
                assert(texts(out@) + lines(chars@.skip(to as int)) =~= texts(before) + lines(rest));
            }
            from = to;
        }
    }
    proof {
        assert(chars@.skip(from as int) =~= Seq::<char>::empty());
        assert(texts(out@) + lines(chars@.skip(from as int)) =~= texts(out@));
    }
    out
}

/// Whether `line` survives being written and split off again: it holds no line feed, and no
/// carriage return at its end.
pub open spec fn is_line(line: Seq<char>) -> bool {
    &&& forall|i: int| 0 <= i < line.len() ==> #[trigger] line[i] != '\n'
    &&& line.len() > 0 ==> line.last() != '\r'
}

/// Lines that are written, each with a line feed, are read back as they were.
pub proof fn written_lines_read_back(list: Seq<Seq<char>>)
    requires
        forall|i: int| 0 <= i < list.len() ==> is_line(#[trigger] list[i]),
    ensures
        lines(unlines(list)) == list,
    decreases list.len(),
{
    if list.len() == 0 {
        assert(lines(unlines(list)) =~= list);
    } else {
        let first = list[0];
        let rest = list.skip(1);
        assert(is_line(first));
        assert forall|i: int| 0 <= i < rest.len() implies is_line(#[trigger] rest[i]) by {
            assert(rest[i] == list[i + 1]);
        }
        written_lines_read_back(rest);
        assert(list =~= seq![first] + rest);
        unlines_append(seq![first], rest);
        unlines_one(first);
        let whole = unlines(list);
        assert(whole =~= first + seq!['\n'] + unlines(rest));
        run_before_stops(whole, '\n');
        let n = run_before(whole, '\n');
        if n < first.len() {
            assert(whole[n as int] == first[n as int]);
        } else if n > first.len() {
            assert(whole[first.len() as int] == '\n');
        }
        assert(whole.take(n as int) =~= first);
        assert(whole.skip(n as int + 1) =~= unlines(rest));
        assert(lines(whole) =~= seq![first] + lines(unlines(rest)));
    }
}

/// No line of a text holds a line feed.
pub proof fn lines_hold_no_line_feed(s: Seq<char>)
    ensures
        forall|i: int, j: int|
            0 <= i < lines(s).len() && 0 <= j < lines(s)[i].len() ==> #[trigger] lines(s)[i][j]
                != '\n',
    decreases s.len(),
{
    if s.len() > 0 {
        run_before_stops(s, '\n');
        let n = run_before(s, '\n');
        if n < s.len() {
            let rest = s.skip(n as int + 1);
            lines_hold_no_line_feed(rest);
            assert forall|i: int, j: int|
                0 <= i < lines(s).len() && 0 <= j < lines(s)[i].len() implies #[trigger] lines(
                s,
            )[i][j] != '\n' by {
                if i == 0 {
                    assert(lines(s)[0] == without_return(s.take(n as int)));
                    assert(lines(s)[0][j] == s[j]);
                } else {
                    assert(lines(s)[i] == lines(rest)[i - 1]);
                }
            }
        }
    }
}

// ---------------------------------------------------------------------------
// Text without control characters
// ---------------------------------------------------------------------------

/// Two pieces without control characters make one without.
pub broadcast proof fn control_free_append(a: Seq<char>, b: Seq<char>)
    requires
        control_free(a),
        control_free(b),
    ensures
        #[trigger] control_free(a + b),
{
    assert forall|i: int| 0 <= i < (a + b).len() implies !is_control(#[trigger] (a + b)[i]) by {
        if i < a.len() {
            assert((a + b)[i] == a[i]);
        } else {
            assert((a + b)[i] == b[i - a.len()]);
        }
    }
}

/// A number in decimal holds no control character.
pub broadcast proof fn decimal_is_control_free(n: nat)
    ensures
        #[trigger] control_free(decimal(n)),
{
    decimal_reads_back(n);
    assert forall|i: int| 0 <= i < decimal(n).len() implies !is_control(
        #[trigger] decimal(n)[i],
    ) by {
        assert(is_digit(decimal(n)[i]));
    }
}

/// Padding in front adds no control character.
pub broadcast proof fn pad_left_is_control_free(s: Seq<char>, width: nat)
    requires
        control_free(s),
    ensures
        #[trigger] control_free(pad_left(s, width)),
{
    if s.len() < width {
        let blank = repeated(' ', (width - s.len()) as nat);
        assert(control_free(blank));
        control_free_append(blank, s);
    }
}

/// Padding behind adds no control character.
pub broadcast proof fn pad_right_is_control_free(s: Seq<char>, width: nat)
    requires
        control_free(s),
    ensures
        #[trigger] control_free(pad_right(s, width)),
{
    if s.len() < width {
        let blank = repeated(' ', (width - s.len()) as nat);
        assert(control_free(blank));
        control_free_append(s, blank);
    }
}

/// What keeps assembled text free of control characters.
pub broadcast group printable_pieces {
    control_free_append,
    decimal_is_control_free,
    pad_left_is_control_free,
    pad_right_is_control_free,
}

// ---------------------------------------------------------------------------
// Laws
// ---------------------------------------------------------------------------

/// Trimming takes white space away from the ends and nothing else: what is left is a piece of
/// the text, and all that stood in front of it and behind it is white space.
pub proof fn trimming_takes_only_white_space(s: Seq<char>) -> (ends: (int, int))
    ensures
        0 <= ends.0 <= ends.1 <= s.len(),
        trimmed(s) == s.subrange(ends.0, ends.1),
        forall|i: int| 0 <= i < ends.0 || ends.1 <= i < s.len() ==> is_white_space(#[trigger] s[i]),
        ends.0 < ends.1 ==> !is_white_space(s[ends.0]) && !is_white_space(s[ends.1 - 1]),
{
    let from = trim_start_takes_only_white_space(s);
    let t = trim_start(s);
    let to = trim_end_takes_only_white_space(t);
    assert(trimmed(s) =~= s.subrange(from, from + to));
    assert forall|i: int| 0 <= i < from || from + to <= i < s.len() implies is_white_space(
        #[trigger] s[i],
    ) by {
        if i >= from + to {
            assert(s[i] == t[i - from]);
        }
    }
    if 0 < to {
        assert(t[0] == s[from]);
        assert(t[to - 1] == s[from + to - 1]);
    }
    (from, from + to)
}

/// Taking white space away in front leaves the rest as it is, from its first character that is
/// none.
pub proof fn trim_start_takes_only_white_space(s: Seq<char>) -> (from: int)
    ensures
        0 <= from <= s.len(),
        trim_start(s) == s.skip(from),
        forall|i: int| 0 <= i < from ==> is_white_space(#[trigger] s[i]),
        from < s.len() ==> !is_white_space(s[from]),
    decreases s.len(),
{
    if s.len() > 0 && is_white_space(s[0]) {
        let rest = s.drop_first();
        let n = trim_start_takes_only_white_space(rest);
        assert(rest.skip(n) =~= s.skip(n + 1));
        assert forall|i: int| 0 <= i < n + 1 implies is_white_space(#[trigger] s[i]) by {
            if i > 0 {
                assert(s[i] == rest[i - 1]);
            }
        }
        if n + 1 < s.len() {
            assert(s[n + 1] == rest[n]);
        }
        n + 1
    } else {
        assert(s.skip(0) =~= s);
        0
    }
}

proof fn trim_end_takes_only_white_space(s: Seq<char>) -> (to: int)
    ensures
        0 <= to <= s.len(),
        trim_end(s) == s.take(to),
        forall|i: int| to <= i < s.len() ==> is_white_space(#[trigger] s[i]),
        0 < to ==> !is_white_space(s[to - 1]),
        s.len() > 0 && !is_white_space(s[0]) ==> to > 0,
    decreases s.len(),
{
    if s.len() > 0 && is_white_space(s.last()) {
        let front = s.drop_last();
        let n = trim_end_takes_only_white_space(front);
        assert(front.take(n) =~= s.take(n));
        assert forall|i: int| n <= i < s.len() implies is_white_space(#[trigger] s[i]) by {
            if i < front.len() {
                assert(s[i] == front[i]);
            }
        }
        if front.len() > 0 {
            assert(front[0] == s[0]);
        }
        n
    } else {
        assert(s.take(s.len() as int) =~= s);
        s.len() as int
    }
}

/// Digits count by their place: one more digit behind a number makes it ten times as much, and
/// the digit more. A digit is one of the ten from `0` to `9`, and counts as many as it stands
/// behind `0`.
pub proof fn digits_count_by_their_place(s: Seq<char>, c: char)
    ensures
        decimal_value(Seq::empty()) == 0,
        is_digit(c) <==> 48 <= c as nat <= 57,
        is_digit(c) ==> decimal_value(s.push(c)) == 10 * decimal_value(s) + (c as nat - 48),
{
    assert(s.push(c).drop_last() =~= s);
}

/// A number is written without a zero in front of it.
pub proof fn numbers_have_no_leading_zero(n: nat)
    ensures
        n > 0 ==> decimal(n)[0] != '0',
        decimal(0) == seq!['0'],
    decreases n,
{
    if n >= 10 {
        numbers_have_no_leading_zero(n / 10);
        decimal_reads_back(n / 10);
        assert(decimal(n)[0] == decimal(n / 10)[0]);
    }
}

/// The value of a hexadecimal digit, of either case.
pub open spec fn hex_value(c: char) -> Option<nat> {
    if '0' <= c <= '9' {
        Some((c as nat - 48) as nat)
    } else if 'a' <= c <= 'f' {
        Some((c as nat - 87) as nat)
    } else if 'A' <= c <= 'F' {
        Some((c as nat - 55) as nat)
    } else {
        None
    }
}

/// Hexadecimal digits count by their place as well, the last one counting singly, and none is a
/// capital letter.
pub proof fn hex_digits_count_by_their_place(n: nat, width: nat)
    ensures
        hex_digits(n, 0).len() == 0,
        hex_digits(n, width + 1).len() == width + 1,
        hex_digits(n, width + 1).drop_last() == hex_digits(n / 16, width),
        hex_value(hex_digits(n, width + 1).last()) == Some(n % 16),
        !('A' <= hex_digits(n, width + 1).last() <= 'Z'),
{
    hex_digits_len(n / 16, width);
    assert(hex_digits(n, width + 1).drop_last() =~= hex_digits(n / 16, width));
}

/// A text in a column is not changed, and not cut: it stands at its end of the column, and what
/// is left of the width is spaces.
pub proof fn columns_are_filled_with_spaces(text: Seq<char>, width: nat)
    ensures
        ({
            let left = pad_left(text, width);
            let right = pad_right(text, width);
            let len = if text.len() < width {
                width
            } else {
                text.len()
            };
            &&& left.len() == len && right.len() == len
            &&& left.skip(len - text.len()) == text
            &&& right.take(text.len() as int) == text
            &&& forall|i: int| 0 <= i < len - text.len() ==> #[trigger] left[i] == ' '
            &&& forall|i: int| text.len() <= i < len ==> #[trigger] right[i] == ' '
        }),
{
    assert(pad_left(text, width).skip(pad_left(text, width).len() - text.len()) =~= text);
    assert(pad_right(text, width).take(text.len() as int) =~= text);
}

/// Between each two items that are joined stands the separator, and nothing else is added.
pub proof fn items_are_joined_by_the_separator(
    list: Seq<Seq<char>>,
    sep: Seq<char>,
    item: Seq<char>,
)
    ensures
        joined(Seq::empty(), sep).len() == 0,
        joined(seq![item], sep) == item,
        list.len() > 0 ==> joined(list.push(item), sep) == joined(list, sep) + sep + item,
{
    assert(list.push(item).drop_last() =~= list);
}

/// A text ends its first line at its first line feed, with or without a carriage return in
/// front of it; the lines of the rest follow. A text without one is a single line as it stands,
/// and an empty one has no line.
pub proof fn lines_end_at_line_feeds(first: Seq<char>, rest: Seq<char>)
    requires
        forall|i: int| 0 <= i < first.len() ==> #[trigger] first[i] != '\n',
    ensures
        lines(Seq::empty()).len() == 0,
        first.len() > 0 ==> lines(first) == seq![first],
        first.len() == 0 || first.last() != '\r' ==> lines(first + seq!['\n'] + rest) == seq![first]
            + lines(rest),
        lines(first + seq!['\r', '\n'] + rest) == seq![first] + lines(rest),
{
    run_before_stops(first, '\n');
    let plain = first + seq!['\n'] + rest;
    let returned = first + seq!['\r', '\n'] + rest;
    one_line_ends(first, plain, rest);
    assert(returned =~= first.push('\r') + seq!['\n'] + rest);
    assert forall|i: int| 0 <= i < first.push('\r').len() implies #[trigger] first.push('\r')[i]
        != '\n' by {
        if i < first.len() {
            assert(first.push('\r')[i] == first[i]);
        }
    }
    one_line_ends(first.push('\r'), returned, rest);
    assert(without_return(first.push('\r')) =~= first);
}

proof fn one_line_ends(first: Seq<char>, whole: Seq<char>, rest: Seq<char>)
    requires
        whole == first + seq!['\n'] + rest,
        forall|i: int| 0 <= i < first.len() ==> #[trigger] first[i] != '\n',
    ensures
        lines(whole) == seq![without_return(first)] + lines(rest),
{
    run_before_stops(whole, '\n');
    let n = run_before(whole, '\n') as int;
    assert(whole[first.len() as int] == '\n');
    if n < first.len() {
        assert(whole[n] == first[n]);
    }
    assert(whole.take(n) =~= first);
    assert(whole.skip(n + 1) =~= rest);
}

/// A text is free of ASCII control characters exactly where each of its characters is a space,
/// one behind it up to the tilde, or no ASCII character.
pub proof fn control_characters_do_not_show(s: Seq<char>)
    ensures
        control_free(s) <==> forall|k: int|
            0 <= k < s.len() ==> ' ' <= #[trigger] s[k] <= '~' || s[k] >= '\u{80}',
{
    if control_free(s) {
        assert forall|k: int| 0 <= k < s.len() implies ' ' <= #[trigger] s[k] <= '~' || s[k]
            >= '\u{80}' by {
            assert(!is_control(s[k]));
        }
    } else {
        let k = choose|k: int| 0 <= k < s.len() && is_control(#[trigger] s[k]);
        assert(!(' ' <= s[k] <= '~' || s[k] >= '\u{80}'));
    }
}

/// Of the ASCII characters, the letters and digits are alphanumeric and no others; and white
/// space are the space and the five controls from the tab on. Beyond ASCII, white space are the
/// next line, the no-break spaces, the separators and the spaces of fixed width.
pub proof fn characters_are_told_apart_by_their_number(c: char)
    ensures
        c as u32 <= 127 ==> (is_alphanumeric(c) <==> 48 <= c as u32 <= 57 || 65 <= c as u32 <= 90
            || 97 <= c as u32 <= 122),
        c as u32 <= 127 ==> (is_white_space(c) <==> 9 <= c as u32 <= 13 || c as u32 == 32),
        c as u32 > 127 ==> (is_white_space(c) <==> c as u32 == 133 || c as u32 == 160 || c as u32
            == 5760 || 8192 <= c as u32 <= 8202 || c as u32 == 8232 || c as u32 == 8233 || c as u32
            == 8239 || c as u32 == 8287 || c as u32 == 12288),
        is_digit(c) <==> 48 <= c as u32 <= 57,
{
}

} // verus!
