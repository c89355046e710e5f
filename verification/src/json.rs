//! JSON, as far as a conversation with a language model needs it: quoting text, and finding a
//! string in a document.

use crate::text;
use vstd::prelude::*;
use vstd::string::*;

verus! {

/// `serde_json::Value`, a parsed document.
#[verifier::external_type_specification]
#[verifier::external_body]
pub struct ExValue(serde_json::Value);

/// `serde_json::Error`, the reason why text is no document.
#[verifier::external_type_specification]
#[verifier::external_body]
pub struct ExError(serde_json::Error);

/// One step into a document: to a member of an object, or to an element of an array.
pub enum Step {
    Key(Seq<char>),
    At(nat),
}

/// The strings in a document, each under the steps that lead to it.
pub uninterp spec fn strings_in(value: serde_json::Value) -> Map<Seq<Step>, Seq<char>>;

/// The strings in the document that `serde_json::from_slice` reads, if it reads one.
pub uninterp spec fn strings_read(body: Seq<u8>) -> Option<Map<Seq<Step>, Seq<char>>>;

/// The strings behind a step.
pub open spec fn strings_behind(strings: Map<Seq<Step>, Seq<char>>, step: Step) -> Map<
    Seq<Step>,
    Seq<char>,
> {
    Map::new(
        |path: Seq<Step>| strings.contains_key(seq![step] + path),
        |path: Seq<Step>| strings[seq![step] + path],
    )
}

/// `serde_json::from_slice::<serde_json::Value>`: the document that the bytes hold, or an
/// error where they hold none. Which bytes hold which document is not stated.
#[verifier::external_body]
pub(crate) fn parse(body: &[u8]) -> (r: Result<serde_json::Value, serde_json::Error>)
    ensures
        match r {
            Ok(value) => strings_read(body@) == Some(strings_in(value)),
            Err(_) => strings_read(body@) is None,
        },
{
    serde_json::from_slice(body)
}

/// `Index<&str>` of `serde_json::Value`: the member of an object under a key. Where there is
/// none, it is null, which holds no string.
#[verifier::external_body]
pub(crate) fn member<'a>(value: &'a serde_json::Value, key: &str) -> (r: &'a serde_json::Value)
    ensures
        strings_in(*r) == strings_behind(strings_in(*value), Step::Key(key@)),
{
    &value[key]
}

/// `Index<usize>` of `serde_json::Value`: the element of an array at a position. Where there
/// is none, it is null, which holds no string.
#[verifier::external_body]
pub(crate) fn element(value: &serde_json::Value, at: usize) -> (r: &serde_json::Value)
    ensures
        strings_in(*r) == strings_behind(strings_in(*value), Step::At(at as nat)),
{
    &value[at]
}

/// `serde_json::Value::as_str`: the text of a value that is a string.
#[verifier::external_body]
pub(crate) fn string(value: &serde_json::Value) -> (r: Option<String>)
    ensures
        match r {
            Some(s) => strings_in(*value).contains_key(Seq::empty()) && s@ == strings_in(
                *value,
            )[Seq::empty()],
            None => !strings_in(*value).contains_key(Seq::empty()),
        },
{
    value.as_str().map(str::to_owned)
}

/// How a character stands in a JSON string.
pub open spec fn escaped(c: char) -> Seq<char> {
    if c == '"' {
        seq!['\\', '"']
    } else if c == '\\' {
        seq!['\\', '\\']
    } else if c == '\u{8}' {
        seq!['\\', 'b']
    } else if c == '\u{c}' {
        seq!['\\', 'f']
    } else if c == '\n' {
        seq!['\\', 'n']
    } else if c == '\r' {
        seq!['\\', 'r']
    } else if c == '\t' {
        seq!['\\', 't']
    } else if ' ' > c {
        seq!['\\', 'u'] + text::hex_digits(c as nat, 4)
    } else {
        seq![c]
    }
}

/// The characters of a text as they stand in a JSON string.
pub open spec fn all_escaped(s: Seq<char>) -> Seq<char>
    decreases s.len(),
{
    if s.len() == 0 {
        Seq::empty()
    } else {
        all_escaped(s.drop_last()) + escaped(s.last())
    }
}

/// A text as a JSON string.
pub open spec fn quoted(s: Seq<char>) -> Seq<char> {
    seq!['"'] + all_escaped(s) + seq!['"']
}

/// `serde_json::to_string::<str>`: the text in double quotes, with a backslash in front of
/// quotes and backslashes, and with control characters escaped. It does not fail on a string.
#[verifier::external_body]
pub(crate) fn quote(s: &str) -> (r: String)
    ensures
        r@ == quoted(s@),
{
    serde_json::to_string(s).unwrap()
}

// ---------------------------------------------------------------------------
// Reading
// ---------------------------------------------------------------------------

/// A document, as far as requests need it.
pub enum Json {
    Text(Seq<char>),
    Number(nat),
    Flag(bool),
    List(Seq<Json>),
    /// The members in order: their keys, and the value under each.
    Object(Seq<Seq<char>>, Seq<Json>),
}

/// What a backslash and this character stand for in a string.
pub open spec fn named_escape(c: char) -> Option<char> {
    if c == '"' || c == '\\' || c == '/' {
        Some(c)
    } else if c == 'b' {
        Some('\u{8}')
    } else if c == 'f' {
        Some('\u{c}')
    } else if c == 'n' {
        Some('\n')
    } else if c == 'r' {
        Some('\r')
    } else if c == 't' {
        Some('\t')
    } else {
        None
    }
}

/// The number that four hexadecimal digits stand for.
pub open spec fn four_hex(s: Seq<char>) -> Option<nat> {
    match (
        text::hex_value(s[0]),
        text::hex_value(s[1]),
        text::hex_value(s[2]),
        text::hex_value(s[3]),
    ) {
        (Some(a), Some(b), Some(c), Some(d)) => Some(((a * 16 + b) * 16 + c) * 16 + d),
        _ => None,
    }
}

/// A text with one more character in front, and what is left behind it.
pub open spec fn with_first(c: char, read: Option<(Seq<char>, Seq<char>)>) -> Option<
    (Seq<char>, Seq<char>),
> {
    match read {
        Some((t, rest)) => Some((seq![c] + t, rest)),
        None => None,
    }
}

/// The text of the string whose opening quote is behind us, and what follows its closing quote.
/// A quote ends the string, a backslash begins an escape, and a control character may not stand
/// in it. Half a surrogate pair is no character, and is not read.
pub open spec fn read_text(s: Seq<char>) -> Option<(Seq<char>, Seq<char>)>
    decreases s.len(),
{
    if s.len() == 0 {
        None
    } else if s[0] == '"' {
        Some((Seq::empty(), s.skip(1)))
    } else if s[0] == '\\' {
        if s.len() < 2 {
            None
        } else if named_escape(s[1]) is Some {
            with_first(named_escape(s[1])->0, read_text(s.skip(2)))
        } else if s[1] == 'u' && s.len() >= 6 {
            match four_hex(s.subrange(2, 6)) {
                Some(code) if code < 0xd800 || 0xe000 <= code => with_first(
                    code as char,
                    read_text(s.skip(6)),
                ),
                _ => None,
            }
        } else {
            None
        }
    } else if ' ' > s[0] {
        None
    } else {
        with_first(s[0], read_text(s.skip(1)))
    }
}

/// How many digits `s` begins with.
pub open spec fn leading_digits(s: Seq<char>) -> nat
    decreases s.len(),
{
    if s.len() > 0 && text::is_digit(s[0]) {
        1 + leading_digits(s.skip(1))
    } else {
        0
    }
}

/// The value that `s` begins with, and what follows it. No white space stands between tokens.
pub open spec fn read_value(s: Seq<char>) -> Option<(Json, Seq<char>)>
    decreases s.len(), 0nat,
{
    let digits = leading_digits(s) as int;
    if s.len() == 0 {
        None
    } else if s[0] == '"' {
        match read_text(s.skip(1)) {
            Some((t, rest)) => Some((Json::Text(t), rest)),
            None => None,
        }
    } else if s[0] == '[' {
        if s.len() > 1 && s[1] == ']' {
            Some((Json::List(Seq::empty()), s.skip(2)))
        } else {
            match read_items(s.skip(1)) {
                Some((items, rest)) => Some((Json::List(items), rest)),
                None => None,
            }
        }
    } else if s[0] == '{' {
        if s.len() > 1 && s[1] == '}' {
            Some((Json::Object(Seq::empty(), Seq::empty()), s.skip(2)))
        } else {
            match read_members(s.skip(1)) {
                Some((keys, values, rest)) => Some((Json::Object(keys, values), rest)),
                None => None,
            }
        }
    } else if s.len() >= 4 && s.take(4) == "true"@ {
        Some((Json::Flag(true), s.skip(4)))
    } else if s.len() >= 5 && s.take(5) == "false"@ {
        Some((Json::Flag(false), s.skip(5)))
    } else if digits > 0 {
        Some((Json::Number(text::decimal_value(s.take(digits))), s.skip(digits)))
    } else {
        None
    }
}

/// The values up to the end of a list, and what follows it.
pub open spec fn read_items(s: Seq<char>) -> Option<(Seq<Json>, Seq<char>)>
    decreases s.len(), 1nat,
{
    match read_value(s) {
        Some((first, rest)) => if 0 < rest.len() < s.len() && rest[0] == ',' {
            match read_items(rest.skip(1)) {
                Some((items, end)) => Some((seq![first] + items, end)),
                None => None,
            }
        } else if rest.len() > 0 && rest[0] == ']' {
            Some((seq![first], rest.skip(1)))
        } else {
            None
        },
        None => None,
    }
}

/// The members up to the end of an object, and what follows it.
pub open spec fn read_members(s: Seq<char>) -> Option<(Seq<Seq<char>>, Seq<Json>, Seq<char>)>
    decreases s.len(), 1nat,
{
    if s.len() == 0 || s[0] != '"' {
        None
    } else {
        match read_text(s.skip(1)) {
            Some((key, colon)) => if 0 < colon.len() < s.len() && colon[0] == ':' {
                match read_value(colon.skip(1)) {
                    Some((value, rest)) => if 0 < rest.len() < s.len() && rest[0] == ',' {
                        match read_members(rest.skip(1)) {
                            Some((keys, values, end)) => Some(
                                (seq![key] + keys, seq![value] + values, end),
                            ),
                            None => None,
                        }
                    } else if rest.len() > 0 && rest[0] == '}' {
                        Some((seq![key], seq![value], rest.skip(1)))
                    } else {
                        None
                    },
                    None => None,
                }
            } else {
                None
            },
            None => None,
        }
    }
}

/// The document that a text is, from its beginning to its end.
pub open spec fn document(s: Seq<char>) -> Option<Json> {
    match read_value(s) {
        Some((json, rest)) if rest.len() == 0 => Some(json),
        _ => None,
    }
}

/// The value under a key, the first one where it stands more than once.
pub open spec fn under(keys: Seq<Seq<char>>, values: Seq<Json>, key: Seq<char>) -> Option<Json>
    decreases keys.len(),
{
    if keys.len() == 0 {
        None
    } else if keys[0] == key {
        Some(values[0])
    } else {
        under(keys.drop_first(), values.drop_first(), key)
    }
}

/// What stands behind the steps into a document.
pub open spec fn found_at(json: Json, path: Seq<Step>) -> Option<Json>
    decreases path.len(),
{
    if path.len() == 0 {
        Some(json)
    } else {
        match (path[0], json) {
            (Step::Key(key), Json::Object(keys, values)) => match under(keys, values, key) {
                Some(value) => found_at(value, path.drop_first()),
                None => None,
            },
            (Step::At(i), Json::List(items)) => if i < items.len() {
                found_at(items[i as int], path.drop_first())
            } else {
                None
            },
            _ => None,
        }
    }
}

// ---------------------------------------------------------------------------
// Laws
// ---------------------------------------------------------------------------

proof fn escaped_from_the_front(s: Seq<char>)
    requires
        s.len() > 0,
    ensures
        all_escaped(s) == escaped(s[0]) + all_escaped(s.drop_first()),
    decreases s.len(),
{
    if s.len() == 1 {
        assert(s.drop_last() =~= Seq::<char>::empty());
        assert(s.drop_first() =~= Seq::<char>::empty());
        assert(all_escaped(s.drop_last()) =~= Seq::<char>::empty());
        assert(all_escaped(s.drop_first()) =~= Seq::<char>::empty());
        assert(all_escaped(s) =~= escaped(s[0]) + all_escaped(s.drop_first()));
    } else {
        let front = s.drop_last();
        escaped_from_the_front(front);
        assert(s.drop_first().drop_last() =~= front.drop_first());
        assert(s.drop_first().last() == s.last());
        assert(all_escaped(s) =~= escaped(s[0]) + all_escaped(s.drop_first()));
    }
}

proof fn an_escape_is_read_back(c: char, rest: Seq<char>)
    ensures
        read_text(escaped(c) + rest) == with_first(c, read_text(rest)),
{
    let s = escaped(c) + rest;
    if c == '"' || c == '\\' || c == '\u{8}' || c == '\u{c}' || c == '\n' || c == '\r' || c
        == '\t' {
        assert(s[0] == '\\');
        assert(s.skip(2) =~= rest);
    } else if ' ' > c {
        let n = c as nat;
        reveal_with_fuel(text::hex_digits, 5);
        let h = text::hex_digits(n, 4);
        text::hex_digits_len(n, 4);
        assert(n < 32);
        assert(h[0] == text::digit_char(0));
        assert(h[1] == text::digit_char(0));
        assert(h[2] == text::digit_char(n / 16));
        assert(h[3] == text::digit_char(n % 16));
        assert(s[0] == '\\');
        assert(s[1] == 'u');
        assert(s.subrange(2, 6) =~= h);
        assert(s.skip(6) =~= rest);
        assert(text::hex_value(h[0]) == Some(0nat));
        assert(text::hex_value(h[1]) == Some(0nat));
        assert(text::hex_value(h[2]) == Some(n / 16));
        assert(text::hex_value(h[3]) == Some(n % 16));
        assert(four_hex(h) == Some(n));
    } else {
        assert(s[0] == c);
        assert(s.skip(1) =~= rest);
    }
}

/// A text that is quoted is read back as it was, whatever it holds, and whatever follows.
pub proof fn a_quoted_text_is_read_back(t: Seq<char>, rest: Seq<char>)
    ensures
        quoted(t).len() > 0,
        quoted(t)[0] == '"',
        read_text((quoted(t) + rest).skip(1)) == Some((t, rest)),
    decreases t.len(),
{
    let s = (quoted(t) + rest).skip(1);
    assert(s =~= all_escaped(t) + (seq!['"'] + rest));
    quoted_chars_are_read_back(t, rest);
}

proof fn quoted_chars_are_read_back(t: Seq<char>, rest: Seq<char>)
    ensures
        read_text(all_escaped(t) + (seq!['"'] + rest)) == Some((t, rest)),
    decreases t.len(),
{
    let end = seq!['"'] + rest;
    let s = all_escaped(t) + end;
    if t.len() == 0 {
        assert(s =~= end);
        assert(s.skip(1) =~= rest);
        assert(t =~= Seq::<char>::empty());
    } else {
        let tail = t.drop_first();
        escaped_from_the_front(t);
        quoted_chars_are_read_back(tail, rest);
        assert(s =~= escaped(t[0]) + (all_escaped(tail) + end));
        an_escape_is_read_back(t[0], all_escaped(tail) + end);
        assert(seq![t[0]] + tail =~= t);
    }
}

/// How a document is written: without white space, and the members in their order.
pub open spec fn written(json: Json) -> Seq<char>
    decreases json,
{
    match json {
        Json::Text(t) => quoted(t),
        Json::Number(n) => text::decimal(n),
        Json::Flag(b) => if b {
            "true"@
        } else {
            "false"@
        },
        Json::List(items) => seq!['['] + written_items(items) + seq![']'],
        Json::Object(keys, values) => seq!['{'] + written_members(keys, values) + seq!['}'],
    }
}

/// Values with commas between them.
pub open spec fn written_items(items: Seq<Json>) -> Seq<char>
    decreases items,
{
    if items.len() == 0 {
        Seq::empty()
    } else if items.len() == 1 {
        written(items[0])
    } else {
        written(items[0]) + seq![','] + written_items(items.drop_first())
    }
}

/// Members with commas between them.
pub open spec fn written_members(keys: Seq<Seq<char>>, values: Seq<Json>) -> Seq<char>
    decreases values,
{
    if values.len() == 0 {
        Seq::empty()
    } else if values.len() == 1 {
        quoted(keys[0]) + seq![':'] + written(values[0])
    } else {
        quoted(keys[0]) + seq![':'] + written(values[0]) + seq![','] + written_members(
            keys.drop_first(),
            values.drop_first(),
        )
    }
}

/// Whether every object in a document has a key for each value, and no list or object is
/// empty.
pub open spec fn is_sound(json: Json) -> bool
    decreases json,
{
    match json {
        Json::List(items) => items.len() > 0 && all_sound(items),
        Json::Object(keys, values) => values.len() > 0 && keys.len() == values.len() && all_sound(
            values,
        ),
        _ => true,
    }
}

/// Whether all values are sound.
pub open spec fn all_sound(items: Seq<Json>) -> bool
    decreases items,
{
    items.len() > 0 ==> is_sound(items[0]) && all_sound(items.drop_first())
}

proof fn digits_lead(s: Seq<char>, rest: Seq<char>)
    requires
        text::all_digits(s),
        rest.len() == 0 || !text::is_digit(rest[0]),
    ensures
        leading_digits(s + rest) == s.len(),
    decreases s.len(),
{
    if s.len() == 0 {
        assert(s + rest =~= rest);
    } else {
        assert((s + rest)[0] == s[0]);
        assert((s + rest).skip(1) =~= s.drop_first() + rest);
        assert forall|i: int| 0 <= i < s.drop_first().len() implies text::is_digit(
            #[trigger] s.drop_first()[i],
        ) by {
            assert(s.drop_first()[i] == s[i + 1]);
        }
        digits_lead(s.drop_first(), rest);
    }
}

proof fn a_number_is_read_back(n: nat, rest: Seq<char>)
    requires
        rest.len() == 0 || !text::is_digit(rest[0]),
    ensures
        text::decimal(n).len() > 0,
        text::is_digit(text::decimal(n)[0]),
        read_value(text::decimal(n) + rest) == Some((Json::Number(n), rest)),
{
    let d = text::decimal(n);
    let s = d + rest;
    text::decimal_reads_back(n);
    digits_lead(d, rest);
    reveal_strlit("true");
    reveal_strlit("false");
    assert(text::is_digit(d[0]));
    assert(s[0] == d[0]);
    if s.len() >= 4 {
        assert(s.take(4)[0] == s[0]);
    }
    if s.len() >= 5 {
        assert(s.take(5)[0] == s[0]);
    }
    assert(s.take(d.len() as int) =~= d);
    assert(s.skip(d.len() as int) =~= rest);
}

proof fn a_flag_is_read_back(b: bool, rest: Seq<char>)
    ensures
        written(Json::Flag(b)).len() > 0,
        written(Json::Flag(b))[0] != ']' && written(Json::Flag(b))[0] != '}',
        read_value(written(Json::Flag(b)) + rest) == Some((Json::Flag(b), rest)),
{
    let s = written(Json::Flag(b)) + rest;
    reveal_strlit("true");
    reveal_strlit("false");
    if b {
        assert(s[0] == 't');
        assert(s.take(4) =~= "true"@);
        assert(s.skip(4) =~= rest);
    } else {
        assert(s[0] == 'f');
        assert(s.take(4)[0] == 'f');
        assert(s.take(5) =~= "false"@);
        assert(s.skip(5) =~= rest);
    }
}

/// A document that is written is read back as it was, whatever follows it that is no digit.
pub proof fn a_written_document_is_read_back(json: Json, rest: Seq<char>)
    requires
        is_sound(json),
        rest.len() == 0 || !text::is_digit(rest[0]),
    ensures
        written(json).len() > 0,
        written(json)[0] != ']' && written(json)[0] != '}',
        read_value(written(json) + rest) == Some((json, rest)),
    decreases json,
{
    let s = written(json) + rest;
    match json {
        Json::Text(t) => {
            a_quoted_text_is_read_back(t, rest);
            assert(s[0] == '"');
        },
        Json::Number(n) => {
            a_number_is_read_back(n, rest);
        },
        Json::Flag(b) => {
            a_flag_is_read_back(b, rest);
        },
        Json::List(items) => {
            written_items_are_read_back(items, rest);
            assert(s[0] == '[');
            assert(s.skip(1) =~= written_items(items) + (seq![']'] + rest));
            assert(s[1] == written_items(items)[0]);
        },
        Json::Object(keys, values) => {
            written_members_are_read_back(keys, values, rest);
            assert(s[0] == '{');
            assert(s.skip(1) =~= written_members(keys, values) + (seq!['}'] + rest));
            assert(s[1] == written_members(keys, values)[0]);
        },
    }
}

proof fn written_items_are_read_back(items: Seq<Json>, rest: Seq<char>)
    requires
        items.len() > 0,
        all_sound(items),
    ensures
        written_items(items).len() > 0,
        written_items(items)[0] != ']' && written_items(items)[0] != '}',
        read_items(written_items(items) + (seq![']'] + rest)) == Some((items, rest)),
    decreases items,
{
    let end = seq![']'] + rest;
    let s = written_items(items) + end;
    let first = items[0];
    let tail = items.drop_first();
    if items.len() == 1 {
        a_written_document_is_read_back(first, end);
        assert(end.skip(1) =~= rest);
        assert(seq![first] =~= items);
    } else {
        let more = written_items(tail) + end;
        a_written_document_is_read_back(first, seq![','] + more);
        written_items_are_read_back(tail, rest);
        assert(s =~= written(first) + (seq![','] + more));
        assert((seq![','] + more).skip(1) =~= more);
        assert(seq![first] + tail =~= items);
        assert(written_items(items)[0] == written(first)[0]);
    }
}

proof fn written_members_are_read_back(keys: Seq<Seq<char>>, values: Seq<Json>, rest: Seq<char>)
    requires
        values.len() > 0,
        keys.len() == values.len(),
        all_sound(values),
    ensures
        written_members(keys, values).len() > 0,
        written_members(keys, values)[0] == '"',
        read_members(written_members(keys, values) + (seq!['}'] + rest)) == Some(
            (keys, values, rest),
        ),
    decreases values,
{
    let end = seq!['}'] + rest;
    let s = written_members(keys, values) + end;
    let key = keys[0];
    let first = values[0];
    let more = if values.len() == 1 {
        end
    } else {
        seq![','] + (written_members(keys.drop_first(), values.drop_first()) + end)
    };
    let colon = seq![':'] + (written(first) + more);
    a_quoted_text_is_read_back(key, colon);
    a_written_document_is_read_back(first, more);
    assert(s =~= quoted(key) + colon);
    assert(s[0] == '"');
    assert(colon.skip(1) =~= written(first) + more);
    assert(written_members(keys, values)[0] == quoted(key)[0]);
    if values.len() == 1 {
        assert(end.skip(1) =~= rest);
        assert(seq![key] =~= keys);
        assert(seq![first] =~= values);
    } else {
        written_members_are_read_back(keys.drop_first(), values.drop_first(), rest);
        assert(more.skip(1) =~= written_members(keys.drop_first(), values.drop_first()) + end);
        assert(seq![key] + keys.drop_first() =~= keys);
        assert(seq![first] + values.drop_first() =~= values);
    }
}

/// A text without quotes, backslashes and control characters stands in quotes as it is.
pub proof fn plain_text_is_quoted_as_it_is(t: Seq<char>)
    requires
        forall|i: int|
            0 <= i < t.len() ==> (#[trigger] t[i]) >= ' ' && t[i] != '"' && t[i] != '\\',
    ensures
        quoted(t) == seq!['"'] + t + seq!['"'],
    decreases t.len(),
{
    if t.len() > 0 {
        let front = t.drop_last();
        assert forall|i: int| 0 <= i < front.len() implies (#[trigger] front[i]) >= ' '
            && front[i] != '"' && front[i] != '\\' by {
            assert(front[i] == t[i]);
        }
        plain_text_is_quoted_as_it_is(front);
        assert(all_escaped(front) =~= quoted(front).subrange(1, quoted(front).len() - 1));
        assert(all_escaped(front) =~= front);
        assert(t[t.len() - 1] == t.last());
        assert(escaped(t.last()) =~= seq![t.last()]);
        assert(all_escaped(t) =~= t);
    } else {
        assert(all_escaped(t) =~= t);
    }
}

/// An object is written as its first member, a comma, and the rest of its members.
pub proof fn members_are_written_one_by_one(
    key: Seq<char>,
    value: Json,
    keys: Seq<Seq<char>>,
    values: Seq<Json>,
)
    requires
        keys.len() == values.len(),
    ensures
        written_members(seq![key], seq![value]) == quoted(key) + seq![':'] + written(value),
        values.len() > 0 ==> written_members(seq![key] + keys, seq![value] + values) == quoted(key)
            + seq![':'] + written(value) + seq![','] + written_members(keys, values),
{
    assert((seq![key] + keys).drop_first() =~= keys);
    assert((seq![value] + values).drop_first() =~= values);
}

/// A list is written as its first value, a comma, and the rest of its values.
pub proof fn items_are_written_one_by_one(value: Json, items: Seq<Json>)
    ensures
        written_items(seq![value]) == written(value),
        items.len() > 0 ==> written_items(seq![value] + items) == written(value) + seq![',']
            + written_items(items),
{
    assert((seq![value] + items).drop_first() =~= items);
}

} // verus!
