//! Reading a record stream.

use crate::text;
use vstd::prelude::*;
use vstd::string::*;

verus! {

/// A record: a key, an equals sign, and a value.
pub const RECORD_PATTERN: &'static str = "^([A-Z][A-Z0-9_]*)=(.*)$";

/// The header of a bucket of changed files.
pub const BUCKET_PATTERN: &'static str = "^--- ([A-Z][A-Z0-9_]*) ---$";

/// Whether `c` is a capital letter of ASCII.
pub open spec fn is_capital(c: char) -> bool {
    'A' <= c <= 'Z'
}

/// Whether `k` is a key: a capital letter, then capital letters, digits and underscores.
pub open spec fn is_key(k: Seq<char>) -> bool {
    &&& k.len() > 0
    &&& is_capital(k[0])
    &&& forall|i: int|
        0 <= i < k.len() ==> is_capital(#[trigger] k[i]) || text::is_digit(k[i]) || k[i] == '_'
}

/// The key and the value of a line that is a record.
pub open spec fn record_of(line: Seq<char>) -> Option<(Seq<char>, Seq<char>)> {
    let n = text::run_before(line, '=') as int;
    let key = line.take(n);
    let value = line.skip(n + 1);
    if n < line.len() && is_key(key) && !value.contains('\n') {
        Some((key, value))
    } else {
        None
    }
}

/// Whether a line is the header of a bucket: a key between two groups of hyphens.
pub open spec fn is_bucket(line: Seq<char>) -> bool {
    let end = line.len() - 4;
    &&& line.len() > 8
    &&& line.take(4) == "--- "@
    &&& line.skip(end) == " ---"@
    &&& is_key(line.subrange(4, end))
}

/// `regex::Regex::captures` for [`RECORD_PATTERN`]: the two groups where the line is a key, an
/// equals sign and a value, nothing else. A dot stands for any character but a line feed.
#[verifier::external_body]
fn record_groups(pattern: &str, line: &str) -> (r: Option<(String, String)>)
    requires
        pattern@ == RECORD_PATTERN@,
    ensures
        match r {
            Some((key, value)) => record_of(line@) == Some((key@, value@)),
            None => record_of(line@) is None,
        },
{
    let regex = regex::Regex::new(pattern).unwrap();
    regex.captures(line).map(|c| (c[1].to_owned(), c[2].to_owned()))
}

/// `regex::Regex::is_match` for [`BUCKET_PATTERN`]: whether the line is a key between three
/// hyphens and a space on either side, nothing else.
#[verifier::external_body]
fn is_bucket_header(pattern: &str, line: &str) -> (r: bool)
    requires
        pattern@ == BUCKET_PATTERN@,
    ensures
        r == is_bucket(line@),
{
    regex::Regex::new(pattern).unwrap().is_match(line)
}

/// The records among the lines.
pub open spec fn records_among(lines: Seq<Seq<char>>) -> Seq<(Seq<char>, Seq<char>)>
    decreases lines.len(),
{
    if lines.len() == 0 {
        Seq::empty()
    } else {
        let front = records_among(lines.drop_last());
        match record_of(lines.last()) {
            Some(record) => front.push(record),
            None => front,
        }
    }
}

/// Every line of the output that a reader takes for a record, with its key and its value.
pub fn records(out: &str) -> (r: Vec<(String, String)>)
    ensures
        text::pairs(r@) == records_among(text::lines(out@)),
{
    let lines = text::split_lines(out);
    let ghost all = text::texts(lines@);
    let mut found: Vec<(String, String)> = Vec::new();
    let mut i: usize = 0;
    proof {
        assert(text::pairs(found@) =~= records_among(all.take(0)));
    }
    while i < lines.len()
        invariant
            i <= lines@.len(),
            all == text::texts(lines@),
            text::pairs(found@) == records_among(all.take(i as int)),
        decreases lines@.len() - i,
    {
        let ghost before = found@;
        proof {
            assert(all.take(i + 1).drop_last() =~= all.take(i as int));
            assert(all.take(i + 1).last() == lines@[i as int]@);
        }
        if let Some(record) = record_groups(RECORD_PATTERN, lines[i].as_str()) {
            let ghost pair = (record.0@, record.1@);
            found.push(record);
            proof {
                assert(text::pairs(found@) =~= text::pairs(before).push(pair));
            }
        }
        i = i + 1;
    }
    proof {
        assert(all.take(i as int) =~= all);
    }
    found
}

/// The records of a key, in order.
pub open spec fn records_of(recs: Seq<(Seq<char>, Seq<char>)>, key: Seq<char>) -> Seq<
    (Seq<char>, Seq<char>),
> {
    recs.filter(|r: (Seq<char>, Seq<char>)| r.0 == key)
}

/// The values of a key, in order.
pub open spec fn values_of(recs: Seq<(Seq<char>, Seq<char>)>, key: Seq<char>) -> Seq<Seq<char>> {
    records_of(recs, key).map_values(|r: (Seq<char>, Seq<char>)| r.1)
}

/// The values of a key, in order.
pub fn values<'a>(recs: &'a [(String, String)], key: &str) -> (r: Vec<&'a str>)
    ensures
        r@.map_values(|t: &'a str| t@) == values_of(text::pairs(recs@), key@),
{
    let ghost all = text::pairs(recs@);
    let ghost pred = |r: (Seq<char>, Seq<char>)| r.0 == key@;
    let mut out: Vec<&'a str> = Vec::new();
    let mut i: usize = 0;
    proof {
        reveal(Seq::filter);
        assert(out@.map_values(|t: &'a str| t@) =~= values_of(all.take(0), key@));
    }
    while i < recs.len()
        invariant
            i <= recs@.len(),
            all == text::pairs(recs@),
            pred == (|r: (Seq<char>, Seq<char>)| r.0 == key@),
            out@.map_values(|t: &'a str| t@) == values_of(all.take(i as int), key@),
        decreases recs@.len() - i,
    {
        let ghost before = out@;
        proof {
            reveal(Seq::filter);
            assert(all.take(i + 1).drop_last() =~= all.take(i as int));
            assert(all.take(i + 1).last() == (recs@[i as int].0@, recs@[i as int].1@));
        }
        if text::same_text(recs[i].0.as_str(), key) {
            let value: &'a str = recs[i].1.as_str();
            out.push(value);
            proof {
                assert(all.take(i + 1).filter(pred) =~= all.take(i as int).filter(pred).push(
                    all[i as int],
                ));
                assert(out@.map_values(|t: &'a str| t@) =~= before.map_values(
                    |t: &'a str| t@,
                ).push(value@));
                assert(values_of(all.take(i + 1), key@) =~= values_of(
                    all.take(i as int),
                    key@,
                ).push(value@));
            }
        }
        i = i + 1;
    }
    proof {
        assert(all.take(i as int) =~= all);
    }
    out
}

/// How often a key stands.
pub open spec fn times(recs: Seq<(Seq<char>, Seq<char>)>, key: Seq<char>) -> nat
    decreases recs.len(),
{
    if recs.len() == 0 {
        0
    } else {
        times(recs.drop_last(), key) + (if recs.last().0 == key {
            1nat
        } else {
            0nat
        })
    }
}

/// Whether `a` comes before `b` in a sorted list: by the first character in which they differ.
pub open spec fn precedes(a: Seq<char>, b: Seq<char>) -> bool
    decreases a.len(),
{
    if b.len() == 0 {
        false
    } else if a.len() == 0 {
        true
    } else if a[0] == b[0] {
        precedes(a.drop_first(), b.drop_first())
    } else {
        a[0] < b[0]
    }
}

/// A sorted list of keys with one more in it.
pub open spec fn with_key(keys: Seq<Seq<char>>, key: Seq<char>) -> Seq<Seq<char>>
    decreases keys.len(),
{
    if keys.len() == 0 {
        seq![key]
    } else if keys[0] == key {
        keys
    } else if precedes(key, keys[0]) {
        seq![key] + keys
    } else {
        seq![keys[0]] + with_key(keys.skip(1), key)
    }
}

/// The keys, sorted, each once.
pub open spec fn sorted_keys(recs: Seq<(Seq<char>, Seq<char>)>) -> Seq<Seq<char>>
    decreases recs.len(),
{
    if recs.len() == 0 {
        Seq::empty()
    } else {
        with_key(sorted_keys(recs.drop_last()), recs.last().0)
    }
}

/// What is said about a key that stands more than once.
pub open spec fn repetition(recs: Seq<(Seq<char>, Seq<char>)>, key: Seq<char>) -> Seq<char> {
    key + " x"@ + text::decimal(times(recs, key))
}

/// The keys that stand more than once, sorted, each with how often it stands.
pub open spec fn repetitions(recs: Seq<(Seq<char>, Seq<char>)>) -> Seq<Seq<char>> {
    sorted_keys(recs).filter(|k: Seq<char>| times(recs, k) > 1).map_values(
        |k: Seq<char>| repetition(recs, k),
    )
}

fn comes_before(a: &str, b: &str) -> (r: bool)
    ensures
        r == precedes(a@, b@),
{
    let left = text::chars_of(a);
    let right = text::chars_of(b);
    let mut i: usize = 0;
    proof {
        assert(left@.skip(0) =~= left@);
        assert(right@.skip(0) =~= right@);
    }
    while i < left.len() && i < right.len() && left[i] == right[i]
        invariant
            i <= left@.len(),
            i <= right@.len(),
            precedes(left@, right@) == precedes(left@.skip(i as int), right@.skip(i as int)),
        decreases left@.len() - i,
    {
        proof {
            let a1 = left@.skip(i as int);
            let b1 = right@.skip(i as int);
            assert(a1[0] == left@[i as int]);
            assert(b1[0] == right@[i as int]);
            assert(a1.drop_first() =~= left@.skip(i + 1));
            assert(b1.drop_first() =~= right@.skip(i + 1));
        }
        i = i + 1;
    }
    proof {
        if i < left@.len() {
            assert(left@.skip(i as int)[0] == left@[i as int]);
        }
        if i < right@.len() {
            assert(right@.skip(i as int)[0] == right@[i as int]);
        }
    }
    if i >= right.len() {
        false
    } else if i >= left.len() {
        true
    } else {
        left[i] < right[i]
    }
}

fn insert_key(keys: &mut Vec<String>, key: &str)
    ensures
        text::texts(final(keys)@) == with_key(text::texts(old(keys)@), key@),
{
    let ghost all = text::texts(keys@);
    let mut i: usize = 0;
    proof {
        assert(all.skip(0) =~= all);
        assert(all.take(0) + with_key(all, key@) =~= with_key(all, key@));
    }
    while i < keys.len()
        invariant
            i <= keys@.len(),
            all == text::texts(keys@),
            all == text::texts(old(keys)@),
            with_key(all, key@) == all.take(i as int) + with_key(all.skip(i as int), key@),
        decreases keys@.len() - i,
    {
        let ghost rest = all.skip(i as int);
        proof {
            assert(rest[0] == keys@[i as int]@);
            assert(rest.skip(1) =~= all.skip(i + 1));
        }
        if text::same_text(keys[i].as_str(), key) {
            proof {
                assert(all.take(i as int) + rest =~= all);
            }
            return;
        }
        if comes_before(key, keys[i].as_str()) {
            keys.insert(i, key.to_owned());
            proof {
                assert(text::texts(keys@) =~= all.take(i as int) + (seq![key@] + rest));
            }
            return;
        }
        proof {
            assert(all.take(i + 1) + with_key(all.skip(i + 1), key@) =~= all.take(i as int)
                + with_key(rest, key@));
        }
        i = i + 1;
    }
    keys.push(key.to_owned());
    proof {
        assert(all.skip(i as int) =~= Seq::<Seq<char>>::empty());
        assert(text::texts(keys@) =~= all.take(i as int) + seq![key@]);
    }
}

fn count_key(recs: &[(String, String)], key: &str) -> (n: usize)
    ensures
        n == times(text::pairs(recs@), key@),
{
    let ghost all = text::pairs(recs@);
    let mut n: usize = 0;
    let mut i: usize = 0;
    while i < recs.len()
        invariant
            n <= i <= recs@.len(),
            all == text::pairs(recs@),
            n == times(all.take(i as int), key@),
        decreases recs@.len() - i,
    {
        proof {
            assert(all.take(i + 1).drop_last() =~= all.take(i as int));
            assert(all.take(i + 1).last() == (recs@[i as int].0@, recs@[i as int].1@));
        }
        if text::same_text(recs[i].0.as_str(), key) {
            n = n + 1;
        }
        i = i + 1;
    }
    proof {
        assert(all.take(i as int) =~= all);
    }
    n
}

/// The keys that stand more than once, which is the mark of a forged record: an honest
/// writer prints each key once.
pub fn duplicate_keys(recs: &[(String, String)]) -> (r: Vec<String>)
    ensures
        text::texts(r@) == repetitions(text::pairs(recs@)),
{
    let ghost all = text::pairs(recs@);
    let mut keys: Vec<String> = Vec::new();
    let mut i: usize = 0;
    proof {
        assert(text::texts(keys@) =~= sorted_keys(all.take(0)));
    }
    while i < recs.len()
        invariant
            i <= recs@.len(),
            all == text::pairs(recs@),
            text::texts(keys@) == sorted_keys(all.take(i as int)),
        decreases recs@.len() - i,
    {
        proof {
            assert(all.take(i + 1).drop_last() =~= all.take(i as int));
            assert(all.take(i + 1).last() == (recs@[i as int].0@, recs@[i as int].1@));
        }
        insert_key(&mut keys, recs[i].0.as_str());
        i = i + 1;
    }
    proof {
        assert(all.take(i as int) =~= all);
    }
    let ghost sorted = sorted_keys(all);
    let ghost pred = |k: Seq<char>| times(all, k) > 1;
    let ghost say = |k: Seq<char>| repetition(all, k);
    let mut out: Vec<String> = Vec::new();
    let mut j: usize = 0;
    proof {
        reveal(Seq::filter);
        assert(text::texts(out@) =~= sorted.take(0).filter(pred).map_values(say));
    }
    while j < keys.len()
        invariant
            j <= keys@.len(),
            all == text::pairs(recs@),
            sorted == text::texts(keys@),
            pred == (|k: Seq<char>| times(all, k) > 1),
            say == (|k: Seq<char>| repetition(all, k)),
            text::texts(out@) == sorted.take(j as int).filter(pred).map_values(say),
        decreases keys@.len() - j,
    {
        let ghost before = out@;
        let ghost key = keys@[j as int]@;
        proof {
            reveal(Seq::filter);
            assert(sorted.take(j + 1).drop_last() =~= sorted.take(j as int));
            assert(sorted.take(j + 1).last() == key);
        }
        let n = count_key(recs, keys[j].as_str());
        if n > 1 {
            let mut line = keys[j].as_str().to_owned();
            line.append(" x");
            line.append(text::decimal_text(n as u64).as_str());
            out.push(line);
            proof {
                assert(sorted.take(j + 1).filter(pred) =~= sorted.take(j as int).filter(pred).push(
                    key,
                ));
                assert(text::texts(out@) =~= text::texts(before).push(line@));
                assert(sorted.take(j + 1).filter(pred).map_values(say) =~= sorted.take(
                    j as int,
                ).filter(pred).map_values(say).push(line@));
            }
        }
        j = j + 1;
    }
    proof {
        assert(sorted.take(j as int) =~= sorted);
    }
    out
}

/// Whether the lines seen so far leave the reader in a bucket.
pub open spec fn in_bucket(lines: Seq<Seq<char>>) -> bool
    decreases lines.len(),
{
    if lines.len() == 0 {
        false
    } else if "--- "@.is_prefix_of(lines.last()) {
        is_bucket(lines.last())
    } else {
        in_bucket(lines.drop_last())
    }
}

/// Whether a line names a changed file: it is indented, and more than white space.
pub open spec fn is_listed(line: Seq<char>) -> bool {
    &&& !"--- "@.is_prefix_of(line)
    &&& "  "@.is_prefix_of(line)
    &&& text::trimmed(line).len() > 0
}

/// The changed files that the lines name, without the indent.
pub open spec fn files_among(lines: Seq<Seq<char>>) -> Seq<Seq<char>>
    decreases lines.len(),
{
    if lines.len() == 0 {
        Seq::empty()
    } else {
        let front = files_among(lines.drop_last());
        if in_bucket(lines) && is_listed(lines.last()) {
            front.push(text::trim_start(lines.last()))
        } else {
            front
        }
    }
}

/// The changed files under the headers of the buckets. Other indented text is left out.
pub fn listed_files(out: &str) -> (r: Vec<String>)
    ensures
        text::texts(r@) == files_among(text::lines(out@)),
{
    let lines = text::split_lines(out);
    let ghost all = text::texts(lines@);
    let mut inside: bool = false;
    let mut files: Vec<String> = Vec::new();
    let mut i: usize = 0;
    proof {
        assert(text::texts(files@) =~= files_among(all.take(0)));
    }
    while i < lines.len()
        invariant
            i <= lines@.len(),
            all == text::texts(lines@),
            inside == in_bucket(all.take(i as int)),
            text::texts(files@) == files_among(all.take(i as int)),
        decreases lines@.len() - i,
    {
        let ghost before = files@;
        let line: &str = lines[i].as_str();
        proof {
            assert(all.take(i + 1).drop_last() =~= all.take(i as int));
            assert(all.take(i + 1).last() == line@);
        }
        if text::begins_with(line, "--- ") {
            inside = is_bucket_header(BUCKET_PATTERN, line);
        } else if inside && text::begins_with(line, "  ") && text::trim_text(
            line,
        ).as_str().unicode_len() > 0 {
            let file = text::trim_start_text(line);
            files.push(file);
            proof {
                assert(text::texts(files@) =~= text::texts(before).push(file@));
            }
        }
        i = i + 1;
    }
    proof {
        assert(all.take(i as int) =~= all);
    }
    files
}

// ---------------------------------------------------------------------------
// Laws
// ---------------------------------------------------------------------------

/// Text that does not begin with a capital letter is no record, so indented text never is.
pub proof fn indented_text_is_no_record(line: Seq<char>)
    requires
        line.len() == 0 || !is_capital(line[0]),
    ensures
        record_of(line) is None,
{
    text::run_before_stops(line, '=');
    let n = text::run_before(line, '=');
    if 0 < n < line.len() {
        assert(line.take(n as int)[0] == line[0]);
    }
}

/// Every record is a line of its own: its key is a key, its value holds no line feed, and the
/// key, an equals sign and the value are the line.
pub proof fn records_are_whole_lines(lines: Seq<Seq<char>>, i: int)
    requires
        0 <= i < records_among(lines).len(),
    ensures
        is_key(records_among(lines)[i].0),
        !records_among(lines)[i].1.contains('\n'),
        lines.contains(records_among(lines)[i].0 + seq!['='] + records_among(lines)[i].1),
    decreases lines.len(),
{
    let rec = records_among(lines)[i];
    let front = records_among(lines.drop_last());
    if i < front.len() {
        records_are_whole_lines(lines.drop_last(), i);
        let whole = rec.0 + seq!['='] + rec.1;
        let k = choose|k: int| 0 <= k < lines.drop_last().len() && lines.drop_last()[k] == whole;
        assert(lines[k] == whole);
    } else {
        let line = lines.last();
        text::run_before_stops(line, '=');
        assert(record_of(line) == Some(rec));
        assert(rec.0 + seq!['='] + rec.1 =~= line);
        assert(lines[lines.len() - 1] == line);
    }
}

/// A record that is written as a line of its own is read back as it was written, and one line
/// never gives two.
pub proof fn a_written_record_is_read_back(key: Seq<char>, value: Seq<char>)
    requires
        is_key(key),
        !value.contains('\n'),
    ensures
        record_of(key + seq!['='] + value) == Some((key, value)),
{
    let line = key + seq!['='] + value;
    text::run_before_stops(line, '=');
    let n = text::run_before(line, '=');
    assert(line[key.len() as int] == '=');
    if n < key.len() {
        assert(line[n as int] == key[n as int]);
    }
    assert(line.take(n as int) =~= key);
    assert(line.skip(n as int + 1) =~= value);
}

/// Lines between the records of a stream that are indented, or empty, change nothing about
/// its records.
pub proof fn free_text_forges_nothing(before: Seq<Seq<char>>, free: Seq<Seq<char>>)
    requires
        forall|i: int|
            0 <= i < free.len() ==> (#[trigger] free[i]).len() == 0 || !is_capital(free[i][0]),
    ensures
        records_among(before + free) == records_among(before),
    decreases free.len(),
{
    if free.len() == 0 {
        assert(before + free =~= before);
    } else {
        assert((before + free).drop_last() =~= before + free.drop_last());
        assert((before + free).last() == free.last());
        indented_text_is_no_record(free.last());
        assert forall|i: int| 0 <= i < free.drop_last().len() implies (
        #[trigger] free.drop_last()[i]).len() == 0 || !is_capital(free.drop_last()[i][0]) by {
            assert(free.drop_last()[i] == free[i]);
        }
        free_text_forges_nothing(before, free.drop_last());
    }
}

/// The order of sorted keys is an order: of two different texts one comes before the other,
/// never both, and what comes before what comes before a text comes before it.
pub proof fn precedence_is_an_order(a: Seq<char>, b: Seq<char>, c: Seq<char>)
    ensures
        !(precedes(a, b) && precedes(b, a)),
        a != b ==> precedes(a, b) || precedes(b, a),
        precedes(a, b) && precedes(b, c) ==> precedes(a, c),
        !precedes(a, a),
    decreases a.len() + b.len() + c.len(),
{
    if a.len() > 0 && b.len() > 0 && c.len() > 0 {
        precedence_is_an_order(a.drop_first(), b.drop_first(), c.drop_first());
        if a[0] == b[0] && a.drop_first() == b.drop_first() {
            assert(a =~= seq![a[0]] + a.drop_first());
            assert(b =~= seq![b[0]] + b.drop_first());
        }
    } else if a.len() > 0 && b.len() > 0 {
        precedence_is_an_order(a.drop_first(), b.drop_first(), c);
        if a[0] == b[0] && a.drop_first() == b.drop_first() {
            assert(a =~= seq![a[0]] + a.drop_first());
            assert(b =~= seq![b[0]] + b.drop_first());
        }
    } else if a.len() == 0 && b.len() == 0 {
        assert(a =~= b);
    } else if a.len() > 0 {
        precedence_is_an_order(a.drop_first(), b, c);
    }
}

/// Whether a list of keys is sorted, and none stands twice.
pub open spec fn is_sorted(keys: Seq<Seq<char>>) -> bool {
    forall|i: int, j: int| 0 <= i < j < keys.len() ==> precedes(keys[i], keys[j])
}

proof fn with_key_keeps_order(keys: Seq<Seq<char>>, key: Seq<char>)
    requires
        is_sorted(keys),
    ensures
        is_sorted(with_key(keys, key)),
        forall|k: Seq<char>| #[trigger]
            with_key(keys, key).contains(k) <==> keys.contains(k) || k == key,
    decreases keys.len(),
{
    let out = with_key(keys, key);
    if keys.len() == 0 {
        assert(out[0] == key);
    } else if keys[0] == key {
        assert(keys.contains(key));
    } else if precedes(key, keys[0]) {
        assert(out =~= seq![key] + keys);
        assert forall|i: int, j: int| 0 <= i < j < out.len() implies precedes(out[i], out[j]) by {
            if i == 0 {
                precedence_is_an_order(key, keys[0], keys[j - 1]);
            }
        }
        assert forall|k: Seq<char>| #[trigger]
            out.contains(k) <==> keys.contains(k) || k == key by {
            if keys.contains(k) {
                let i = choose|i: int| 0 <= i < keys.len() && keys[i] == k;
                assert(out[i + 1] == k);
            }
            if k == key {
                assert(out[0] == k);
            }
            if out.contains(k) {
                let i = choose|i: int| 0 <= i < out.len() && out[i] == k;
                if i > 0 {
                    assert(keys[i - 1] == k);
                }
            }
        }
    } else {
        let rest = keys.skip(1);
        let tail = with_key(rest, key);
        with_key_keeps_order(rest, key);
        assert(out =~= seq![keys[0]] + tail);
        precedence_is_an_order(keys[0], key, key);
        assert forall|i: int, j: int| 0 <= i < j < out.len() implies precedes(out[i], out[j]) by {
            if i == 0 {
                assert(tail[j - 1] == out[j]);
                assert(tail.contains(out[j]));
                if rest.contains(out[j]) {
                    let n = choose|n: int| 0 <= n < rest.len() && rest[n] == out[j];
                    assert(keys[n + 1] == out[j]);
                }
            } else {
                assert(tail[i - 1] == out[i]);
                assert(tail[j - 1] == out[j]);
            }
        }
        assert forall|k: Seq<char>| #[trigger]
            out.contains(k) <==> keys.contains(k) || k == key by {
            if keys.contains(k) {
                let i = choose|i: int| 0 <= i < keys.len() && keys[i] == k;
                if i > 0 {
                    assert(rest[i - 1] == k);
                    assert(tail.contains(k));
                } else {
                    assert(out[0] == k);
                }
            }
            if tail.contains(k) {
                let i = choose|i: int| 0 <= i < tail.len() && tail[i] == k;
                assert(out[i + 1] == k);
                if rest.contains(k) {
                    let n = choose|n: int| 0 <= n < rest.len() && rest[n] == k;
                    assert(keys[n + 1] == k);
                }
            }
            if out.contains(k) {
                let i = choose|i: int| 0 <= i < out.len() && out[i] == k;
                if i > 0 {
                    assert(tail[i - 1] == k);
                    assert(tail.contains(k));
                } else {
                    assert(keys[0] == k);
                }
            }
            assert(tail.contains(key));
        }
    }
}

/// The sorted keys are sorted, none stands twice, and they are the keys of the records.
pub proof fn sorted_keys_are_the_keys(recs: Seq<(Seq<char>, Seq<char>)>)
    ensures
        is_sorted(sorted_keys(recs)),
        forall|k: Seq<char>| #[trigger] sorted_keys(recs).contains(k) <==> times(recs, k) > 0,
    decreases recs.len(),
{
    if recs.len() > 0 {
        sorted_keys_are_the_keys(recs.drop_last());
        with_key_keeps_order(sorted_keys(recs.drop_last()), recs.last().0);
        assert forall|k: Seq<char>| #[trigger]
            sorted_keys(recs).contains(k) <==> times(recs, k) > 0 by {
            assert(sorted_keys(recs.drop_last()).contains(k) <==> times(recs.drop_last(), k) > 0);
        }
    }
}

proof fn times_of_a_key(recs: Seq<(Seq<char>, Seq<char>)>, key: Seq<char>)
    ensures
        times(recs, key) > 0 <==> exists|i: int| 0 <= i < recs.len() && #[trigger] recs[i].0 == key,
        times(recs, key) > 1 <==> exists|i: int, j: int|
            0 <= i < j < recs.len() && #[trigger] recs[i].0 == key && #[trigger] recs[j].0 == key,
    decreases recs.len(),
{
    if recs.len() > 0 {
        let front = recs.drop_last();
        let last = recs.len() - 1;
        times_of_a_key(front, key);
        if times(front, key) > 0 {
            let i = choose|i: int| 0 <= i < front.len() && #[trigger] front[i].0 == key;
            assert(recs[i].0 == key);
            if recs.last().0 == key {
                assert(recs[i].0 == key && recs[last].0 == key);
            }
        }
        if times(front, key) > 1 {
            let (i, j) = choose|i: int, j: int|
                0 <= i < j < front.len() && #[trigger] front[i].0 == key && #[trigger] front[j].0
                    == key;
            assert(recs[i].0 == key && recs[j].0 == key);
        }
        if recs.last().0 == key {
            assert(recs[last].0 == key);
        }
        if exists|i: int| 0 <= i < recs.len() && #[trigger] recs[i].0 == key {
            let i = choose|i: int| 0 <= i < recs.len() && #[trigger] recs[i].0 == key;
            if i < last {
                assert(front[i].0 == key);
            }
        }
        if exists|i: int, j: int|
            0 <= i < j < recs.len() && #[trigger] recs[i].0 == key && #[trigger] recs[j].0 == key {
            let (i, j) = choose|i: int, j: int|
                0 <= i < j < recs.len() && #[trigger] recs[i].0 == key && #[trigger] recs[j].0
                    == key;
            assert(front[i].0 == key);
            if j < last {
                assert(front[j].0 == key);
            }
        }
    }
}

/// No key is reported exactly when no two records have the same key.
pub proof fn only_repeated_keys_are_reported(recs: Seq<(Seq<char>, Seq<char>)>)
    ensures
        repetitions(recs).len() == 0 <==> forall|i: int, j: int|
            0 <= i < j < recs.len() ==> #[trigger] recs[i].0 != #[trigger] recs[j].0,
{
    let keys = sorted_keys(recs);
    let pred = |k: Seq<char>| times(recs, k) > 1;
    let kept = keys.filter(pred);
    sorted_keys_are_the_keys(recs);
    if repetitions(recs).len() == 0 {
        assert forall|i: int, j: int| 0 <= i < j < recs.len() implies #[trigger] recs[i].0
            != #[trigger] recs[j].0 by {
            if recs[i].0 == recs[j].0 {
                let key = recs[i].0;
                times_of_a_key(recs, key);
                assert(keys.contains(key));
                let k = choose|k: int| 0 <= k < keys.len() && keys[k] == key;
                keys.lemma_filter_contains(pred, k);
                assert(kept.len() > 0);
            }
        }
    } else {
        assert(kept.len() > 0);
        keys.lemma_filter_pred(pred, 0);
        times_of_a_key(recs, kept[0]);
        let key = kept[0];
        let (i, j) = choose|i: int, j: int|
            0 <= i < j < recs.len() && #[trigger] recs[i].0 == key && #[trigger] recs[j].0 == key;
        assert(recs[i].0 == recs[j].0);
    }
}

/// A key has as many values as it stands times. So where no key is repeated, the first value
/// of a key is its only one.
pub proof fn a_key_has_as_many_values_as_it_stands_times(
    recs: Seq<(Seq<char>, Seq<char>)>,
    key: Seq<char>,
)
    ensures
        values_of(recs, key).len() == times(recs, key),
        repetitions(recs).len() == 0 ==> values_of(recs, key).len() <= 1,
    decreases recs.len(),
{
    reveal(Seq::filter);
    if recs.len() > 0 {
        let front = recs.drop_last();
        a_key_has_as_many_values_as_it_stands_times(front, key);
        assert(values_of(front, key).len() == records_of(front, key).len());
        if recs.last().0 == key {
            assert(records_of(recs, key) =~= records_of(front, key).push(recs.last()));
        } else {
            assert(records_of(recs, key) =~= records_of(front, key));
        }
    }
    if repetitions(recs).len() == 0 {
        only_repeated_keys_are_reported(recs);
        times_of_a_key(recs, key);
        if times(recs, key) > 1 {
            let (i, j) = choose|i: int, j: int|
                0 <= i < j < recs.len() && #[trigger] recs[i].0 == key && #[trigger] recs[j].0
                    == key;
            assert(recs[i].0 != recs[j].0);
        }
    }
}

/// The line of a record.
pub open spec fn record_line(record: (Seq<char>, Seq<char>)) -> Seq<char> {
    record.0 + seq!['='] + record.1
}

/// The lines of a list of records.
pub open spec fn record_lines(recs: Seq<(Seq<char>, Seq<char>)>) -> Seq<Seq<char>> {
    recs.map_values(|r: (Seq<char>, Seq<char>)| record_line(r))
}

/// Records that are written one a line are read back as they were, whatever their values hold
/// besides line feeds, and a carriage return at the end.
pub proof fn written_records_are_read_back(recs: Seq<(Seq<char>, Seq<char>)>)
    requires
        forall|i: int|
            0 <= i < recs.len() ==> is_key((#[trigger] recs[i]).0) && text::is_line(recs[i].1),
    ensures
        records_among(text::lines(text::unlines(record_lines(recs)))) == recs,
{
    let lines = record_lines(recs);
    assert forall|i: int| 0 <= i < lines.len() implies text::is_line(#[trigger] lines[i]) by {
        let (key, value) = recs[i];
        let line = lines[i];
        assert(is_key(recs[i].0));
        assert forall|j: int| 0 <= j < line.len() implies #[trigger] line[j] != '\n' by {
            if j < key.len() {
                assert(line[j] == key[j]);
            } else if j > key.len() {
                assert(line[j] == value[j - key.len() - 1]);
            }
        }
        if value.len() > 0 {
            assert(line.last() == value.last());
        }
    }
    text::written_lines_read_back(lines);
    lines_of_records(recs);
}

proof fn lines_of_records(recs: Seq<(Seq<char>, Seq<char>)>)
    requires
        forall|i: int|
            0 <= i < recs.len() ==> is_key((#[trigger] recs[i]).0) && text::is_line(recs[i].1),
    ensures
        records_among(record_lines(recs)) == recs,
    decreases recs.len(),
{
    if recs.len() == 0 {
        assert(records_among(record_lines(recs)) =~= recs);
    } else {
        let front = recs.drop_last();
        let (key, value) = recs.last();
        assert forall|i: int| 0 <= i < front.len() implies is_key((#[trigger] front[i]).0)
            && text::is_line(front[i].1) by {
            assert(front[i] == recs[i]);
        }
        lines_of_records(front);
        assert(record_lines(recs).drop_last() =~= record_lines(front));
        assert(record_lines(recs).last() == record_line(recs.last()));
        assert(is_key(recs[recs.len() - 1].0));
        assert(!value.contains('\n'));
        a_written_record_is_read_back(key, value);
        assert(recs =~= front.push(recs.last()));
    }
}

/// The records of two runs of lines are those of the first, then those of the second; a single
/// line gives the record that it is, or none.
pub proof fn records_are_read_line_by_line(
    a: Seq<Seq<char>>,
    b: Seq<Seq<char>>,
    line: Seq<char>,
)
    ensures
        records_among(a + b) == records_among(a) + records_among(b),
        record_of(line) matches Some(record) ==> records_among(seq![line]) == seq![record],
        record_of(line) is None ==> records_among(seq![line]).len() == 0,
    decreases b.len(),
{
    let none = Seq::<Seq<char>>::empty();
    assert(seq![line].drop_last() =~= none);
    assert(records_among(none) =~= Seq::<(Seq<char>, Seq<char>)>::empty());
    if let Some(record) = record_of(line) {
        assert(records_among(seq![line]) =~= seq![record]);
    }
    if b.len() == 0 {
        assert(a + b =~= a);
        assert(records_among(a) + records_among(b) =~= records_among(a));
    } else {
        assert((a + b).drop_last() =~= a + b.drop_last());
        assert((a + b).last() == b.last());
        records_are_read_line_by_line(a, b.drop_last(), line);
        assert(records_among(a + b) =~= records_among(a) + records_among(b));
    }
}

/// A line is a record exactly where it is a key, an equals sign and a value: then these are what
/// is read.
pub proof fn a_record_is_a_key_and_a_value(line: Seq<char>)
    ensures
        record_of(line) matches Some((key, value)) ==> line == key + seq!['='] + value && is_key(
            key,
        ) && !value.contains('\n'),
        is_key(line) ==> record_of(line) is None,
{
    text::run_before_stops(line, '=');
    let n = text::run_before(line, '=') as int;
    if n < line.len() {
        assert(line =~= line.take(n) + seq!['='] + line.skip(n + 1));
        if is_key(line) {
            assert(line[n] == '=');
        }
    }
}

/// The values of a key are read in the order of its records, and no other record adds one.
pub proof fn values_are_read_in_order(
    a: Seq<(Seq<char>, Seq<char>)>,
    b: Seq<(Seq<char>, Seq<char>)>,
    record: (Seq<char>, Seq<char>),
    key: Seq<char>,
)
    ensures
        values_of(a + b, key) == values_of(a, key) + values_of(b, key),
        record.0 == key ==> values_of(seq![record], key) == seq![record.1],
        record.0 != key ==> values_of(seq![record], key).len() == 0,
{
    reveal(Seq::filter);
    let pred = |r: (Seq<char>, Seq<char>)| r.0 == key;
    Seq::filter_distributes_over_add(a, b, pred);
    assert(values_of(a + b, key) =~= values_of(a, key) + values_of(b, key));
    assert(seq![record].drop_last() =~= Seq::<(Seq<char>, Seq<char>)>::empty());
    if record.0 == key {
        assert(records_of(seq![record], key) =~= seq![record]);
        assert(values_of(seq![record], key) =~= seq![record.1]);
    } else {
        assert(records_of(seq![record].drop_last(), key).len() == 0);
        assert(records_of(seq![record], key).len() == 0);
    }
}

/// A key stands as often in two runs of records as in the one and the other together, and once
/// in a record of its own.
pub proof fn keys_are_counted_once_each(
    a: Seq<(Seq<char>, Seq<char>)>,
    b: Seq<(Seq<char>, Seq<char>)>,
    record: (Seq<char>, Seq<char>),
    key: Seq<char>,
)
    ensures
        times(a + b, key) == times(a, key) + times(b, key),
        times(seq![record], key) == if record.0 == key {
            1nat
        } else {
            0nat
        },
    decreases b.len(),
{
    assert(seq![record].drop_last() =~= Seq::<(Seq<char>, Seq<char>)>::empty());
    assert(times(seq![record].drop_last(), key) == 0);
    if b.len() == 0 {
        assert(a + b =~= a);
    } else {
        assert((a + b).drop_last() =~= a + b.drop_last());
        assert((a + b).last() == b.last());
        keys_are_counted_once_each(a, b.drop_last(), record, key);
    }
}

/// Every key that stands more than once is reported with how often it stands, and nothing else
/// is reported.
pub proof fn repeated_keys_are_reported_with_their_count(
    recs: Seq<(Seq<char>, Seq<char>)>,
    key: Seq<char>,
    i: int,
)
    ensures
        times(recs, key) > 1 ==> repetitions(recs).contains(
            key + " x"@ + text::decimal(times(recs, key)),
        ),
        0 <= i < repetitions(recs).len() ==> exists|k: Seq<char>|
            times(recs, k) > 1 && repetitions(recs)[i] == #[trigger] (k + " x"@) + text::decimal(
                times(recs, k),
            ),
{
    let keys = sorted_keys(recs);
    let pred = |k: Seq<char>| times(recs, k) > 1;
    let kept = keys.filter(pred);
    sorted_keys_are_the_keys(recs);
    if times(recs, key) > 1 {
        assert(keys.contains(key));
        let n = choose|n: int| 0 <= n < keys.len() && keys[n] == key;
        keys.lemma_filter_contains(pred, n);
        let k = choose|k: int| 0 <= k < kept.len() && kept[k] == key;
        assert(repetitions(recs)[k] == repetition(recs, key));
    }
    if 0 <= i < repetitions(recs).len() {
        keys.lemma_filter_pred(pred, i);
        let k = kept[i];
        assert(repetitions(recs)[i] == (k + " x"@) + text::decimal(times(recs, k)));
    }
}

/// The reader is in a bucket exactly where the last line that begins like a header is the
/// header of one.
pub proof fn a_header_opens_or_closes(lines: Seq<Seq<char>>, line: Seq<char>)
    ensures
        !in_bucket(Seq::empty()),
        "--- "@.is_prefix_of(line) ==> in_bucket(lines.push(line)) == is_bucket(line),
        !"--- "@.is_prefix_of(line) ==> in_bucket(lines.push(line)) == in_bucket(lines),
{
    assert(lines.push(line).drop_last() =~= lines);
}

/// The files are read line by line: one in a bucket that is indented by two spaces, and more
/// than white space, adds a file, without its indent; a header, any other line, and any line
/// outside a bucket add none.
pub proof fn files_are_read_line_by_line(lines: Seq<Seq<char>>, line: Seq<char>)
    ensures
        files_among(Seq::empty()).len() == 0,
        in_bucket(lines) && !"--- "@.is_prefix_of(line) && "  "@.is_prefix_of(line)
            && text::trimmed(line).len() > 0 ==> files_among(lines.push(line)) == files_among(
            lines,
        ).push(text::trim_start(line)),
        !in_bucket(lines) || "--- "@.is_prefix_of(line) || !"  "@.is_prefix_of(line)
            || text::trimmed(line).len() == 0 ==> files_among(lines.push(line)) == files_among(
            lines,
        ),
{
    assert(lines.push(line).drop_last() =~= lines);
}

/// A file in a bucket is read as it was listed: two spaces and a name that begins with no white
/// space give the name.
pub proof fn a_listed_file_is_read_back(lines: Seq<Seq<char>>, file: Seq<char>)
    requires
        in_bucket(lines),
        file.len() > 0,
        !text::is_white_space(file[0]),
    ensures
        files_among(lines.push(seq![' ', ' '] + file)) == files_among(lines).push(file),
{
    let line = seq![' ', ' '] + file;
    reveal_strlit("--- ");
    reveal_strlit("  ");
    assert(line[0] == ' ');
    if "--- "@.is_prefix_of(line) {
        assert(line[0] == "--- "@[0]);
    }
    assert(line.subrange(0, 2) =~= "  "@);
    let from = text::trim_start_takes_only_white_space(line);
    assert(line[2] == file[0]);
    assert(from == 2) by {
        if from < 2 {
            assert(text::is_white_space(line[from]));
        } else if from > 2 {
            assert(text::is_white_space(line[2]));
        }
    }
    assert(line.skip(2) =~= file);
    let ends = text::trimming_takes_only_white_space(line);
    if text::trimmed(line).len() == 0 {
        assert(text::is_white_space(line[2]));
    }
    files_are_read_line_by_line(lines, line);
}

/// A key begins with a capital letter, and goes on with capital letters, digits and underscores.
pub proof fn a_key_is_written_in_capitals(key: Seq<char>, c: char)
    ensures
        !is_key(Seq::empty()),
        is_key(seq![c]) <==> 65 <= c as u32 <= 90,
        key.len() > 0 ==> (is_key(key.push(c)) <==> is_key(key) && (65 <= c as u32 <= 90 || 48
            <= c as u32 <= 57 || c as u32 == 95)),
{
    let more = key.push(c);
    if key.len() > 0 {
        assert(more[0] == key[0]);
        assert forall|i: int| 0 <= i < key.len() implies #[trigger] more[i] == key[i] by {}
        assert(more[key.len() as int] == c);
        if is_key(more) {
            assert forall|i: int| 0 <= i < key.len() implies is_capital(#[trigger] key[i])
                || text::is_digit(key[i]) || key[i] == '_' by {
                assert(more[i] == key[i]);
            }
        }
    }
}

/// A header is a key between `--- ` and ` ---`, and nothing else is.
pub proof fn a_header_holds_a_key(line: Seq<char>, key: Seq<char>) -> (held: Seq<char>)
    ensures
        is_bucket("--- "@ + key + " ---"@) <==> is_key(key),
        is_bucket(line) ==> line == "--- "@ + held + " ---"@ && is_key(held),
{
    reveal_strlit("--- ");
    reveal_strlit(" ---");
    let whole = "--- "@ + key + " ---"@;
    assert(whole.take(4) =~= "--- "@);
    assert(whole.skip(whole.len() - 4) =~= " ---"@);
    assert(whole.subrange(4, whole.len() - 4) =~= key);
    let held = if line.len() > 8 {
        line.subrange(4, line.len() - 4)
    } else {
        Seq::empty()
    };
    if is_bucket(line) {
        assert(line =~= line.take(4) + held + line.skip(line.len() - 4));
    }
    held
}

} // verus!
