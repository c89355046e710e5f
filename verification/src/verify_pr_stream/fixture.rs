//! What the pull-request scripts are tried on: a made-up pull request.

use crate::json;
use crate::path::{NativePath, PathModel};
use crate::text;
use vstd::prelude::*;
use vstd::string::*;

verus! {

/// How a character stands in a JSON literal.
pub open spec fn literal_char(c: char) -> Seq<char> {
    if c == '"' {
        "\\\""@
    } else if c == '\\' {
        "\\\\"@
    } else if c == '\n' {
        "\\n"@
    } else if c == '\r' {
        "\\r"@
    } else if c == '\t' {
        "\\t"@
    } else if ' ' > c {
        "\\u"@ + text::hex_digits(c as u32 as nat, 4)
    } else {
        seq![c]
    }
}

/// The characters of a text as they stand in a JSON literal.
pub open spec fn literal_chars(s: Seq<char>) -> Seq<char>
    decreases s.len(),
{
    if s.len() == 0 {
        Seq::empty()
    } else {
        literal_chars(s.drop_last()) + literal_char(s.last())
    }
}

/// A text as a JSON literal.
pub open spec fn literal(s: Seq<char>) -> Seq<char> {
    "\""@ + literal_chars(s) + "\""@
}

/// A text as a JSON literal, in which control characters may stand.
pub fn json_str(s: &str) -> (r: String)
    ensures
        r@ == literal(s@),
{
    let chars = text::chars_of(s);
    let mut out = "\"".to_owned();
    let mut i: usize = 0;
    proof {
        assert(out@ =~= "\""@ + literal_chars(chars@.take(0)));
    }
    while i < chars.len()
        invariant
            i <= chars@.len(),
            out@ == "\""@ + literal_chars(chars@.take(i as int)),
        decreases chars@.len() - i,
    {
        let c: char = chars[i];
        let ghost before = out@;
        proof {
            assert(chars@.take(i + 1).drop_last() =~= chars@.take(i as int));
            assert(chars@.take(i + 1).last() == c);
        }
        if c == '"' {
            out.append("\\\"");
        } else if c == '\\' {
            out.append("\\\\");
        } else if c == '\n' {
            out.append("\\n");
        } else if c == '\r' {
            out.append("\\r");
        } else if c == '\t' {
            out.append("\\t");
        } else if ' ' > c {
            out.append("\\u");
            out.append(text::hex_text(c as u32 as u64, 4).as_str());
        } else {
            out.push(c);
        }
        proof {
            assert(out@ =~= before + literal_char(c));
            assert(out@ =~= "\""@ + literal_chars(chars@.take(i + 1)));
        }
        i = i + 1;
    }
    out.append("\"");
    proof {
        assert(chars@.take(i as int) =~= chars@);
    }
    out
}

/// A directory of the project, two levels above the crate that tries its scripts.
pub open spec fn project_dir(manifest_dir: PathModel, within: Seq<char>) -> Option<PathModel> {
    match manifest_dir.parent() {
        None => None,
        Some(dir) => match dir.parent() {
            None => None,
            Some(root) => Some(root.joined(within)),
        },
    }
}

/// The directory of the pull-request scripts, given where it lies within the project and the
/// directory of the crate that tries them, two levels below the root of the project. There
/// is none for a crate that does not lie as deep.
pub fn skill_dir(manifest_dir: &NativePath, within: &str) -> (r: Option<NativePath>)
    ensures
        match r {
            Some(dir) => project_dir(manifest_dir@, within@) == Some(dir@),
            None => project_dir(manifest_dir@, within@) is None,
        },
{
    match manifest_dir.parent() {
        None => None,
        Some(dir) => match dir.parent() {
            None => None,
            Some(root) => Some(root.join(within)),
        },
    }
}

/// A made-up pull request.
#[derive(Debug)]
pub struct ScanFixture {
    pub title: String,
    pub author: String,
    pub labels: Vec<String>,
    pub files: Vec<String>,
    /// The number of changed files that the pull request claims; that of `files` where there
    /// is none.
    pub changed_files: Option<usize>,
    pub association: String,
    pub checks: String,
    /// The error that looking at the pull request ends with, if it does.
    pub view_error: Option<String>,
}

/// What a [`ScanFixture`] stands for.
#[verifier::ext_equal]
pub struct FixtureModel {
    pub title: Seq<char>,
    pub author: Seq<char>,
    pub labels: Seq<Seq<char>>,
    pub files: Seq<Seq<char>>,
    pub changed_files: Option<usize>,
    pub association: Seq<char>,
    pub checks: Seq<char>,
    pub view_error: Option<Seq<char>>,
}

impl View for ScanFixture {
    type V = FixtureModel;

    open spec fn view(&self) -> FixtureModel {
        FixtureModel {
            title: self.title@,
            author: self.author@,
            labels: text::texts(self.labels@),
            files: text::texts(self.files@),
            changed_files: self.changed_files,
            association: self.association@,
            checks: self.checks@,
            view_error: text::maybe(self.view_error),
        }
    }
}

/// An honest pull request that changes a script and a page of the documentation. With a script
/// that runs when the project is cloned, its changes are to be read before anything is run.
pub open spec fn honest(script: Seq<char>) -> FixtureModel {
    FixtureModel {
        title: "Fix a typo"@,
        author: "realauthor"@,
        labels: seq!["bug"@],
        files: seq![script, "docs/a.md"@],
        changed_files: None,
        association: "NONE"@,
        checks: "CI\tpass\t1m\thttps://example.com"@,
        view_error: None,
    }
}

impl ScanFixture {
    /// An honest pull request that changes `script`.
    pub fn honest(script: &str) -> (r: ScanFixture)
        ensures
            r@ == honest(script@),
    {
        let mut labels: Vec<String> = Vec::new();
        labels.push("bug".to_owned());
        let mut files: Vec<String> = Vec::new();
        files.push(script.to_owned());
        files.push("docs/a.md".to_owned());
        let r = ScanFixture {
            title: "Fix a typo".to_owned(),
            author: "realauthor".to_owned(),
            labels,
            files,
            changed_files: None,
            association: "NONE".to_owned(),
            checks: "CI\tpass\t1m\thttps://example.com".to_owned(),
            view_error: None,
        };
        proof {
            assert(r@ =~= honest(script@));
        }
        r
    }
}

/// What stands in front of the title in the description of a pull request.
pub const BEFORE_TITLE: &'static str = "{
  \"number\": 999,
  \"title\": ";

/// What stands between the title and the author.
pub const BEFORE_AUTHOR: &'static str = ",
  \"url\": \"https://github.com/vfarcic/dot-agent-deck/pull/999\",
  \"state\": \"OPEN\",
  \"isDraft\": false,
  \"author\": {\"login\": ";

/// What stands between the author and the number of changed files.
pub const BEFORE_COUNT: &'static str = "},
  \"isCrossRepository\": true,
  \"maintainerCanModify\": false,
  \"headRepository\": {\"name\": \"dot-agent-deck\"},
  \"headRepositoryOwner\": {\"login\": \"outsider\"},
  \"baseRefName\": \"main\",
  \"headRefName\": \"attack\",
  \"headRefOid\": \"deadbeefdeadbeefdeadbeefdeadbeefdeadbeef\",
  \"mergeable\": \"MERGEABLE\",
  \"mergeStateStatus\": \"CLEAN\",
  \"additions\": 1,
  \"deletions\": 0,
  \"changedFiles\": ";

/// What stands between the number of changed files and the labels.
pub const BEFORE_LABELS: &'static str = ",
  \"labels\": [";

/// What stands behind the labels.
pub const AFTER_LABELS: &'static str = "],
  \"createdAt\": \"2026-08-01T00:00:00Z\",
  \"updatedAt\": \"2026-08-01T00:00:00Z\"
}";

/// JSON objects that hold one text each, with commas between them.
pub open spec fn objects(items: Seq<Seq<char>>, head: Seq<char>, tail: Seq<char>) -> Seq<char> {
    text::joined(items.map_values(|t: Seq<char>| head + literal(t) + tail), ","@)
}

/// The labels as JSON objects.
pub open spec fn label_objects(f: FixtureModel) -> Seq<char> {
    objects(f.labels, "{\"name\": "@, "}"@)
}

/// The changed files as JSON objects.
pub open spec fn file_objects(f: FixtureModel) -> Seq<char> {
    objects(f.files, "{\"filename\": "@, ", \"status\": \"modified\"}"@)
}

/// The number of changed files that the pull request claims.
pub open spec fn claimed_count(f: FixtureModel) -> nat {
    match f.changed_files {
        Some(n) => n as nat,
        None => f.files.len(),
    }
}

/// The description of the pull request.
pub open spec fn description(f: FixtureModel) -> Seq<char> {
    BEFORE_TITLE@ + literal(f.title) + BEFORE_AUTHOR@ + literal(f.author) + BEFORE_COUNT@
        + text::decimal(claimed_count(f)) + BEFORE_LABELS@ + label_objects(f) + AFTER_LABELS@
}

/// The files that stand for the pull request, by name.
pub open spec fn served_files(f: FixtureModel) -> Seq<(Seq<char>, Seq<char>)> {
    seq![
        ("pr_view.json"@, description(f)),
        ("files.json"@, "["@ + file_objects(f) + "]"@),
        ("pr_rest.json"@, "{\"author_association\": "@ + literal(f.association) + "}"@),
        ("runs.json"@, "{\"workflow_runs\": []}"@),
        ("comments.json"@, "[]"@),
        ("checks.txt"@, f.checks + "\n"@),
    ] + (match f.view_error {
        Some(error) => seq![("view_error.txt"@, error)],
        None => Seq::empty(),
    })
}

fn object_list(items: &Vec<String>, head: &str, tail: &str) -> (r: String)
    ensures
        r@ == objects(text::texts(items@), head@, tail@),
{
    let ghost all = text::texts(items@).map_values(|t: Seq<char>| head@ + literal(t) + tail@);
    let mut out = String::new();
    let mut i: usize = 0;
    while i < items.len()
        invariant
            i <= items@.len(),
            all == text::texts(items@).map_values(|t: Seq<char>| head@ + literal(t) + tail@),
            out@ == text::joined(all.take(i as int), ","@),
        decreases items@.len() - i,
    {
        let ghost before = out@;
        let mut object = head.to_owned();
        object.append(json_str(items[i].as_str()).as_str());
        object.append(tail);
        proof {
            assert(all.take(i + 1).drop_last() =~= all.take(i as int));
            assert(all.take(i + 1).last() == object@);
        }
        if i > 0 {
            out.append(",");
        }
        out.append(object.as_str());
        proof {
            assert(out@ =~= text::joined(all.take(i + 1), ","@));
        }
        i = i + 1;
    }
    proof {
        assert(all.take(i as int) =~= all);
    }
    out
}

impl ScanFixture {
    fn pr_view(&self) -> (r: String)
        ensures
            r@ == description(self@),
    {
        let count: usize = match self.changed_files {
            Some(n) => n,
            None => self.files.len(),
        };
        let mut out = BEFORE_TITLE.to_owned();
        out.append(json_str(self.title.as_str()).as_str());
        out.append(BEFORE_AUTHOR);
        out.append(json_str(self.author.as_str()).as_str());
        out.append(BEFORE_COUNT);
        out.append(text::decimal_text(count as u64).as_str());
        out.append(BEFORE_LABELS);
        out.append(object_list(&self.labels, "{\"name\": ", "}").as_str());
        out.append(AFTER_LABELS);
        out
    }

    /// The files that stand for the pull request, by name.
    pub fn fixture_files(&self) -> (r: Vec<(String, String)>)
        ensures
            text::pairs(r@) == served_files(self@),
    {
        let mut changed = "[".to_owned();
        changed.append(
            object_list(
                &self.files,
                "{\"filename\": ",
                ", \"status\": \"modified\"}",
            ).as_str(),
        );
        changed.append("]");
        let mut rest = "{\"author_association\": ".to_owned();
        rest.append(json_str(self.association.as_str()).as_str());
        rest.append("}");
        let mut checks = self.checks.as_str().to_owned();
        checks.append("\n");
        let mut out: Vec<(String, String)> = Vec::new();
        out.push(("pr_view.json".to_owned(), self.pr_view()));
        out.push(("files.json".to_owned(), changed));
        out.push(("pr_rest.json".to_owned(), rest));
        out.push(("runs.json".to_owned(), "{\"workflow_runs\": []}".to_owned()));
        out.push(("comments.json".to_owned(), "[]".to_owned()));
        out.push(("checks.txt".to_owned(), checks));
        match &self.view_error {
            Some(error) => {
                out.push(("view_error.txt".to_owned(), error.as_str().to_owned()));
            },
            None => {},
        }
        proof {
            assert(text::pairs(out@) =~= served_files(self@));
        }
        out
    }
}

// ---------------------------------------------------------------------------
// Laws
// ---------------------------------------------------------------------------

/// Whatever a text holds, its literal is on one line, and holds no other control character
/// below the space either.
pub proof fn a_literal_stays_on_its_line(s: Seq<char>)
    ensures
        forall|i: int| 0 <= i < literal(s).len() ==> (#[trigger] literal(s)[i]) >= ' ',
{
    reveal_strlit("\"");
    literal_chars_are_printable(s);
    let l = literal(s);
    assert forall|i: int| 0 <= i < l.len() implies (#[trigger] l[i]) >= ' ' by {
        if 0 < i < l.len() - 1 {
            assert(l[i] == literal_chars(s)[i - 1]);
        }
    }
}

proof fn literal_chars_are_printable(s: Seq<char>)
    ensures
        forall|i: int|
            0 <= i < literal_chars(s).len() ==> (#[trigger] literal_chars(s)[i]) >= ' ',
    decreases s.len(),
{
    if s.len() > 0 {
        let front = literal_chars(s.drop_last());
        let c = s.last();
        literal_chars_are_printable(s.drop_last());
        literal_char_is_printable(c);
        assert forall|i: int| 0 <= i < literal_chars(s).len() implies (#[trigger] literal_chars(
            s,
        )[i]) >= ' ' by {
            if i < front.len() {
                assert(literal_chars(s)[i] == front[i]);
            } else {
                assert(literal_chars(s)[i] == literal_char(c)[i - front.len()]);
            }
        }
    }
}

proof fn literal_char_is_printable(c: char)
    ensures
        forall|i: int|
            0 <= i < literal_char(c).len() ==> (#[trigger] literal_char(c)[i]) >= ' ',
{
    reveal_strlit("\\\"");
    reveal_strlit("\\\\");
    reveal_strlit("\\n");
    reveal_strlit("\\r");
    reveal_strlit("\\t");
    reveal_strlit("\\u");
    hex_digits_are_printable(c as u32 as nat, 4);
}

proof fn hex_digits_are_printable(n: nat, width: nat)
    ensures
        forall|i: int|
            0 <= i < text::hex_digits(n, width).len() ==> (#[trigger] text::hex_digits(
                n,
                width,
            )[i]) >= ' ',
    decreases width,
{
    if width > 0 {
        let front = text::hex_digits(n / 16, (width - 1) as nat);
        let all = text::hex_digits(n, width);
        hex_digits_are_printable(n / 16, (width - 1) as nat);
        assert(text::digit_char(n % 16) >= ' ');
        assert forall|i: int| 0 <= i < all.len() implies (#[trigger] all[i]) >= ' ' by {
            if i < front.len() {
                assert(all[i] == front[i]);
            }
        }
    }
}

proof fn a_literal_char_is_read_back(c: char, rest: Seq<char>)
    ensures
        json::read_text(literal_char(c) + rest) == json::with_first(c, json::read_text(rest)),
{
    let s = literal_char(c) + rest;
    reveal_strlit("\\\"");
    reveal_strlit("\\\\");
    reveal_strlit("\\n");
    reveal_strlit("\\r");
    reveal_strlit("\\t");
    reveal_strlit("\\u");
    if c == '"' || c == '\\' || c == '\n' || c == '\r' || c == '\t' {
        assert(s[0] == '\\');
        assert(s.skip(2) =~= rest);
    } else if ' ' > c {
        let n = c as u32 as nat;
        reveal_with_fuel(text::hex_digits, 5);
        let h = text::hex_digits(n, 4);
        text::hex_digits_len(n, 4);
        assert(n < 32);
        assert(h[0] == text::digit_char(0));
        assert(h[1] == text::digit_char(0));
        assert(h[2] == text::digit_char(n / 16));
        assert(h[3] == text::digit_char(n % 16));
        assert(s[0] == '\\');
        assert(s[1] == 'u');
        assert(s.subrange(2, 6) =~= h);
        assert(s.skip(6) =~= rest);
        assert(text::hex_value(h[0]) == Some(0nat));
        assert(text::hex_value(h[1]) == Some(0nat));
        assert(text::hex_value(h[2]) == Some(n / 16));
        assert(text::hex_value(h[3]) == Some(n % 16));
        assert(json::four_hex(h) == Some(n));
    } else {
        assert(s[0] == c);
        assert(s.skip(1) =~= rest);
    }
}

proof fn literal_from_the_front(s: Seq<char>)
    requires
        s.len() > 0,
    ensures
        literal_chars(s) == literal_char(s[0]) + literal_chars(s.drop_first()),
    decreases s.len(),
{
    let none = Seq::<char>::empty();
    if s.len() == 1 {
        assert(s.drop_last() =~= none);
        assert(s.drop_first() =~= none);
        assert(literal_chars(s.drop_last()) =~= none);
        assert(literal_chars(s.drop_first()) =~= none);
        assert(literal_chars(s) =~= literal_char(s[0]) + literal_chars(s.drop_first()));
    } else {
        let front = s.drop_last();
        literal_from_the_front(front);
        assert(s.drop_first().drop_last() =~= front.drop_first());
        assert(s.drop_first().last() == s.last());
        assert(literal_chars(s) =~= literal_char(s[0]) + literal_chars(s.drop_first()));
    }
}

proof fn literal_chars_are_read_back(t: Seq<char>, rest: Seq<char>)
    ensures
        json::read_text(literal_chars(t) + (seq!['"'] + rest)) == Some((t, rest)),
    decreases t.len(),
{
    let end = seq!['"'] + rest;
    let s = literal_chars(t) + end;
    if t.len() == 0 {
        assert(s =~= end);
        assert(s.skip(1) =~= rest);
        assert(t =~= Seq::<char>::empty());
    } else {
        let tail = t.drop_first();
        literal_from_the_front(t);
        literal_chars_are_read_back(tail, rest);
        assert(s =~= literal_char(t[0]) + (literal_chars(tail) + end));
        a_literal_char_is_read_back(t[0], literal_chars(tail) + end);
        assert(seq![t[0]] + tail =~= t);
    }
}

/// A literal is read back as the text that it was made of, whatever that holds, and whatever
/// follows it.
pub proof fn a_literal_is_read_back(t: Seq<char>, rest: Seq<char>)
    ensures
        json::read_value(literal(t) + rest) == Some((json::Json::Text(t), rest)),
{
    reveal_strlit("\"");
    let s = literal(t) + rest;
    assert(s[0] == '"');
    assert(s.skip(1) =~= literal_chars(t) + (seq!['"'] + rest));
    literal_chars_are_read_back(t, rest);
}

/// The files that stand for a pull request: its description, its changed files, its author's
/// place, no runs, no comments, and its checks with a line feed behind them; and the error that
/// looking at it ends with, exactly where there is one.
pub proof fn a_pull_request_is_served_as_it_is(f: FixtureModel)
    ensures
        ({
            let files = served_files(f);
            &&& files.len() == if f.view_error is Some {
                7int
            } else {
                6int
            }
            &&& files[0] == ("pr_view.json"@, description(f))
            &&& files[1].0 == "files.json"@
            &&& files[2] == (
                "pr_rest.json"@,
                "{\"author_association\": "@ + literal(f.association) + "}"@,
            )
            &&& files[3] == ("runs.json"@, "{\"workflow_runs\": []}"@)
            &&& files[4] == ("comments.json"@, "[]"@)
            &&& files[5] == ("checks.txt"@, f.checks + "\n"@)
            &&& f.view_error is Some ==> files[6] == ("view_error.txt"@, f.view_error->0)
        }),
{
}

/// Each item of a list becomes one object with its literal in it, and commas stand between them.
pub proof fn each_item_becomes_one_object(
    items: Seq<Seq<char>>,
    item: Seq<char>,
    head: Seq<char>,
    tail: Seq<char>,
)
    ensures
        objects(Seq::empty(), head, tail).len() == 0,
        objects(seq![item], head, tail) == head + literal(item) + tail,
        items.len() > 0 ==> objects(items.push(item), head, tail) == objects(items, head, tail)
            + ","@ + (head + literal(item) + tail),
{
    let f = |t: Seq<char>| head + literal(t) + tail;
    assert(seq![item].map_values(f) =~= seq![f(item)]);
    assert(items.push(item).map_values(f) =~= items.map_values(f).push(f(item)));
    text::items_are_joined_by_the_separator(items.map_values(f), ","@, f(item));
    assert(Seq::<Seq<char>>::empty().map_values(f) =~= Seq::<Seq<char>>::empty());
}

/// The description of a pull request holds its title and its author as literals, the number of
/// changed files that it claims, or that it has where it claims none, and its labels.
pub proof fn a_description_holds_what_is_claimed(f: FixtureModel)
    ensures
        ({
            let count = match f.changed_files {
                Some(n) => n as nat,
                None => f.files.len(),
            };
            let to_title = BEFORE_TITLE@ + literal(f.title);
            let to_author = to_title + BEFORE_AUTHOR@ + literal(f.author);
            let to_count = to_author + BEFORE_COUNT@ + text::decimal(count);
            let to_labels = to_count + BEFORE_LABELS@ + objects(f.labels, "{\"name\": "@, "}"@);
            &&& to_title.is_prefix_of(description(f))
            &&& to_author.is_prefix_of(description(f))
            &&& to_count.is_prefix_of(description(f))
            &&& description(f) == to_labels + AFTER_LABELS@
            &&& served_files(f)[1].1 == "["@ + objects(
                f.files,
                "{\"filename\": "@,
                ", \"status\": \"modified\"}"@,
            ) + "]"@
        }),
{
    let d = description(f);
    let count = claimed_count(f);
    let to_title = BEFORE_TITLE@ + literal(f.title);
    let to_author = to_title + BEFORE_AUTHOR@ + literal(f.author);
    let to_count = to_author + BEFORE_COUNT@ + text::decimal(count);
    assert(d.subrange(0, to_title.len() as int) =~= to_title);
    assert(d.subrange(0, to_author.len() as int) =~= to_author);
    assert(d.subrange(0, to_count.len() as int) =~= to_count);
}

/// An honest pull request changes the script and a document, claims as many files as it has, and
/// shows an ordinary author outside the project with passing checks. The script is all that it
/// varies in.
pub proof fn an_honest_pull_request_claims_what_it_has(script: Seq<char>, other: Seq<char>)
    ensures
        ({
            let honest = honest(script);
            &&& honest.files == seq![script, "docs/a.md"@]
            &&& honest.changed_files is None
            &&& claimed_count(honest) == honest.files.len()
            &&& honest.labels == seq!["bug"@]
            &&& honest.title == "Fix a typo"@
            &&& honest.author == "realauthor"@
            &&& honest.association == "NONE"@
            &&& honest.checks == "CI\tpass\t1m\thttps://example.com"@
            &&& honest.view_error is None
            &&& script != other ==> honest.files != self::honest(other).files
        }),
{
    assert(honest(script).files[0] == script);
    assert(honest(other).files[0] == other);
}

} // verus!
