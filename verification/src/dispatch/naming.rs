//! What a dispatch is called: its slug, its worktree directory and its branch.

use crate::path::slash;
use crate::path::{NativePath, PathModel};
use crate::text;
use vstd::prelude::*;
use vstd::string::*;

verus! {

/// Whether a character may stand in a slug as it is.
pub open spec fn is_slug_char(c: char) -> bool {
    text::is_alphanumeric(c) || c == '-' || c == '_'
}

/// A name with everything replaced that may not stand in a slug: two dots in a row by an
/// underscore, a NUL by nothing, any other such character by a hyphen.
pub open spec fn slug_chars(name: Seq<char>) -> Seq<char>
    decreases name.len(),
{
    if name.len() == 0 {
        Seq::empty()
    } else if name.len() >= 2 && name[0] == '.' && name[1] == '.' {
        seq!['_'] + slug_chars(name.skip(2))
    } else if name[0] == '\0' {
        slug_chars(name.skip(1))
    } else if is_slug_char(name[0]) {
        seq![name[0]] + slug_chars(name.skip(1))
    } else {
        seq!['-'] + slug_chars(name.skip(1))
    }
}

/// Whether `s` is hyphens throughout.
pub open spec fn all_hyphens(s: Seq<char>) -> bool {
    forall|i: int| 0 <= i < s.len() ==> #[trigger] s[i] == '-'
}

/// `s` without the hyphens in front.
pub open spec fn without_leading(s: Seq<char>) -> Seq<char>
    decreases s.len(),
{
    if s.len() > 0 && s[0] == '-' {
        without_leading(s.drop_first())
    } else {
        s
    }
}

/// `s` without the hyphens at the end.
pub open spec fn without_trailing(s: Seq<char>) -> Seq<char>
    decreases s.len(),
{
    if s.len() > 0 && s.last() == '-' {
        without_trailing(s.drop_last())
    } else {
        s
    }
}

/// The slug for a name.
pub open spec fn slug(name: Seq<char>) -> Seq<char> {
    let chars = slug_chars(name);
    if all_hyphens(chars) {
        "dispatch"@
    } else {
        without_trailing(without_leading(chars))
    }
}

fn replaced(name: &Vec<char>) -> (out: Vec<char>)
    ensures
        out@ == slug_chars(name@),
{
    let mut out: Vec<char> = Vec::new();
    let mut i: usize = 0;
    proof {
        assert(name@.skip(0) =~= name@);
        assert(out@ + slug_chars(name@) =~= slug_chars(name@));
    }
    while i < name.len()
        invariant
            i <= name@.len(),
            out@ + slug_chars(name@.skip(i as int)) == slug_chars(name@),
        decreases name@.len() - i,
    {
        let c: char = name[i];
        let ghost rest = name@.skip(i as int);
        let ghost before = out@;
        proof {
            assert(rest[0] == c);
            assert(rest.skip(1) =~= name@.skip(i + 1));
            if rest.len() >= 2 {
                assert(rest[1] == name@[i + 1]);
                assert(rest.skip(2) =~= name@.skip(i + 2));
            }
        }
        if c == '.' && i + 1 < name.len() && name[i + 1] == '.' {
            out.push('_');
            i = i + 2;
            proof {
                assert(out@ + slug_chars(name@.skip(i as int)) =~= before + slug_chars(rest));
            }
        } else {
            if c != '\0' {
                if c.is_alphanumeric() || c == '-' || c == '_' {
                    out.push(c);
                } else {
                    out.push('-');
                }
            }
            i = i + 1;
            proof {
                assert(out@ + slug_chars(name@.skip(i as int)) =~= before + slug_chars(rest));
            }
        }
    }
    proof {
        assert(name@.skip(i as int) =~= Seq::<char>::empty());
        assert(out@ + slug_chars(name@.skip(i as int)) =~= out@);
    }
    out
}

/// The slug for a name that a user or an agent chose: letters, digits, hyphens and
/// underscores, with no hyphen at either end, and never empty.
pub fn sanitize_name(name: &str) -> (r: String)
    ensures
        r@ == slug(name@),
{
    let chars = text::chars_of(name);
    let kept = replaced(&chars);
    let mut from: usize = 0;
    proof {
        assert(kept@.skip(0) =~= kept@);
    }
    while from < kept.len() && kept[from] == '-'
        invariant
            from <= kept@.len(),
            forall|i: int| 0 <= i < from ==> #[trigger] kept@[i] == '-',
            without_leading(kept@.skip(from as int)) == without_leading(kept@),
        decreases kept@.len() - from,
    {
        proof {
            let now = kept@.skip(from as int);
            assert(now[0] == kept@[from as int]);
            assert(now.drop_first() =~= kept@.skip(from + 1));
        }
        from = from + 1;
    }
    if from == kept.len() {
        return "dispatch".to_owned();
    }
    let ghost stripped = kept@.skip(from as int);
    proof {
        assert(stripped[0] == kept@[from as int]);
        assert(stripped == without_leading(kept@));
    }
    let mut to: usize = kept.len();
    proof {
        assert(kept@.subrange(from as int, to as int) =~= stripped);
    }
    while kept[to - 1] == '-'
        invariant
            from < to <= kept@.len(),
            kept@[from as int] != '-',
            without_trailing(kept@.subrange(from as int, to as int)) == without_trailing(stripped),
        decreases to,
    {
        proof {
            let now = kept@.subrange(from as int, to as int);
            assert(now.last() == kept@[to - 1]);
            assert(now.drop_last() =~= kept@.subrange(from as int, to - 1));
        }
        to = to - 1;
    }
    proof {
        let now = kept@.subrange(from as int, to as int);
        assert(now.last() == kept@[to - 1]);
    }
    text::text_between(kept.as_slice(), from, to)
}

/// Where one dispatch works: its worktree directory and its branch.
#[derive(Debug)]
pub struct DispatchPaths {
    pub worktree_dir: NativePath,
    pub branch: String,
}

/// The name of a directory, or a fixed stem where it has none.
pub open spec fn stem(dir: PathModel) -> Seq<char> {
    match dir.file_name() {
        Some(name) => name,
        None => "repo"@,
    }
}

/// The name of a directory, or a fixed stem where it has none: the root, say, or a path that
/// ends in `..`.
pub fn stem_of(dir: &NativePath) -> (r: String)
    ensures
        r@ == stem(dir@),
{
    match dir.file_name() {
        Some(name) => name,
        None => "repo".to_owned(),
    }
}

/// The directory that the worktree of a dispatch out of `working_dir` is made in.
pub open spec fn worktree_parent(working_dir: PathModel) -> PathModel {
    match working_dir.parent() {
        Some(dir) => dir,
        None => working_dir,
    }
}

/// The last component of the worktree directory.
pub open spec fn worktree_name(working_dir: PathModel, name: Seq<char>) -> Seq<char> {
    stem(working_dir) + "-"@ + ("dispatch-"@ + slug(name))
}

/// The worktree directory of a dispatch.
pub open spec fn worktree_dir(working_dir: PathModel, name: Seq<char>) -> PathModel {
    worktree_parent(working_dir).joined(worktree_name(working_dir, name))
}

/// The branch of a dispatch.
pub open spec fn branch(name: Seq<char>) -> Seq<char> {
    "agent/"@ + ("dispatch-"@ + slug(name))
}

/// Where a dispatch of this name out of `working_dir` works: in a directory beside
/// `working_dir`, not inside it, on a branch of its own.
pub fn derive_dispatch_paths(working_dir: &NativePath, name: &str) -> (r: DispatchPaths)
    ensures
        r.worktree_dir@ == worktree_dir(working_dir@, name@),
        r.branch@ == branch(name@),
{
    let mut tagged = "dispatch-".to_owned();
    tagged.append(sanitize_name(name).as_str());
    let mut leaf = stem_of(working_dir);
    leaf.append("-");
    leaf.append(tagged.as_str());
    let mut branch = "agent/".to_owned();
    branch.append(tagged.as_str());
    let worktree_dir = match working_dir.parent() {
        Some(dir) => dir.join(leaf.as_str()),
        None => working_dir.join(leaf.as_str()),
    };
    DispatchPaths { worktree_dir, branch }
}

// ---------------------------------------------------------------------------
// Laws
// ---------------------------------------------------------------------------

/// Whether `s` has the shape of a slug.
pub open spec fn is_slug(s: Seq<char>) -> bool {
    &&& s.len() > 0
    &&& s[0] != '-'
    &&& s.last() != '-'
    &&& forall|i: int| 0 <= i < s.len() ==> is_slug_char(#[trigger] s[i])
}

proof fn slug_chars_are_kept(name: Seq<char>)
    ensures
        forall|i: int| 0 <= i < slug_chars(name).len() ==> is_slug_char(#[trigger] slug_chars(name)[i]),
        (forall|i: int| 0 <= i < name.len() ==> is_slug_char(#[trigger] name[i])) ==> slug_chars(name)
            == name,
    decreases name.len(),
{
    if name.len() > 0 {
        let two = name.len() >= 2 && name[0] == '.' && name[1] == '.';
        let n: int = if two {
            2
        } else {
            1
        };
        let rest = name.skip(n);
        slug_chars_are_kept(rest);
        let out = slug_chars(name);
        let head = if two {
            seq!['_']
        } else if name[0] == '\0' {
            Seq::<char>::empty()
        } else if is_slug_char(name[0]) {
            seq![name[0]]
        } else {
            seq!['-']
        };
        assert(out =~= head + slug_chars(rest));
        assert forall|i: int| 0 <= i < out.len() implies is_slug_char(#[trigger] out[i]) by {
            if i >= head.len() {
                assert(out[i] == slug_chars(rest)[i - head.len()]);
            }
        }
        if forall|i: int| 0 <= i < name.len() ==> is_slug_char(#[trigger] name[i]) {
            assert(is_slug_char(name[0]));
            assert forall|i: int| 0 <= i < rest.len() implies is_slug_char(#[trigger] rest[i]) by {
                assert(rest[i] == name[i + n]);
            }
            assert(out =~= name);
        }
    } else {
        assert(slug_chars(name) =~= name);
    }
}

proof fn stripping_strips(s: Seq<char>)
    requires
        !all_hyphens(s),
    ensures
        without_leading(s).len() > 0,
        without_leading(s)[0] != '-',
        !all_hyphens(without_leading(s)),
        s[0] != '-' ==> without_leading(s) == s,
        exists|k: int| 0 <= k <= s.len() && without_leading(s) == #[trigger] s.skip(k),
    decreases s.len(),
{
    if s.len() > 0 && s[0] == '-' {
        let t = s.drop_first();
        if all_hyphens(t) {
            assert forall|i: int| 0 <= i < s.len() implies #[trigger] s[i] == '-' by {
                if i > 0 {
                    assert(t[i - 1] == s[i]);
                }
            }
        }
        stripping_strips(t);
        let k = choose|k: int| 0 <= k <= t.len() && without_leading(t) == #[trigger] t.skip(k);
        assert(t.skip(k) =~= s.skip(k + 1));
    } else {
        assert(s.skip(0) =~= s);
    }
}

proof fn stripping_the_end_strips(s: Seq<char>)
    requires
        s.len() > 0,
        s[0] != '-',
    ensures
        without_trailing(s).len() > 0,
        without_trailing(s)[0] == s[0],
        without_trailing(s).last() != '-',
        s.last() != '-' ==> without_trailing(s) == s,
        exists|k: int| 0 <= k <= s.len() && without_trailing(s) == #[trigger] s.take(k),
    decreases s.len(),
{
    if s.last() == '-' {
        let t = s.drop_last();
        stripping_the_end_strips(t);
        let k = choose|k: int| 0 <= k <= t.len() && without_trailing(t) == #[trigger] t.take(k);
        assert(t.take(k) =~= s.take(k));
    } else {
        assert(s.take(s.len() as int) =~= s);
    }
}

/// Every name gives a usable slug: not empty, made of letters, digits, hyphens and underscores
/// only, and with no hyphen at either end. So neither `..` nor a separator survives in it.
pub proof fn every_name_gives_a_slug(name: Seq<char>)
    ensures
        is_slug(slug(name)),
        !slug(name).contains('/'),
        !slug(name).contains('.'),
{
    let chars = slug_chars(name);
    let out = slug(name);
    slug_chars_are_kept(name);
    if all_hyphens(chars) {
        reveal_strlit("dispatch");
        assert forall|i: int| 0 <= i < out.len() implies is_slug_char(#[trigger] out[i]) by {
            assert('a' <= out[i] <= 'z');
        }
    } else {
        stripping_strips(chars);
        let inner = without_leading(chars);
        stripping_the_end_strips(inner);
        let k = choose|k: int| 0 <= k <= chars.len() && inner == #[trigger] chars.skip(k);
        let n = choose|n: int| 0 <= n <= inner.len() && out == #[trigger] inner.take(n);
        assert forall|i: int| 0 <= i < out.len() implies is_slug_char(#[trigger] out[i]) by {
            assert(out[i] == inner[i]);
            assert(inner[i] == chars[i + k]);
        }
    }
    assert forall|c: char| c == '/' || c == '.' implies !out.contains(c) by {
        if out.contains(c) {
            let i = choose|i: int| 0 <= i < out.len() && out[i] == c;
            assert(is_slug_char(out[i]));
        }
    }
}

/// A name that is a slug already is left as it is, so cleaning a name twice changes nothing
/// more.
pub proof fn slugs_are_left_alone(name: Seq<char>)
    ensures
        is_slug(name) ==> slug(name) == name,
        slug(slug(name)) == slug(name),
{
    if is_slug(name) {
        slug_chars_are_kept(name);
        assert(name[0] != '-');
        stripping_strips(name);
        stripping_the_end_strips(name);
    }
    every_name_gives_a_slug(name);
    let again = slug(name);
    slug_chars_are_kept(again);
    assert(again[0] != '-');
    stripping_strips(again);
    stripping_the_end_strips(again);
}

/// The worktree of a dispatch is a sibling of the checkout that it was dispatched from: it has
/// the same parent, and so is never inside the checkout. This is on a host that separates
/// components by `/`; what `std` takes for a parent elsewhere is known by name only.
pub proof fn worktrees_are_siblings(working_dir: PathModel, name: Seq<char>)
    requires
        working_dir.separator == '/',
        working_dir.file_name() is Some,
    ensures
        worktree_dir(working_dir, name).parent() == working_dir.parent(),
        worktree_dir(working_dir, name).file_name() == Some(worktree_name(working_dir, name)),
        worktree_dir(working_dir, name).file_name() != working_dir.file_name(),
{
    let leaf = worktree_name(working_dir, name);
    slash::parents_are_settled(working_dir.text);
    slash::names_have_a_parent(working_dir.text);
    every_name_gives_a_slug(name);
    reveal_strlit("-");
    reveal_strlit("dispatch-");
    let tail = "-"@ + ("dispatch-"@ + slug(name));
    assert(leaf =~= stem(working_dir) + tail);
    assert(leaf.len() > 2);
    assert forall|i: int| 0 <= i < leaf.len() implies #[trigger] leaf[i] != '/' by {
        let at = stem(working_dir).len();
        if i >= at + 10 {
            assert(leaf[i] == slug(name)[i - at - 10]);
            assert(is_slug_char(slug(name)[i - at - 10]));
        } else if i < at {
            assert(leaf[i] == stem(working_dir)[i]);
        } else {
            assert(leaf[i] == tail[i - at]);
        }
    }
    slash::join_then_split(worktree_parent(working_dir).text, leaf);
}

/// Dispatches whose names give different slugs work apart: in different directories, and on
/// different branches. Where the slugs are the same, so are both. That the directories differ
/// is said of a host that separates components by `/`; how `std` joins elsewhere is known by
/// name only.
pub proof fn different_slugs_work_apart(
    working_dir: PathModel,
    name: Seq<char>,
    other: Seq<char>,
)
    ensures
        branch(name) == branch(other) <==> slug(name) == slug(other),
        slug(name) == slug(other) ==> worktree_dir(working_dir, name) == worktree_dir(
            working_dir,
            other,
        ),
        working_dir.separator == '/' && slug(name) != slug(other) ==> worktree_dir(
            working_dir,
            name,
        ) != worktree_dir(working_dir, other),
{
    let a = slug(name);
    let b = slug(other);
    if branch(name) == branch(other) {
        assert(a =~= branch(name).skip("agent/"@.len() as int + "dispatch-"@.len() as int));
        assert(b =~= branch(other).skip("agent/"@.len() as int + "dispatch-"@.len() as int));
    }
    let dir = worktree_parent(working_dir).text;
    let head = stem(working_dir) + "-"@;
    let w1 = worktree_dir(working_dir, name).text;
    let w2 = worktree_dir(working_dir, other).text;
    if working_dir.separator == '/' && w1 == w2 {
        stems_are_relative(working_dir);
        assert(worktree_name(working_dir, name)[0] == stem(working_dir)[0]);
        assert(worktree_name(working_dir, other)[0] == stem(working_dir)[0]);
        let at = if dir.len() == 0 || dir.last() == '/' {
            dir.len()
        } else {
            dir.len() + 1
        };
        let from = at + head.len() + "dispatch-"@.len();
        assert(a =~= w1.skip(from as int));
        assert(b =~= w2.skip(from as int));
    }
}

proof fn stems_are_relative(dir: PathModel)
    requires
        dir.separator == '/',
    ensures
        stem(dir).len() > 0,
        stem(dir)[0] != '/',
{
    slash::names_have_a_parent(dir.text);
    reveal_strlit("repo");
    if let Some(name) = dir.file_name() {
        assert(slash::is_plain(name));
        assert(name[0] != '/');
    }
}

/// A name is cleaned piece by piece: letters, digits, hyphens and underscores stay, two dots in
/// a row become an underscore, a NUL goes, and any other character becomes a hyphen. Two pieces
/// are cleaned on their own unless two dots would be torn apart.
pub proof fn names_are_cleaned_piece_by_piece(a: Seq<char>, b: Seq<char>, c: char)
    ensures
        slug_chars(Seq::empty()).len() == 0,
        text::is_alphanumeric(c) || c == '-' || c == '_' ==> slug_chars(seq![c]) == seq![c],
        slug_chars(seq!['\0']).len() == 0,
        c != '\0' && !text::is_alphanumeric(c) && c != '-' && c != '_' ==> slug_chars(seq![c])
            == seq!['-'],
        slug_chars(seq!['.', '.'] + a) == seq!['_'] + slug_chars(a),
        a.len() == 0 || b.len() == 0 || a.last() != '.' || b[0] != '.' ==> slug_chars(a + b)
            == slug_chars(a) + slug_chars(b),
    decreases a.len(),
{
    let none = Seq::<char>::empty();
    assert(seq![c].skip(1) =~= none);
    assert(seq!['\0'].skip(1) =~= none);
    assert(slug_chars(none) =~= none);
    assert(seq![c] + none =~= seq![c]);
    assert(seq!['-'] + none =~= seq!['-']);
    assert((seq!['.', '.'] + a).skip(2) =~= a);
    assert(!text::is_alphanumeric('\0'));
    if a.len() == 0 {
        assert(a + b =~= b);
        assert(slug_chars(a) + slug_chars(b) =~= slug_chars(b));
    } else if b.len() == 0 {
        assert(a + b =~= a);
        assert(slug_chars(a) + slug_chars(b) =~= slug_chars(a));
    } else if a.last() != '.' || b[0] != '.' {
        let whole = a + b;
        assert(whole[0] == a[0]);
        let two = a.len() >= 2 && a[0] == '.' && a[1] == '.';
        if a.len() >= 2 {
            assert(whole[1] == a[1]);
        } else {
            assert(whole[1] == b[0]);
            assert(a.last() == a[0]);
        }
        let n: int = if two {
            2
        } else {
            1
        };
        let rest = a.skip(n);
        if rest.len() > 0 {
            assert(rest.last() == a.last());
        }
        names_are_cleaned_piece_by_piece(rest, b, c);
        assert(whole.skip(n) =~= rest + b);
        assert(slug_chars(whole) =~= slug_chars(a) + slug_chars(b));
    }
}

/// The slug is the cleaned name without the hyphens at its ends, and nothing else is taken away;
/// where nothing but hyphens is left of a name, it is `dispatch`.
pub proof fn a_slug_is_the_cleaned_name(name: Seq<char>) -> (ends: (int, int))
    ensures
        ({
            let chars = slug_chars(name);
            &&& (forall|i: int| 0 <= i < chars.len() ==> #[trigger] chars[i] == '-') ==> slug(name)
                == "dispatch"@
            &&& !(forall|i: int| 0 <= i < chars.len() ==> #[trigger] chars[i] == '-') ==> {
                &&& 0 <= ends.0 < ends.1 <= chars.len()
                &&& slug(name) == chars.subrange(ends.0, ends.1)
                &&& chars[ends.0] != '-' && chars[ends.1 - 1] != '-'
                &&& forall|i: int|
                    0 <= i < ends.0 || ends.1 <= i < chars.len() ==> #[trigger] chars[i] == '-'
            }
        }),
{
    let chars = slug_chars(name);
    if all_hyphens(chars) {
        (0, 0)
    } else {
        let from = leading_hyphens(chars);
        let inner = without_leading(chars);
        stripping_strips(chars);
        let to = trailing_hyphens(inner);
        stripping_the_end_strips(inner);
        assert(slug(name) =~= chars.subrange(from, from + to));
        assert(inner[0] == chars[from]);
        assert(inner[to - 1] == chars[from + to - 1]);
        assert forall|i: int| 0 <= i < from || from + to <= i < chars.len() implies #[trigger]
        chars[i] == '-' by {
            if i >= from {
                assert(chars[i] == inner[i - from]);
            }
        }
        (from, from + to)
    }
}

proof fn leading_hyphens(s: Seq<char>) -> (n: int)
    ensures
        0 <= n <= s.len(),
        without_leading(s) == s.skip(n),
        forall|i: int| 0 <= i < n ==> #[trigger] s[i] == '-',
    decreases s.len(),
{
    if s.len() > 0 && s[0] == '-' {
        let rest = s.drop_first();
        let n = leading_hyphens(rest);
        assert(rest.skip(n) =~= s.skip(n + 1));
        assert forall|i: int| 0 <= i < n + 1 implies #[trigger] s[i] == '-' by {
            if i > 0 {
                assert(s[i] == rest[i - 1]);
            }
        }
        n + 1
    } else {
        assert(s.skip(0) =~= s);
        0
    }
}

proof fn trailing_hyphens(s: Seq<char>) -> (n: int)
    ensures
        0 <= n <= s.len(),
        without_trailing(s) == s.take(n),
        forall|i: int| n <= i < s.len() ==> #[trigger] s[i] == '-',
    decreases s.len(),
{
    if s.len() > 0 && s.last() == '-' {
        let front = s.drop_last();
        let n = trailing_hyphens(front);
        assert(front.take(n) =~= s.take(n));
        assert forall|i: int| n <= i < s.len() implies #[trigger] s[i] == '-' by {
            if i < front.len() {
                assert(s[i] == front[i]);
            }
        }
        n
    } else {
        assert(s.take(s.len() as int) =~= s);
        s.len() as int
    }
}

/// A dispatch works in a directory that is named after the checkout and after its own slug, in
/// the directory that holds the checkout, or in the checkout where there is none; and on the
/// branch of its slug. A checkout without a name goes by `repo`.
pub proof fn a_dispatch_is_named_after_its_checkout(working_dir: PathModel, name: Seq<char>)
    ensures
        ({
            let called = match working_dir.file_name() {
                Some(n) => n,
                None => "repo"@,
            };
            let leaf = called + "-dispatch-"@ + slug(name);
            &&& working_dir.parent() matches Some(dir) ==> worktree_dir(working_dir, name)
                == dir.joined(leaf)
            &&& working_dir.parent() is None ==> worktree_dir(working_dir, name)
                == working_dir.joined(leaf)
            &&& branch(name) == "agent/dispatch-"@ + slug(name)
            &&& stem(working_dir) == called
        }),
{
    reveal_strlit("-");
    reveal_strlit("dispatch-");
    reveal_strlit("-dispatch-");
    reveal_strlit("agent/");
    reveal_strlit("agent/dispatch-");
    let called = stem(working_dir);
    assert(called + "-"@ + ("dispatch-"@ + slug(name)) =~= called + "-dispatch-"@ + slug(name));
    assert("agent/"@ + ("dispatch-"@ + slug(name)) =~= "agent/dispatch-"@ + slug(name));
}

} // verus!
