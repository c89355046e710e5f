//! Paths on a host that separates components by `/`.
//!
//! The rules are those of Unix: a component is what stands between two separators; an empty
//! one and a `.` count for nothing, save for a `.` that begins a relative path; `..` is a
//! component, but no file name.

use crate::text;
use vstd::prelude::*;
use vstd::string::*;

verus! {

/// Whether `p` begins with the root.
pub open spec fn is_absolute(p: Seq<char>) -> bool {
    p.len() > 0 && p[0] == '/'
}

/// Whether `p` begins with a `.` component.
pub open spec fn begins_here(p: Seq<char>) -> bool {
    p.len() > 0 && p[0] == '.' && (p.len() == 1 || p[1] == '/')
}

/// Where the components of `p` begin behind a leading `/` or `.`.
pub open spec fn body_start(p: Seq<char>) -> nat {
    if is_absolute(p) || begins_here(p) {
        1
    } else {
        0
    }
}

/// Where the last piece of `p[base..end]` begins: behind its last separator.
pub open spec fn piece_start(p: Seq<char>, base: nat, end: nat) -> nat
    decreases end,
{
    if end <= base {
        base
    } else if p[end - 1] == '/' {
        end
    } else {
        piece_start(p, base, (end - 1) as nat)
    }
}

/// Where `p[base..end]` ends once its last piece, and the separator in front of it, is gone.
pub open spec fn piece_cut(p: Seq<char>, base: nat, end: nat) -> nat {
    let start = piece_start(p, base, end);
    if start > base {
        (start - 1) as nat
    } else {
        base
    }
}

/// Whether a piece counts for nothing.
pub open spec fn is_void(piece: Seq<char>) -> bool {
    piece.len() == 0 || piece == seq!['.']
}

/// The end of `p[..end]` without the pieces at its end that count for nothing.
pub open spec fn body_end(p: Seq<char>, base: nat, end: nat) -> nat
    decreases end,
{
    if end <= base {
        end
    } else {
        let start = piece_start(p, base, end);
        let cut = piece_cut(p, base, end);
        if is_void(p.subrange(start as int, end as int)) && cut < end {
            body_end(p, base, cut)
        } else {
            end
        }
    }
}

/// The last component of `p`, if it is a name.
pub open spec fn file_name_of(p: Seq<char>) -> Option<Seq<char>> {
    let base = body_start(p);
    let end = body_end(p, base, p.len());
    let last = p.subrange(piece_start(p, base, end) as int, end as int);
    if end <= base || last == seq!['.', '.'] {
        None
    } else {
        Some(last)
    }
}

/// `p` without its last component: nothing for the root and for an empty path.
pub open spec fn parent_of(p: Seq<char>) -> Option<Seq<char>> {
    let base = body_start(p);
    let end = body_end(p, base, p.len());
    if end > base {
        Some(p.take(body_end(p, base, piece_cut(p, base, end)) as int))
    } else if begins_here(p) {
        Some(Seq::empty())
    } else {
        None
    }
}

/// `name` inside the directory `dir`. An absolute `name` stands for itself.
pub open spec fn joined(dir: Seq<char>, name: Seq<char>) -> Seq<char> {
    if is_absolute(name) {
        name
    } else if dir.len() == 0 || dir.last() == '/' {
        dir + name
    } else {
        dir + seq!['/'] + name
    }
}

/// The pieces of `s` between separators, without those that count for nothing.
pub open spec fn pieces(s: Seq<char>) -> Seq<Seq<char>>
    decreases s.len(),
{
    if s.len() == 0 {
        Seq::empty()
    } else {
        let n = text::run_before(s, '/') as int;
        let first = s.take(n);
        let rest = if n < s.len() {
            pieces(s.skip(n + 1))
        } else {
            Seq::empty()
        };
        if is_void(first) {
            rest
        } else {
            seq![first] + rest
        }
    }
}

/// The components of a path, `/` for the root and `.` for a leading `.`. Two paths with the
/// same components are the same path in another spelling.
pub open spec fn components(p: Seq<char>) -> Seq<Seq<char>> {
    (if is_absolute(p) {
        seq![seq!['/']]
    } else if begins_here(p) {
        seq![seq!['.']]
    } else {
        Seq::empty()
    }) + pieces(p.skip(body_start(p) as int))
}

fn find_start(chars: &Vec<char>) -> (base: usize)
    ensures
        base == body_start(chars@),
        base <= chars@.len(),
{
    if chars.len() == 0 {
        0
    } else if chars[0] == '/' {
        1
    } else if chars[0] == '.' && (chars.len() == 1 || chars[1] == '/') {
        1
    } else {
        0
    }
}

fn find_piece(chars: &Vec<char>, base: usize, end: usize) -> (start: usize)
    requires
        base <= end <= chars@.len(),
    ensures
        start == piece_start(chars@, base as nat, end as nat),
        base <= start <= end,
{
    let mut start: usize = end;
    while start > base && chars[start - 1] != '/'
        invariant
            base <= start <= end <= chars@.len(),
            piece_start(chars@, base as nat, end as nat) == piece_start(
                chars@,
                base as nat,
                start as nat,
            ),
        decreases start,
    {
        start = start - 1;
    }
    start
}

fn find_end(chars: &Vec<char>, base: usize, from: usize) -> (end: usize)
    requires
        base <= from <= chars@.len(),
    ensures
        end == body_end(chars@, base as nat, from as nat),
        base <= end <= from,
{
    let mut end: usize = from;
    loop
        invariant
            base <= end <= from <= chars@.len(),
            body_end(chars@, base as nat, from as nat) == body_end(
                chars@,
                base as nat,
                end as nat,
            ),
        ensures
            end == body_end(chars@, base as nat, from as nat),
        decreases end,
    {
        if end <= base {
            break;
        }
        let start = find_piece(chars, base, end);
        let ghost piece = chars@.subrange(start as int, end as int);
        let void: bool = start == end || (end - start == 1 && chars[start] == '.');
        proof {
            if end - start == 1 {
                assert(piece[0] == chars@[start as int]);
                if chars@[start as int] == '.' {
                    assert(piece =~= seq!['.']);
                }
            }
            if piece == seq!['.'] {
                assert(piece.len() == 1);
                assert(piece[0] == chars@[start as int]);
            }
            assert(void == is_void(piece));
            piece_cut_shrinks(chars@, base as nat, end as nat);
        }
        if !void {
            break;
        }
        end = if start > base {
            start - 1
        } else {
            base
        };
    }
    end
}

proof fn piece_start_bounds(p: Seq<char>, base: nat, end: nat)
    requires
        base <= end,
    ensures
        base <= piece_start(p, base, end) <= end,
    decreases end,
{
    if base < end && p[end - 1] != '/' {
        piece_start_bounds(p, base, (end - 1) as nat);
    }
}

proof fn piece_cut_shrinks(p: Seq<char>, base: nat, end: nat)
    requires
        base < end,
    ensures
        base <= piece_start(p, base, end) <= end,
        base <= piece_cut(p, base, end) < end,
{
    piece_start_bounds(p, base, end);
}

/// The last component of a path, if it is a name: nothing for the root, for an empty path and
/// for one that ends in `..`.
pub fn file_name(p: &str) -> (r: Option<String>)
    ensures
        text::maybe(r) == file_name_of(p@),
{
    let chars = text::chars_of(p);
    let base = find_start(&chars);
    let end = find_end(&chars, base, chars.len());
    if end <= base {
        return None;
    }
    let start = find_piece(&chars, base, end);
    let ghost last = chars@.subrange(start as int, end as int);
    if end - start == 2 && chars[start] == '.' && chars[start + 1] == '.' {
        proof {
            assert(last =~= seq!['.', '.']);
        }
        return None;
    }
    proof {
        if last == seq!['.', '.'] {
            assert(last.len() == 2);
            assert(last[0] == chars@[start as int]);
            assert(last[1] == chars@[start + 1]);
        }
    }
    Some(text::text_between(chars.as_slice(), start, end))
}

/// A path without its last component: nothing for the root and for an empty path.
pub fn parent(p: &str) -> (r: Option<String>)
    ensures
        text::maybe(r) == parent_of(p@),
{
    let chars = text::chars_of(p);
    let base = find_start(&chars);
    let end = find_end(&chars, base, chars.len());
    if end > base {
        proof {
            piece_cut_shrinks(chars@, base as nat, end as nat);
        }
        let start = find_piece(&chars, base, end);
        let cut: usize = if start > base {
            start - 1
        } else {
            base
        };
        let to = find_end(&chars, base, cut);
        proof {
            assert(p@.take(to as int) =~= chars@.subrange(0, to as int));
        }
        Some(text::text_between(chars.as_slice(), 0, to))
    } else if base == 1 && chars[0] == '.' {
        Some(String::new())
    } else {
        None
    }
}

/// A name inside a directory.
pub fn join(dir: &str, name: &str) -> (r: String)
    ensures
        r@ == joined(dir@, name@),
{
    let inner = text::chars_of(name);
    if inner.len() > 0 && inner[0] == '/' {
        return name.to_owned();
    }
    let outer = text::chars_of(dir);
    let mut r = dir.to_owned();
    if outer.len() > 0 && outer[outer.len() - 1] != '/' {
        r.push('/');
        proof {
            assert(r@ =~= dir@ + seq!['/']);
        }
    }
    r.append(name);
    r
}

/// The components of a path.
pub fn split(p: &str) -> (r: Vec<String>)
    ensures
        text::texts(r@) == components(p@),
{
    let chars = text::chars_of(p);
    let base = find_start(&chars);
    let mut out: Vec<String> = Vec::new();
    let ghost body = chars@.skip(base as int);
    if base == 1 {
        let mut first = String::new();
        first.push(chars[0]);
        proof {
            assert(first@ =~= seq![chars@[0]]);
        }
        out.push(first);
    }
    proof {
        assert(components(p@) =~= text::texts(out@) + pieces(body));
    }
    let mut from: usize = base;
    while from < chars.len()
        invariant
            from <= chars@.len(),
            chars@ == p@,
            components(p@) == text::texts(out@) + pieces(chars@.skip(from as int)),
        decreases chars@.len() - from,
    {
        let ghost rest = chars@.skip(from as int);
        let ghost before = out@;
        let to = text::find_char(chars.as_slice(), from, '/');
        let ghost piece = rest.take(to - from);
        let void: bool = to == from || (to - from == 1 && chars[from] == '.');
        proof {
            assert(piece =~= chars@.subrange(from as int, to as int));
            if to - from == 1 {
                assert(piece[0] == chars@[from as int]);
                if chars@[from as int] == '.' {
                    assert(piece =~= seq!['.']);
                }
            }
            if piece == seq!['.'] {
                assert(piece.len() == 1);
                assert(piece[0] == chars@[from as int]);
            }
            assert(void == is_void(piece));
            if to < chars@.len() {
                assert(rest.skip(to - from + 1) =~= chars@.skip(to + 1));
            } else {
                assert(chars@.skip(to as int) =~= Seq::<char>::empty());
            }
        }
        if !void {
            let name = text::text_between(chars.as_slice(), from, to);
            out.push(name);
            proof {
                assert(text::texts(out@) =~= text::texts(before).push(name@));
            }
        }
        from = if to < chars.len() {
            to + 1
        } else {
            to
        };
        proof {
            let tail = pieces(chars@.skip(from as int));
            assert(pieces(rest) =~= (if void {
                tail
            } else {
                seq![piece] + tail
            }));
            assert(text::texts(out@) + tail =~= text::texts(before) + pieces(rest));
        }
    }
    proof {
        assert(chars@.skip(from as int) =~= Seq::<char>::empty());
        assert(components(p@) =~= text::texts(out@));
    }
    out
}

/// Whether two paths have the same components.
pub fn same_path(a: &str, b: &str) -> (r: bool)
    ensures
        r == (components(a@) == components(b@)),
{
    let left = split(a);
    let right = split(b);
    let ghost x = text::texts(left@);
    let ghost y = text::texts(right@);
    proof {
        assert(x.len() == left@.len());
        assert(y.len() == right@.len());
    }
    if left.len() != right.len() {
        return false;
    }
    let mut i: usize = 0;
    while i < left.len()
        invariant
            i <= left@.len() == right@.len(),
            x == text::texts(left@),
            y == text::texts(right@),
            x == components(a@),
            y == components(b@),
            forall|j: int| 0 <= j < i ==> x[j] == y[j],
        decreases left@.len() - i,
    {
        if !text::same_text(left[i].as_str(), right[i].as_str()) {
            proof {
                assert(x[i as int] == left@[i as int]@);
                assert(y[i as int] == right@[i as int]@);
            }
            return false;
        }
        i = i + 1;
    }
    proof {
        assert(x =~= y);
    }
    true
}

// ---------------------------------------------------------------------------
// Laws
// ---------------------------------------------------------------------------

/// Whether `p` ends with its last component: nothing follows it that counts for nothing.
pub open spec fn is_settled(p: Seq<char>) -> bool {
    body_end(p, body_start(p), p.len()) == p.len()
}

/// Whether `name` is a single component.
pub open spec fn is_plain(name: Seq<char>) -> bool {
    &&& !is_void(name)
    &&& name != seq!['.', '.']
    &&& forall|i: int| 0 <= i < name.len() ==> #[trigger] name[i] != '/'
}

proof fn piece_start_agrees(p: Seq<char>, q: Seq<char>, base: nat, end: nat)
    requires
        end <= p.len(),
        end <= q.len(),
        p.take(end as int) == q.take(end as int),
    ensures
        piece_start(p, base, end) == piece_start(q, base, end),
    decreases end,
{
    if end > base {
        assert(p[end - 1] == p.take(end as int)[end - 1]);
        assert(q[end - 1] == q.take(end as int)[end - 1]);
        assert(p.take(end - 1) =~= p.take(end as int).take(end - 1));
        assert(q.take(end - 1) =~= q.take(end as int).take(end - 1));
        piece_start_agrees(p, q, base, (end - 1) as nat);
    }
}

proof fn body_end_agrees(p: Seq<char>, q: Seq<char>, base: nat, end: nat)
    requires
        end <= p.len(),
        end <= q.len(),
        p.take(end as int) == q.take(end as int),
    ensures
        body_end(p, base, end) == body_end(q, base, end),
    decreases end,
{
    if end > base {
        piece_cut_shrinks(p, base, end);
        piece_start_agrees(p, q, base, end);
        let start = piece_start(p, base, end) as int;
        let cut = piece_cut(p, base, end) as int;
        assert(p.subrange(start, end as int) =~= p.take(end as int).subrange(start, end as int));
        assert(q.subrange(start, end as int) =~= q.take(end as int).subrange(start, end as int));
        assert(p.take(cut) =~= p.take(end as int).take(cut));
        assert(q.take(cut) =~= q.take(end as int).take(cut));
        body_end_agrees(p, q, base, cut as nat);
    }
}

proof fn body_end_settles(p: Seq<char>, base: nat, end: nat)
    requires
        base <= end,
    ensures
        base <= body_end(p, base, end) <= end,
        body_end(p, base, body_end(p, base, end)) == body_end(p, base, end),
    decreases end,
{
    if end > base {
        piece_cut_shrinks(p, base, end);
        let start = piece_start(p, base, end);
        if is_void(p.subrange(start as int, end as int)) {
            body_end_settles(p, base, piece_cut(p, base, end));
        }
    }
}

/// A parent directory ends with its last component.
pub proof fn parents_are_settled(p: Seq<char>)
    ensures
        parent_of(p) matches Some(dir) ==> is_settled(dir),
{
    let base = body_start(p);
    body_end_settles(p, base, p.len());
    let end = body_end(p, base, p.len());
    if end > base {
        piece_cut_shrinks(p, base, end);
        let cut = piece_cut(p, base, end);
        body_end_settles(p, base, cut);
        let m = body_end(p, base, cut);
        let dir = p.take(m as int);
        assert(dir.take(m as int) =~= dir);
        body_end_agrees(p, dir, base, m);
        if m > 0 {
            assert(dir[0] == p[0]);
            if m > 1 {
                assert(dir[1] == p[1]);
            } else if base == 0 && p[0] == '.' {
                piece_start_bounds(p, 0, 1);
                reveal_with_fuel(piece_start, 2);
                assert(p.subrange(0, 1) =~= seq!['.']);
                assert(piece_start(p, 0, 1) == 0);
                assert(body_end(p, 0, 0) == 0);
                assert(body_end(p, 0, 1) == 0);
            }
        }
        assert(body_start(dir) == base || m == 0);
    }
}

/// What is joined to a directory comes off again as the file name, and leaves the directory.
pub proof fn join_then_split(dir: Seq<char>, name: Seq<char>)
    requires
        is_settled(dir),
        is_plain(name),
    ensures
        file_name_of(joined(dir, name)) == Some(name),
        parent_of(joined(dir, name)) == Some(dir),
{
    let p = joined(dir, name);
    assert(name[0] != '/');
    let base = body_start(dir);
    let len = dir.len();
    if len > base {
        // The last piece of a settled directory is not empty.
        piece_cut_shrinks(dir, base, len);
        if dir.last() == '/' {
            assert(piece_start(dir, base, len) == len);
            assert(dir.subrange(len as int, len as int).len() == 0);
            body_end_settles(dir, base, piece_cut(dir, base, len));
        }
    }
    let start = if len == 0 || dir.last() == '/' {
        len
    } else {
        len + 1
    };
    assert(p.subrange(start as int, p.len() as int) =~= name);
    assert(p.take(len as int) =~= dir);
    if len == 0 {
        assert(p =~= name);
        if begins_here(name) && name.len() == 1 {
            assert(name =~= seq!['.']);
        }
    } else {
        assert(p[0] == dir[0]);
        if len > 1 {
            assert(p[1] == dir[1]);
        } else if dir[0] == '.' {
            assert(p[1] == '/');
        }
    }
    assert(body_start(p) == base);
    assert forall|i: int| start <= i < p.len() implies #[trigger] p[i] != '/' by {
        assert(p[i] == name[i - start]);
    }
    last_piece(p, base, start, p.len());
    assert(dir.take(len as int) =~= dir);
    body_end_agrees(p, dir, base, len);
    assert(piece_cut(p, base, p.len()) == len);
}

proof fn last_piece(p: Seq<char>, base: nat, start: nat, end: nat)
    requires
        base <= start <= end <= p.len(),
        start > base ==> p[start - 1] == '/',
        forall|i: int| start <= i < end ==> #[trigger] p[i] != '/',
    ensures
        piece_start(p, base, end) == start,
    decreases end,
{
    if end > start {
        last_piece(p, base, start, (end - 1) as nat);
    }
}

/// A path with a file name has a parent, and the name holds no separator.
pub proof fn names_have_a_parent(p: Seq<char>)
    ensures
        file_name_of(p) matches Some(name) ==> parent_of(p) is Some && is_plain(name),
{
    let base = body_start(p);
    body_end_settles(p, base, p.len());
    let end = body_end(p, base, p.len());
    if end > base {
        piece_cut_shrinks(p, base, end);
        piece_has_no_separator(p, base, end);
        let start = piece_start(p, base, end) as int;
        let last = p.subrange(start, end as int);
        if is_void(last) {
            body_end_settles(p, base, piece_cut(p, base, end));
        }
        assert forall|i: int| 0 <= i < last.len() implies #[trigger] last[i] != '/' by {
            assert(last[i] == p[start + i]);
        }
    }
}

proof fn piece_has_no_separator(p: Seq<char>, base: nat, end: nat)
    requires
        base <= end <= p.len(),
    ensures
        forall|i: int| piece_start(p, base, end) <= i < end ==> #[trigger] p[i] != '/',
    decreases end,
{
    if end > base && p[end - 1] != '/' {
        piece_has_no_separator(p, base, (end - 1) as nat);
    }
}

/// A name without a separator is its own first run.
proof fn plain_name_is_one_piece(name: Seq<char>)
    requires
        is_plain(name),
    ensures
        pieces(name) == seq![name],
        !is_absolute(name),
        !begins_here(name),
{
    text::run_before_stops(name, '/');
    assert(name.take(name.len() as int) =~= name);
    assert(name[0] != '/');
    if begins_here(name) {
        assert(name =~= seq!['.']);
    }
    assert(pieces(name) =~= seq![name]);
}

/// What stands on both sides of a separator is split on its own.
proof fn pieces_of_both_sides(a: Seq<char>, b: Seq<char>)
    ensures
        pieces(a + seq!['/'] + b) == pieces(a) + pieces(b),
    decreases a.len(),
{
    let s = a + seq!['/'] + b;
    let n = text::run_before(a, '/') as int;
    let m = text::run_before(s, '/') as int;
    text::run_before_stops(a, '/');
    text::run_before_stops(s, '/');
    assert(s[n] == '/');
    if m < n {
        assert(s[m] == a[m]);
    }
    assert(s.take(n) =~= a.take(n));
    if n < a.len() {
        let rest = a.skip(n + 1);
        pieces_of_both_sides(rest, b);
        assert(s.skip(n + 1) =~= rest + seq!['/'] + b);
    } else {
        assert(s.skip(n + 1) =~= b);
        assert(a.take(n) =~= a);
    }
    assert(pieces(s) =~= pieces(a) + pieces(b));
}

/// A plain name that is joined to a directory becomes the last component, behind those of
/// the directory.
pub proof fn joining_adds_a_component(dir: Seq<char>, name: Seq<char>)
    requires
        is_plain(name),
    ensures
        components(joined(dir, name)) == components(dir).push(name),
{
    let whole = joined(dir, name);
    plain_name_is_one_piece(name);
    if dir.len() == 0 {
        assert(whole =~= name);
        assert(name.skip(0) =~= name);
        assert(dir.skip(0) =~= dir);
    } else {
        let base = body_start(dir) as int;
        assert(whole[0] == dir[0]);
        assert(body_start(whole) == base);
        let body = dir.skip(base);
        if dir.last() != '/' {
            assert(whole.skip(base) =~= body + seq!['/'] + name);
            pieces_of_both_sides(body, name);
        } else if body.len() == 0 {
            assert(whole.skip(base) =~= name);
        } else {
            let front = body.drop_last();
            assert(body =~= front + seq!['/'] + Seq::<char>::empty());
            assert(whole.skip(base) =~= front + seq!['/'] + name);
            pieces_of_both_sides(front, Seq::empty());
            pieces_of_both_sides(front, name);
        }
    }
    assert(components(whole) =~= components(dir).push(name));
}

proof fn a_separator_precedes_a_piece(p: Seq<char>, base: nat, end: nat)
    requires
        base <= end <= p.len(),
        piece_start(p, base, end) > base,
    ensures
        p[piece_start(p, base, end) - 1] == '/',
    decreases end,
{
    if end > base && p[end - 1] != '/' {
        a_separator_precedes_a_piece(p, base, (end - 1) as nat);
    }
}

proof fn one_run_is_one_piece(run: Seq<char>)
    requires
        forall|i: int| 0 <= i < run.len() ==> #[trigger] run[i] != '/',
    ensures
        pieces(run) == if is_void(run) {
            Seq::empty()
        } else {
            seq![run]
        },
{
    text::run_before_stops(run, '/');
    assert(run.take(run.len() as int) =~= run);
    if run.len() > 0 {
        assert(pieces(run) =~= if is_void(run) {
            Seq::empty()
        } else {
            seq![run]
        });
    }
}

proof fn the_last_piece_comes_off(p: Seq<char>, base: nat, end: nat)
    requires
        base < end <= p.len(),
    ensures
        ({
            let start = piece_start(p, base, end) as int;
            let cut = piece_cut(p, base, end) as int;
            let last = p.subrange(start, end as int);
            pieces(p.subrange(base as int, end as int)) == pieces(p.subrange(base as int, cut))
                + if is_void(last) {
                Seq::<Seq<char>>::empty()
            } else {
                seq![last]
            }
        }),
{
    piece_cut_shrinks(p, base, end);
    piece_has_no_separator(p, base, end);
    let start = piece_start(p, base, end) as int;
    let cut = piece_cut(p, base, end) as int;
    let body = p.subrange(base as int, end as int);
    let front = p.subrange(base as int, cut);
    let last = p.subrange(start, end as int);
    assert forall|i: int| 0 <= i < last.len() implies #[trigger] last[i] != '/' by {
        assert(last[i] == p[start + i]);
    }
    one_run_is_one_piece(last);
    if start > base {
        a_separator_precedes_a_piece(p, base, end);
        assert(body =~= front + seq!['/'] + last);
        pieces_of_both_sides(front, last);
    } else {
        assert(body =~= last);
        assert(front =~= Seq::<char>::empty());
        assert(pieces(front) =~= Seq::<Seq<char>>::empty());
        assert(pieces(front) + pieces(last) =~= pieces(last));
    }
}

proof fn the_end_of_a_path_holds_no_component(p: Seq<char>, base: nat, end: nat)
    requires
        base <= end <= p.len(),
    ensures
        base <= body_end(p, base, end) <= end,
        pieces(p.subrange(base as int, body_end(p, base, end) as int)) == pieces(
            p.subrange(base as int, end as int),
        ),
    decreases end,
{
    if end > base {
        piece_cut_shrinks(p, base, end);
        let start = piece_start(p, base, end);
        let cut = piece_cut(p, base, end);
        if is_void(p.subrange(start as int, end as int)) {
            the_last_piece_comes_off(p, base, end);
            the_end_of_a_path_holds_no_component(p, base, cut);
            assert(pieces(p.subrange(base as int, cut as int)) + Seq::<Seq<char>>::empty()
                =~= pieces(p.subrange(base as int, cut as int)));
        }
    }
}

/// The components of a path are what stands between its separators: those of two parts with a
/// separator between them are those of the one, then those of the other. An empty part and a `.`
/// are none, and any other part without a separator is one, `..` too. An absolute path has the
/// root in front, and a relative one that begins with `.` has that.
pub proof fn components_stand_between_separators(a: Seq<char>, b: Seq<char>, part: Seq<char>)
    requires
        forall|i: int| 0 <= i < part.len() ==> #[trigger] part[i] != '/',
    ensures
        pieces(a + seq!['/'] + b) == pieces(a) + pieces(b),
        part.len() == 0 || part == seq!['.'] ==> pieces(part).len() == 0,
        part.len() > 0 && part != seq!['.'] ==> pieces(part) == seq![part],
        components(seq!['/'] + a) == seq![seq!['/']] + pieces(a),
        components(seq!['.', '/'] + a) == seq![seq!['.']] + pieces(a),
        a.len() > 0 && a[0] != '/' && a[0] != '.' ==> components(a) == pieces(a),
        components(Seq::empty()).len() == 0,
{
    pieces_of_both_sides(a, b);
    one_run_is_one_piece(part);
    assert((seq!['/'] + a).skip(1) =~= a);
    let none = Seq::<char>::empty();
    assert((seq!['.', '/'] + a).skip(1) =~= none + seq!['/'] + a);
    pieces_of_both_sides(none, a);
    assert(pieces(none) + pieces(a) =~= pieces(a));
    assert(a.skip(0) =~= a);
    assert(none.skip(0) =~= none);
    assert(Seq::<Seq<char>>::empty() + pieces(a) =~= pieces(a));
}

/// The parent of a path is the path without its last component, and its file name is that
/// component, unless it is the root, a leading `.`, or `..`. There is no parent exactly where
/// there is no component besides the root.
pub proof fn a_path_ends_with_its_last_component(p: Seq<char>)
    ensures
        parent_of(p) matches Some(dir) ==> components(p).len() > 0 && components(dir) == components(
            p,
        ).drop_last(),
        parent_of(p) is None <==> components(p).len() == 0 || components(p) == seq![seq!['/']],
        file_name_of(p) matches Some(name) ==> components(p).len() > 0 && components(p).last()
            == name,
        file_name_of(p) is None <==> components(p).len() == 0 || components(p) == seq![seq!['/']]
            || components(p) == seq![seq!['.']] || components(p).last() == seq!['.', '.'],
{
    let base = body_start(p);
    let len = p.len();
    let body = p.skip(base as int);
    assert(body =~= p.subrange(base as int, len as int));
    the_end_of_a_path_holds_no_component(p, base, len);
    let end = body_end(p, base, len);
    let all = pieces(body);
    if end > base {
        body_end_settles(p, base, len);
        piece_cut_shrinks(p, base, end);
        piece_has_no_separator(p, base, end);
        the_last_piece_comes_off(p, base, end);
        let start = piece_start(p, base, end) as int;
        let cut = piece_cut(p, base, end);
        let last = p.subrange(start, end as int);
        if is_void(last) {
            body_end_settles(p, base, cut);
        }
        assert(!is_void(last));
        let front = pieces(p.subrange(base as int, cut as int));
        assert(all == front + seq![last]);
        the_end_of_a_path_holds_no_component(p, base, cut);
        let t = body_end(p, base, cut);
        let dir = p.take(t as int);
        parent_starts_alike(p);
        assert(dir.skip(base as int) =~= p.subrange(base as int, t as int));
        assert(components(p).last() == last);
        assert(components(dir) =~= components(p).drop_last());
        assert forall|i: int| 0 <= i < last.len() implies #[trigger] last[i] != '/' by {
            assert(last[i] == p[start + i]);
        }
        if components(p) == seq![seq!['/']] {
            assert(components(p).last() == seq!['/']);
            assert(last[0] == '/');
        }
        if components(p) == seq![seq!['.']] {
            assert(components(p).last() == seq!['.']);
        }
    } else {
        assert(p.subrange(base as int, end as int) =~= Seq::<char>::empty());
        assert(all =~= Seq::<Seq<char>>::empty());
        if is_absolute(p) {
            assert(components(p) =~= seq![seq!['/']]);
        } else if begins_here(p) {
            assert(components(p) =~= seq![seq!['.']]);
            assert(Seq::<char>::empty().skip(0) =~= Seq::<char>::empty());
            assert(components(Seq::empty()) =~= components(p).drop_last());
            assert(components(p)[0] == seq!['.']);
            assert(seq!['.'][0] != seq!['/'][0]);
        } else {
            assert(components(p) =~= Seq::<Seq<char>>::empty());
        }
    }
}

proof fn parent_starts_alike(p: Seq<char>)
    requires
        body_end(p, body_start(p), p.len()) > body_start(p),
    ensures
        ({
            let base = body_start(p);
            let end = body_end(p, base, p.len());
            let t = body_end(p, base, piece_cut(p, base, end));
            let dir = p.take(t as int);
            &&& base <= t <= p.len()
            &&& body_start(dir) == base
            &&& is_absolute(dir) == is_absolute(p)
            &&& begins_here(dir) == begins_here(p)
        }),
{
    let base = body_start(p);
    body_end_settles(p, base, p.len());
    let end = body_end(p, base, p.len());
    piece_cut_shrinks(p, base, end);
    let cut = piece_cut(p, base, end);
    body_end_settles(p, base, cut);
    let m = body_end(p, base, cut);
    let dir = p.take(m as int);
    if m > 0 {
        assert(dir[0] == p[0]);
        if m > 1 {
            assert(dir[1] == p[1]);
        } else if base == 0 && p[0] == '.' {
            reveal_with_fuel(piece_start, 2);
            assert(p.subrange(0, 1) =~= seq!['.']);
            assert(piece_start(p, 0, 1) == 0);
            assert(body_end(p, 0, 0) == 0);
            assert(body_end(p, 0, 1) == 0);
        }
    }
}

/// A name goes behind a directory with one separator between them, and an absolute name stands
/// for itself.
pub proof fn a_name_is_joined_by_one_separator(dir: Seq<char>, name: Seq<char>)
    ensures
        name.len() > 0 && name[0] == '/' ==> joined(dir, name) == name,
        name.len() == 0 || name[0] != '/' ==> {
            &&& dir.len() == 0 ==> joined(dir, name) == name
            &&& dir.len() > 0 && dir.last() == '/' ==> joined(dir, name) == dir + name
            &&& dir.len() > 0 && dir.last() != '/' ==> joined(dir, name) == dir + seq!['/'] + name
        },
{
    assert(Seq::<char>::empty() + name =~= name);
    if dir.len() == 0 {
        assert(dir + name =~= name);
    }
}

} // verus!
