//! Sizes: the bounded walk over one tree, totals that saturate, and how a size is shown.

use crate::text;
use vstd::prelude::*;
use vstd::string::*;

verus! {

/// Work budget of one size walk, in directory entries. Sizing is presentation only, so
/// stopping it early changes no verdict.
pub const MAX_SIZE_WALK_ENTRIES: usize = 50_000;

/// Work budget of one size walk, in depth.
pub const MAX_SIZE_WALK_DEPTH: usize = 64;

/// The apparent size of one tree, and whether the walk gave up before finishing.
#[derive(Debug, Clone, Copy, PartialEq, Eq, Structural)]
pub struct DirSize {
    pub bytes: u64,
    pub truncated: bool,
}

/// One directory entry as the walk sees it, without following a symbolic link.
#[derive(Debug, Clone, Copy, PartialEq, Eq, Structural)]
pub enum Entry {
    /// It could not be looked at.
    Unreadable,
    /// A directory.
    Directory,
    /// Anything else, of this apparent length.
    Other(u64),
}

/// What the walk does next.
#[derive(Debug, Clone, Copy, PartialEq, Eq, Structural)]
pub enum Step {
    /// Go on with the next entry.
    Next,
    /// Queue this directory.
    Descend,
    /// Stop the whole walk.
    Stop,
}

/// `n`, or the largest `u64` where it is more.
pub open spec fn capped(n: nat) -> u64 {
    if n <= u64::MAX {
        n as u64
    } else {
        u64::MAX
    }
}

/// The sum of `sizes`.
pub open spec fn total(sizes: Seq<u64>) -> nat
    decreases sizes.len(),
{
    if sizes.len() == 0 {
        0
    } else {
        total(sizes.drop_last()) + sizes.last() as nat
    }
}

/// Add up sizes, stopping at the largest `u64`. A sparse file costs nothing, so the true
/// sum may well be more than that.
pub fn sum_bytes(sizes: &[u64]) -> (r: u64)
    ensures
        r == capped(total(sizes@)),
{
    let mut sum: u64 = 0;
    let mut i: usize = 0;
    while i < sizes.len()
        invariant
            i <= sizes@.len(),
            sum == capped(total(sizes@.take(i as int))),
        decreases sizes@.len() - i,
    {
        proof {
            assert(sizes@.take(i + 1).drop_last() =~= sizes@.take(i as int));
            assert(sizes@.take(i + 1).last() == sizes@[i as int]);
        }
        sum = sum.saturating_add(sizes[i]);
        i = i + 1;
    }
    proof {
        assert(sizes@.take(i as int) =~= sizes@);
    }
    sum
}

// ---------------------------------------------------------------------------
// The walk
// ---------------------------------------------------------------------------

/// A size walk under way. The directories that are queued are entered from the last one back.
#[derive(Debug)]
pub struct SizeWalk {
    pub bytes: u64,
    pub seen: usize,
    pub truncated: bool,
    pub max_entries: usize,
    pub max_depth: usize,
    /// The depth of the directory whose entries are being visited.
    pub depth: usize,
    /// The depths of the directories that are queued.
    pub pending: Vec<usize>,
}

/// What a [`SizeWalk`] stands for.
#[verifier::ext_equal]
pub struct WalkModel {
    pub bytes: u64,
    pub seen: usize,
    pub truncated: bool,
    pub max_entries: usize,
    pub max_depth: usize,
    pub depth: usize,
    pub pending: Seq<usize>,
}

impl View for SizeWalk {
    type V = WalkModel;

    open spec fn view(&self) -> WalkModel {
        WalkModel {
            bytes: self.bytes,
            seen: self.seen,
            truncated: self.truncated,
            max_entries: self.max_entries,
            max_depth: self.max_depth,
            depth: self.depth,
            pending: self.pending@,
        }
    }
}

impl WalkModel {
    /// A walk that has not begun: the directory it is about is queued.
    pub open spec fn start(max_entries: usize, max_depth: usize) -> WalkModel {
        WalkModel {
            bytes: 0,
            seen: 0,
            truncated: false,
            max_entries,
            max_depth,
            depth: 0,
            pending: seq![0usize],
        }
    }

    /// The state once the directory that was queued last is taken up.
    pub open spec fn entered(self) -> WalkModel {
        WalkModel { depth: self.pending.last(), pending: self.pending.drop_last(), ..self }
    }

    /// The state after one more entry of the directory that is being visited.
    pub open spec fn after(self, entry: Entry) -> WalkModel {
        if self.seen >= self.max_entries {
            WalkModel { truncated: true, pending: Seq::empty(), ..self }
        } else {
            let seen = (self.seen + 1) as usize;
            match entry {
                Entry::Unreadable => WalkModel { seen, ..self },
                Entry::Directory => if self.depth >= self.max_depth {
                    WalkModel { seen, truncated: true, ..self }
                } else {
                    let below = (self.depth + 1) as usize;
                    WalkModel { seen, pending: self.pending.push(below), ..self }
                },
                Entry::Other(len) => WalkModel {
                    seen,
                    bytes: capped((self.bytes + len) as nat),
                    ..self
                },
            }
        }
    }

    /// What to do about one more entry of the directory that is being visited.
    pub open spec fn step_for(self, entry: Entry) -> Step {
        if self.seen >= self.max_entries {
            Step::Stop
        } else if entry == Entry::Directory && self.depth < self.max_depth {
            Step::Descend
        } else {
            Step::Next
        }
    }
}

impl SizeWalk {
    /// Begin a walk with the given budgets.
    pub fn new(max_entries: usize, max_depth: usize) -> (w: SizeWalk)
        ensures
            w@ == WalkModel::start(max_entries, max_depth),
    {
        let mut pending: Vec<usize> = Vec::new();
        pending.push(0);
        let w = SizeWalk {
            bytes: 0,
            seen: 0,
            truncated: false,
            max_entries,
            max_depth,
            depth: 0,
            pending,
        };
        proof {
            assert(w@ =~= WalkModel::start(max_entries, max_depth));
        }
        w
    }

    /// Whether a directory is queued.
    pub fn has_next(&self) -> (r: bool)
        ensures
            r == (self@.pending.len() > 0),
    {
        self.pending.len() > 0
    }

    /// Take up the directory that was queued last, and decide whether its entries are
    /// visited: only where it could be opened and is still a directory, and not a symbolic
    /// link put in its place since it was queued.
    pub fn enter(&mut self, opened: bool, still_directory: bool) -> (r: bool)
        requires
            old(self)@.pending.len() > 0,
        ensures
            final(self)@ == old(self)@.entered(),
            r == (opened && still_directory),
    {
        if let Some(depth) = self.pending.pop() {
            self.depth = depth;
        }
        proof {
            assert(self@ =~= old(self)@.entered());
        }
        opened && still_directory
    }

    /// Take in one entry of the directory that is being visited, and say what to do about it.
    pub fn visit(&mut self, entry: Entry) -> (step: Step)
        ensures
            final(self)@ == old(self)@.after(entry),
            step == old(self)@.step_for(entry),
    {
        if self.seen >= self.max_entries {
            self.truncated = true;
            self.pending.clear();
            proof {
                assert(self@ =~= old(self)@.after(entry));
            }
            return Step::Stop;
        }
        self.seen = self.seen + 1;
        match entry {
            Entry::Unreadable => Step::Next,
            Entry::Directory => {
                if self.depth >= self.max_depth {
                    self.truncated = true;
                    Step::Next
                } else {
                    self.pending.push(self.depth + 1);
                    Step::Descend
                }
            },
            Entry::Other(len) => {
                self.bytes = self.bytes.saturating_add(len);
                Step::Next
            },
        }
    }

    /// The size that the walk arrived at.
    pub fn size(&self) -> (r: DirSize)
        ensures
            r == (DirSize { bytes: self@.bytes, truncated: self@.truncated }),
    {
        DirSize { bytes: self.bytes, truncated: self.truncated }
    }
}

// ---------------------------------------------------------------------------
// A walk over a whole tree
// ---------------------------------------------------------------------------

/// What a walk finds in the place of one entry. A directory has entries to visit where it can
/// be opened and is still a directory when its turn comes.
pub enum Tree {
    Unreadable,
    Other(u64),
    Directory { enterable: bool, entries: Seq<Tree> },
}

impl Tree {
    /// The entry as the walk sees it.
    pub open spec fn entry(self) -> Entry {
        match self {
            Tree::Unreadable => Entry::Unreadable,
            Tree::Other(len) => Entry::Other(len),
            Tree::Directory { .. } => Entry::Directory,
        }
    }

    /// What there is to visit inside it.
    pub open spec fn inside(self) -> Seq<Tree> {
        match self {
            Tree::Directory { enterable: true, entries } => entries,
            _ => Seq::empty(),
        }
    }

    /// How many entries there are inside it, down to `room` levels of directories.
    pub open spec fn count(self, room: nat) -> nat
        decreases self,
    {
        match self {
            Tree::Directory { enterable: true, entries } => count_all(entries, room),
            _ => 0,
        }
    }

    /// The sum of the lengths inside it, down to `room` levels of directories.
    pub open spec fn bytes(self, room: nat) -> nat
        decreases self,
    {
        match self {
            Tree::Directory { enterable: true, entries } => bytes_all(entries, room),
            _ => 0,
        }
    }

    /// Whether there is a directory inside it below the last of `room` levels.
    pub open spec fn goes_deeper(self, room: nat) -> bool
        decreases self,
    {
        match self {
            Tree::Directory { enterable: true, entries } => any_deeper(entries, room),
            _ => false,
        }
    }

    /// The sum of all the lengths inside it.
    pub open spec fn apparent_size(self) -> nat
        decreases self,
    {
        match self {
            Tree::Directory { enterable: true, entries } => apparent_sizes(entries),
            _ => 0,
        }
    }

    spec fn weight(self) -> nat
        decreases self,
    {
        match self {
            Tree::Directory { enterable: true, entries } => 2 + weights(entries),
            _ => 2,
        }
    }
}

/// How many entries `trees` are, with what is inside them down to `room` levels.
pub open spec fn count_all(trees: Seq<Tree>, room: nat) -> nat
    decreases trees,
{
    if trees.len() == 0 {
        0
    } else {
        1 + (if room > 0 {
            trees[0].count((room - 1) as nat)
        } else {
            0
        }) + count_all(trees.drop_first(), room)
    }
}

/// The sum of the lengths in `trees`, down to `room` levels.
pub open spec fn bytes_all(trees: Seq<Tree>, room: nat) -> nat
    decreases trees,
{
    if trees.len() == 0 {
        0
    } else {
        (match trees[0] {
            Tree::Other(len) => len as nat,
            _ => if room > 0 {
                trees[0].bytes((room - 1) as nat)
            } else {
                0
            },
        }) + bytes_all(trees.drop_first(), room)
    }
}

/// Whether a directory stands in `trees` below the last of `room` levels.
pub open spec fn any_deeper(trees: Seq<Tree>, room: nat) -> bool
    decreases trees,
{
    trees.len() > 0 && ((trees[0] is Directory && (room == 0 || trees[0].goes_deeper(
        (room - 1) as nat,
    ))) || any_deeper(trees.drop_first(), room))
}

/// The sum of all the lengths in `trees`.
pub open spec fn apparent_sizes(trees: Seq<Tree>) -> nat
    decreases trees,
{
    if trees.len() == 0 {
        0
    } else {
        (match trees[0] {
            Tree::Other(len) => len as nat,
            _ => trees[0].apparent_size(),
        }) + apparent_sizes(trees.drop_first())
    }
}

spec fn weights(trees: Seq<Tree>) -> nat
    decreases trees,
{
    if trees.len() == 0 {
        0
    } else {
        trees[0].weight() + weights(trees.drop_first())
    }
}

/// How much of a walk is left, at most.
pub closed spec fn work_left(here: Seq<Tree>, queued: Seq<Tree>) -> nat
    decreases queued.len(),
{
    if queued.len() == 0 {
        weights(here)
    } else {
        1 + weights(queued.last().inside()) + work_left(here, queued.drop_last())
    }
}

proof fn work_left_without_here(here: Seq<Tree>, queued: Seq<Tree>)
    ensures
        work_left(here, queued) == weights(here) + work_left(Seq::empty(), queued),
    decreases queued.len(),
{
    if queued.len() > 0 {
        work_left_without_here(here, queued.drop_last());
    }
}

/// Every entry that is visited leaves less to do, though it is queued.
pub proof fn a_visit_is_progress(here: Seq<Tree>, queued: Seq<Tree>)
    requires
        here.len() > 0,
    ensures
        work_left(here.drop_first(), queued) < work_left(here, queued),
        work_left(here.drop_first(), queued.push(here[0])) < work_left(here, queued),
{
    let rest = here.drop_first();
    work_left_without_here(here, queued);
    work_left_without_here(rest, queued);
    work_left_without_here(rest, queued.push(here[0]));
    assert(queued.push(here[0]).drop_last() =~= queued);
    assert(here[0].weight() == 2 + weights(here[0].inside()));
}

/// Every directory that is entered leaves less to do.
pub proof fn entering_is_progress(queued: Seq<Tree>)
    requires
        queued.len() > 0,
    ensures
        work_left(queued.last().inside(), queued.drop_last()) < work_left(Seq::empty(), queued),
{
    work_left_without_here(queued.last().inside(), queued.drop_last());
}

/// A walk to its end, as its steps are asked for: `here` is left of the directory that is
/// being visited, and `queued` are the directories that are queued. An entry is visited; one
/// that is a directory to descend into is queued; and where nothing is left of a directory,
/// the one that was queued last is entered.
pub open spec fn walked(walk: WalkModel, here: Seq<Tree>, queued: Seq<Tree>) -> WalkModel
    decreases work_left(here, queued),
{
    if here.len() > 0 {
        proof {
            a_visit_is_progress(here, queued);
        }
        let entry = here[0].entry();
        match walk.step_for(entry) {
            Step::Stop => walk.after(entry),
            Step::Descend => walked(walk.after(entry), here.drop_first(), queued.push(here[0])),
            Step::Next => walked(walk.after(entry), here.drop_first(), queued),
        }
    } else if queued.len() > 0 {
        proof {
            entering_is_progress(queued);
            assert(here =~= Seq::<Tree>::empty());
        }
        walked(walk.entered(), queued.last().inside(), queued.drop_last())
    } else {
        walk
    }
}

/// How many levels are left below `depth`.
pub open spec fn room_at(max_depth: usize, depth: usize) -> nat {
    if depth <= max_depth {
        (max_depth - depth) as nat
    } else {
        0
    }
}

spec fn count_left(queued: Seq<Tree>, pending: Seq<usize>, max_depth: usize) -> nat
    decreases queued.len(),
{
    if queued.len() == 0 {
        0
    } else {
        queued.last().count(room_at(max_depth, pending.last())) + count_left(
            queued.drop_last(),
            pending.drop_last(),
            max_depth,
        )
    }
}

spec fn bytes_left(queued: Seq<Tree>, pending: Seq<usize>, max_depth: usize) -> nat
    decreases queued.len(),
{
    if queued.len() == 0 {
        0
    } else {
        queued.last().bytes(room_at(max_depth, pending.last())) + bytes_left(
            queued.drop_last(),
            pending.drop_last(),
            max_depth,
        )
    }
}

spec fn deeper_left(queued: Seq<Tree>, pending: Seq<usize>, max_depth: usize) -> bool
    decreases queued.len(),
{
    queued.len() > 0 && (queued.last().goes_deeper(room_at(max_depth, pending.last()))
        || deeper_left(queued.drop_last(), pending.drop_last(), max_depth))
}

proof fn what_is_inside(tree: Tree, room: nat)
    ensures
        tree.count(room) == count_all(tree.inside(), room),
        tree.bytes(room) == bytes_all(tree.inside(), room),
        tree.goes_deeper(room) == any_deeper(tree.inside(), room),
{
}

/// What a walk arrives at, by what was left to visit.
proof fn walk_takes_in_what_is_left(walk: WalkModel, here: Seq<Tree>, queued: Seq<Tree>)
    requires
        walk.pending.len() == queued.len(),
        walk.seen <= walk.max_entries,
        walk.depth <= walk.max_depth,
        forall|i: int| 0 <= i < walk.pending.len() ==> #[trigger] walk.pending[i] <= walk.max_depth,
    ensures
        ({
            let end = walked(walk, here, queued);
            let room = room_at(walk.max_depth, walk.depth);
            let count = walk.seen + count_all(here, room) + count_left(
                queued,
                walk.pending,
                walk.max_depth,
            );
            let bytes = walk.bytes + bytes_all(here, room) + bytes_left(
                queued,
                walk.pending,
                walk.max_depth,
            );
            &&& end.pending.len() == 0
            &&& end.seen == (if count <= walk.max_entries {
                count
            } else {
                walk.max_entries as int
            })
            &&& end.truncated == (walk.truncated || count > walk.max_entries || any_deeper(
                here,
                room,
            ) || deeper_left(queued, walk.pending, walk.max_depth))
            &&& end.bytes <= capped(bytes as nat)
            &&& count <= walk.max_entries ==> end.bytes == capped(bytes as nat)
        }),
    decreases work_left(here, queued),
{
    if here.len() > 0 {
        a_visit_is_progress(here, queued);
        let entry = here[0].entry();
        let next = walk.after(entry);
        let rest = here.drop_first();
        let room = room_at(walk.max_depth, walk.depth);
        if room > 0 && !(here[0] is Directory) {
            what_is_inside(here[0], (room - 1) as nat);
        }
        match walk.step_for(entry) {
            Step::Stop => {},
            Step::Descend => {
                let more = queued.push(here[0]);
                assert(more.drop_last() =~= queued);
                assert(next.pending.drop_last() =~= walk.pending);
                assert(more.last() == here[0]);
                assert(next.pending.last() == walk.depth + 1);
                walk_takes_in_what_is_left(next, rest, more);
            },
            Step::Next => {
                walk_takes_in_what_is_left(next, rest, queued);
            },
        }
    } else if queued.len() > 0 {
        entering_is_progress(queued);
        assert(here =~= Seq::<Tree>::empty());
        let next = walk.entered();
        let last = queued.last();
        what_is_inside(last, room_at(walk.max_depth, next.depth));
        walk_takes_in_what_is_left(next, last.inside(), queued.drop_last());
    }
}

proof fn budgets_only_leave_out(trees: Seq<Tree>, room: nat)
    ensures
        bytes_all(trees, room) <= apparent_sizes(trees),
        !any_deeper(trees, room) ==> bytes_all(trees, room) == apparent_sizes(trees),
    decreases trees,
{
    if trees.len() > 0 {
        budgets_only_leave_out(trees.drop_first(), room);
        if room > 0 {
            budget_only_leaves_out(trees[0], (room - 1) as nat);
            what_is_inside(trees[0], (room - 1) as nat);
        }
        if !(trees[0] is Directory) {
            assert(trees[0].apparent_size() == 0);
        }
    }
}

proof fn budget_only_leaves_out(tree: Tree, room: nat)
    ensures
        tree.bytes(room) <= tree.apparent_size(),
        !tree.goes_deeper(room) ==> tree.bytes(room) == tree.apparent_size(),
    decreases tree,
{
    if let Tree::Directory { enterable: true, entries } = tree {
        budgets_only_leave_out(entries, room);
    }
}

/// A walk over a tree visits no more entries than its budget. It calls itself truncated
/// exactly when a budget was met: the tree holds more entries than that within the depth, or
/// a directory below the depth. What it reports is never more than all the lengths in the
/// tree add up to, and exactly that, up to the largest `u64`, unless it is truncated.
pub proof fn a_walk_measures_its_tree(root: Tree, max_entries: usize, max_depth: usize)
    ensures
        ({
            let end = walked(
                WalkModel::start(max_entries, max_depth),
                Seq::empty(),
                seq![root],
            );
            let count = root.count(max_depth as nat);
            &&& end.pending.len() == 0
            &&& end.seen == (if count <= max_entries {
                count
            } else {
                max_entries as nat
            })
            &&& end.truncated <==> count > max_entries || root.goes_deeper(max_depth as nat)
            &&& end.bytes <= capped(root.apparent_size())
            &&& !end.truncated ==> end.bytes == capped(root.apparent_size())
        }),
{
    let start = WalkModel::start(max_entries, max_depth);
    let queued = seq![root];
    walk_takes_in_what_is_left(start, Seq::empty(), queued);
    assert(queued.last() == root);
    assert(queued.drop_last().len() == 0);
    assert(room_at(max_depth, start.pending.last()) == max_depth);
    reveal_with_fuel(count_left, 2);
    reveal_with_fuel(bytes_left, 2);
    reveal_with_fuel(deeper_left, 2);
    budget_only_leaves_out(root, max_depth as nat);
}

// ---------------------------------------------------------------------------
// How a size is shown
// ---------------------------------------------------------------------------

/// `n / d`, rounded to the nearest whole number; halfway, to the even one.
pub open spec fn half_even(n: nat, d: nat) -> nat {
    let q = n / d;
    let r = n % d;
    if 2 * r < d || (2 * r == d && q % 2 == 0) {
        q
    } else {
        q + 1
    }
}

/// The distance between neighbouring double-precision numbers at `n`, where it is whole.
pub open spec fn double_step(n: nat) -> nat
    decreases n,
{
    if n < 0x20_0000_0000_0000 {
        1
    } else {
        2 * double_step(n / 2)
    }
}

/// The double-precision number nearest to `n`; halfway, the one with the even significand.
pub open spec fn nearest_double(n: nat) -> nat {
    half_even(n, double_step(n)) * double_step(n)
}

/// How many bytes the unit of that rank is: bytes, KB, MB, GB, TB.
pub open spec fn unit_size(rank: nat) -> nat {
    if rank == 0 {
        1
    } else if rank == 1 {
        0x400
    } else if rank == 2 {
        0x10_0000
    } else if rank == 3 {
        0x4000_0000
    } else {
        0x100_0000_0000
    }
}

/// The name of the unit of that rank.
pub open spec fn unit_name(rank: nat) -> Seq<char> {
    if rank == 0 {
        "B"@
    } else if rank == 1 {
        "KB"@
    } else if rank == 2 {
        "MB"@
    } else if rank == 3 {
        "GB"@
    } else {
        "TB"@
    }
}

/// The rank of the largest unit that `bytes` holds at least once.
pub open spec fn unit_rank(bytes: nat) -> nat {
    if bytes < unit_size(1) {
        0
    } else if bytes < unit_size(2) {
        1
    } else if bytes < unit_size(3) {
        2
    } else if bytes < unit_size(4) {
        3
    } else {
        4
    }
}

/// Tenths of the unit of that rank, of the double-precision number nearest to `bytes`.
pub open spec fn tenths(bytes: nat, rank: nat) -> nat {
    half_even(10 * nearest_double(bytes), unit_size(rank))
}

/// A number of bytes for people: whole bytes below 1024, else the largest unit that fits
/// and one decimal.
pub open spec fn bytes_text(bytes: nat) -> Seq<char> {
    let rank = unit_rank(bytes);
    if rank == 0 {
        text::decimal(bytes) + " B"@
    } else {
        text::decimal(tenths(bytes, rank) / 10) + "."@ + text::decimal(tenths(bytes, rank) % 10)
            + " "@ + unit_name(rank)
    }
}

/// A size for people, marked as a lower bound where the walk was cut short.
pub open spec fn size_text(bytes: u64, truncated: bool) -> Seq<char> {
    if truncated {
        "≥ "@ + bytes_text(bytes as nat)
    } else {
        bytes_text(bytes as nat)
    }
}

/// An age for people: whole hours below two days, else whole days.
pub open spec fn duration_text(secs: u64) -> Seq<char> {
    let hours = secs as nat / 3600;
    if hours < 48 {
        text::decimal(hours) + "h"@
    } else {
        text::decimal(hours / 24) + "d"@
    }
}

fn rounded(n: u128, d: u128) -> (q: u128)
    requires
        0 < d <= u64::MAX,
        n < u128::MAX,
    ensures
        q == half_even(n as nat, d as nat),
{
    let q: u128 = n / d;
    let r: u128 = n % d;
    if 2 * r < d || (2 * r == d && q % 2 == 0) {
        q
    } else {
        q + 1
    }
}

proof fn double_step_bound(n: nat)
    requires
        n <= u64::MAX,
    ensures
        1 <= double_step(n) <= 2048,
{
    reveal_with_fuel(double_step, 13);
}

fn step_at(n: u64) -> (d: u128)
    ensures
        d == double_step(n as nat),
        1 <= d <= 2048,
    decreases n,
{
    proof {
        double_step_bound(n as nat);
    }
    if n < 0x20_0000_0000_0000 {
        1
    } else {
        2 * step_at(n / 2)
    }
}

proof fn half_even_bound(n: nat, d: nat)
    requires
        d > 0,
    ensures
        half_even(n, d) * d <= n + d,
{
    assert((n / d) * d <= n && (n / d + 1) * d <= n + d) by (nonlinear_arith)
        requires
            d > 0,
    ;
}

/// Show a number of bytes.
pub fn human_bytes(bytes: u64) -> (s: String)
    ensures
        s@ == bytes_text(bytes as nat),
{
    if bytes < 0x400 {
        let mut s = text::decimal_text(bytes);
        s.append(" B");
        return s;
    }
    let (size, name): (u128, &str) = if bytes < 0x10_0000 {
        (0x400, "KB")
    } else if bytes < 0x4000_0000 {
        (0x10_0000, "MB")
    } else if bytes < 0x100_0000_0000 {
        (0x4000_0000, "GB")
    } else {
        (0x100_0000_0000, "TB")
    };
    let step = step_at(bytes);
    let significand = rounded(bytes as u128, step);
    proof {
        half_even_bound(bytes as nat, step as nat);
        assert(significand * step == nearest_double(bytes as nat));
    }
    let nearest: u128 = significand * step;
    let amount = rounded(10 * nearest, size);
    proof {
        half_even_bound((10 * nearest) as nat, size as nat);
        assert(amount <= 10 * nearest + size) by (nonlinear_arith)
            requires
                amount * size <= 10 * nearest + size,
                size >= 1,
        ;
        assert(amount * 0x400 <= amount * size) by (nonlinear_arith)
            requires
                size >= 0x400,
        ;
    }
    let mut s = text::decimal_text((amount / 10) as u64);
    s.append(".");
    s.append(text::decimal_text((amount % 10) as u64).as_str());
    s.append(" ");
    s.append(name);
    s
}

/// Show a size, marked `≥` when the walk that produced it was cut short.
pub fn human_size(bytes: u64, truncated: bool) -> (s: String)
    ensures
        s@ == size_text(bytes, truncated),
{
    if truncated {
        let mut s = "≥ ".to_owned();
        s.append(human_bytes(bytes).as_str());
        s
    } else {
        human_bytes(bytes)
    }
}

/// Show an age given in seconds.
pub fn human_duration(secs: u64) -> (s: String)
    ensures
        s@ == duration_text(secs),
{
    let hours: u64 = secs / 3600;
    if hours < 48 {
        let mut s = text::decimal_text(hours);
        s.append("h");
        s
    } else {
        let mut s = text::decimal_text(hours / 24);
        s.append("d");
        s
    }
}

/// Neither sizes nor ages show a control character.
pub proof fn sizes_and_ages_are_control_free(bytes: u64, truncated: bool, secs: u64)
    ensures
        text::control_free(size_text(bytes, truncated)),
        text::control_free(duration_text(secs)),
{
    broadcast use text::printable_pieces;

    reveal_strlit(" B");
    reveal_strlit("KB");
    reveal_strlit("MB");
    reveal_strlit("GB");
    reveal_strlit("TB");
    reveal_strlit(".");
    reveal_strlit(" ");
    reveal_strlit("≥ ");
    reveal_strlit("h");
    reveal_strlit("d");
}

/// Sizes are added up: those of two lists together are those of the one and of the other, and a
/// single one is itself. A sum that is too large for a `u64` counts as the largest one, and any
/// other as it is.
pub proof fn sizes_are_added_up(a: Seq<u64>, b: Seq<u64>, one: u64, n: nat)
    ensures
        total(a + b) == total(a) + total(b),
        total(seq![one]) == one,
        n <= u64::MAX ==> capped(n) == n,
        n > u64::MAX ==> capped(n) == u64::MAX,
    decreases b.len(),
{
    assert(seq![one].drop_last() =~= Seq::<u64>::empty());
    assert(total(seq![one].drop_last()) == 0);
    if b.len() == 0 {
        assert(a + b =~= a);
    } else {
        assert((a + b).drop_last() =~= a + b.drop_last());
        assert((a + b).last() == b.last());
        sizes_are_added_up(a, b.drop_last(), one, n);
    }
}

/// How far apart two numbers are.
pub open spec fn distance(a: nat, b: nat) -> nat {
    if a <= b {
        (b - a) as nat
    } else {
        (a - b) as nat
    }
}

/// Rounding gives the nearest whole number of steps, and the even one of two that are as near.
pub proof fn rounding_is_to_the_nearest(n: nat, d: nat)
    requires
        d > 0,
    ensures
        2 * distance(n, half_even(n, d) * d) <= d,
        2 * distance(n, half_even(n, d) * d) == d ==> half_even(n, d) % 2 == 0,
{
    let q = n / d;
    let r = n % d;
    assert(n == q * d + r && r < d && (q + 1) * d == q * d + d) by (nonlinear_arith)
        requires
            d > 0,
            q == n / d,
            r == n % d,
    ;
}

/// A number of bytes below 2^53 is a double-precision number; above, the step between two such
/// numbers doubles with every power of two.
pub proof fn small_sizes_are_exact(n: nat)
    ensures
        n < 0x20_0000_0000_0000 ==> nearest_double(n) == n,
        n < 0x20_0000_0000_0000 ==> double_step(n) == 1,
        n >= 0x20_0000_0000_0000 ==> double_step(n) == 2 * double_step(n / 2),
        n <= u64::MAX ==> 2 * distance(n, nearest_double(n)) <= double_step(n),
{
    if n < 0x20_0000_0000_0000 {
        assert(n / 1 == n && n % 1 == 0);
    }
    if n <= u64::MAX {
        double_step_bound(n);
        rounding_is_to_the_nearest(n, double_step(n));
    }
}

/// Whether `shown` is a number of bytes in a unit of `size` bytes, rounded to a tenth of it.
pub open spec fn is_shown_in(shown: Seq<char>, bytes: nat, size: nat, unit: Seq<char>) -> bool {
    exists|tenths: nat|
        2 * distance(10 * nearest_double(bytes), tenths * size) <= size && shown
            == #[trigger] text::decimal(tenths / 10) + "."@ + text::decimal(tenths % 10) + unit
}

/// A size is shown in whole bytes below 1024, and else in the largest of KB, MB, GB and TB that
/// it holds at least once, with one decimal, rounded to the nearest.
pub proof fn a_size_is_shown_in_the_unit_that_fits(bytes: nat)
    ensures
        bytes < 1024 ==> bytes_text(bytes) == text::decimal(bytes) + " B"@,
        1024 <= bytes < 1024 * 1024 ==> is_shown_in(bytes_text(bytes), bytes, 1024, " KB"@),
        1024 * 1024 <= bytes < 1024 * 1024 * 1024 ==> is_shown_in(
            bytes_text(bytes),
            bytes,
            1024 * 1024,
            " MB"@,
        ),
        1024 * 1024 * 1024 <= bytes < 1024 * 1024 * 1024 * 1024 ==> is_shown_in(
            bytes_text(bytes),
            bytes,
            1024 * 1024 * 1024,
            " GB"@,
        ),
        1024 * 1024 * 1024 * 1024 <= bytes ==> is_shown_in(
            bytes_text(bytes),
            bytes,
            1024 * 1024 * 1024 * 1024,
            " TB"@,
        ),
{
    reveal_strlit(" ");
    reveal_strlit("KB");
    reveal_strlit("MB");
    reveal_strlit("GB");
    reveal_strlit("TB");
    reveal_strlit(" KB");
    reveal_strlit(" MB");
    reveal_strlit(" GB");
    reveal_strlit(" TB");
    let rank = unit_rank(bytes);
    if rank > 0 {
        let t = tenths(bytes, rank);
        let size = unit_size(rank);
        rounding_is_to_the_nearest(10 * nearest_double(bytes), size);
        let number = text::decimal(t / 10) + "."@ + text::decimal(t % 10);
        let unit = if rank == 1 {
            " KB"@
        } else if rank == 2 {
            " MB"@
        } else if rank == 3 {
            " GB"@
        } else {
            " TB"@
        };
        assert(number + " "@ + unit_name(rank) =~= number + unit);
        assert(is_shown_in(bytes_text(bytes), bytes, size, unit));
    }
}

/// A size that is a lower bound is marked as one, and no other size is; the mark changes nothing
/// about the number behind it.
pub proof fn lower_bounds_are_marked(bytes: u64)
    ensures
        size_text(bytes, false) == bytes_text(bytes as nat),
        size_text(bytes, true) == "≥ "@ + bytes_text(bytes as nat),
{
}

/// An age is shown in whole hours that have passed below two days, and in whole days from then
/// on.
pub proof fn ages_are_shown_in_hours_or_days(secs: u64)
    ensures
        secs < 172_800 ==> duration_text(secs) == text::decimal(secs as nat / 3600) + "h"@,
        secs >= 172_800 ==> duration_text(secs) == text::decimal(secs as nat / 86_400) + "d"@,
{
    assert((secs as nat / 3600) / 24 == secs as nat / 86_400);
}

/// One entry is counted as it is seen: a length is added, a directory above the last level is
/// queued one level deeper, one on the last level marks the walk as cut short, and an entry
/// beyond the budget ends it.
pub proof fn an_entry_is_counted_as_it_is_seen(walk: WalkModel, len: u64)
    ensures
        ({
            let file = walk.after(Entry::Other(len));
            let dir = walk.after(Entry::Directory);
            let bad = walk.after(Entry::Unreadable);
            &&& walk.seen >= walk.max_entries ==> file.truncated && file.pending.len() == 0
                && file.bytes == walk.bytes && walk.step_for(Entry::Other(len)) == Step::Stop
            &&& walk.seen < walk.max_entries ==> {
                &&& file.seen == walk.seen + 1 && dir.seen == walk.seen + 1 && bad.seen == walk.seen
                    + 1
                &&& file.bytes == capped((walk.bytes + len) as nat)
                &&& bad.bytes == walk.bytes && dir.bytes == walk.bytes
                &&& file.pending == walk.pending && file.truncated == walk.truncated
                &&& bad.pending == walk.pending && bad.truncated == walk.truncated
                &&& walk.depth < walk.max_depth ==> dir.pending == walk.pending.push(
                    (walk.depth + 1) as usize,
                ) && dir.truncated == walk.truncated && walk.step_for(Entry::Directory)
                    == Step::Descend
                &&& walk.depth >= walk.max_depth ==> dir.pending == walk.pending && dir.truncated
                    && walk.step_for(Entry::Directory) == Step::Next
            }
        }),
{
}

} // verus!
