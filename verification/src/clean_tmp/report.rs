//! The report: what would go, what stays, and for each group the reason.

use crate::clean_tmp::owner::{Reason, Verdict};
use crate::clean_tmp::size;
use crate::path::{NativePath, PathModel};
use crate::text;
use vstd::prelude::*;
use vstd::string::*;

verus! {

/// Directories listed one by one before the summary. The summary counts all of them.
pub const MAX_LISTED: usize = 20;

/// One directory that was considered, with the decision on it.
#[derive(Debug)]
pub struct Candidate {
    pub path: NativePath,
    pub bytes: u64,
    /// The size walk was cut short, so `bytes` is a lower bound.
    pub size_truncated: bool,
    /// Seconds since the directory was modified.
    pub age: u64,
    pub verdict: Verdict,
}

/// What a [`Candidate`] stands for.
pub struct CandidateModel {
    pub path: PathModel,
    pub bytes: u64,
    pub size_truncated: bool,
    pub age: u64,
    pub verdict: Verdict,
}

impl View for Candidate {
    type V = CandidateModel;

    open spec fn view(&self) -> CandidateModel {
        CandidateModel {
            path: self.path@,
            bytes: self.bytes,
            size_truncated: self.size_truncated,
            age: self.age,
            verdict: self.verdict,
        }
    }
}

/// What a list of candidates stands for.
pub open spec fn models(list: Seq<Candidate>) -> Seq<CandidateModel> {
    list.map_values(|c: Candidate| c@)
}

// ---------------------------------------------------------------------------
// What the report says
// ---------------------------------------------------------------------------

/// The short name of a reason.
pub open spec fn label_text(reason: Reason) -> Seq<char> {
    match reason {
        Reason::DeadPid => "dead-pid"@,
        Reason::LivePid => "live-pid"@,
        Reason::UntaggedAge => "untagged"@,
    }
}

/// The one-line justification of a reason. The age rule names its threshold and the side
/// of it; the other two hold at any age and say so.
pub open spec fn note_text(reason: Reason, reap: bool, max_age: u64) -> Seq<char> {
    match reason {
        Reason::DeadPid => "owning process is gone — reaped at any age"@,
        Reason::LivePid => "owning process is still running — never reaped"@,
        Reason::UntaggedAge => "no owning PID in the name; "@ + (if reap {
            "older"@
        } else {
            "younger"@
        }) + " than "@ + size::duration_text(max_age),
    }
}

/// The line for one directory: size, reason, age, and the path in escaped form.
pub open spec fn listing_line(c: CandidateModel) -> Seq<char> {
    "  "@ + text::pad_left(size::size_text(c.bytes, c.size_truncated), 9) + "  "@
        + text::pad_right(label_text(c.verdict.reason), 9) + " "@ + text::pad_left(
        size::duration_text(c.age),
        4,
    ) + " old  "@ + c.path.shown()
}

/// The number of directories that are listed one by one.
pub open spec fn listed(reap: Seq<CandidateModel>) -> nat {
    if reap.len() <= MAX_LISTED {
        reap.len()
    } else {
        MAX_LISTED as nat
    }
}

/// The first [`MAX_LISTED`] directories, and how many more there are.
pub open spec fn listing(reap: Seq<CandidateModel>) -> Seq<Seq<char>> {
    Seq::new(listed(reap), |i: int| listing_line(reap[i])) + (if reap.len() > MAX_LISTED {
        seq![
            "  … and "@ + text::decimal((reap.len() - MAX_LISTED) as nat)
                + " more (all counted in the summary below)"@,
        ]
    } else {
        Seq::empty()
    })
}

/// Whether no path that is listed shows a control character.
pub open spec fn paths_are_escaped(reap: Seq<CandidateModel>) -> bool {
    forall|j: int|
        0 <= j < listed(reap) ==> text::control_free(
            (#[trigger] reap[j].path).shown(),
        )
}

/// The sizes of a group.
pub open spec fn sizes(cands: Seq<CandidateModel>) -> Seq<u64> {
    cands.map_values(|c: CandidateModel| c.bytes)
}

/// Whether the size of a member of the group is a lower bound.
pub open spec fn any_truncated(cands: Seq<CandidateModel>) -> bool {
    exists|i: int| 0 <= i < cands.len() && (#[trigger] cands[i]).size_truncated
}

/// The summed size of a group, marked as a lower bound if a member's size is one.
pub open spec fn total_text(cands: Seq<CandidateModel>) -> Seq<char> {
    size::size_text(size::capped(size::total(sizes(cands))), any_truncated(cands))
}

/// The candidates that were decided for this reason.
pub open spec fn decided_by(cands: Seq<CandidateModel>, reason: Reason) -> Seq<CandidateModel> {
    cands.filter(|c: CandidateModel| c.verdict.reason == reason)
}

/// The summary line of one reason: how many directories, how large, and why.
pub open spec fn reason_line(
    cands: Seq<CandidateModel>,
    reason: Reason,
    reap: bool,
    max_age: u64,
) -> Seq<char> {
    let group = decided_by(cands, reason);
    "  "@ + text::pad_right(label_text(reason), 9) + " "@ + text::pad_left(
        text::decimal(group.len()),
        4,
    ) + " dir(s)  "@ + text::pad_left(total_text(group), 9) + "  "@ + note_text(
        reason,
        reap,
        max_age,
    )
}

/// The summary line of one reason, if anything was decided by it.
pub open spec fn reason_lines(
    cands: Seq<CandidateModel>,
    reason: Reason,
    reap: bool,
    max_age: u64,
) -> Seq<Seq<char>> {
    if decided_by(cands, reason).len() == 0 {
        Seq::empty()
    } else {
        seq![reason_line(cands, reason, reap, max_age)]
    }
}

/// The summary by reason, in a fixed order.
pub open spec fn breakdown(cands: Seq<CandidateModel>, reap: bool, max_age: u64) -> Seq<
    Seq<char>,
> {
    reason_lines(cands, Reason::DeadPid, reap, max_age) + reason_lines(
        cands,
        Reason::LivePid,
        reap,
        max_age,
    ) + reason_lines(cands, Reason::UntaggedAge, reap, max_age)
}

/// The summary of what is reaped.
pub open spec fn reap_lines(root: Seq<char>, reap: Seq<CandidateModel>, max_age: u64) -> Seq<
    Seq<char>,
> {
    if reap.len() == 0 {
        seq!["nothing to reap in "@ + root]
    } else {
        seq![
            "reap: "@ + text::decimal(reap.len()) + " dir(s), "@ + total_text(reap) + " in "@
                + root,
        ] + breakdown(reap, true, max_age)
    }
}

/// The summary of what is kept.
pub open spec fn keep_lines(keep: Seq<CandidateModel>, max_age: u64) -> Seq<Seq<char>> {
    if keep.len() == 0 {
        Seq::empty()
    } else {
        seq!["keep: "@ + text::decimal(keep.len()) + " dir(s), "@ + total_text(keep)] + breakdown(
            keep,
            false,
            max_age,
        )
    }
}

/// What the mark on a size means, if one was shown.
pub open spec fn bound_lines(reap: Seq<CandidateModel>, keep: Seq<CandidateModel>) -> Seq<
    Seq<char>,
> {
    if any_truncated(reap) || any_truncated(keep) {
        seq![
            "  sizes shown with ≥ are lower bounds: the walk stopped at "@ + text::decimal(
                size::MAX_SIZE_WALK_ENTRIES as nat,
            ) + " entries or depth "@ + text::decimal(size::MAX_SIZE_WALK_DEPTH as nat)
                + ". Size is reporting only — it never changes a reap/keep decision."@,
        ]
    } else {
        Seq::empty()
    }
}

/// The lines of the report.
pub open spec fn report_lines(
    root: Seq<char>,
    reap: Seq<CandidateModel>,
    keep: Seq<CandidateModel>,
    max_age: u64,
) -> Seq<Seq<char>> {
    if reap.len() == 0 && keep.len() == 0 {
        seq!["nothing to reap in "@ + root + " (no dirs this repo owns)"@]
    } else {
        listing(reap) + reap_lines(root, reap, max_age) + keep_lines(keep, max_age) + bound_lines(
            reap,
            keep,
        )
    }
}

// ---------------------------------------------------------------------------
// Writing it
// ---------------------------------------------------------------------------

impl Reason {
    /// The short name of this reason.
    pub fn label(self) -> (s: &'static str)
        ensures
            s@ == label_text(self),
    {
        match self {
            Reason::DeadPid => "dead-pid",
            Reason::LivePid => "live-pid",
            Reason::UntaggedAge => "untagged",
        }
    }

    /// The one-line justification of this reason.
    pub fn note(self, reap: bool, max_age: u64) -> (s: String)
        ensures
            s@ == note_text(self, reap, max_age),
    {
        match self {
            Reason::DeadPid => "owning process is gone — reaped at any age".to_owned(),
            Reason::LivePid => "owning process is still running — never reaped".to_owned(),
            Reason::UntaggedAge => {
                let mut s = "no owning PID in the name; ".to_owned();
                s.append(if reap {
                    "older"
                } else {
                    "younger"
                });
                s.append(" than ");
                s.append(size::human_duration(max_age).as_str());
                s
            },
        }
    }
}

fn candidate_line(c: &Candidate) -> (s: String)
    ensures
        s@ == listing_line(c@),
        text::control_free(c.path@.shown()),
{
    let mut s = "  ".to_owned();
    let shown = size::human_size(c.bytes, c.size_truncated);
    s.append(text::right_aligned(shown.as_str(), 9).as_str());
    s.append("  ");
    s.append(text::left_aligned(c.verdict.reason.label(), 9).as_str());
    s.append(" ");
    let age = size::human_duration(c.age);
    s.append(text::right_aligned(age.as_str(), 4).as_str());
    s.append(" old  ");
    s.append(c.path.shown().as_str());
    s
}

fn is_truncated(cands: &[Candidate]) -> (r: bool)
    ensures
        r == any_truncated(models(cands@)),
{
    let mut i: usize = 0;
    while i < cands.len()
        invariant
            i <= cands@.len(),
            forall|j: int| 0 <= j < i ==> !(#[trigger] cands@[j]).size_truncated,
        decreases cands@.len() - i,
    {
        if cands[i].size_truncated {
            proof {
                assert(models(cands@)[i as int].size_truncated);
            }
            return true;
        }
        i = i + 1;
    }
    proof {
        assert forall|j: int| 0 <= j < cands@.len() implies !(#[trigger] models(
            cands@,
        )[j]).size_truncated by {
            assert(!cands@[j].size_truncated);
        }
    }
    false
}

/// The summed size of a group.
pub fn total_size(cands: &[Candidate]) -> (s: String)
    ensures
        s@ == total_text(models(cands@)),
{
    let mut bytes: Vec<u64> = Vec::new();
    let mut i: usize = 0;
    while i < cands.len()
        invariant
            i <= cands@.len(),
            bytes@ == sizes(models(cands@)).take(i as int),
        decreases cands@.len() - i,
    {
        bytes.push(cands[i].bytes);
        proof {
            assert(bytes@ =~= sizes(models(cands@)).take(i + 1));
        }
        i = i + 1;
    }
    proof {
        assert(bytes@ =~= sizes(models(cands@)));
    }
    size::human_size(size::sum_bytes(bytes.as_slice()), is_truncated(cands))
}

/// The candidates that were decided for `reason`, in their order.
fn group_of(cands: &[Candidate], reason: Reason) -> (group: Vec<Candidate>)
    ensures
        models(group@) == decided_by(models(cands@), reason),
{
    let mut group: Vec<Candidate> = Vec::new();
    let ghost all = models(cands@);
    let ghost pred = |c: CandidateModel| c.verdict.reason == reason;
    let mut i: usize = 0;
    proof {
        reveal(Seq::filter);
        assert(models(group@) =~= all.take(0).filter(pred));
    }
    while i < cands.len()
        invariant
            i <= cands@.len(),
            all == models(cands@),
            pred == (|c: CandidateModel| c.verdict.reason == reason),
            models(group@) == all.take(i as int).filter(pred),
        decreases cands@.len() - i,
    {
        proof {
            reveal(Seq::filter);
            assert(all.take(i + 1).drop_last() =~= all.take(i as int));
            assert(all.take(i + 1).last() == cands@[i as int]@);
        }
        if cands[i].verdict.reason == reason {
            let copy = copy_of(&cands[i]);
            group.push(copy);
            proof {
                assert(models(group@) =~= all.take(i as int).filter(pred).push(
                    cands@[i as int]@,
                ));
            }
        }
        i = i + 1;
    }
    proof {
        assert(all.take(i as int) =~= all);
    }
    group
}

/// A copy of a candidate.
pub(crate) fn copy_of(c: &Candidate) -> (r: Candidate)
    ensures
        r@ == c@,
{
    Candidate {
        path: c.path.copied(),
        bytes: c.bytes,
        size_truncated: c.size_truncated,
        age: c.age,
        verdict: c.verdict,
    }
}

fn write_reason(out: &mut String, cands: &[Candidate], reason: Reason, reap: bool, max_age: u64)
    ensures
        final(out)@ == old(out)@ + text::unlines(
            reason_lines(models(cands@), reason, reap, max_age),
        ),
{
    let group = group_of(cands, reason);
    if group.len() == 0 {
        proof {
            assert(models(group@).len() == 0);
            assert(out@ =~= old(out)@ + text::unlines(Seq::<Seq<char>>::empty()));
        }
        return;
    }
    proof {
        assert(models(group@).len() == group@.len());
    }
    let mut s = "  ".to_owned();
    s.append(text::left_aligned(reason.label(), 9).as_str());
    s.append(" ");
    let count = text::decimal_text(group.len() as u64);
    s.append(text::right_aligned(count.as_str(), 4).as_str());
    s.append(" dir(s)  ");
    let shown = total_size(group.as_slice());
    s.append(text::right_aligned(shown.as_str(), 9).as_str());
    s.append("  ");
    s.append(reason.note(reap, max_age).as_str());
    text::push_line(out, s.as_str());
}

/// Append the summary by reason.
pub fn write_breakdown(out: &mut String, cands: &[Candidate], reap: bool, max_age: u64)
    ensures
        final(out)@ == old(out)@ + text::unlines(breakdown(models(cands@), reap, max_age)),
{
    let ghost cm = models(cands@);
    let ghost dead = reason_lines(cm, Reason::DeadPid, reap, max_age);
    let ghost live = reason_lines(cm, Reason::LivePid, reap, max_age);
    let ghost aged = reason_lines(cm, Reason::UntaggedAge, reap, max_age);
    write_reason(out, cands, Reason::DeadPid, reap, max_age);
    write_reason(out, cands, Reason::LivePid, reap, max_age);
    write_reason(out, cands, Reason::UntaggedAge, reap, max_age);
    proof {
        text::unlines_append(dead, live);
        text::unlines_append(dead + live, aged);
        assert(out@ =~= old(out)@ + text::unlines(breakdown(cm, reap, max_age)));
    }
}

fn write_listing(out: &mut String, reap: &[Candidate])
    ensures
        final(out)@ == old(out)@ + text::unlines(listing(models(reap@))),
        paths_are_escaped(models(reap@)),
{
    let ghost rm = models(reap@);
    let ghost lines = Seq::new(listed(rm), |i: int| listing_line(rm[i]));
    let mut i: usize = 0;
    proof {
        assert(lines.take(0) =~= Seq::<Seq<char>>::empty());
        assert(out@ =~= old(out)@ + text::unlines(lines.take(0)));
    }
    while i < reap.len() && i < MAX_LISTED
        invariant
            i <= listed(rm),
            rm == models(reap@),
            lines == Seq::new(listed(rm), |i: int| listing_line(rm[i])),
            out@ == old(out)@ + text::unlines(lines.take(i as int)),
            forall|j: int|
                0 <= j < i ==> text::control_free((#[trigger] rm[j].path).shown()),
        decreases reap@.len() - i,
    {
        let line = candidate_line(&reap[i]);
        text::push_line(out, line.as_str());
        proof {
            assert(lines.take(i + 1) =~= lines.take(i as int) + seq![lines[i as int]]);
            text::unlines_append(lines.take(i as int), seq![lines[i as int]]);
            assert(lines[i as int] == line@);
            assert(out@ =~= old(out)@ + text::unlines(lines.take(i + 1)));
        }
        i = i + 1;
    }
    proof {
        assert(i == listed(rm));
        assert(lines.take(i as int) =~= lines);
    }
    if reap.len() > MAX_LISTED {
        let mut s = "  … and ".to_owned();
        s.append(text::decimal_text((reap.len() - MAX_LISTED) as u64).as_str());
        s.append(" more (all counted in the summary below)");
        text::push_line(out, s.as_str());
        proof {
            text::unlines_append(lines, seq![s@]);
            assert(listing(rm) =~= lines + seq![s@]);
            assert(out@ =~= old(out)@ + text::unlines(listing(rm)));
        }
    } else {
        proof {
            assert(listing(rm) =~= lines);
        }
    }
}

fn write_reaped(out: &mut String, temp_root: &str, reap: &[Candidate], max_age: u64)
    ensures
        final(out)@ == old(out)@ + text::unlines(reap_lines(temp_root@, models(reap@), max_age)),
{
    let ghost rm = models(reap@);
    if reap.len() == 0 {
        let mut s = "nothing to reap in ".to_owned();
        s.append(temp_root);
        text::push_line(out, s.as_str());
    } else {
        let mut s = "reap: ".to_owned();
        s.append(text::decimal_text(reap.len() as u64).as_str());
        s.append(" dir(s), ");
        s.append(total_size(reap).as_str());
        s.append(" in ");
        s.append(temp_root);
        text::push_line(out, s.as_str());
        write_breakdown(out, reap, true, max_age);
        proof {
            text::unlines_append(seq![s@], breakdown(rm, true, max_age));
            assert(out@ =~= old(out)@ + text::unlines(reap_lines(temp_root@, rm, max_age)));
        }
    }
}

fn write_kept(out: &mut String, keep: &[Candidate], max_age: u64)
    ensures
        final(out)@ == old(out)@ + text::unlines(keep_lines(models(keep@), max_age)),
{
    let ghost km = models(keep@);
    if keep.len() == 0 {
        proof {
            assert(out@ =~= old(out)@ + text::unlines(Seq::<Seq<char>>::empty()));
        }
    } else {
        let mut s = "keep: ".to_owned();
        s.append(text::decimal_text(keep.len() as u64).as_str());
        s.append(" dir(s), ");
        s.append(total_size(keep).as_str());
        text::push_line(out, s.as_str());
        write_breakdown(out, keep, false, max_age);
        proof {
            text::unlines_append(seq![s@], breakdown(km, false, max_age));
            assert(out@ =~= old(out)@ + text::unlines(keep_lines(km, max_age)));
        }
    }
}

fn write_bound(out: &mut String, reap: &[Candidate], keep: &[Candidate])
    ensures
        final(out)@ == old(out)@ + text::unlines(bound_lines(models(reap@), models(keep@))),
{
    if is_truncated(reap) || is_truncated(keep) {
        let mut s = "  sizes shown with ≥ are lower bounds: the walk stopped at ".to_owned();
        s.append(text::decimal_text(size::MAX_SIZE_WALK_ENTRIES as u64).as_str());
        s.append(" entries or depth ");
        s.append(text::decimal_text(size::MAX_SIZE_WALK_DEPTH as u64).as_str());
        s.append(". Size is reporting only — it never changes a reap/keep decision.");
        text::push_line(out, s.as_str());
    } else {
        proof {
            assert(out@ =~= old(out)@ + text::unlines(Seq::<Seq<char>>::empty()));
        }
    }
}

/// The report on one pass over `temp_root`, with the threshold of the age rule in seconds.
///
/// Every path is shown in escaped form: anyone may create a directory in a shared
/// temporary directory, so a name may hold a line feed or a terminal sequence. No path that is
/// listed shows a control character, whatever `temp_root` is. With a `temp_root` that holds no
/// control character, no line of the report holds one, so no name can add a line to it.
pub fn report(temp_root: &str, reap: &[Candidate], keep: &[Candidate], max_age: u64) -> (s: String)
    ensures
        s@ == text::unlines(report_lines(temp_root@, models(reap@), models(keep@), max_age)),
        paths_are_escaped(models(reap@)),
        text::control_free(temp_root@) ==> all_control_free(
            report_lines(temp_root@, models(reap@), models(keep@), max_age),
        ),
        text::control_free(temp_root@) ==> text::lines(s@) == report_lines(
            temp_root@,
            models(reap@),
            models(keep@),
            max_age,
        ),
{
    let ghost rm = models(reap@);
    let ghost km = models(keep@);
    let mut out = String::new();
    if reap.len() == 0 && keep.len() == 0 {
        let mut s = "nothing to reap in ".to_owned();
        s.append(temp_root);
        s.append(" (no dirs this repo owns)");
        text::push_line(&mut out, s.as_str());
        proof {
            assert(out@ =~= text::unlines(seq![s@]));
            if text::control_free(temp_root@) {
                report_is_control_free(temp_root@, rm, km, max_age);
                printable_lines_read_back(report_lines(temp_root@, rm, km, max_age));
            }
        }
        return out;
    }
    write_listing(&mut out, reap);
    write_reaped(&mut out, temp_root, reap, max_age);
    write_kept(&mut out, keep, max_age);
    write_bound(&mut out, reap, keep);
    proof {
        let a = listing(rm);
        let b = reap_lines(temp_root@, rm, max_age);
        let c = keep_lines(km, max_age);
        let d = bound_lines(rm, km);
        text::unlines_append(a, b);
        text::unlines_append(a + b, c);
        text::unlines_append(a + b + c, d);
        assert(out@ =~= text::unlines(a + b + c + d));
        if text::control_free(temp_root@) {
            report_is_control_free(temp_root@, rm, km, max_age);
            printable_lines_read_back(report_lines(temp_root@, rm, km, max_age));
        }
    }
    out
}

// ---------------------------------------------------------------------------
// Laws
// ---------------------------------------------------------------------------

/// Whether no line holds a control character.
pub open spec fn all_control_free(lines: Seq<Seq<char>>) -> bool {
    forall|i: int| 0 <= i < lines.len() ==> text::control_free(#[trigger] lines[i])
}

proof fn labels_and_notes_are_control_free(reason: Reason, reap: bool, max_age: u64)
    ensures
        text::control_free(label_text(reason)),
        text::control_free(note_text(reason, reap, max_age)),
{
    broadcast use text::printable_pieces;

    size::sizes_and_ages_are_control_free(0, false, max_age);
    reveal_strlit("dead-pid");
    reveal_strlit("live-pid");
    reveal_strlit("untagged");
    reveal_strlit("owning process is gone — reaped at any age");
    reveal_strlit("owning process is still running — never reaped");
    reveal_strlit("no owning PID in the name; ");
    reveal_strlit("older");
    reveal_strlit("younger");
    reveal_strlit(" than ");
}

proof fn total_is_control_free(cands: Seq<CandidateModel>)
    ensures
        text::control_free(total_text(cands)),
{
    size::sizes_and_ages_are_control_free(
        size::capped(size::total(sizes(cands))),
        any_truncated(cands),
        0,
    );
}

proof fn breakdown_is_control_free(cands: Seq<CandidateModel>, reap: bool, max_age: u64)
    ensures
        all_control_free(breakdown(cands, reap, max_age)),
{
    broadcast use text::printable_pieces;

    reveal_strlit("  ");
    reveal_strlit(" ");
    reveal_strlit(" dir(s)  ");
    assert forall|reason: Reason| text::control_free(
        #[trigger] reason_line(cands, reason, reap, max_age),
    ) by {
        labels_and_notes_are_control_free(reason, reap, max_age);
        total_is_control_free(decided_by(cands, reason));
    }
}

proof fn listing_is_control_free(reap: Seq<CandidateModel>)
    requires
        paths_are_escaped(reap),
    ensures
        all_control_free(listing(reap)),
{
    broadcast use text::printable_pieces;

    reveal_strlit("  ");
    reveal_strlit(" ");
    reveal_strlit(" old  ");
    reveal_strlit("  … and ");
    reveal_strlit(" more (all counted in the summary below)");
    assert forall|i: int| 0 <= i < listed(reap) implies text::control_free(
        #[trigger] listing_line(reap[i]),
    ) by {
        let c = reap[i];
        assert(text::control_free(reap[i].path.shown()));
        size::sizes_and_ages_are_control_free(c.bytes, c.size_truncated, c.age);
        labels_and_notes_are_control_free(c.verdict.reason, true, 0);
    }
}

/// Lines without control characters are read back as they were written: none of them breaks.
pub proof fn printable_lines_read_back(lines: Seq<Seq<char>>)
    requires
        all_control_free(lines),
    ensures
        text::lines(text::unlines(lines)) == lines,
{
    assert forall|i: int| 0 <= i < lines.len() implies text::is_line(#[trigger] lines[i]) by {
        let line = lines[i];
        assert(text::control_free(line));
        assert forall|j: int| 0 <= j < line.len() implies #[trigger] line[j] != '\n' by {
            assert(!text::is_control(line[j]));
        }
        if line.len() > 0 {
            assert(!text::is_control(line[line.len() - 1]));
        }
    }
    text::written_lines_read_back(lines);
}

/// Two runs of lines without control characters make one without.
pub proof fn all_control_free_append(a: Seq<Seq<char>>, b: Seq<Seq<char>>)
    requires
        all_control_free(a),
        all_control_free(b),
    ensures
        all_control_free(a + b),
{
    assert forall|i: int| 0 <= i < (a + b).len() implies text::control_free(
        #[trigger] (a + b)[i],
    ) by {
        if i < a.len() {
            assert((a + b)[i] == a[i]);
        } else {
            assert((a + b)[i] == b[i - a.len()]);
        }
    }
}

proof fn reaped_is_control_free(root: Seq<char>, reap: Seq<CandidateModel>, max_age: u64)
    requires
        text::control_free(root),
    ensures
        all_control_free(reap_lines(root, reap, max_age)),
{
    broadcast use text::printable_pieces;

    reveal_strlit("nothing to reap in ");
    reveal_strlit("reap: ");
    reveal_strlit(" dir(s), ");
    reveal_strlit(" in ");
    total_is_control_free(reap);
    breakdown_is_control_free(reap, true, max_age);
    let head = "reap: "@ + text::decimal(reap.len()) + " dir(s), "@ + total_text(reap) + " in "@
        + root;
    assert(text::control_free(head));
    all_control_free_append(seq![head], breakdown(reap, true, max_age));
}

proof fn kept_is_control_free(keep: Seq<CandidateModel>, max_age: u64)
    ensures
        all_control_free(keep_lines(keep, max_age)),
{
    broadcast use text::printable_pieces;

    reveal_strlit("keep: ");
    reveal_strlit(" dir(s), ");
    total_is_control_free(keep);
    breakdown_is_control_free(keep, false, max_age);
    let head = "keep: "@ + text::decimal(keep.len()) + " dir(s), "@ + total_text(keep);
    assert(text::control_free(head));
    all_control_free_append(seq![head], breakdown(keep, false, max_age));
}

proof fn bound_is_control_free(reap: Seq<CandidateModel>, keep: Seq<CandidateModel>)
    ensures
        all_control_free(bound_lines(reap, keep)),
{
    broadcast use text::printable_pieces;

    reveal_strlit("  sizes shown with ≥ are lower bounds: the walk stopped at ");
    reveal_strlit(" entries or depth ");
    reveal_strlit(". Size is reporting only — it never changes a reap/keep decision.");
}

/// No name of a directory can put a control character into the report, a line feed that
/// would forge a line of it included.
pub proof fn report_is_control_free(
    root: Seq<char>,
    reap: Seq<CandidateModel>,
    keep: Seq<CandidateModel>,
    max_age: u64,
)
    requires
        text::control_free(root),
        paths_are_escaped(reap),
    ensures
        all_control_free(report_lines(root, reap, keep, max_age)),
{
    listing_is_control_free(reap);
    reaped_is_control_free(root, reap, max_age);
    kept_is_control_free(keep, max_age);
    bound_is_control_free(reap, keep);
    let a = listing(reap);
    let b = reap_lines(root, reap, max_age);
    let c = keep_lines(keep, max_age);
    let d = bound_lines(reap, keep);
    all_control_free_append(a, b);
    all_control_free_append(a + b, c);
    all_control_free_append(a + b + c, d);
    assert(text::control_free("nothing to reap in "@ + root + " (no dirs this repo owns)"@)) by {
        broadcast use text::printable_pieces;

        reveal_strlit("nothing to reap in ");
        reveal_strlit(" (no dirs this repo owns)");
    }
}

/// Every decision is attributed: whatever was reaped or kept, the report holds the line of
/// the reason that decided it.
pub proof fn every_decision_is_attributed(
    root: Seq<char>,
    reap: Seq<CandidateModel>,
    keep: Seq<CandidateModel>,
    max_age: u64,
    i: int,
)
    ensures
        0 <= i < reap.len() ==> report_lines(root, reap, keep, max_age).contains(
            reason_line(reap, reap[i].verdict.reason, true, max_age),
        ),
        0 <= i < keep.len() ==> report_lines(root, reap, keep, max_age).contains(
            reason_line(keep, keep[i].verdict.reason, false, max_age),
        ),
{
    let all = report_lines(root, reap, keep, max_age);
    let a = listing(reap);
    let b = reap_lines(root, reap, max_age);
    let c = keep_lines(keep, max_age);
    if 0 <= i < reap.len() {
        let line = reason_line(reap, reap[i].verdict.reason, true, max_age);
        breakdown_holds(reap, true, max_age, i);
        let k = choose|k: int|
            0 <= k < breakdown(reap, true, max_age).len() && breakdown(reap, true, max_age)[k]
                == line;
        assert(b[k + 1] == line);
        assert(all[a.len() + k + 1] == line);
    }
    if 0 <= i < keep.len() {
        let line = reason_line(keep, keep[i].verdict.reason, false, max_age);
        breakdown_holds(keep, false, max_age, i);
        let k = choose|k: int|
            0 <= k < breakdown(keep, false, max_age).len() && breakdown(keep, false, max_age)[k]
                == line;
        assert(c[k + 1] == line);
        assert(all[a.len() + b.len() + k + 1] == line);
    }
}

proof fn breakdown_holds(cands: Seq<CandidateModel>, reap: bool, max_age: u64, i: int)
    requires
        0 <= i < cands.len(),
    ensures
        breakdown(cands, reap, max_age).contains(
            reason_line(cands, cands[i].verdict.reason, reap, max_age),
        ),
{
    let reason = cands[i].verdict.reason;
    let pred = |c: CandidateModel| c.verdict.reason == reason;
    cands.lemma_filter_contains(pred, i);
    assert(decided_by(cands, reason).len() > 0);
    let a = reason_lines(cands, Reason::DeadPid, reap, max_age);
    let b = reason_lines(cands, Reason::LivePid, reap, max_age);
    let line = reason_line(cands, reason, reap, max_age);
    let all = breakdown(cands, reap, max_age);
    match reason {
        Reason::DeadPid => assert(all[0] == line),
        Reason::LivePid => assert(all[a.len() as int] == line),
        Reason::UntaggedAge => assert(all[(a.len() + b.len()) as int] == line),
    }
}

/// Each directory that is listed has a line with its size, the reason, its age and its path, the
/// path last. The first of them are listed in order; where there are more, the last line says
/// how many.
pub proof fn a_listed_directory_is_shown_with_its_path(reap: Seq<CandidateModel>, i: int)
    requires
        0 <= i < reap.len(),
        i < MAX_LISTED,
    ensures
        ({
            let c = reap[i];
            let line = listing(reap)[i];
            let label = match c.verdict.reason {
                Reason::DeadPid => "dead-pid"@,
                Reason::LivePid => "live-pid"@,
                Reason::UntaggedAge => "untagged"@,
            };
            &&& line == "  "@ + text::pad_left(size::size_text(c.bytes, c.size_truncated), 9)
                + "  "@ + text::pad_right(label, 9) + " "@ + text::pad_left(
                size::duration_text(c.age),
                4,
            ) + " old  "@ + c.path.shown()
            &&& reap.len() <= MAX_LISTED ==> listing(reap).len() == reap.len()
            &&& reap.len() > MAX_LISTED ==> listing(reap).len() == MAX_LISTED + 1 && listing(
                reap,
            ).last() == "  … and "@ + text::decimal((reap.len() - MAX_LISTED) as nat)
                + " more (all counted in the summary below)"@
        }),
{
}

/// The summary of what goes and of what stays begins with how many directories it is about and
/// how large they are together, a lower bound where one of them is; and every directory is
/// counted in it under exactly one reason.
pub proof fn a_summary_counts_every_directory(
    root: Seq<char>,
    cands: Seq<CandidateModel>,
    max_age: u64,
)
    requires
        cands.len() > 0,
    ensures
        ({
            let size = size::size_text(
                size::capped(size::total(cands.map_values(|c: CandidateModel| c.bytes))),
                exists|i: int| 0 <= i < cands.len() && (#[trigger] cands[i]).size_truncated,
            );
            &&& reap_lines(root, cands, max_age)[0] == "reap: "@ + text::decimal(cands.len())
                + " dir(s), "@ + size + " in "@ + root
            &&& keep_lines(cands, max_age)[0] == "keep: "@ + text::decimal(cands.len())
                + " dir(s), "@ + size
            &&& reap_lines(root, cands, max_age).skip(1) == breakdown(cands, true, max_age)
            &&& keep_lines(cands, max_age).skip(1) == breakdown(cands, false, max_age)
            &&& decided_by(cands, Reason::DeadPid).len() + decided_by(cands, Reason::LivePid).len()
                + decided_by(cands, Reason::UntaggedAge).len() == cands.len()
        }),
{
    groups_add_up(cands);
    assert(reap_lines(root, cands, max_age).skip(1) =~= breakdown(cands, true, max_age));
    assert(keep_lines(cands, max_age).skip(1) =~= breakdown(cands, false, max_age));
}

proof fn groups_add_up(cands: Seq<CandidateModel>)
    ensures
        decided_by(cands, Reason::DeadPid).len() + decided_by(cands, Reason::LivePid).len()
            + decided_by(cands, Reason::UntaggedAge).len() == cands.len(),
    decreases cands.len(),
{
    reveal(Seq::filter);
    if cands.len() > 0 {
        groups_add_up(cands.drop_last());
    }
}

/// A group holds the directories that were decided for its reason and no other, in order: those
/// of two lists are those of the one, then those of the other.
pub proof fn a_group_holds_what_its_reason_decided(
    a: Seq<CandidateModel>,
    b: Seq<CandidateModel>,
    c: CandidateModel,
    reason: Reason,
)
    ensures
        decided_by(a + b, reason) == decided_by(a, reason) + decided_by(b, reason),
        c.verdict.reason == reason ==> decided_by(seq![c], reason) == seq![c],
        c.verdict.reason != reason ==> decided_by(seq![c], reason).len() == 0,
{
    reveal(Seq::filter);
    let pred = |x: CandidateModel| x.verdict.reason == reason;
    Seq::filter_distributes_over_add(a, b, pred);
    assert(seq![c].drop_last() =~= Seq::<CandidateModel>::empty());
    assert(decided_by(seq![c].drop_last(), reason).len() == 0);
    if c.verdict.reason == reason {
        assert(decided_by(seq![c], reason) =~= seq![c]);
    } else {
        assert(decided_by(seq![c], reason).len() == 0);
    }
}

/// The line of a reason says how many directories it decided, how large they are, and why: the
/// age rule names its threshold and the side of it, and the other two say that age did not
/// count. There is no line for a reason that decided nothing.
pub proof fn a_reason_is_summed_up(
    cands: Seq<CandidateModel>,
    reason: Reason,
    reap: bool,
    max_age: u64,
)
    ensures
        ({
            let group = decided_by(cands, reason);
            let (label, why) = match reason {
                Reason::DeadPid => ("dead-pid"@, "owning process is gone — reaped at any age"@),
                Reason::LivePid => ("live-pid"@, "owning process is still running — never reaped"@),
                Reason::UntaggedAge => (
                    "untagged"@,
                    "no owning PID in the name; "@ + (if reap {
                        "older"@
                    } else {
                        "younger"@
                    }) + " than "@ + size::duration_text(max_age),
                ),
            };
            let line = "  "@ + text::pad_right(label, 9) + " "@ + text::pad_left(
                text::decimal(group.len()),
                4,
            ) + " dir(s)  "@ + text::pad_left(total_text(group), 9) + "  "@ + why;
            &&& group.len() > 0 ==> reason_lines(cands, reason, reap, max_age) == seq![line]
            &&& group.len() == 0 ==> reason_lines(cands, reason, reap, max_age).len() == 0
        }),
{
}

/// The report lists what goes, sums it up, sums up what stays, and explains the mark on a lower
/// bound where one was shown. Where nothing was found, it says only that.
pub proof fn the_report_has_its_parts_in_order(
    root: Seq<char>,
    reap: Seq<CandidateModel>,
    keep: Seq<CandidateModel>,
    max_age: u64,
)
    ensures
        ({
            let lines = report_lines(root, reap, keep, max_age);
            let bound = bound_lines(reap, keep);
            &&& reap.len() == 0 && keep.len() == 0 ==> lines == seq![
                "nothing to reap in "@ + root + " (no dirs this repo owns)"@,
            ]
            &&& reap.len() > 0 || keep.len() > 0 ==> lines == listing(reap) + reap_lines(
                root,
                reap,
                max_age,
            ) + keep_lines(keep, max_age) + bound
            &&& reap.len() == 0 ==> reap_lines(root, reap, max_age) == seq![
                "nothing to reap in "@ + root,
            ]
            &&& keep.len() == 0 ==> keep_lines(keep, max_age).len() == 0
            &&& bound.len() > 0 <==> (exists|i: int|
                0 <= i < reap.len() && (#[trigger] reap[i]).size_truncated) || (exists|i: int|
                0 <= i < keep.len() && (#[trigger] keep[i]).size_truncated)
            &&& bound.len() > 0 ==> bound == seq![
                "  sizes shown with ≥ are lower bounds: the walk stopped at "@ + text::decimal(
                    50_000,
                ) + " entries or depth "@ + text::decimal(64)
                    + ". Size is reporting only — it never changes a reap/keep decision."@,
            ]
        }),
{
}

} // verus!
